//! From the path of a file to the components that lead the path of every
//! symbol in that file.
//!
//! Backslashes count as slashes. The extension of the file's name goes: what
//! follows the last dot of the name, unless that dot is the name's first
//! character. The path is cut at its slashes, and the empty pieces are
//! dropped. In each piece every character that is not a letter or digit of
//! ASCII or an underscore becomes an underscore.

use vstd::prelude::*;
use crate::model::path_text;
use crate::text::{chars_of, rows, slice_of, split, split_chars, string_of_chars, texts};

verus! {

/// The character with a backslash made a slash.
pub open spec fn normalize_separator(c: char) -> char {
    if c == '\\' {
        '/'
    } else {
        c
    }
}

/// The path with every backslash made a slash.
pub open spec fn normalize_separators(path: Seq<char>) -> Seq<char> {
    path.map_values(|c: char| normalize_separator(c))
}

/// The last place before `end` where `c` stands in `s`, or -1.
pub open spec fn last_index_of(s: Seq<char>, c: char, end: int) -> int
    decreases end,
{
    if end <= 0 || end > s.len() {
        -1
    } else if s[end - 1] == c {
        end - 1
    } else {
        last_index_of(s, c, end - 1)
    }
}

/// Where the extension of the file's name begins, its dot counted in: the
/// last dot after the last slash, unless it follows the slash at once or
/// opens the path; the length of the path where there is none.
pub open spec fn extension_start(path: Seq<char>) -> int {
    let dot = last_index_of(path, '.', path.len() as int);
    let slash = last_index_of(path, '/', path.len() as int);
    if dot > slash + 1 {
        dot
    } else {
        path.len() as int
    }
}

/// The path without the extension of the file's name.
pub open spec fn strip_extension(path: Seq<char>) -> Seq<char> {
    path.take(extension_start(path))
}

/// The letters and digits of ASCII, and the underscore.
pub open spec fn is_identifier_char(c: char) -> bool {
    ('a' <= c && c <= 'z') || ('A' <= c && c <= 'Z') || ('0' <= c && c <= '9') || c == '_'
}

/// The character, or an underscore in place of one that no identifier
/// may hold.
pub open spec fn normalize_char(c: char) -> char {
    if is_identifier_char(c) {
        c
    } else {
        '_'
    }
}

/// The component with an underscore in place of each character that no
/// identifier may hold.
pub open spec fn normalize_component(component: Seq<char>) -> Seq<char> {
    component.map_values(|c: char| normalize_char(c))
}

/// The path with each component normalized.
pub open spec fn normalize_path(components: Seq<Seq<char>>) -> Seq<Seq<char>> {
    components.map_values(|component: Seq<char>| normalize_component(component))
}

/// The pieces that are not empty, in their order.
pub open spec fn drop_empty(pieces: Seq<Seq<char>>) -> Seq<Seq<char>>
    decreases pieces.len(),
{
    if pieces.len() == 0 {
        Seq::empty()
    } else if pieces.last().len() == 0 {
        drop_empty(pieces.drop_last())
    } else {
        drop_empty(pieces.drop_last()).push(pieces.last())
    }
}

/// The components that the path of a file gives to the symbols in it.
pub open spec fn file_prefix(cpath: Seq<char>) -> Seq<Seq<char>> {
    normalize_path(drop_empty(split(strip_extension(normalize_separators(cpath)), seq!['/'])))
}

/// Whether a component is one that a path may hold: it is not empty and
/// made of letters and digits of ASCII and underscores.
pub open spec fn is_identifier(component: Seq<char>) -> bool {
    component.len() > 0 && forall|i: int|
        0 <= i < component.len() ==> is_identifier_char(#[trigger] component[i])
}

/// Tests a character for a letter or digit of ASCII or an underscore.
pub fn identifier_char(c: char) -> (fits: bool)
    ensures
        fits == is_identifier_char(c),
{
    ('a' <= c && c <= 'z') || ('A' <= c && c <= 'Z') || ('0' <= c && c <= '9') || c == '_'
}

/// Finds the last place before `end` where `c` stands in `s`.
pub fn last_place_of(s: &Vec<char>, c: char) -> (place: Option<usize>)
    ensures
        match place {
            Some(at) => last_index_of(s@, c, s@.len() as int) == at && at < s.len(),
            None => last_index_of(s@, c, s@.len() as int) == -1,
        },
{
    let mut end: usize = s.len();
    while end > 0
        invariant
            end <= s.len(),
            last_index_of(s@, c, s@.len() as int) == last_index_of(s@, c, end as int),
        decreases end,
    {
        if s[end - 1] == c {
            return Some(end - 1);
        }
        end -= 1;
    }
    None
}

/// Puts an underscore in place of each character that no identifier may
/// hold.
pub fn normalize_chars(component: &Vec<char>) -> (out: Vec<char>)
    ensures
        out@ == normalize_component(component@),
{
    let mut out: Vec<char> = Vec::new();
    let mut i: usize = 0;
    while i < component.len()
        invariant
            i <= component.len(),
            out@ == normalize_component(component@).take(i as int),
        decreases component.len() - i,
    {
        let c = component[i];
        if identifier_char(c) {
            out.push(c);
        } else {
            out.push('_');
        }
        i += 1;
        proof {
            assert(out@ =~= normalize_component(component@).take(i as int));
        }
    }
    proof {
        assert(normalize_component(component@).take(component.len() as int)
            =~= normalize_component(component@));
    }
    out
}

/// Normalizes each component of a path that a parser gave.
pub fn normalize_parsed_path(components: &Vec<String>) -> (out: Vec<String>)
    ensures
        texts(out@) == normalize_path(texts(components@)),
{
    let mut out: Vec<String> = Vec::new();
    let mut i: usize = 0;
    while i < components.len()
        invariant
            i <= components.len(),
            texts(out@) == normalize_path(texts(components@)).take(i as int),
        decreases components.len() - i,
    {
        let chars = chars_of(components[i].as_str());
        let normal = normalize_chars(&chars);
        let ghost so_far = texts(out@);
        out.push(string_of_chars(&normal));
        i += 1;
        proof {
            assert(texts(out@) =~= so_far.push(normal@));
            assert(texts(out@) =~= normalize_path(texts(components@)).take(i as int));
        }
    }
    proof {
        assert(normalize_path(texts(components@)).take(components.len() as int)
            =~= normalize_path(texts(components@)));
    }
    out
}

/// The components that the path of a file gives to the symbols in it.
pub fn filesystem_path_to_double_colon_path(cpath: &str) -> (prefix: Vec<String>)
    ensures
        texts(prefix@) == file_prefix(cpath@),
        forall|i: int| 0 <= i < prefix.len() ==> is_identifier(#[trigger] texts(prefix@)[i]),
{
    let given = chars_of(cpath);
    let mut normal: Vec<char> = Vec::new();
    let mut i: usize = 0;
    while i < given.len()
        invariant
            i <= given.len(),
            normal@ == normalize_separators(given@).take(i as int),
        decreases given.len() - i,
    {
        let c = given[i];
        if c == '\\' {
            normal.push('/');
        } else {
            normal.push(c);
        }
        i += 1;
        proof {
            assert(normal@ =~= normalize_separators(given@).take(i as int));
        }
    }
    proof {
        assert(normalize_separators(given@).take(given.len() as int) =~= normalize_separators(
            given@,
        ));
    }
    let dot = last_place_of(&normal, '.');
    let slash = last_place_of(&normal, '/');
    let keep: usize = match dot {
        Some(d) => match slash {
            Some(s) => if d > s + 1 {
                d
            } else {
                normal.len()
            },
            None => if d > 0 {
                d
            } else {
                normal.len()
            },
        },
        None => normal.len(),
    };
    let stem = slice_of(&normal, 0, keep);
    proof {
        assert(stem@ =~= strip_extension(normal@));
    }
    let mut slash_pattern: Vec<char> = Vec::new();
    slash_pattern.push('/');
    proof {
        assert(slash_pattern@ =~= seq!['/']);
    }
    let pieces = split_chars(&stem, &slash_pattern);
    let mut prefix: Vec<String> = Vec::new();
    let mut k: usize = 0;
    while k < pieces.len()
        invariant
            k <= pieces.len(),
            texts(prefix@) == normalize_path(drop_empty(rows(pieces@).take(k as int))),
            forall|i: int| 0 <= i < prefix.len() ==> is_identifier(#[trigger] texts(prefix@)[i]),
        decreases pieces.len() - k,
    {
        proof {
            assert(rows(pieces@).take(k + 1).drop_last() =~= rows(pieces@).take(k as int));
            assert(rows(pieces@).take(k + 1).last() == pieces@[k as int]@);
        }
        if pieces[k].len() > 0 {
            let component = normalize_chars(&pieces[k]);
            let ghost so_far = texts(prefix@);
            prefix.push(string_of_chars(&component));
            proof {
                assert(texts(prefix@) =~= so_far.push(component@));
                assert(texts(prefix@) =~= normalize_path(drop_empty(rows(pieces@).take(k + 1))));
                assert(is_identifier(component@));
            }
        }
        k += 1;
    }
    proof {
        assert(rows(pieces@).take(pieces.len() as int) =~= rows(pieces@));
    }
    prefix
}

/// The text that the paths of the symbols in a file begin with.
pub open spec fn file_prefix_text(cpath: Seq<char>) -> Seq<char> {
    path_text(file_prefix(cpath))
}

} // verus!
