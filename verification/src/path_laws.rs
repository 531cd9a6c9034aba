//! What holds of paths and keys that are well formed: the text of a path
//! gives its components back, and an index key gives back the two paths it
//! was made of.

use vstd::prelude::*;
use crate::keys::{depth, index_key, key_separator, parse_index_key};
use crate::model::{path_separator, path_text};
use crate::path::{
    drop_empty,
    file_prefix,
    is_identifier,
    is_identifier_char,
    normalize_char,
    normalize_separators,
    strip_extension,
};
use crate::text::{
    drop_whitespace,
    find_from,
    is_whitespace,
    matches_at,
    skip_whitespace,
    split,
    split_from,
    trim,
};

verus! {

/// Whether a text holds no white space.
pub open spec fn no_whitespace(s: Seq<char>) -> bool {
    forall|i: int| 0 <= i < s.len() ==> !is_whitespace(#[trigger] s[i])
}

/// Whether a text can be a component of a path: it is not empty and holds
/// neither a colon nor white space.
pub open spec fn is_component(c: Seq<char>) -> bool {
    c.len() > 0 && forall|i: int| 0 <= i < c.len() ==> #[trigger] c[i] != ':' && !is_whitespace(c[i])
}

/// Whether the components make a path: there is one at least, and each
/// can be a component.
pub open spec fn is_path(parts: Seq<Seq<char>>) -> bool {
    parts.len() > 0 && forall|i: int| 0 <= i < parts.len() ==> is_component(#[trigger] parts[i])
}

/// A pattern that stands at a place before which its first character
/// does not occur is found there.
pub proof fn lemma_find_first(s: Seq<char>, pat: Seq<char>, from: int, at: int)
    requires
        pat.len() > 0,
        0 <= from <= at,
        matches_at(s, pat, at),
        forall|i: int| from <= i < at ==> #[trigger] s[i] != pat[0],
    ensures
        find_from(s, pat, from) == Some(at),
    decreases at - from,
{
    if from < at {
        assert(!matches_at(s, pat, from)) by {
            if matches_at(s, pat, from) {
                assert(s.subrange(from, from + pat.len())[0] == pat[0]);
            }
        }
        lemma_find_first(s, pat, from + 1, at);
    }
}

/// A pattern whose first character does not occur from a place on is not
/// found from there on.
pub proof fn lemma_find_none(s: Seq<char>, pat: Seq<char>, from: int)
    requires
        pat.len() > 0,
        0 <= from,
        forall|i: int| from <= i < s.len() ==> #[trigger] s[i] != pat[0],
    ensures
        find_from(s, pat, from) is None,
    decreases s.len() + 1 - from,
{
    if from + pat.len() <= s.len() {
        assert(!matches_at(s, pat, from)) by {
            if matches_at(s, pat, from) {
                assert(s.subrange(from, from + pat.len())[0] == pat[0]);
            }
        }
        lemma_find_none(s, pat, from + 1);
    }
}

/// Searching behind a front piece is searching in the rest.
pub proof fn lemma_find_shift(front: Seq<char>, rest: Seq<char>, pat: Seq<char>, from: int)
    requires
        0 <= from,
    ensures
        find_from(front + rest, pat, front.len() + from) == match find_from(rest, pat, from) {
            Some(at) => Some(front.len() + at),
            None => None,
        },
    decreases rest.len() + 1 - from,
{
    let s = front + rest;
    let n = front.len() as int;
    if from + pat.len() <= rest.len() {
        assert(s.subrange(n + from, n + from + pat.len()) =~= rest.subrange(
            from,
            from + pat.len(),
        ));
        if !matches_at(rest, pat, from) {
            lemma_find_shift(front, rest, pat, from + 1);
        }
    }
}

/// Splitting behind a front piece is splitting the rest.
pub proof fn lemma_split_shift(front: Seq<char>, rest: Seq<char>, pat: Seq<char>, from: int)
    requires
        0 <= from <= rest.len(),
    ensures
        split_from(front + rest, pat, front.len() + from) == split_from(rest, pat, from),
    decreases rest.len() + 1 - from,
{
    let s = front + rest;
    let n = front.len() as int;
    lemma_find_shift(front, rest, pat, from);
    crate::text::lemma_find_bounds(rest, pat, from);
    match find_from(rest, pat, from) {
        Some(at) => {
            if pat.len() > 0 && from <= at && at + pat.len() <= rest.len() {
                lemma_split_shift(front, rest, pat, at + pat.len());
                assert(s.subrange(n + from, n + at) =~= rest.subrange(from, at));
            } else {
                assert(s.subrange(n + from, s.len() as int) =~= rest.subrange(
                    from,
                    rest.len() as int,
                ));
            }
        },
        None => {
            assert(s.subrange(n + from, s.len() as int) =~= rest.subrange(
                from,
                rest.len() as int,
            ));
        },
    }
}

/// A text without the pattern's first character is one piece.
pub proof fn lemma_split_one(s: Seq<char>, pat: Seq<char>)
    requires
        pat.len() > 0,
        forall|i: int| 0 <= i < s.len() ==> #[trigger] s[i] != pat[0],
    ensures
        split(s, pat) == seq![s],
{
    lemma_find_none(s, pat, 0);
    assert(s.subrange(0, s.len() as int) =~= s);
}

/// Two texts with the pattern between them, the first without the
/// pattern's first character, split into the first and the pieces of the
/// second.
pub proof fn lemma_split_two(first: Seq<char>, pat: Seq<char>, second: Seq<char>)
    requires
        pat.len() > 0,
        forall|i: int| 0 <= i < first.len() ==> #[trigger] first[i] != pat[0],
    ensures
        split(first + pat + second, pat) == seq![first] + split(second, pat),
{
    let s = first + pat + second;
    let n = first.len() as int;
    assert(s.subrange(n, n + pat.len()) =~= pat);
    assert forall|i: int| 0 <= i < n implies #[trigger] s[i] != pat[0] by {
        assert(s[i] == first[i]);
    }
    lemma_find_first(s, pat, 0, n);
    lemma_split_shift(first + pat, second, pat, 0);
    assert(s.subrange(0, n) =~= first);
}

/// The text of a path holds no white space, and a colon only in its
/// separators.
pub proof fn lemma_path_text_plain(parts: Seq<Seq<char>>)
    requires
        forall|i: int| 0 <= i < parts.len() ==> no_whitespace(#[trigger] parts[i]),
    ensures
        no_whitespace(path_text(parts)),
    decreases parts.len(),
{
    if parts.len() > 1 {
        let rest = parts.drop_first();
        assert forall|i: int| 0 <= i < rest.len() implies no_whitespace(#[trigger] rest[i]) by {
            assert(rest[i] == parts[i + 1]);
        }
        lemma_path_text_plain(rest);
        let text = path_text(parts);
        let first = parts[0];
        assert(text == first + path_separator() + path_text(rest));
        assert forall|i: int| 0 <= i < text.len() implies !is_whitespace(#[trigger] text[i]) by {
            if i < first.len() {
                assert(text[i] == first[i]);
            } else if i < first.len() + 2 {
                assert(text[i] == ':');
            } else {
                assert(text[i] == path_text(rest)[i - first.len() - 2]);
            }
        }
    } else if parts.len() == 1 {
        assert(path_text(parts) == parts[0]);
    }
}

/// The text of a path gives its components back.
pub proof fn lemma_split_path_text(parts: Seq<Seq<char>>)
    requires
        is_path(parts),
    ensures
        split(path_text(parts), path_separator()) == parts,
        depth(path_text(parts)) == parts.len() - 1,
        path_text(parts).len() > 0,
    decreases parts.len(),
{
    let sep = path_separator();
    if parts.len() == 1 {
        assert(is_component(parts[0]));
        lemma_split_one(parts[0], sep);
        assert(seq![parts[0]] =~= parts);
    } else {
        let rest = parts.drop_first();
        assert(is_component(parts[0]));
        assert forall|i: int| 0 <= i < rest.len() implies is_component(#[trigger] rest[i]) by {
            assert(rest[i] == parts[i + 1]);
        }
        lemma_split_path_text(rest);
        lemma_split_two(parts[0], sep, path_text(rest));
        assert(seq![parts[0]] + rest =~= parts);
    }
}

/// Two paths with one text are one path.
pub proof fn lemma_path_text_injective(first: Seq<Seq<char>>, second: Seq<Seq<char>>)
    requires
        is_path(first),
        is_path(second),
        path_text(first) == path_text(second),
    ensures
        first == second,
{
    lemma_split_path_text(first);
    lemma_split_path_text(second);
}

/// A text without white space at its ends is its own trimmed form.
pub proof fn lemma_trim_plain(s: Seq<char>)
    requires
        no_whitespace(s),
    ensures
        trim(s) == s,
{
    if s.len() > 0 {
        assert(!is_whitespace(s[0]));
        assert(!is_whitespace(s[s.len() - 1]));
        assert(skip_whitespace(s, 0) == 0);
        assert(drop_whitespace(s, s.len() as int) == s.len());
        assert(s.subrange(0, s.len() as int) =~= s);
    } else {
        assert(trim(s) =~= s);
    }
}

/// An index key made of texts without white space gives back the full
/// path it leads to, and does so from its own left side only.
pub proof fn lemma_parse_index_key(
    family: Seq<char>,
    short: Seq<char>,
    full: Seq<char>,
    left: Seq<char>,
)
    requires
        no_whitespace(family),
        no_whitespace(short),
        no_whitespace(full),
    ensures
        split(index_key(family, short, full), key_separator()) == seq![family + short, full],
        parse_index_key(index_key(family, short, full), left) == if left == family + short {
            Some(full)
        } else {
            None
        },
{
    let sep = key_separator();
    let first = family + short;
    assert(is_whitespace(sep[0]));
    assert forall|i: int| 0 <= i < first.len() implies #[trigger] first[i] != sep[0] by {
        if i < family.len() {
            assert(first[i] == family[i]);
        } else {
            assert(first[i] == short[i - family.len()]);
        }
    }
    lemma_split_two(first, sep, full);
    lemma_split_one(full, sep);
    assert(index_key(family, short, full) =~= first + sep + full);
    assert(seq![first] + seq![full] =~= seq![first, full]);
    lemma_trim_plain(full);
}

/// What may stand in an identifier may stand in a component.
pub proof fn lemma_identifier_is_component(c: Seq<char>)
    requires
        is_identifier(c),
    ensures
        is_component(c),
{
    assert forall|i: int| 0 <= i < c.len() implies #[trigger] c[i] != ':' && !is_whitespace(
        c[i],
    ) by {
        assert(is_identifier_char(c[i]));
    }
}


/// Each piece that is kept where the empty ones are dropped is not empty.
pub proof fn lemma_drop_empty(pieces: Seq<Seq<char>>)
    ensures
        forall|i: int| 0 <= i < drop_empty(pieces).len() ==> (#[trigger] drop_empty(pieces)[i]).len() > 0,
    decreases pieces.len(),
{
    if pieces.len() > 0 {
        let front = drop_empty(pieces.drop_last());
        let kept = drop_empty(pieces);
        lemma_drop_empty(pieces.drop_last());
        assert forall|i: int| 0 <= i < kept.len() implies (#[trigger] kept[i]).len() > 0 by {
            if i < front.len() {
                assert(kept[i] == front[i]);
            }
        }
    }
}

/// Each component that the path of a file gives is an identifier, and so
/// can be a component of a path.
pub proof fn law_file_prefix_is_made_of_components(cpath: Seq<char>, at: int)
    requires
        0 <= at < file_prefix(cpath).len(),
    ensures
        is_identifier(file_prefix(cpath)[at]),
        is_component(file_prefix(cpath)[at]),
{
    let cut = split(strip_extension(normalize_separators(cpath)), seq!['/']);
    let pieces = drop_empty(cut);
    lemma_drop_empty(cut);
    let component = file_prefix(cpath)[at];
    assert(file_prefix(cpath).len() == pieces.len());
    assert((#[trigger] pieces[at]).len() > 0);
    assert forall|i: int| 0 <= i < component.len() implies is_identifier_char(
        #[trigger] component[i],
    ) by {
        assert(component[i] == normalize_char(pieces[at][i]));
    }
    lemma_identifier_is_component(component);
}

} // verus!
