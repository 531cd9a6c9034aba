//! The key schema: under which keys a definition is kept, and how a key
//! that comes back from the store is read.
//!
//! Three families share the store. `d/<path>` holds a definition's record.
//! `c/<short> ⚡ <path>` says that `<short>` is the text of a suffix of the
//! components of `<path>`. `u/<short> ⚡ <path>` says that the definition at
//! `<path>` uses a symbol of which `<short>` is a suffix. The mark between
//! the two paths is a blank, U+26A1 and a blank.

use vstd::prelude::*;
use vstd::string::StringExecFns;
use crate::model::{AltDefinition, AltDefinitionView, Usage, UsageView, path_separator, path_text};
use crate::store::{IndexWrite, write_views};
use crate::text::{
    chars_of,
    join_strings,
    rows,
    same_chars,
    split,
    split_chars,
    split_from,
    string_of_chars,
    texts,
    trim,
    trim_chars,
};

verus! {

/// The mark between the short path and the full path of a key.
pub open spec fn key_separator() -> Seq<char> {
    seq![' ', '\u{26a1}', ' ']
}

/// What the keys of definition records begin with.
pub open spec fn d_family() -> Seq<char> {
    seq!['d', '/']
}

/// What the keys of the suffix index begin with.
pub open spec fn c_family() -> Seq<char> {
    seq!['c', '/']
}

/// What the keys of the usage index begin with.
pub open spec fn u_family() -> Seq<char> {
    seq!['u', '/']
}

/// The value under every key of the two indexes.
pub open spec fn marker() -> Seq<u8> {
    seq![0x68u8, 0x75u8, 0x75u8]
}

/// The key of the record of the definition at `path`.
pub open spec fn d_key(path: Seq<char>) -> Seq<char> {
    d_family() + path
}

/// The key of an index family that leads from `short` to `full`.
pub open spec fn index_key(family: Seq<char>, short: Seq<char>, full: Seq<char>) -> Seq<char> {
    family + short + key_separator() + full
}

/// The key that leads from the short path of a definition to its full
/// path.
pub open spec fn c_key(short: Seq<char>, full: Seq<char>) -> Seq<char> {
    index_key(c_family(), short, full)
}

/// The key that leads from the short path of a used symbol to the full
/// path of the definition that uses it.
pub open spec fn u_key(short: Seq<char>, full: Seq<char>) -> Seq<char> {
    index_key(u_family(), short, full)
}

/// The components of a path given as text; the empty text is the empty
/// path.
pub open spec fn path_components(text: Seq<char>) -> Seq<Seq<char>> {
    if text.len() == 0 {
        Seq::empty()
    } else {
        split(text, path_separator())
    }
}

/// The component that stands for a root that is not known.
pub open spec fn sentinel() -> Seq<char> {
    seq!['?']
}

/// The path without a leading sentinel.
pub open spec fn strip_sentinel(components: Seq<Seq<char>>) -> Seq<Seq<char>> {
    if components.len() > 0 && components[0] == sentinel() {
        components.drop_first()
    } else {
        components
    }
}

/// The path under which a usage is indexed: its first target without a
/// leading sentinel, or the empty path where it has no target.
pub open spec fn usage_target(usage: UsageView) -> Seq<Seq<char>> {
    if usage.targets_for_guesswork.len() == 0 {
        Seq::empty()
    } else {
        strip_sentinel(path_components(usage.targets_for_guesswork[0]))
    }
}

/// What is written under an index key: the marker, or `None` to take the
/// key out.
pub open spec fn marked(remove: bool) -> Option<Seq<u8>> {
    if remove {
        None
    } else {
        Some(marker())
    }
}

/// One write for each short path of `components`, by the key that leads
/// from it to `full`.
pub open spec fn suffix_writes(
    family: Seq<char>,
    components: Seq<Seq<char>>,
    full: Seq<char>,
    remove: bool,
) -> Seq<(Seq<char>, Option<Seq<u8>>)> {
    Seq::new(
        components.len(),
        |i: int| (index_key(family, path_text(components.skip(i)), full), marked(remove)),
    )
}

/// The writes to the usage index for one usage of the definition at
/// `full`: one for each short path of what the usage points to.
pub open spec fn usage_writes(usage: UsageView, full: Seq<char>, remove: bool) -> Seq<
    (Seq<char>, Option<Seq<u8>>),
> {
    suffix_writes(u_family(), usage_target(usage), full, remove)
}

/// The writes to the usage index for the usages of the definition at
/// `full`.
pub open spec fn usages_writes(usages: Seq<UsageView>, full: Seq<char>, remove: bool) -> Seq<
    (Seq<char>, Option<Seq<u8>>),
>
    decreases usages.len(),
{
    if usages.len() == 0 {
        Seq::empty()
    } else {
        usages_writes(usages.drop_last(), full, remove) + usage_writes(usages.last(), full, remove)
    }
}

/// The writes to the two indexes for a definition.
pub open spec fn index_writes(definition: AltDefinitionView, remove: bool) -> Seq<
    (Seq<char>, Option<Seq<u8>>),
> {
    let full = path_text(definition.official_path);
    suffix_writes(c_family(), definition.official_path, full, remove) + usages_writes(
        definition.usages,
        full,
        remove,
    )
}

/// The writes that put a definition into the index: its record, then its
/// keys in the two indexes.
pub open spec fn definition_writes(definition: AltDefinitionView, record: Seq<u8>) -> Seq<
    (Seq<char>, Option<Seq<u8>>),
> {
    seq![(d_key(path_text(definition.official_path)), Some(record))] + index_writes(
        definition,
        false,
    )
}

/// The full path that an index key leads to, read with white space at its
/// ends left out: the key must hold the separator exactly once, counted
/// from the left without overlap, and what stands before it must be
/// `left`.
pub open spec fn parse_index_key(key: Seq<char>, left: Seq<char>) -> Option<Seq<char>> {
    let parts = split(key, key_separator());
    if parts.len() == 2 && parts[0] == left {
        Some(trim(parts[1]))
    } else {
        None
    }
}

/// How deep a path lies: the number of `::` in its text.
pub open spec fn depth(path: Seq<char>) -> nat {
    (split(path, path_separator()).len() - 1) as nat
}

/// A split has at least one piece.
pub proof fn lemma_split_not_empty(s: Seq<char>, pat: Seq<char>, from: int)
    ensures
        split_from(s, pat, from).len() >= 1,
{
}

/// The key of the record of the definition at `path`.
pub fn d_key_string(path: &str) -> (key: String)
    ensures
        key@ == d_key(path@),
{
    let mut key = String::from_str("d/");
    key.append(path);
    proof {
        reveal_strlit("d/");
        assert("d/"@ =~= d_family());
    }
    key
}

/// The key of an index family that leads from `short` to `full`.
pub fn index_key_string(family: &str, short: &str, full: &str) -> (key: String)
    ensures
        key@ == index_key(family@, short@, full@),
{
    let mut key = String::from_str(family);
    key.append(short);
    key.append(" \u{26a1} ");
    key.append(full);
    proof {
        reveal_strlit(" \u{26a1} ");
        assert(" \u{26a1} "@ =~= key_separator());
    }
    key
}

/// The value under every key of the two indexes.
pub fn marker_bytes() -> (bytes: Vec<u8>)
    ensures
        bytes@ == marker(),
{
    let mut bytes: Vec<u8> = Vec::new();
    bytes.push(0x68u8);
    bytes.push(0x75u8);
    bytes.push(0x75u8);
    proof {
        assert(bytes@ =~= marker());
    }
    bytes
}

/// The path under which a usage is indexed.
pub fn usage_target_strings(usage: &Usage) -> (target: Vec<String>)
    ensures
        texts(target@) == usage_target(usage@),
{
    let mut target: Vec<String> = Vec::new();
    if usage.targets_for_guesswork.len() == 0 {
        proof {
            assert(texts(target@) =~= usage_target(usage@));
        }
        return target;
    }
    let chars = chars_of(usage.targets_for_guesswork[0].as_str());
    if chars.len() == 0 {
        proof {
            assert(texts(target@) =~= usage_target(usage@));
        }
        return target;
    }
    let mut separator: Vec<char> = Vec::new();
    separator.push(':');
    separator.push(':');
    proof {
        assert(separator@ =~= path_separator());
    }
    let parts = split_chars(&chars, &separator);
    let mut first: usize = 0;
    if parts.len() > 0 && parts[0].len() == 1 && parts[0][0] == '?' {
        first = 1;
        proof {
            assert(rows(parts@)[0] =~= sentinel());
        }
    }
    let ghost wanted = rows(parts@).skip(first as int);
    proof {
        let components = path_components(usage@.targets_for_guesswork[0]);
        assert(components == rows(parts@));
        if first == 0 {
            if components.len() > 0 && components[0] == sentinel() {
                assert(parts@[0]@.len() == 1);
                assert(parts@[0]@[0] == sentinel()[0]);
            }
            assert(wanted =~= strip_sentinel(components));
        } else {
            assert(wanted =~= strip_sentinel(components));
        }
    }
    let mut i: usize = first;
    while i < parts.len()
        invariant
            first <= i <= parts.len(),
            wanted == rows(parts@).skip(first as int),
            target.len() == i - first,
            texts(target@) == wanted.take(i - first),
        decreases parts.len() - i,
    {
        let ghost so_far = texts(target@);
        target.push(string_of_chars(&parts[i]));
        i += 1;
        proof {
            assert(wanted[i - 1 - first] == parts@[i - 1]@);
            assert(texts(target@) =~= so_far.push(parts@[i - 1]@));
            assert(texts(target@) =~= wanted.take(i - first));
        }
    }
    proof {
        assert(wanted.take(parts.len() - first) =~= wanted);
    }
    target
}

/// Adds to `batch` one write for each short path of `components`, by the
/// key that leads from it to `full`.
pub fn push_suffix_writes(
    batch: &mut Vec<IndexWrite>,
    family: &str,
    components: &Vec<String>,
    full: &str,
    remove: bool,
)
    ensures
        write_views(final(batch)@) == write_views(old(batch)@) + suffix_writes(
            family@,
            texts(components@),
            full@,
            remove,
        ),
{
    let ghost before = write_views(batch@);
    let ghost wanted = suffix_writes(family@, texts(components@), full@, remove);
    let mut i: usize = 0;
    while i < components.len()
        invariant
            i <= components.len(),
            wanted == suffix_writes(family@, texts(components@), full@, remove),
            wanted.len() == components.len(),
            write_views(batch@) == before + wanted.take(i as int),
        decreases components.len() - i,
    {
        let ghost so_far = write_views(batch@);
        let short = join_strings(components, i, "::");
        proof {
            reveal_strlit("::");
            assert("::"@ =~= path_separator());
        }
        let key = index_key_string(family, short.as_str(), full);
        let value = if remove {
            None
        } else {
            Some(marker_bytes())
        };
        batch.push(IndexWrite { key, value });
        i += 1;
        proof {
            let written = (key@, marked(remove));
            assert(wanted[i - 1] == written);
            assert(write_views(batch@) =~= so_far.push(written));
            assert(wanted.take(i as int) =~= wanted.take(i - 1).push(written));
            assert(write_views(batch@) =~= before + wanted.take(i as int));
        }
    }
    proof {
        assert(wanted.take(components.len() as int) =~= wanted);
    }
}

/// Adds to `batch` the writes to the usage index for the usages of the
/// definition at `full`.
pub fn push_usages_writes(batch: &mut Vec<IndexWrite>, usages: &Vec<Usage>, full: &str, remove: bool)
    ensures
        write_views(final(batch)@) == write_views(old(batch)@) + usages_writes(
            crate::model::usage_views(usages@),
            full@,
            remove,
        ),
{
    let ghost before = write_views(batch@);
    let ghost views = crate::model::usage_views(usages@);
    let mut i: usize = 0;
    while i < usages.len()
        invariant
            i <= usages.len(),
            views == crate::model::usage_views(usages@),
            write_views(batch@) == before + usages_writes(views.take(i as int), full@, remove),
        decreases usages.len() - i,
    {
        let target = usage_target_strings(&usages[i]);
        let ghost so_far = write_views(batch@);
        push_suffix_writes(batch, "u/", &target, full, remove);
        proof {
            reveal_strlit("u/");
            assert("u/"@ =~= u_family());
            assert(views.take(i + 1).drop_last() =~= views.take(i as int));
            assert(views.take(i + 1).last() == usages@[i as int]@);
            assert(write_views(batch@) =~= before + usages_writes(views.take(i + 1), full@, remove));
        }
        i += 1;
    }
    proof {
        assert(views.take(usages.len() as int) =~= views);
    }
}

/// Adds to `batch` the writes to the two indexes for a definition.
pub fn push_index_writes(batch: &mut Vec<IndexWrite>, definition: &AltDefinition, remove: bool)
    ensures
        write_views(final(batch)@) == write_views(old(batch)@) + index_writes(
            definition@,
            remove,
        ),
{
    let ghost before = write_views(batch@);
    let full = definition.path();
    push_suffix_writes(batch, "c/", &definition.official_path, full.as_str(), remove);
    push_usages_writes(batch, &definition.usages, full.as_str(), remove);
    proof {
        reveal_strlit("c/");
        assert("c/"@ =~= c_family());
        assert(write_views(batch@) =~= before + index_writes(definition@, remove));
    }
}

/// Adds to `batch` the writes that put a definition into the index.
pub fn push_definition_writes(
    batch: &mut Vec<IndexWrite>,
    definition: &AltDefinition,
    record: Vec<u8>,
)
    ensures
        write_views(final(batch)@) == write_views(old(batch)@) + definition_writes(
            definition@,
            record@,
        ),
{
    let ghost before = write_views(batch@);
    let full = definition.path();
    let key = d_key_string(full.as_str());
    batch.push(IndexWrite { key, value: Some(record) });
    proof {
        assert(write_views(batch@) =~= before + seq![
            (d_key(path_text(definition@.official_path)), Some(record@)),
        ]);
    }
    push_index_writes(batch, definition, false);
    proof {
        assert(write_views(batch@) =~= before + definition_writes(definition@, record@));
    }
}

/// Reads the full path that an index key leads to.
pub fn full_path_of_key(key: &str, left: &str) -> (full: Option<String>)
    ensures
        match full {
            Some(path) => parse_index_key(key@, left@) == Some(path@),
            None => parse_index_key(key@, left@) is None,
        },
{
    let key_chars = chars_of(key);
    let left_chars = chars_of(left);
    let mut separator: Vec<char> = Vec::new();
    separator.push(' ');
    separator.push('\u{26a1}');
    separator.push(' ');
    proof {
        assert(separator@ =~= key_separator());
    }
    let parts = split_chars(&key_chars, &separator);
    proof {
        assert(rows(parts@).len() == parts.len());
    }
    if parts.len() == 2 && same_chars(&parts[0], &left_chars) {
        let trimmed = trim_chars(&parts[1]);
        proof {
            assert(rows(parts@)[0] == parts@[0]@);
            assert(rows(parts@)[1] == parts@[1]@);
        }
        Some(string_of_chars(&trimmed))
    } else {
        proof {
            if parts.len() == 2 {
                assert(rows(parts@)[0] == parts@[0]@);
            }
        }
        None
    }
}

/// Counts the `::` in the text of a path.
pub fn path_depth(path: &str) -> (count: usize)
    ensures
        count == depth(path@),
{
    let chars = chars_of(path);
    let mut separator: Vec<char> = Vec::new();
    separator.push(':');
    separator.push(':');
    proof {
        assert(separator@ =~= path_separator());
        lemma_split_not_empty(chars@, separator@, 0);
    }
    let parts = split_chars(&chars, &separator);
    proof {
        assert(rows(parts@).len() == parts.len());
    }
    parts.len() - 1
}

} // verus!
