//! What holds of an index that was filled and emptied file by file.

use vstd::prelude::*;
use crate::codec::record_definition;
use crate::index::{
    entry_removal,
    file_records_prefix,
    removal_writes,
    stored_definition,
    without_file,
};
use crate::keys::{
    c_family,
    c_key,
    d_family,
    d_key,
    index_key,
    index_writes,
    key_separator,
    marked,
    suffix_writes,
    u_family,
    u_key,
    usage_target,
    usages_writes,
};
use crate::model::{AltDefinitionView, UsageView, path_text};
use crate::path::file_prefix_text;
use crate::path_laws::{is_path, no_whitespace};
use crate::store::{apply_writes, is_scan, scan};
use crate::text::{is_whitespace, starts_with};

verus! {

/// Whether a usage is well formed: its first target, if it has one, holds
/// no white space.
pub open spec fn is_usage(usage: UsageView) -> bool {
    usage.targets_for_guesswork.len() > 0 ==> no_whitespace(usage.targets_for_guesswork[0])
}

/// Whether a definition is well formed: its path is a path, and each of
/// its usages is well formed.
pub open spec fn is_definition(definition: AltDefinitionView) -> bool {
    is_path(definition.official_path) && forall|i: int|
        0 <= i < definition.usages.len() ==> is_usage(#[trigger] definition.usages[i])
}

/// Whether one of the writes goes to the key.
pub open spec fn writes_to(writes: Seq<(Seq<char>, Option<Seq<u8>>)>, key: Seq<char>) -> bool {
    exists|i: int| 0 <= i < writes.len() && (#[trigger] writes[i]).0 == key
}

/// Whether the key is one of those that a definition has in the two
/// indexes.
pub open spec fn is_index_key_of(definition: AltDefinitionView, key: Seq<char>) -> bool {
    writes_to(index_writes(definition, false), key)
}

/// Whether the index holds the definition: it is well formed, and its
/// record stands under its path.
pub open spec fn holds_definition(
    entries: Map<Seq<char>, Seq<u8>>,
    definition: AltDefinitionView,
) -> bool {
    is_definition(definition) && stored_definition(entries, path_text(definition.official_path))
        == Some(definition)
}

/// Whether the key belongs to a definition that the index holds, as its
/// record's key or as one of its keys in the two indexes.
pub open spec fn key_of_held(
    entries: Map<Seq<char>, Seq<u8>>,
    definition: AltDefinitionView,
    key: Seq<char>,
) -> bool {
    holds_definition(entries, definition) && (key == d_key(path_text(definition.official_path))
        || is_index_key_of(definition, key))
}

/// Whether the index is well kept: each of its keys belongs to a
/// definition that it holds, and each definition that it holds has all
/// its keys in it.
#[verifier::opaque]
pub open spec fn well_kept(entries: Map<Seq<char>, Seq<u8>>) -> bool {
    &&& forall|key: Seq<char>| #[trigger]
        entries.contains_key(key) ==> exists|definition: AltDefinitionView| #[trigger]
            key_of_held(entries, definition, key)
    &&& forall|definition: AltDefinitionView, key: Seq<char>| #[trigger]
        key_of_held(entries, definition, key) ==> entries.contains_key(key)
}

/// A key of a well-kept index belongs to a definition that the index
/// holds.
pub proof fn lemma_key_owner(entries: Map<Seq<char>, Seq<u8>>, key: Seq<char>) -> (owner:
    AltDefinitionView)
    requires
        well_kept(entries),
        entries.contains_key(key),
    ensures
        key_of_held(entries, owner, key),
{
    reveal(well_kept);
    choose|definition: AltDefinitionView| #[trigger] key_of_held(entries, definition, key)
}

/// A well-kept index has every key of a definition that it holds.
pub proof fn lemma_owner_key(
    entries: Map<Seq<char>, Seq<u8>>,
    definition: AltDefinitionView,
    key: Seq<char>,
)
    requires
        well_kept(entries),
        key_of_held(entries, definition, key),
    ensures
        entries.contains_key(key),
{
    reveal(well_kept);
}

/// The key of a record whose path begins with a stem begins with the key
/// of the stem.
pub proof fn lemma_record_key_prefix(full: Seq<char>, stem: Seq<char>)
    requires
        starts_with(full, stem),
    ensures
        starts_with(d_key(full), d_key(stem)),
{
    assert(full.subrange(0, stem.len() as int) == stem);
    assert(d_key(full).subrange(0, d_key(stem).len() as int) =~= d_family() + full.subrange(
        0,
        stem.len() as int,
    ));
}

/// Writes that only take keys out leave the other entries as they were.
pub proof fn lemma_apply_removals(
    entries: Map<Seq<char>, Seq<u8>>,
    writes: Seq<(Seq<char>, Option<Seq<u8>>)>,
)
    requires
        forall|i: int| 0 <= i < writes.len() ==> (#[trigger] writes[i]).1 is None,
    ensures
        forall|key: Seq<char>| #[trigger]
            apply_writes(entries, writes).contains_key(key) <==> entries.contains_key(key)
                && !writes_to(writes, key),
        forall|key: Seq<char>| #[trigger]
            apply_writes(entries, writes).contains_key(key) ==> apply_writes(entries, writes)[key]
                == entries[key],
    decreases writes.len(),
{
    if writes.len() > 0 {
        let front = writes.drop_last();
        let last = writes.last();
        assert forall|i: int| 0 <= i < front.len() implies (#[trigger] front[i]).1 is None by {
            assert(front[i] == writes[i]);
        }
        lemma_apply_removals(entries, front);
        let before = apply_writes(entries, front);
        let after = apply_writes(entries, writes);
        assert(after == before.remove(last.0));
        assert forall|key: Seq<char>| #[trigger]
            after.contains_key(key) <==> entries.contains_key(key) && !writes_to(writes, key) by {
            if writes_to(writes, key) {
                let i = choose|i: int| 0 <= i < writes.len() && (#[trigger] writes[i]).0 == key;
                if i < front.len() {
                    assert(front[i].0 == key);
                    assert(writes_to(front, key));
                }
            }
            if writes_to(front, key) {
                let i = choose|i: int| 0 <= i < front.len() && (#[trigger] front[i]).0 == key;
                assert(writes[i].0 == key);
            }
            if key == last.0 {
                assert(writes[writes.len() - 1].0 == key);
            }
        }
    }
}

/// Writes that only put values in leave the other entries as they were.
pub proof fn lemma_apply_inserts(
    entries: Map<Seq<char>, Seq<u8>>,
    writes: Seq<(Seq<char>, Option<Seq<u8>>)>,
)
    requires
        forall|i: int| 0 <= i < writes.len() ==> (#[trigger] writes[i]).1 is Some,
    ensures
        forall|key: Seq<char>| #[trigger]
            apply_writes(entries, writes).contains_key(key) <==> entries.contains_key(key)
                || writes_to(writes, key),
        forall|key: Seq<char>|
            !writes_to(writes, key) && entries.contains_key(key) ==> #[trigger] apply_writes(
                entries,
                writes,
            )[key] == entries[key],
        forall|key: Seq<char>| #[trigger]
            writes_to(writes, key) ==> exists|i: int|
                0 <= i < writes.len() && (#[trigger] writes[i]) == (
                    key,
                    Some(apply_writes(entries, writes)[key]),
                ),
    decreases writes.len(),
{
    if writes.len() > 0 {
        let front = writes.drop_last();
        let last = writes.last();
        assert forall|i: int| 0 <= i < front.len() implies (#[trigger] front[i]).1 is Some by {
            assert(front[i] == writes[i]);
        }
        lemma_apply_inserts(entries, front);
        let before = apply_writes(entries, front);
        let after = apply_writes(entries, writes);
        assert(after == before.insert(last.0, last.1->0));
        assert forall|key: Seq<char>| #[trigger]
            after.contains_key(key) <==> entries.contains_key(key) || writes_to(writes, key) by {
            if writes_to(writes, key) {
                let i = choose|i: int| 0 <= i < writes.len() && (#[trigger] writes[i]).0 == key;
                if i < front.len() {
                    assert(front[i].0 == key);
                    assert(writes_to(front, key));
                }
            }
            if writes_to(front, key) {
                let i = choose|i: int| 0 <= i < front.len() && (#[trigger] front[i]).0 == key;
                assert(writes[i].0 == key);
            }
            if key == last.0 {
                assert(writes[writes.len() - 1].0 == key);
            }
        }
        assert forall|key: Seq<char>|
            !writes_to(writes, key) && entries.contains_key(key) implies #[trigger] after[key]
            == entries[key] by {
            if key == last.0 {
                assert(writes[writes.len() - 1].0 == key);
            }
            if writes_to(front, key) {
                let i = choose|i: int| 0 <= i < front.len() && (#[trigger] front[i]).0 == key;
                assert(writes[i].0 == key);
            }
        }
        assert forall|key: Seq<char>| #[trigger] writes_to(writes, key) implies exists|i: int|
            0 <= i < writes.len() && (#[trigger] writes[i]) == (key, Some(after[key])) by {
            if key == last.0 {
                assert(writes[writes.len() - 1] == (key, Some(after[key])));
            } else {
                let i = choose|i: int| 0 <= i < writes.len() && (#[trigger] writes[i]).0 == key;
                assert(front[i].0 == key);
                assert(writes_to(front, key));
                let j = choose|j: int|
                    0 <= j < front.len() && (#[trigger] front[j]) == (key, Some(before[key]));
                assert(writes[j] == (key, Some(after[key])));
            }
        }
    }
}

/// Writes that a part of a row of writes goes to, the whole row goes to.
pub proof fn lemma_writes_to_concat(
    first: Seq<(Seq<char>, Option<Seq<u8>>)>,
    second: Seq<(Seq<char>, Option<Seq<u8>>)>,
    key: Seq<char>,
)
    ensures
        writes_to(first + second, key) <==> writes_to(first, key) || writes_to(second, key),
{
    let all = first + second;
    if writes_to(first, key) {
        let i = choose|i: int| 0 <= i < first.len() && (#[trigger] first[i]).0 == key;
        assert(all[i].0 == key);
    }
    if writes_to(second, key) {
        let i = choose|i: int| 0 <= i < second.len() && (#[trigger] second[i]).0 == key;
        assert(all[first.len() + i].0 == key);
    }
    if writes_to(all, key) {
        let i = choose|i: int| 0 <= i < all.len() && (#[trigger] all[i]).0 == key;
        if i < first.len() {
            assert(first[i].0 == key);
        } else {
            assert(second[i - first.len()].0 == key);
        }
    }
}

/// Taking a key out of the indexes goes to the same keys as putting it
/// in, and writes no value.
pub proof fn lemma_index_writes_keys(definition: AltDefinitionView, key: Seq<char>)
    ensures
        writes_to(index_writes(definition, true), key) <==> writes_to(
            index_writes(definition, false),
            key,
        ),
        forall|i: int|
            0 <= i < index_writes(definition, true).len() ==> (#[trigger] index_writes(
                definition,
                true,
            )[i]).1 is None,
        forall|i: int|
            0 <= i < index_writes(definition, false).len() ==> (#[trigger] index_writes(
                definition,
                false,
            )[i]).1 == marked(false),
{
    let full = path_text(definition.official_path);
    lemma_usages_writes_keys(definition.usages, full, key);
    let c_out = suffix_writes(c_family(), definition.official_path, full, true);
    let c_in = suffix_writes(c_family(), definition.official_path, full, false);
    let u_out = usages_writes(definition.usages, full, true);
    let u_in = usages_writes(definition.usages, full, false);
    lemma_writes_to_concat(c_out, u_out, key);
    lemma_writes_to_concat(c_in, u_in, key);
    if writes_to(c_out, key) {
        let i = choose|i: int| 0 <= i < c_out.len() && (#[trigger] c_out[i]).0 == key;
        assert(c_in[i].0 == key);
    }
    if writes_to(c_in, key) {
        let i = choose|i: int| 0 <= i < c_in.len() && (#[trigger] c_in[i]).0 == key;
        assert(c_out[i].0 == key);
    }
    assert forall|i: int| 0 <= i < index_writes(definition, true).len() implies (
    #[trigger] index_writes(definition, true)[i]).1 is None by {
        if i < c_out.len() {
            assert(index_writes(definition, true)[i] == c_out[i]);
        } else {
            assert(index_writes(definition, true)[i] == u_out[i - c_out.len()]);
        }
    }
    assert forall|i: int| 0 <= i < index_writes(definition, false).len() implies (
    #[trigger] index_writes(definition, false)[i]).1 == marked(false) by {
        if i < c_in.len() {
            assert(index_writes(definition, false)[i] == c_in[i]);
        } else {
            assert(index_writes(definition, false)[i] == u_in[i - c_in.len()]);
        }
    }
}

/// The same for the usage index alone.
pub proof fn lemma_usages_writes_keys(usages: Seq<UsageView>, full: Seq<char>, key: Seq<char>)
    ensures
        writes_to(usages_writes(usages, full, true), key) <==> writes_to(
            usages_writes(usages, full, false),
            key,
        ),
        forall|i: int|
            0 <= i < usages_writes(usages, full, true).len() ==> (#[trigger] usages_writes(
                usages,
                full,
                true,
            )[i]).1 is None,
        forall|i: int|
            0 <= i < usages_writes(usages, full, false).len() ==> (#[trigger] usages_writes(
                usages,
                full,
                false,
            )[i]).1 == marked(false),
    decreases usages.len(),
{
    if usages.len() > 0 {
        let front = usages.drop_last();
        lemma_usages_writes_keys(front, full, key);
        let target = usage_target(usages.last());
        let out = suffix_writes(u_family(), target, full, true);
        let put = suffix_writes(u_family(), target, full, false);
        lemma_writes_to_concat(usages_writes(front, full, true), out, key);
        lemma_writes_to_concat(usages_writes(front, full, false), put, key);
        if writes_to(out, key) {
            let i = choose|i: int| 0 <= i < out.len() && (#[trigger] out[i]).0 == key;
            assert(put[i].0 == key);
        }
        if writes_to(put, key) {
            let i = choose|i: int| 0 <= i < put.len() && (#[trigger] put[i]).0 == key;
            assert(out[i].0 == key);
        }
        let all_out = usages_writes(usages, full, true);
        let all_put = usages_writes(usages, full, false);
        let front_out = usages_writes(front, full, true);
        let front_put = usages_writes(front, full, false);
        assert forall|i: int| 0 <= i < all_out.len() implies (#[trigger] all_out[i]).1 is None by {
            if i < front_out.len() {
                assert(all_out[i] == front_out[i]);
            } else {
                assert(all_out[i] == out[i - front_out.len()]);
            }
        }
        assert forall|i: int| 0 <= i < all_put.len() implies (#[trigger] all_put[i]).1 == marked(
            false,
        ) by {
            if i < front_put.len() {
                assert(all_put[i] == front_put[i]);
            } else {
                assert(all_put[i] == put[i - front_put.len()]);
            }
        }
    }
}


/// Each piece of a split text without white space holds no white space.
pub proof fn lemma_split_plain(s: Seq<char>, pat: Seq<char>, from: int)
    requires
        no_whitespace(s),
        0 <= from <= s.len(),
    ensures
        forall|i: int|
            0 <= i < crate::text::split_from(s, pat, from).len() ==> no_whitespace(
                #[trigger] crate::text::split_from(s, pat, from)[i],
            ),
    decreases s.len() + 1 - from,
{
    let pieces = crate::text::split_from(s, pat, from);
    crate::text::lemma_find_bounds(s, pat, from);
    match crate::text::find_from(s, pat, from) {
        Some(at) => {
            if pat.len() > 0 && from <= at && at + pat.len() <= s.len() {
                lemma_split_plain(s, pat, at + pat.len());
                let rest = crate::text::split_from(s, pat, at + pat.len());
                let head = s.subrange(from, at);
                assert(no_whitespace(head)) by {
                    assert forall|j: int| 0 <= j < head.len() implies !is_whitespace(
                        #[trigger] head[j],
                    ) by {
                        assert(head[j] == s[from + j]);
                    }
                }
                assert forall|i: int| 0 <= i < pieces.len() implies no_whitespace(
                    #[trigger] pieces[i],
                ) by {
                    if i > 0 {
                        assert(pieces[i] == rest[i - 1]);
                    }
                }
            } else {
                let whole = s.subrange(from, s.len() as int);
                assert forall|j: int| 0 <= j < whole.len() implies !is_whitespace(
                    #[trigger] whole[j],
                ) by {
                    assert(whole[j] == s[from + j]);
                }
            }
        },
        None => {
            let whole = s.subrange(from, s.len() as int);
            assert forall|j: int| 0 <= j < whole.len() implies !is_whitespace(
                #[trigger] whole[j],
            ) by {
                assert(whole[j] == s[from + j]);
            }
        },
    }
}

/// The path under which a well-formed usage is indexed holds no white
/// space in any component.
pub proof fn lemma_usage_target_plain(usage: UsageView)
    requires
        is_usage(usage),
    ensures
        forall|i: int|
            0 <= i < usage_target(usage).len() ==> no_whitespace(#[trigger] usage_target(usage)[i]),
{
    if usage.targets_for_guesswork.len() > 0 {
        let text = usage.targets_for_guesswork[0];
        if text.len() > 0 {
            lemma_split_plain(text, crate::model::path_separator(), 0);
            let parts = crate::keys::path_components(text);
            let target = usage_target(usage);
            assert forall|i: int| 0 <= i < target.len() implies no_whitespace(
                #[trigger] target[i],
            ) by {
                if target.len() < parts.len() {
                    assert(target[i] == parts[i + 1]);
                } else {
                    assert(target[i] == parts[i]);
                }
            }
        }
    }
}

/// Whether the key leads, in the given family, from a short path without
/// white space to the full path.
pub open spec fn leads_to(key: Seq<char>, family: Seq<char>, full: Seq<char>) -> bool {
    exists|short: Seq<char>| no_whitespace(short) && key == #[trigger] index_key(family, short, full)
}

/// The keys of one family for the suffixes of a path without white space
/// lead to the full path.
pub proof fn lemma_suffix_writes_lead(
    family: Seq<char>,
    components: Seq<Seq<char>>,
    full: Seq<char>,
    remove: bool,
    key: Seq<char>,
)
    requires
        forall|i: int| 0 <= i < components.len() ==> no_whitespace(#[trigger] components[i]),
        writes_to(suffix_writes(family, components, full, remove), key),
    ensures
        leads_to(key, family, full),
{
    let writes = suffix_writes(family, components, full, remove);
    let i = choose|i: int| 0 <= i < writes.len() && (#[trigger] writes[i]).0 == key;
    let rest = components.skip(i);
    assert forall|j: int| 0 <= j < rest.len() implies no_whitespace(#[trigger] rest[j]) by {
        assert(rest[j] == components[i + j]);
    }
    crate::path_laws::lemma_path_text_plain(rest);
    assert(key == index_key(family, path_text(rest), full));
}

/// The keys that the usages of a definition have in the usage index lead
/// to the definition's full path.
pub proof fn lemma_usages_writes_lead(
    usages: Seq<UsageView>,
    full: Seq<char>,
    remove: bool,
    key: Seq<char>,
)
    requires
        forall|i: int| 0 <= i < usages.len() ==> is_usage(#[trigger] usages[i]),
        writes_to(usages_writes(usages, full, remove), key),
    ensures
        leads_to(key, u_family(), full),
    decreases usages.len(),
{
    if usages.len() > 0 {
        let front = usages.drop_last();
        let target = usage_target(usages.last());
        lemma_writes_to_concat(
            usages_writes(front, full, remove),
            suffix_writes(u_family(), target, full, remove),
            key,
        );
        if writes_to(usages_writes(front, full, remove), key) {
            assert forall|i: int| 0 <= i < front.len() implies is_usage(#[trigger] front[i]) by {
                assert(front[i] == usages[i]);
            }
            lemma_usages_writes_lead(front, full, remove, key);
        } else {
            assert(is_usage(usages[usages.len() - 1]));
            lemma_usage_target_plain(usages.last());
            lemma_suffix_writes_lead(u_family(), target, full, remove, key);
        }
    } else {
        assert(!writes_to(usages_writes(usages, full, remove), key));
    }
}

/// A key that a well-formed definition has in the two indexes leads to
/// the definition's full path, in one of the two families.
pub proof fn lemma_index_key_leads(definition: AltDefinitionView, key: Seq<char>)
    requires
        is_definition(definition),
        is_index_key_of(definition, key),
    ensures
        leads_to(key, c_family(), path_text(definition.official_path)) || leads_to(
            key,
            u_family(),
            path_text(definition.official_path),
        ),
        no_whitespace(path_text(definition.official_path)),
{
    let full = path_text(definition.official_path);
    let path = definition.official_path;
    assert forall|i: int| 0 <= i < path.len() implies no_whitespace(#[trigger] path[i]) by {
        assert(crate::path_laws::is_component(path[i]));
    }
    crate::path_laws::lemma_path_text_plain(path);
    lemma_writes_to_concat(
        suffix_writes(c_family(), path, full, false),
        usages_writes(definition.usages, full, false),
        key,
    );
    if writes_to(suffix_writes(c_family(), path, full, false), key) {
        lemma_suffix_writes_lead(c_family(), path, full, false, key);
    } else {
        lemma_usages_writes_lead(definition.usages, full, false, key);
    }
}

/// A key that leads from a short path to a full path, both without white
/// space, is made of these two and of no others.
pub proof fn lemma_index_key_parts(
    family: Seq<char>,
    short: Seq<char>,
    full: Seq<char>,
    other_short: Seq<char>,
    other_full: Seq<char>,
)
    requires
        no_whitespace(family),
        no_whitespace(short),
        no_whitespace(full),
        index_key(family, short, full) == index_key(family, other_short, other_full),
    ensures
        short == other_short,
        full == other_full,
{
    let key = index_key(family, short, full);
    let sep = key_separator();
    let a: int = (family.len() + short.len()) as int;
    let b: int = (family.len() + other_short.len()) as int;
    assert(key == family + short + sep + full);
    assert(key == family + other_short + sep + other_full);
    assert(is_whitespace(sep[0]) && !is_whitespace(sep[1]) && is_whitespace(sep[2]));
    assert forall|i: int| 0 <= i < key.len() && is_whitespace(#[trigger] key[i]) implies i == a || i
        == a + 2 by {
        if i < family.len() {
            assert(key[i] == family[i]);
        } else if i < a {
            assert(key[i] == short[i - family.len()]);
        } else if i < a + 3 {
            assert(key[i] == sep[i - a]);
        } else {
            assert(key[i] == full[i - a - 3]);
        }
    }
    assert(key[b] == sep[0]);
    assert(key[b + 2] == sep[2]);
    assert(is_whitespace(key[b]));
    assert(is_whitespace(key[b + 2]));
    assert(a == b);
    assert(short =~= key.subrange(family.len() as int, a));
    assert(other_short =~= key.subrange(family.len() as int, b));
    assert(full =~= key.subrange(a + 3, key.len() as int));
    assert(other_full =~= key.subrange(b + 3, key.len() as int));
}

/// The writes that take the listed definitions out take keys out only,
/// and go to the keys of each listed entry.
pub proof fn lemma_removal_writes(found: Seq<(Seq<char>, Seq<u8>)>, key: Seq<char>)
    ensures
        forall|i: int|
            0 <= i < removal_writes(found).len() ==> (#[trigger] removal_writes(found)[i]).1 is None,
        writes_to(removal_writes(found), key) <==> exists|i: int|
            0 <= i < found.len() && writes_to(entry_removal(#[trigger] found[i]), key),
    decreases found.len(),
{
    if found.len() > 0 {
        let front = found.drop_last();
        let last = found.last();
        lemma_removal_writes(front, key);
        let head = removal_writes(front);
        let tail = entry_removal(last);
        let all = removal_writes(found);
        lemma_writes_to_concat(head, tail, key);
        assert forall|i: int| 0 <= i < tail.len() implies (#[trigger] tail[i]).1 is None by {
            match record_definition(last.1) {
                Some(definition) => {
                    lemma_index_writes_keys(definition, key);
                    if i < index_writes(definition, true).len() {
                        assert(tail[i] == index_writes(definition, true)[i]);
                    }
                },
                None => {},
            }
        }
        assert forall|i: int| 0 <= i < all.len() implies (#[trigger] all[i]).1 is None by {
            if i < head.len() {
                assert(all[i] == head[i]);
            } else {
                assert(all[i] == tail[i - head.len()]);
            }
        }
        if writes_to(head, key) {
            let i = choose|i: int|
                0 <= i < front.len() && writes_to(entry_removal(#[trigger] front[i]), key);
            assert(found[i] == front[i]);
        }
        if writes_to(tail, key) {
            assert(found[found.len() - 1] == last);
        }
        if exists|i: int| 0 <= i < found.len() && writes_to(entry_removal(#[trigger] found[i]), key) {
            let i = choose|i: int|
                0 <= i < found.len() && writes_to(entry_removal(#[trigger] found[i]), key);
            if i < front.len() {
                assert(front[i] == found[i]);
            }
        }
    } else {
        assert(!writes_to(removal_writes(found), key));
    }
}

/// Taking a held definition out goes to each of its keys.
pub proof fn lemma_entry_removal_covers(
    entries: Map<Seq<char>, Seq<u8>>,
    definition: AltDefinitionView,
    key: Seq<char>,
)
    requires
        key_of_held(entries, definition, key),
    ensures
        writes_to(
            entry_removal(
                (
                    d_key(path_text(definition.official_path)),
                    entries[d_key(path_text(definition.official_path))],
                ),
            ),
            key,
        ),
{
    let record_key = d_key(path_text(definition.official_path));
    let writes = entry_removal((record_key, entries[record_key]));
    let out = index_writes(definition, true);
    assert(writes == out.push((record_key, None)));
    if key == record_key {
        assert(writes[out.len() as int].0 == key);
    } else {
        lemma_index_writes_keys(definition, key);
        let i = choose|i: int| 0 <= i < out.len() && (#[trigger] out[i]).0 == key;
        assert(writes[i].0 == key);
    }
}

/// After a file has been taken out of a well-kept index, no key holds a
/// full path that begins with the file's prefix: neither the key of a
/// record, nor a key of the suffix index, nor a key of the usage index.
pub proof fn law_removed_file_is_gone(
    entries: Map<Seq<char>, Seq<u8>>,
    cpath: Seq<char>,
    short: Seq<char>,
    full: Seq<char>,
)
    requires
        well_kept(entries),
        is_scan(
            entries,
            file_records_prefix(cpath),
            scan(entries, file_records_prefix(cpath)),
        ),
        starts_with(full, file_prefix_text(cpath)),
    ensures
        !without_file(entries, cpath).contains_key(d_key(full)),
        !without_file(entries, cpath).contains_key(c_key(short, full)),
        !without_file(entries, cpath).contains_key(u_key(short, full)),
{
    let found = scan(entries, file_records_prefix(cpath));
    let writes = removal_writes(found);
    lemma_removal_writes(found, d_key(full));
    lemma_apply_removals(entries, writes);
    if entries.contains_key(d_key(full)) {
        lemma_record_goes(entries, cpath, full);
    }
    if entries.contains_key(c_key(short, full)) {
        lemma_held_key_goes(entries, cpath, c_family(), short, full);
    }
    if entries.contains_key(u_key(short, full)) {
        lemma_held_key_goes(entries, cpath, u_family(), short, full);
    }
}

/// The key of a record under the file's prefix is among the keys that go
/// with the file, and so is each key of the entry that it stands in.
pub proof fn lemma_record_goes(entries: Map<Seq<char>, Seq<u8>>, cpath: Seq<char>, full: Seq<char>)
    requires
        is_scan(
            entries,
            file_records_prefix(cpath),
            scan(entries, file_records_prefix(cpath)),
        ),
        starts_with(full, file_prefix_text(cpath)),
        entries.contains_key(d_key(full)),
    ensures
        writes_to(removal_writes(scan(entries, file_records_prefix(cpath))), d_key(full)),
        forall|key: Seq<char>|
            writes_to(entry_removal((d_key(full), entries[d_key(full)])), key) ==> #[trigger] writes_to(
                removal_writes(scan(entries, file_records_prefix(cpath))),
                key,
            ),
{
    let prefix = file_records_prefix(cpath);
    let found = scan(entries, prefix);
    let record_key = d_key(full);
    lemma_record_key_prefix(full, file_prefix_text(cpath));
    let i = choose|i: int| 0 <= i < found.len() && (#[trigger] found[i]).0 == record_key;
    assert(found[i] == (record_key, entries[record_key]));
    let removal = entry_removal(found[i]);
    assert(removal[removal.len() - 1].0 == record_key);
    assert(writes_to(removal, record_key));
    lemma_removal_writes(found, record_key);
    assert forall|key: Seq<char>| writes_to(removal, key) implies #[trigger] writes_to(
        removal_writes(found),
        key,
    ) by {
        lemma_removal_writes(found, key);
    }
}

/// The full path that a key of a held definition leads to is the
/// definition's own.
pub proof fn lemma_held_key_path(
    definition: AltDefinitionView,
    family: Seq<char>,
    short: Seq<char>,
    full: Seq<char>,
)
    requires
        is_definition(definition),
        family == c_family() || family == u_family(),
        is_index_key_of(definition, index_key(family, short, full)),
    ensures
        full == path_text(definition.official_path),
        no_whitespace(short),
        no_whitespace(full),
{
    let key = index_key(family, short, full);
    let own = path_text(definition.official_path);
    assert(key[0] == family[0]);
    lemma_index_key_leads(definition, key);
    if leads_to(key, c_family(), own) {
        let s = choose|s: Seq<char>|
            no_whitespace(s) && key == #[trigger] index_key(c_family(), s, own);
        assert(index_key(c_family(), s, own)[0] == 'c');
        assert(family =~= c_family());
        lemma_index_key_parts(c_family(), s, own, short, full);
    } else {
        let s = choose|s: Seq<char>|
            no_whitespace(s) && key == #[trigger] index_key(u_family(), s, own);
        assert(index_key(u_family(), s, own)[0] == 'u');
        assert(family =~= u_family());
        lemma_index_key_parts(u_family(), s, own, short, full);
    }
}

/// The owner of an index key of a well-kept index: the definition that
/// the index holds at the full path that the key leads to.
pub proof fn lemma_index_key_owner(
    entries: Map<Seq<char>, Seq<u8>>,
    family: Seq<char>,
    short: Seq<char>,
    full: Seq<char>,
) -> (owner: AltDefinitionView)
    requires
        well_kept(entries),
        family == c_family() || family == u_family(),
        entries.contains_key(index_key(family, short, full)),
    ensures
        holds_definition(entries, owner),
        is_index_key_of(owner, index_key(family, short, full)),
        path_text(owner.official_path) == full,
        no_whitespace(short),
        no_whitespace(full),
        entries.contains_key(d_key(full)),
{
    let key = index_key(family, short, full);
    let owner = lemma_key_owner(entries, key);
    assert(key[0] == family[0]);
    assert(d_key(path_text(owner.official_path))[0] == 'd');
    lemma_held_key_path(owner, family, short, full);
    assert(key_of_held(entries, owner, d_key(full)));
    lemma_owner_key(entries, owner, d_key(full));
    owner
}

/// An index key of a well-kept index that leads to a full path under the
/// file's prefix is among the keys that go with the file.
pub proof fn lemma_held_key_goes(
    entries: Map<Seq<char>, Seq<u8>>,
    cpath: Seq<char>,
    family: Seq<char>,
    short: Seq<char>,
    full: Seq<char>,
)
    requires
        well_kept(entries),
        is_scan(
            entries,
            file_records_prefix(cpath),
            scan(entries, file_records_prefix(cpath)),
        ),
        starts_with(full, file_prefix_text(cpath)),
        family == c_family() || family == u_family(),
        entries.contains_key(index_key(family, short, full)),
    ensures
        writes_to(
            removal_writes(scan(entries, file_records_prefix(cpath))),
            index_key(family, short, full),
        ),
{
    let key = index_key(family, short, full);
    let owner = lemma_index_key_owner(entries, family, short, full);
    lemma_record_goes(entries, cpath, full);
    assert(key_of_held(entries, owner, key));
    lemma_entry_removal_covers(entries, owner, key);
}

} // verus!
