//! That filling and emptying keep the index well kept, and how many keys
//! a held definition has in the suffix index.

use vstd::prelude::*;
use crate::codec::{definition_record, record_definition};
use crate::index::{
    entry_removal,
    file_records_prefix,
    record_writes,
    removal_writes,
    without_file,
};
use crate::keys::{
    c_family,
    c_key,
    d_key,
    definition_writes,
    index_key,
    index_writes,
    suffix_writes,
    u_family,
    usage_target,
    usages_writes,
};
use crate::laws::{
    holds_definition,
    is_definition,
    is_index_key_of,
    key_of_held,
    leads_to,
    lemma_apply_inserts,
    lemma_apply_removals,
    lemma_entry_removal_covers,
    lemma_index_key_leads,
    lemma_index_key_parts,
    lemma_index_writes_keys,
    lemma_key_owner,
    lemma_owner_key,
    lemma_removal_writes,
    lemma_writes_to_concat,
    well_kept,
    writes_to,
};
use crate::model::{AltDefinitionView, UsageView, path_text};
use crate::path_laws::{is_path, lemma_path_text_injective, no_whitespace};
use crate::query_laws::{ends_in, lemma_short_has_key, lemma_suffix_is_path, lemma_suffix_key_short};
use crate::store::{apply_writes, is_scan, scan};

verus! {

/// An index without entries is well kept.
pub proof fn law_empty_index_is_well_kept()
    ensures
        well_kept(Map::<Seq<char>, Seq<u8>>::empty()),
{
    reveal(well_kept);
}

/// A key of one family for the suffixes of a path begins with the
/// family.
pub proof fn lemma_suffix_write_family(
    family: Seq<char>,
    components: Seq<Seq<char>>,
    full: Seq<char>,
    remove: bool,
    key: Seq<char>,
)
    requires
        family.len() > 0,
        writes_to(suffix_writes(family, components, full, remove), key),
    ensures
        key.len() > 0,
        key[0] == family[0],
{
    let writes = suffix_writes(family, components, full, remove);
    let i = choose|i: int| 0 <= i < writes.len() && (#[trigger] writes[i]).0 == key;
    assert(key == index_key(family, path_text(components.skip(i)), full));
}

/// A key of the usage index begins with `u`.
pub proof fn lemma_usages_write_family(
    usages: Seq<UsageView>,
    full: Seq<char>,
    remove: bool,
    key: Seq<char>,
)
    requires
        writes_to(usages_writes(usages, full, remove), key),
    ensures
        key.len() > 0,
        key[0] == 'u',
    decreases usages.len(),
{
    if usages.len() > 0 {
        let front = usages.drop_last();
        let target = usage_target(usages.last());
        lemma_writes_to_concat(
            usages_writes(front, full, remove),
            suffix_writes(u_family(), target, full, remove),
            key,
        );
        if writes_to(usages_writes(front, full, remove), key) {
            lemma_usages_write_family(front, full, remove, key);
        } else {
            lemma_suffix_write_family(u_family(), target, full, remove, key);
        }
    } else {
        assert(!writes_to(usages_writes(usages, full, remove), key));
    }
}

/// A key that a definition has in the two indexes begins with `c` or
/// with `u`, and so is the key of no record.
pub proof fn lemma_index_write_family(
    definition: AltDefinitionView,
    remove: bool,
    key: Seq<char>,
    full: Seq<char>,
)
    requires
        writes_to(index_writes(definition, remove), key),
    ensures
        key != d_key(full),
{
    let own = path_text(definition.official_path);
    lemma_writes_to_concat(
        suffix_writes(c_family(), definition.official_path, own, remove),
        usages_writes(definition.usages, own, remove),
        key,
    );
    if writes_to(suffix_writes(c_family(), definition.official_path, own, remove), key) {
        lemma_suffix_write_family(c_family(), definition.official_path, own, remove, key);
    } else {
        lemma_usages_write_family(definition.usages, own, remove, key);
    }
    assert(d_key(full)[0] == 'd');
}

/// A key that two well-formed definitions have in the two indexes leads
/// to one full path: the two definitions stand at the same path.
pub proof fn lemma_shared_index_key(
    first: AltDefinitionView,
    second: AltDefinitionView,
    key: Seq<char>,
)
    requires
        is_definition(first),
        is_definition(second),
        is_index_key_of(first, key),
        is_index_key_of(second, key),
    ensures
        path_text(first.official_path) == path_text(second.official_path),
{
    let p = path_text(first.official_path);
    let q = path_text(second.official_path);
    lemma_index_key_leads(first, key);
    lemma_index_key_leads(second, key);
    if leads_to(key, c_family(), p) {
        let s = choose|s: Seq<char>| no_whitespace(s) && key == #[trigger] index_key(c_family(), s, p);
        assert(index_key(c_family(), s, p)[0] == 'c');
        if leads_to(key, c_family(), q) {
            let t = choose|t: Seq<char>|
                no_whitespace(t) && key == #[trigger] index_key(c_family(), t, q);
            lemma_index_key_parts(c_family(), s, p, t, q);
        } else {
            let t = choose|t: Seq<char>|
                no_whitespace(t) && key == #[trigger] index_key(u_family(), t, q);
            assert(index_key(u_family(), t, q)[0] == 'u');
        }
    } else {
        let s = choose|s: Seq<char>| no_whitespace(s) && key == #[trigger] index_key(u_family(), s, p);
        assert(index_key(u_family(), s, p)[0] == 'u');
        if leads_to(key, u_family(), q) {
            let t = choose|t: Seq<char>|
                no_whitespace(t) && key == #[trigger] index_key(u_family(), t, q);
            lemma_index_key_parts(u_family(), s, p, t, q);
        } else {
            let t = choose|t: Seq<char>|
                no_whitespace(t) && key == #[trigger] index_key(c_family(), t, q);
            assert(index_key(c_family(), t, q)[0] == 'c');
        }
    }
}

/// Two keys of records that are one key belong to one path.
pub proof fn lemma_record_key_path(first: Seq<char>, second: Seq<char>)
    requires
        d_key(first) == d_key(second),
    ensures
        first == second,
{
    assert(first =~= d_key(first).skip(2));
    assert(second =~= d_key(second).skip(2));
}

/// What the removal of a file goes to, in a well-kept index: the keys of
/// held definitions whose record is listed.
pub proof fn lemma_removed_key(
    entries: Map<Seq<char>, Seq<u8>>,
    found: Seq<(Seq<char>, Seq<u8>)>,
    stem: Seq<char>,
    key: Seq<char>,
) -> (gone: AltDefinitionView)
    requires
        well_kept(entries),
        is_scan(entries, d_key(stem), found),
        writes_to(removal_writes(found), key),
    ensures
        key_of_held(entries, gone, key),
        writes_to(removal_writes(found), d_key(path_text(gone.official_path))),
        crate::text::starts_with(d_key(path_text(gone.official_path)), d_key(stem)),
{
    lemma_removal_writes(found, key);
    let i = choose|i: int| 0 <= i < found.len() && writes_to(entry_removal(#[trigger] found[i]), key);
    let record_key = found[i].0;
    assert(entries.contains_key(record_key) && entries[record_key] == found[i].1);
    let gone = lemma_key_owner(entries, record_key);
    let own = path_text(gone.official_path);
    if is_index_key_of(gone, record_key) {
        lemma_listed_is_record_key(entries, found, stem, i);
        lemma_index_write_family(gone, false, record_key, record_key.skip(2));
    }
    assert(record_key == d_key(own));
    assert(record_definition(found[i].1) == Some(gone));
    let removal = entry_removal(found[i]);
    let out = index_writes(gone, true);
    assert(removal == out.push((record_key, None)));
    let j = choose|j: int| 0 <= j < removal.len() && (#[trigger] removal[j]).0 == key;
    if j < out.len() {
        assert(out[j].0 == key);
        lemma_index_writes_keys(gone, key);
    }
    assert(removal[removal.len() - 1].0 == record_key);
    assert(writes_to(removal, record_key));
    lemma_removal_writes(found, record_key);
    gone
}

/// A key listed under the key of a stem is the key of a record.
pub proof fn lemma_listed_is_record_key(
    entries: Map<Seq<char>, Seq<u8>>,
    found: Seq<(Seq<char>, Seq<u8>)>,
    stem: Seq<char>,
    at: int,
)
    requires
        is_scan(entries, d_key(stem), found),
        0 <= at < found.len(),
    ensures
        found[at].0 == d_key(found[at].0.skip(2)),
{
    let key = found[at].0;
    let prefix = d_key(stem);
    assert(crate::text::starts_with(key, prefix));
    assert(key.subrange(0, prefix.len() as int) == prefix);
    assert(key[0] == key.subrange(0, prefix.len() as int)[0]);
    assert(key[1] == key.subrange(0, prefix.len() as int)[1]);
    assert(key =~= d_key(key.skip(2)));
}

/// Taking a file out of a well-kept index leaves it well kept.
pub proof fn law_remove_keeps_index(entries: Map<Seq<char>, Seq<u8>>, cpath: Seq<char>)
    requires
        well_kept(entries),
        is_scan(
            entries,
            file_records_prefix(cpath),
            scan(entries, file_records_prefix(cpath)),
        ),
    ensures
        well_kept(without_file(entries, cpath)),
{
    let prefix = file_records_prefix(cpath);
    let found = scan(entries, prefix);
    let writes = removal_writes(found);
    let after = without_file(entries, cpath);
    lemma_removal_writes(found, prefix);
    lemma_apply_removals(entries, writes);
    assert forall|key: Seq<char>| #[trigger] after.contains_key(key) implies exists|
        definition: AltDefinitionView,
    | #[trigger] key_of_held(after, definition, key) by {
        let owner = lemma_key_owner(entries, key);
        let record_key = d_key(path_text(owner.official_path));
        assert(key_of_held(entries, owner, record_key));
        lemma_owner_key(entries, owner, record_key);
        if writes_to(writes, record_key) {
            lemma_stays_or_goes(entries, found, crate::path::file_prefix_text(cpath), owner, key);
        }
        assert(after.contains_key(record_key));
        assert(after[record_key] == entries[record_key]);
        assert(key_of_held(after, owner, key));
    }
    assert forall|definition: AltDefinitionView, key: Seq<char>| #[trigger]
        key_of_held(after, definition, key) implies after.contains_key(key) by {
        let record_key = d_key(path_text(definition.official_path));
        assert(after.contains_key(record_key));
        assert(after[record_key] == entries[record_key]);
        assert(key_of_held(entries, definition, key));
        lemma_owner_key(entries, definition, key);
        if writes_to(writes, key) {
            let gone = lemma_removed_key(entries, found, crate::path::file_prefix_text(cpath), key);
            lemma_same_owner(entries, definition, gone, key);
        }
    }
    reveal(well_kept);
}

/// Where the record of a held definition goes with a file, each of its
/// keys goes.
pub proof fn lemma_stays_or_goes(
    entries: Map<Seq<char>, Seq<u8>>,
    found: Seq<(Seq<char>, Seq<u8>)>,
    stem: Seq<char>,
    owner: AltDefinitionView,
    key: Seq<char>,
)
    requires
        well_kept(entries),
        is_scan(entries, d_key(stem), found),
        key_of_held(entries, owner, key),
        writes_to(removal_writes(found), d_key(path_text(owner.official_path))),
    ensures
        writes_to(removal_writes(found), key),
{
    let record_key = d_key(path_text(owner.official_path));
    lemma_removal_writes(found, record_key);
    let i = choose|i: int|
        0 <= i < found.len() && writes_to(entry_removal(#[trigger] found[i]), record_key);
    let listed = found[i].0;
    assert(entries.contains_key(listed) && entries[listed] == found[i].1);
    let holder = lemma_key_owner(entries, listed);
    let own = path_text(holder.official_path);
    if is_index_key_of(holder, listed) {
        lemma_listed_is_record_key(entries, found, stem, i);
        lemma_index_write_family(holder, false, listed, listed.skip(2));
    }
    assert(listed == d_key(own));
    assert(record_definition(found[i].1) == Some(holder));
    let removal = entry_removal(found[i]);
    let out = index_writes(holder, true);
    assert(removal == out.push((listed, None)));
    let j = choose|j: int| 0 <= j < removal.len() && (#[trigger] removal[j]).0 == record_key;
    if j < out.len() {
        assert(out[j].0 == record_key);
        assert(writes_to(out, record_key));
        lemma_index_write_family(holder, true, record_key, path_text(owner.official_path));
    }
    assert(listed == record_key);
    lemma_record_key_path(own, path_text(owner.official_path));
    assert(holder == owner);
    lemma_entry_removal_covers(entries, owner, key);
    lemma_removal_writes(found, key);
}

/// Two held definitions that share a key are one definition.
pub proof fn lemma_same_owner(
    entries: Map<Seq<char>, Seq<u8>>,
    first: AltDefinitionView,
    second: AltDefinitionView,
    key: Seq<char>,
)
    requires
        key_of_held(entries, first, key),
        key_of_held(entries, second, key),
    ensures
        first == second,
{
    let p = path_text(first.official_path);
    let q = path_text(second.official_path);
    if key == d_key(p) {
        if key == d_key(q) {
            lemma_record_key_path(p, q);
        } else {
            lemma_index_write_family(second, false, key, p);
        }
    } else {
        if key == d_key(q) {
            lemma_index_write_family(first, false, key, q);
        } else {
            lemma_shared_index_key(first, second, key);
        }
    }
}


/// Whether a key is written when a definition is put into the index: the
/// key of its record, or one of its keys in the two indexes.
pub open spec fn written_for(definition: AltDefinitionView, key: Seq<char>) -> bool {
    key == d_key(path_text(definition.official_path)) || is_index_key_of(definition, key)
}

/// Whether the definitions can be put into the index as new ones: each is
/// well formed, none stands at a path that the index holds already, and
/// no two of them stand at one path.
pub open spec fn are_new(
    entries: Map<Seq<char>, Seq<u8>>,
    definitions: Seq<AltDefinitionView>,
) -> bool {
    &&& forall|i: int|
        0 <= i < definitions.len() ==> is_definition(#[trigger] definitions[i])
            && !entries.contains_key(d_key(path_text(definitions[i].official_path)))
    &&& forall|i: int, j: int|
        0 <= i < j < definitions.len() ==> path_text((#[trigger] definitions[i]).official_path)
            != path_text((#[trigger] definitions[j]).official_path)
}

/// The writes that put one definition in put values in only, go to the
/// keys written for it, and put its record under its record's key.
pub proof fn lemma_definition_writes(
    definition: AltDefinitionView,
    record: Seq<u8>,
    key: Seq<char>,
)
    ensures
        forall|i: int|
            0 <= i < definition_writes(definition, record).len() ==> (#[trigger] definition_writes(
                definition,
                record,
            )[i]).1 is Some,
        writes_to(definition_writes(definition, record), key) <==> written_for(definition, key),
        forall|i: int, full: Seq<char>|
            0 <= i < definition_writes(definition, record).len() && (#[trigger] definition_writes(
                definition,
                record,
            )[i]).0 == #[trigger] d_key(full) ==> full == path_text(definition.official_path)
                && definition_writes(definition, record)[i].1 == Some(record),
{
    let own = path_text(definition.official_path);
    let head = seq![(d_key(own), Some(record))];
    let tail = index_writes(definition, false);
    let all = definition_writes(definition, record);
    lemma_writes_to_concat(head, tail, key);
    lemma_index_writes_keys(definition, key);
    assert(head[0].0 == d_key(own));
    assert forall|i: int| 0 <= i < all.len() implies (#[trigger] all[i]).1 is Some by {
        if i > 0 {
            assert(all[i] == tail[i - 1]);
        }
    }
    assert forall|i: int, full: Seq<char>|
        0 <= i < all.len() && (#[trigger] all[i]).0 == #[trigger] d_key(full) implies full == own
        && all[i].1 == Some(record) by {
        if i > 0 {
            assert(all[i] == tail[i - 1]);
            assert(writes_to(tail, d_key(full)));
            lemma_index_write_family(definition, false, d_key(full), full);
        } else {
            lemma_record_key_path(full, own);
        }
    }
}

/// The writes that put definitions in put values in only, go to the keys
/// written for one of them, and put under the key of a record the record
/// of a definition that stands at that path.
pub proof fn lemma_record_writes(definitions: Seq<AltDefinitionView>, key: Seq<char>)
    requires
        record_writes(definitions) is Some,
    ensures
        forall|i: int|
            0 <= i < record_writes(definitions)->0.len() ==> (#[trigger] record_writes(
                definitions,
            )->0[i]).1 is Some,
        writes_to(record_writes(definitions)->0, key) <==> exists|i: int|
            0 <= i < definitions.len() && written_for(#[trigger] definitions[i], key),
        forall|at: int, full: Seq<char>|
            0 <= at < record_writes(definitions)->0.len() && (#[trigger] record_writes(
                definitions,
            )->0[at]).0 == #[trigger] d_key(full) ==> exists|i: int|
                0 <= i < definitions.len() && path_text((#[trigger] definitions[i]).official_path)
                    == full && record_writes(definitions)->0[at].1 == definition_record(
                    definitions[i],
                ),
    decreases definitions.len(),
{
    let writes = record_writes(definitions)->0;
    if definitions.len() > 0 {
        let front = definitions.drop_last();
        let last = definitions.last();
        let record = definition_record(last)->0;
        let head = record_writes(front)->0;
        let tail = definition_writes(last, record);
        assert(writes == head + tail);
        lemma_record_writes(front, key);
        lemma_definition_writes(last, record, key);
        lemma_writes_to_concat(head, tail, key);
        assert forall|i: int| 0 <= i < writes.len() implies (#[trigger] writes[i]).1 is Some by {
            if i < head.len() {
                assert(writes[i] == head[i]);
            } else {
                assert(writes[i] == tail[i - head.len()]);
            }
        }
        if writes_to(head, key) {
            let i = choose|i: int| 0 <= i < front.len() && written_for(#[trigger] front[i], key);
            assert(definitions[i] == front[i]);
        }
        if writes_to(tail, key) {
            assert(definitions[definitions.len() - 1] == last);
        }
        if exists|i: int| 0 <= i < definitions.len() && written_for(#[trigger] definitions[i], key) {
            let i = choose|i: int|
                0 <= i < definitions.len() && written_for(#[trigger] definitions[i], key);
            if i < front.len() {
                assert(front[i] == definitions[i]);
            }
        }
        assert forall|at: int, full: Seq<char>|
            0 <= at < writes.len() && (#[trigger] writes[at]).0 == #[trigger] d_key(
                full,
            ) implies exists|i: int|
            0 <= i < definitions.len() && path_text((#[trigger] definitions[i]).official_path)
                == full && writes[at].1 == definition_record(definitions[i]) by {
            if at < head.len() {
                assert(writes[at] == head[at]);
                let i = choose|i: int|
                    0 <= i < front.len() && path_text((#[trigger] front[i]).official_path) == full
                        && head[at].1 == definition_record(front[i]);
                assert(definitions[i] == front[i]);
            } else {
                assert(writes[at] == tail[at - head.len()]);
                assert(definitions[definitions.len() - 1] == last);
            }
        }
    } else {
        assert(!writes_to(writes, key));
    }
}

/// After new definitions have been put in, the index holds each of them,
/// and holds what it held before.
pub proof fn lemma_added_is_held(
    entries: Map<Seq<char>, Seq<u8>>,
    definitions: Seq<AltDefinitionView>,
    definition: AltDefinitionView,
)
    requires
        are_new(entries, definitions),
        record_writes(definitions) is Some,
    ensures
        holds_definition(apply_writes(entries, record_writes(definitions)->0), definition) <==> (
        holds_definition(entries, definition) || exists|i: int|
            0 <= i < definitions.len() && #[trigger] definitions[i] == definition),
{
    let writes = record_writes(definitions)->0;
    let after = apply_writes(entries, writes);
    let own = path_text(definition.official_path);
    let key = d_key(own);
    lemma_record_writes(definitions, key);
    lemma_apply_inserts(entries, writes);
    if writes_to(writes, key) {
        let at = choose|at: int| 0 <= at < writes.len() && (#[trigger] writes[at]) == (
            key,
            Some(after[key]),
        );
        assert(writes[at].0 == d_key(own));
        let i = choose|i: int|
            0 <= i < definitions.len() && path_text((#[trigger] definitions[i]).official_path)
                == own && writes[at].1 == definition_record(definitions[i]);
        assert(is_definition(definitions[i]));
        assert(!entries.contains_key(key));
        assert(record_definition(after[key]) == Some(definitions[i]));
        if exists|j: int| 0 <= j < definitions.len() && #[trigger] definitions[j] == definition {
            let j = choose|j: int| 0 <= j < definitions.len() && #[trigger] definitions[j]
                == definition;
            if i < j {
                assert(path_text(definitions[i].official_path) != path_text(
                    definitions[j].official_path,
                ));
            }
            if j < i {
                assert(path_text(definitions[j].official_path) != path_text(
                    definitions[i].official_path,
                ));
            }
        }
    } else {
        if exists|j: int| 0 <= j < definitions.len() && #[trigger] definitions[j] == definition {
            let j = choose|j: int| 0 <= j < definitions.len() && #[trigger] definitions[j]
                == definition;
            assert(written_for(definitions[j], key));
        }
        if entries.contains_key(key) {
            assert(after[key] == entries[key]);
        }
    }
}

/// Putting new definitions into a well-kept index leaves it well kept.
pub proof fn law_add_keeps_index(
    entries: Map<Seq<char>, Seq<u8>>,
    definitions: Seq<AltDefinitionView>,
)
    requires
        well_kept(entries),
        are_new(entries, definitions),
        record_writes(definitions) is Some,
    ensures
        well_kept(apply_writes(entries, record_writes(definitions)->0)),
{
    let writes = record_writes(definitions)->0;
    let after = apply_writes(entries, writes);
    lemma_record_writes(definitions, Seq::empty());
    lemma_apply_inserts(entries, writes);
    assert forall|key: Seq<char>| #[trigger] after.contains_key(key) implies exists|
        definition: AltDefinitionView,
    | #[trigger] key_of_held(after, definition, key) by {
        lemma_record_writes(definitions, key);
        if writes_to(writes, key) {
            let i = choose|i: int|
                0 <= i < definitions.len() && written_for(#[trigger] definitions[i], key);
            lemma_added_is_held(entries, definitions, definitions[i]);
            assert(key_of_held(after, definitions[i], key));
        } else {
            let owner = lemma_key_owner(entries, key);
            lemma_added_is_held(entries, definitions, owner);
            assert(key_of_held(after, owner, key));
        }
    }
    assert forall|definition: AltDefinitionView, key: Seq<char>| #[trigger]
        key_of_held(after, definition, key) implies after.contains_key(key) by {
        lemma_added_is_held(entries, definitions, definition);
        lemma_record_writes(definitions, key);
        if holds_definition(entries, definition) {
            assert(key_of_held(entries, definition, key));
            lemma_owner_key(entries, definition, key);
        } else {
            let i = choose|i: int| 0 <= i < definitions.len() && #[trigger] definitions[i]
                == definition;
            assert(written_for(definitions[i], key));
        }
    }
    reveal(well_kept);
}


/// Putting no definition in writes nothing: the index stays as it is.
pub proof fn law_nothing_added(entries: Map<Seq<char>, Seq<u8>>)
    ensures
        record_writes(Seq::<AltDefinitionView>::empty()) == Some(
            Seq::<(Seq<char>, Option<Seq<u8>>)>::empty(),
        ),
        apply_writes(entries, record_writes(Seq::<AltDefinitionView>::empty())->0) == entries,
{
}

/// A usage without targets has no key in the usage index.
pub proof fn law_usage_without_target(usage: UsageView, full: Seq<char>, remove: bool)
    requires
        usage.targets_for_guesswork.len() == 0,
    ensures
        crate::keys::usage_writes(usage, full, remove).len() == 0,
{
}

/// A usage whose first target is the sentinel alone has no key in the
/// usage index.
pub proof fn law_usage_of_unknown_root(usage: UsageView, full: Seq<char>, remove: bool)
    requires
        usage.targets_for_guesswork.len() > 0,
        usage.targets_for_guesswork[0] == crate::keys::sentinel(),
    ensures
        crate::keys::usage_writes(usage, full, remove).len() == 0,
{
    let text = usage.targets_for_guesswork[0];
    crate::path_laws::lemma_split_one(text, crate::model::path_separator());
    assert(crate::keys::path_components(text) == seq![text]);
    assert(usage_target(usage).len() == 0);
}

/// The keys of the suffix index that lead to a full path.
pub open spec fn suffix_keys(entries: Map<Seq<char>, Seq<u8>>, full: Seq<char>) -> Set<Seq<char>> {
    Set::new(
        |key: Seq<char>|
            entries.contains_key(key) && exists|short: Seq<char>| key == #[trigger] c_key(short, full),
    )
}

/// The keys that lead to a path from its first suffixes.
pub open spec fn first_suffix_keys(path: Seq<Seq<char>>, count: int) -> Set<Seq<char>> {
    Set::new(
        |key: Seq<char>|
            exists|i: int|
                0 <= i < count && key == c_key(path_text(#[trigger] path.skip(i)), path_text(path)),
    )
}

/// The keys that lead to a path from two of its suffixes are two keys.
pub proof fn lemma_suffix_keys_differ(path: Seq<Seq<char>>, first: int, second: int)
    requires
        is_path(path),
        0 <= first < path.len(),
        0 <= second < path.len(),
        c_key(path_text(path.skip(first)), path_text(path)) == c_key(
            path_text(path.skip(second)),
            path_text(path),
        ),
    ensures
        first == second,
{
    let full = path_text(path);
    lemma_suffix_is_path(path, first);
    lemma_suffix_is_path(path, second);
    lemma_suffix_is_path(path, 0);
    assert(path.skip(0) =~= path);
    crate::path_laws::lemma_split_path_text(path);
    plain_path_text(path);
    plain_path_text(path.skip(first));
    lemma_index_key_parts(
        c_family(),
        path_text(path.skip(first)),
        full,
        path_text(path.skip(second)),
        full,
    );
    lemma_path_text_injective(path.skip(first), path.skip(second));
    assert(path.skip(first).len() == path.len() - first);
    assert(path.skip(second).len() == path.len() - second);
}

/// The text of a path holds no white space.
pub proof fn plain_path_text(path: Seq<Seq<char>>)
    requires
        is_path(path),
    ensures
        no_whitespace(path_text(path)),
{
    assert forall|i: int| 0 <= i < path.len() implies no_whitespace(#[trigger] path[i]) by {
        assert(crate::path_laws::is_component(path[i]));
    }
    crate::path_laws::lemma_path_text_plain(path);
}

/// A path has as many keys from its first suffixes as suffixes were
/// taken.
pub proof fn lemma_first_suffix_keys(path: Seq<Seq<char>>, count: int)
    requires
        is_path(path),
        0 <= count <= path.len(),
    ensures
        first_suffix_keys(path, count).finite(),
        first_suffix_keys(path, count).len() == count,
    decreases count,
{
    if count == 0 {
        assert(first_suffix_keys(path, count) =~= Set::<Seq<char>>::empty());
    } else {
        lemma_first_suffix_keys(path, count - 1);
        let fewer = first_suffix_keys(path, count - 1);
        let key = c_key(path_text(path.skip(count - 1)), path_text(path));
        if fewer.contains(key) {
            let i = choose|i: int|
                0 <= i < count - 1 && key == c_key(
                    path_text(#[trigger] path.skip(i)),
                    path_text(path),
                );
            lemma_suffix_keys_differ(path, i, count - 1);
        }
        assert(first_suffix_keys(path, count) =~= fewer.insert(key)) by {
            assert forall|k: Seq<char>| first_suffix_keys(path, count).contains(k) implies fewer.insert(
                key,
            ).contains(k) by {
                let i = choose|i: int|
                    0 <= i < count && k == c_key(
                        path_text(#[trigger] path.skip(i)),
                        path_text(path),
                    );
                if i < count - 1 {
                    assert(fewer.contains(k));
                }
            }
            assert forall|k: Seq<char>| fewer.insert(key).contains(k) implies first_suffix_keys(
                path,
                count,
            ).contains(k) by {
                if k == key {
                    assert(k == c_key(path_text(path.skip(count - 1)), path_text(path)));
                } else {
                    let i = choose|i: int|
                        0 <= i < count - 1 && k == c_key(
                            path_text(#[trigger] path.skip(i)),
                            path_text(path),
                        );
                    assert(0 <= i < count);
                }
            }
        }
    }
}

/// A well-kept index holds, for each definition that it holds, as many
/// keys of the suffix index that lead to the definition's full path as
/// the path has components.
pub proof fn law_suffix_keys_count(entries: Map<Seq<char>, Seq<u8>>, definition: AltDefinitionView)
    requires
        well_kept(entries),
        holds_definition(entries, definition),
    ensures
        suffix_keys(entries, path_text(definition.official_path)).finite(),
        suffix_keys(entries, path_text(definition.official_path)).len()
            == definition.official_path.len(),
{
    let path = definition.official_path;
    let full = path_text(path);
    let count = path.len() as int;
    lemma_first_suffix_keys(path, count);
    assert forall|key: Seq<char>| suffix_keys(entries, full).contains(key) implies first_suffix_keys(
        path,
        count,
    ).contains(key) by {
        let short = choose|short: Seq<char>| key == #[trigger] c_key(short, full);
        let owner = crate::laws::lemma_index_key_owner(entries, c_family(), short, full);
        assert(owner == definition);
        lemma_suffix_key_short(definition, short);
        let m = choose|m: int| 0 <= m < path.len() && path_text(#[trigger] path.skip(m)) == short;
        assert(key == c_key(path_text(path.skip(m)), full));
    }
    assert forall|key: Seq<char>| first_suffix_keys(path, count).contains(key) implies suffix_keys(
        entries,
        full,
    ).contains(key) by {
        let i = choose|i: int|
            0 <= i < count && key == c_key(path_text(#[trigger] path.skip(i)), full);
        let short = path_text(path.skip(i));
        assert(ends_in(path, short));
        lemma_short_has_key(definition, short);
        assert(key_of_held(entries, definition, key));
        lemma_owner_key(entries, definition, key);
        assert(key == c_key(short, full));
    }
    assert(suffix_keys(entries, full) =~= first_suffix_keys(path, count));
}


/// A key of a well-kept index is written for no new definition.
pub proof fn lemma_new_keys_are_new(
    entries: Map<Seq<char>, Seq<u8>>,
    definitions: Seq<AltDefinitionView>,
    at: int,
    key: Seq<char>,
)
    requires
        well_kept(entries),
        are_new(entries, definitions),
        0 <= at < definitions.len(),
        written_for(definitions[at], key),
    ensures
        !entries.contains_key(key),
{
    let own = path_text(definitions[at].official_path);
    if entries.contains_key(key) {
        let holder = lemma_key_owner(entries, key);
        let other = path_text(holder.official_path);
        assert(key_of_held(entries, holder, d_key(other)));
        lemma_owner_key(entries, holder, d_key(other));
        if key == d_key(own) {
        } else if key == d_key(other) {
            lemma_index_write_family(definitions[at], false, key, other);
        } else {
            lemma_shared_index_key(definitions[at], holder, key);
        }
        assert(false);
    }
}

/// Putting the definitions of a file into a well-kept index that holds
/// nothing of that file, and taking the file out again, leaves the index
/// as it was.
pub proof fn law_add_then_remove_restores(
    entries: Map<Seq<char>, Seq<u8>>,
    definitions: Seq<AltDefinitionView>,
    cpath: Seq<char>,
)
    requires
        well_kept(entries),
        are_new(entries, definitions),
        record_writes(definitions) is Some,
        forall|i: int|
            0 <= i < definitions.len() ==> crate::text::starts_with(
                path_text((#[trigger] definitions[i]).official_path),
                crate::path::file_prefix_text(cpath),
            ),
        forall|key: Seq<char>| #[trigger]
            entries.contains_key(key) ==> !crate::text::starts_with(key, file_records_prefix(cpath)),
        is_scan(
            apply_writes(entries, record_writes(definitions)->0),
            file_records_prefix(cpath),
            scan(apply_writes(entries, record_writes(definitions)->0), file_records_prefix(cpath)),
        ),
    ensures
        without_file(apply_writes(entries, record_writes(definitions)->0), cpath) == entries,
{
    let writes = record_writes(definitions)->0;
    let after = apply_writes(entries, writes);
    let stem = crate::path::file_prefix_text(cpath);
    let prefix = file_records_prefix(cpath);
    let found = scan(after, prefix);
    let removal = removal_writes(found);
    let restored = without_file(after, cpath);
    law_add_keeps_index(entries, definitions);
    lemma_record_writes(definitions, Seq::empty());
    lemma_apply_inserts(entries, writes);
    lemma_removal_writes(found, Seq::empty());
    lemma_apply_removals(after, removal);
    assert forall|key: Seq<char>| #[trigger] entries.contains_key(key) implies restored.contains_key(
        key,
    ) && restored[key] == entries[key] by {
        lemma_record_writes(definitions, key);
        if writes_to(writes, key) {
            let i = choose|i: int|
                0 <= i < definitions.len() && written_for(#[trigger] definitions[i], key);
            lemma_new_keys_are_new(entries, definitions, i, key);
        }
        assert(after.contains_key(key));
        assert(after[key] == entries[key]);
        if writes_to(removal, key) {
            let gone = lemma_removed_key(after, found, stem, key);
            lemma_added_is_held(entries, definitions, gone);
            let record_key = d_key(path_text(gone.official_path));
            if holds_definition(entries, gone) {
                assert(key_of_held(entries, gone, record_key));
                lemma_owner_key(entries, gone, record_key);
            } else {
                let i = choose|i: int| 0 <= i < definitions.len() && #[trigger] definitions[i]
                    == gone;
                lemma_new_keys_are_new(entries, definitions, i, key);
            }
            assert(false);
        }
    }
    assert forall|key: Seq<char>| #[trigger] restored.contains_key(key) implies entries.contains_key(
        key,
    ) by {
        lemma_record_writes(definitions, key);
        if writes_to(writes, key) {
            let i = choose|i: int|
                0 <= i < definitions.len() && written_for(#[trigger] definitions[i], key);
            let definition = definitions[i];
            let own = path_text(definition.official_path);
            lemma_added_is_held(entries, definitions, definition);
            assert(key_of_held(after, definition, d_key(own)));
            lemma_owner_key(after, definition, d_key(own));
            crate::laws::lemma_record_goes(after, cpath, own);
            assert(key_of_held(after, definition, key));
            lemma_entry_removal_covers(after, definition, key);
            assert(false);
        }
    }
    assert(restored =~= entries);
}

} // verus!
