//! What holds of the answers that a well-kept index gives.

use vstd::prelude::*;
use crate::index::{
    candidate_paths,
    definitions_of,
    least_depth,
    lookups,
    matching_paths,
    paths_at_depth,
    shortest_paths,
    stored_definition,
};
use crate::keys::{
    c_family,
    c_key,
    d_key,
    depth,
    index_key,
    parse_index_key,
    suffix_writes,
    u_family,
    usages_writes,
};
use crate::laws::{
    holds_definition,
    is_definition,
    is_index_key_of,
    key_of_held,
    leads_to,
    lemma_index_key_parts,
    lemma_owner_key,
    lemma_usages_writes_lead,
    lemma_writes_to_concat,
    well_kept,
    writes_to,
};
use crate::model::{AltDefinitionView, path_text};
use crate::path_laws::{
    is_component,
    is_path,
    lemma_parse_index_key,
    lemma_path_text_injective,
    lemma_path_text_plain,
    lemma_split_path_text,
    no_whitespace,
};
use crate::store::{bytes_before, is_scan, lemma_bytes_before_irreflexive, lemma_scan_unique, scan};
use crate::text::starts_with;
use vstd::utf8::encode_utf8;

verus! {

/// Whether a path ends in a short path: the short path is the text of one
/// of its suffixes that is not empty.
pub open spec fn ends_in(path: Seq<Seq<char>>, short: Seq<char>) -> bool {
    exists|m: int| 0 <= m < path.len() && path_text(#[trigger] path.skip(m)) == short
}

/// A full path that a listing leads to comes from one of its keys.
pub proof fn lemma_path_source(found: Seq<(Seq<char>, Seq<u8>)>, left: Seq<char>, at: int) -> (from:
    int)
    requires
        0 <= at < matching_paths(found, left).len(),
    ensures
        0 <= from < found.len(),
        parse_index_key(found[from].0, left) == Some(matching_paths(found, left)[at]),
    decreases found.len(),
{
    let front = found.drop_last();
    let before = matching_paths(front, left);
    if at < before.len() {
        let from = lemma_path_source(front, left, at);
        assert(found[from] == front[from]);
        assert(matching_paths(found, left)[at] == before[at]);
        from
    } else {
        found.len() - 1
    }
}

/// A key of a listing that leads somewhere has its full path among those
/// that the listing leads to.
pub proof fn lemma_path_listed(found: Seq<(Seq<char>, Seq<u8>)>, left: Seq<char>, from: int) -> (at:
    int)
    requires
        0 <= from < found.len(),
        parse_index_key(found[from].0, left) is Some,
    ensures
        0 <= at < matching_paths(found, left).len(),
        Some(matching_paths(found, left)[at]) == parse_index_key(found[from].0, left),
    decreases found.len(),
{
    let front = found.drop_last();
    let before = matching_paths(front, left);
    if from < front.len() {
        assert(front[from] == found[from]);
        let at = lemma_path_listed(front, left, from);
        assert(matching_paths(found, left)[at] == before[at]);
        at
    } else {
        matching_paths(found, left).len() - 1
    }
}

/// The least depth is the depth of one of the paths, and no path lies
/// less deep.
pub proof fn lemma_least_depth(paths: Seq<Seq<char>>)
    requires
        paths.len() > 0,
    ensures
        forall|i: int| 0 <= i < paths.len() ==> least_depth(paths) <= depth(#[trigger] paths[i]),
        exists|i: int| 0 <= i < paths.len() && depth(#[trigger] paths[i]) == least_depth(paths),
    decreases paths.len(),
{
    if paths.len() > 1 {
        let front = paths.drop_last();
        lemma_least_depth(front);
        assert forall|i: int| 0 <= i < paths.len() implies least_depth(paths) <= depth(
            #[trigger] paths[i],
        ) by {
            if i < front.len() {
                assert(front[i] == paths[i]);
            }
        }
        let k = choose|i: int| 0 <= i < front.len() && depth(#[trigger] front[i]) == least_depth(
            front,
        );
        assert(front[k] == paths[k]);
        if depth(paths.last()) < least_depth(front) {
            assert(depth(paths[paths.len() - 1]) == least_depth(paths));
        } else {
            assert(depth(paths[k]) == least_depth(paths));
        }
    } else {
        assert(depth(paths[0]) == least_depth(paths));
    }
}

/// A path kept at a depth is one of the paths and lies at that depth.
pub proof fn lemma_kept_source(paths: Seq<Seq<char>>, wanted: nat, at: int) -> (from: int)
    requires
        0 <= at < paths_at_depth(paths, wanted).len(),
    ensures
        0 <= from < paths.len(),
        paths[from] == paths_at_depth(paths, wanted)[at],
        depth(paths[from]) == wanted,
    decreases paths.len(),
{
    let front = paths.drop_last();
    let before = paths_at_depth(front, wanted);
    if at < before.len() {
        let from = lemma_kept_source(front, wanted, at);
        assert(paths[from] == front[from]);
        assert(paths_at_depth(paths, wanted)[at] == before[at]);
        from
    } else {
        paths.len() - 1
    }
}

/// A definition found at the paths stands in the index at one of them.
pub proof fn lemma_lookup_source(entries: Map<Seq<char>, Seq<u8>>, paths: Seq<Seq<char>>, at: int) -> (from:
    int)
    requires
        0 <= at < lookups(entries, paths).len(),
    ensures
        0 <= from < paths.len(),
        stored_definition(entries, paths[from]) == Some(lookups(entries, paths)[at]),
    decreases paths.len(),
{
    let front = paths.drop_last();
    let before = lookups(entries, front);
    if at < before.len() {
        let from = lemma_lookup_source(entries, front, at);
        assert(paths[from] == front[from]);
        assert(lookups(entries, paths)[at] == before[at]);
        from
    } else {
        paths.len() - 1
    }
}

/// A key of the suffix index that a held definition has leads from one of
/// the definition's short paths.
pub proof fn lemma_suffix_key_short(definition: AltDefinitionView, short: Seq<char>)
    requires
        is_definition(definition),
        is_index_key_of(definition, c_key(short, path_text(definition.official_path))),
    ensures
        ends_in(definition.official_path, short),
{
    let path = definition.official_path;
    let full = path_text(path);
    let key = c_key(short, full);
    let c_writes = suffix_writes(c_family(), path, full, false);
    let u_writes = usages_writes(definition.usages, full, false);
    lemma_writes_to_concat(c_writes, u_writes, key);
    assert forall|i: int| 0 <= i < path.len() implies no_whitespace(#[trigger] path[i]) by {
        assert(is_component(path[i]));
    }
    lemma_path_text_plain(path);
    if writes_to(u_writes, key) {
        lemma_usages_writes_lead(definition.usages, full, false, key);
        let s = choose|s: Seq<char>|
            no_whitespace(s) && key == #[trigger] index_key(u_family(), s, full);
        assert(index_key(u_family(), s, full)[0] == 'u');
        assert(key[0] == 'c');
        assert(false);
    }
    let m = choose|m: int| 0 <= m < c_writes.len() && (#[trigger] c_writes[m]).0 == key;
    let rest = path.skip(m);
    assert forall|i: int| 0 <= i < rest.len() implies no_whitespace(#[trigger] rest[i]) by {
        assert(rest[i] == path[m + i]);
    }
    lemma_path_text_plain(rest);
    lemma_index_key_parts(c_family(), path_text(rest), full, short, full);
}

/// A held definition that ends in a short path has the key that leads
/// from the short path to it.
pub proof fn lemma_short_has_key(definition: AltDefinitionView, short: Seq<char>)
    requires
        is_definition(definition),
        ends_in(definition.official_path, short),
    ensures
        is_index_key_of(definition, c_key(short, path_text(definition.official_path))),
        no_whitespace(short),
        no_whitespace(path_text(definition.official_path)),
{
    let path = definition.official_path;
    let full = path_text(path);
    let key = c_key(short, full);
    let m = choose|m: int| 0 <= m < path.len() && path_text(#[trigger] path.skip(m)) == short;
    let c_writes = suffix_writes(c_family(), path, full, false);
    let u_writes = usages_writes(definition.usages, full, false);
    assert(c_writes[m].0 == key);
    assert(writes_to(c_writes, key));
    lemma_writes_to_concat(c_writes, u_writes, key);
    assert forall|i: int| 0 <= i < path.len() implies no_whitespace(#[trigger] path[i]) by {
        assert(is_component(path[i]));
    }
    lemma_path_text_plain(path);
    let rest = path.skip(m);
    assert forall|i: int| 0 <= i < rest.len() implies no_whitespace(#[trigger] rest[i]) by {
        assert(rest[i] == path[m + i]);
    }
    lemma_path_text_plain(rest);
}

/// The full path that a key of a well-kept index leads to from a short
/// path is that of a definition that the index holds and that ends in
/// the short path.
pub proof fn lemma_candidate(
    entries: Map<Seq<char>, Seq<u8>>,
    short: Seq<char>,
    key: Seq<char>,
    full: Seq<char>,
) -> (owner: AltDefinitionView)
    requires
        well_kept(entries),
        entries.contains_key(key),
        starts_with(key, c_family() + short),
        parse_index_key(key, c_family() + short) == Some(full),
    ensures
        holds_definition(entries, owner),
        path_text(owner.official_path) == full,
        ends_in(owner.official_path, short),
        key == c_key(short, full),
        stored_definition(entries, full) == Some(owner),
        depth(full) == owner.official_path.len() - 1,
{
    let left = c_family() + short;
    let holder = crate::laws::lemma_key_owner(entries, key);
    let own = path_text(holder.official_path);
    assert(key[0] == left[0]);
    assert(d_key(own)[0] == 'd');
    assert(is_index_key_of(holder, key));
    crate::laws::lemma_index_key_leads(holder, key);
    if leads_to(key, u_family(), own) {
        let s = choose|s: Seq<char>|
            no_whitespace(s) && key == #[trigger] index_key(u_family(), s, own);
        assert(index_key(u_family(), s, own)[0] == 'u');
        assert(false);
    }
    let s = choose|s: Seq<char>| no_whitespace(s) && key == #[trigger] index_key(c_family(), s, own);
    lemma_parse_index_key(c_family(), s, own, left);
    assert(left == c_family() + s);
    assert(short =~= left.skip(2));
    assert(s =~= (c_family() + s).skip(2));
    assert(full == own);
    lemma_suffix_key_short(holder, short);
    lemma_split_path_text(holder.official_path);
    holder
}


/// The key that leads from a short path begins with the family and the
/// short path.
pub proof fn lemma_index_key_prefix(family: Seq<char>, short: Seq<char>, full: Seq<char>)
    ensures
        starts_with(index_key(family, short, full), family + short),
{
    let key = index_key(family, short, full);
    let left = family + short;
    assert(key.subrange(0, left.len() as int) =~= left);
}

/// The full path of a held definition that ends in a short path is among
/// the full paths that the suffix index gives for the short path.
pub proof fn lemma_held_is_candidate(
    entries: Map<Seq<char>, Seq<u8>>,
    short: Seq<char>,
    other: AltDefinitionView,
) -> (at: int)
    requires
        well_kept(entries),
        is_scan(entries, c_family() + short, scan(entries, c_family() + short)),
        holds_definition(entries, other),
        ends_in(other.official_path, short),
    ensures
        0 <= at < candidate_paths(entries, short).len(),
        candidate_paths(entries, short)[at] == path_text(other.official_path),
{
    let left = c_family() + short;
    let found = scan(entries, left);
    let full = path_text(other.official_path);
    let key = c_key(short, full);
    lemma_short_has_key(other, short);
    assert(key_of_held(entries, other, key));
    lemma_owner_key(entries, other, key);
    lemma_index_key_prefix(c_family(), short, full);
    let i = choose|i: int| 0 <= i < found.len() && (#[trigger] found[i]).0 == key;
    lemma_parse_index_key(c_family(), short, full, left);
    lemma_path_listed(found, left, i)
}

/// Each full path that the suffix index gives for a short path is that
/// of a definition that the index holds and that ends in the short path.
pub proof fn lemma_candidate_is_held(
    entries: Map<Seq<char>, Seq<u8>>,
    short: Seq<char>,
    at: int,
) -> (owner: AltDefinitionView)
    requires
        well_kept(entries),
        is_scan(entries, c_family() + short, scan(entries, c_family() + short)),
        0 <= at < candidate_paths(entries, short).len(),
    ensures
        holds_definition(entries, owner),
        path_text(owner.official_path) == candidate_paths(entries, short)[at],
        ends_in(owner.official_path, short),
        stored_definition(entries, candidate_paths(entries, short)[at]) == Some(owner),
        depth(candidate_paths(entries, short)[at]) == owner.official_path.len() - 1,
{
    let left = c_family() + short;
    let found = scan(entries, left);
    let full = candidate_paths(entries, short)[at];
    let i = lemma_path_source(found, left, at);
    lemma_candidate(entries, short, found[i].0, full)
}

/// Each definition that a short path means is held by the index and ends
/// in the short path, and no held definition that ends in the short path
/// has fewer components.
pub proof fn law_definitions_lie_least_deep(
    entries: Map<Seq<char>, Seq<u8>>,
    short: Seq<char>,
    at: int,
    other: AltDefinitionView,
)
    requires
        well_kept(entries),
        is_scan(entries, c_family() + short, scan(entries, c_family() + short)),
        0 <= at < definitions_of(entries, short).len(),
        holds_definition(entries, other),
        ends_in(other.official_path, short),
    ensures
        holds_definition(entries, definitions_of(entries, short)[at]),
        ends_in(definitions_of(entries, short)[at].official_path, short),
        definitions_of(entries, short)[at].official_path.len() <= other.official_path.len(),
{
    let candidates = candidate_paths(entries, short);
    let kept = shortest_paths(candidates);
    let found = definitions_of(entries, short)[at];
    let i = lemma_lookup_source(entries, kept, at);
    let m = lemma_kept_source(candidates, least_depth(candidates), i);
    let owner = lemma_candidate_is_held(entries, short, m);
    assert(owner == found);
    let n = lemma_held_is_candidate(entries, short, other);
    let same = lemma_candidate_is_held(entries, short, n);
    assert(same == other);
    lemma_least_depth(candidates);
    assert(least_depth(candidates) <= depth(candidates[n]));
    assert(depth(candidates[m]) == least_depth(candidates));
}

/// The definitions that a short path means have all the same number of
/// components.
pub proof fn law_definitions_lie_equally_deep(
    entries: Map<Seq<char>, Seq<u8>>,
    short: Seq<char>,
    first: int,
    second: int,
)
    requires
        well_kept(entries),
        is_scan(entries, c_family() + short, scan(entries, c_family() + short)),
        0 <= first < definitions_of(entries, short).len(),
        0 <= second < definitions_of(entries, short).len(),
    ensures
        definitions_of(entries, short)[first].official_path.len() == definitions_of(
            entries,
            short,
        )[second].official_path.len(),
{
    let found = definitions_of(entries, short);
    lemma_found_is_held(entries, short, first);
    lemma_found_is_held(entries, short, second);
    law_definitions_lie_least_deep(entries, short, first, found[second]);
    law_definitions_lie_least_deep(entries, short, second, found[first]);
}

/// Each definition that a short path means is held by the index and ends
/// in the short path.
pub proof fn lemma_found_is_held(entries: Map<Seq<char>, Seq<u8>>, short: Seq<char>, at: int)
    requires
        well_kept(entries),
        is_scan(entries, c_family() + short, scan(entries, c_family() + short)),
        0 <= at < definitions_of(entries, short).len(),
    ensures
        holds_definition(entries, definitions_of(entries, short)[at]),
        ends_in(definitions_of(entries, short)[at].official_path, short),
{
    let candidates = candidate_paths(entries, short);
    let kept = shortest_paths(candidates);
    let found = definitions_of(entries, short)[at];
    let i = lemma_lookup_source(entries, kept, at);
    let m = lemma_kept_source(candidates, least_depth(candidates), i);
    let owner = lemma_candidate_is_held(entries, short, m);
    assert(owner == found);
}

/// Whether a key leads from `left` to no path, or to one that lies deeper
/// than `floor`.
pub open spec fn leads_deeper(key: Seq<char>, left: Seq<char>, floor: nat) -> bool {
    match parse_index_key(key, left) {
        Some(path) => depth(path) > floor,
        None => true,
    }
}

/// Where every key leads deeper than a floor, no path lies at the floor,
/// and the least depth lies above it.
pub proof fn lemma_all_deeper(found: Seq<(Seq<char>, Seq<u8>)>, left: Seq<char>, floor: nat)
    requires
        forall|i: int| 0 <= i < found.len() ==> leads_deeper((#[trigger] found[i]).0, left, floor),
    ensures
        paths_at_depth(matching_paths(found, left), floor) == Seq::<Seq<char>>::empty(),
        matching_paths(found, left).len() > 0 ==> least_depth(matching_paths(found, left)) > floor,
    decreases found.len(),
{
    if found.len() > 0 {
        let front = found.drop_last();
        assert forall|i: int| 0 <= i < front.len() implies leads_deeper(
            (#[trigger] front[i]).0,
            left,
            floor,
        ) by {
            assert(front[i] == found[i]);
        }
        lemma_all_deeper(front, left, floor);
        let before = matching_paths(front, left);
        let all = matching_paths(found, left);
        assert(leads_deeper(found[found.len() - 1].0, left, floor));
        match parse_index_key(found.last().0, left) {
            Some(path) => {
                assert(all == before.push(path));
                assert(all.drop_last() =~= before);
                assert(all.last() == path);
            },
            None => {},
        }
    }
}

/// Where one key leads to a path and every other key leads deeper, that
/// path alone lies least deep.
pub proof fn lemma_one_least(
    found: Seq<(Seq<char>, Seq<u8>)>,
    left: Seq<char>,
    at: int,
    path: Seq<char>,
)
    requires
        0 <= at < found.len(),
        parse_index_key(found[at].0, left) == Some(path),
        forall|i: int|
            0 <= i < found.len() && i != at ==> leads_deeper(
                (#[trigger] found[i]).0,
                left,
                depth(path),
            ),
    ensures
        shortest_paths(matching_paths(found, left)) == seq![path],
    decreases found.len(),
{
    let floor = depth(path);
    let front = found.drop_last();
    let before = matching_paths(front, left);
    let all = matching_paths(found, left);
    if at == found.len() - 1 {
        assert forall|i: int| 0 <= i < front.len() implies leads_deeper(
            (#[trigger] front[i]).0,
            left,
            floor,
        ) by {
            assert(front[i] == found[i]);
        }
        lemma_all_deeper(front, left, floor);
        assert(all == before.push(path));
        assert(all.drop_last() =~= before);
        assert(all.last() == path);
        assert(least_depth(all) == floor);
        assert(paths_at_depth(all, floor) =~= seq![path]);
    } else {
        assert(front[at] == found[at]);
        assert forall|i: int| 0 <= i < front.len() && i != at implies leads_deeper(
            (#[trigger] front[i]).0,
            left,
            floor,
        ) by {
            assert(front[i] == found[i]);
        }
        lemma_one_least(front, left, at, path);
        assert(leads_deeper(found[found.len() - 1].0, left, floor));
        lemma_path_listed(front, left, at);
        assert(before.len() > 0);
        lemma_shortest_depth(before, path);
        match parse_index_key(found.last().0, left) {
            Some(other) => {
                assert(all == before.push(other));
                assert(all.drop_last() =~= before);
                assert(all.last() == other);
                assert(least_depth(all) == floor);
            },
            None => {},
        }
    }
}

/// Where one path alone lies least deep, the least depth is its depth.
pub proof fn lemma_shortest_depth(paths: Seq<Seq<char>>, path: Seq<char>)
    requires
        paths.len() > 0,
        shortest_paths(paths) == seq![path],
    ensures
        least_depth(paths) == depth(path),
{
    lemma_kept_source(paths, least_depth(paths), 0);
    assert(shortest_paths(paths)[0] == path);
}

/// Two keys at different places of a listing are different keys.
pub proof fn lemma_scan_keys_differ(
    entries: Map<Seq<char>, Seq<u8>>,
    prefix: Seq<char>,
    found: Seq<(Seq<char>, Seq<u8>)>,
    first: int,
    second: int,
)
    requires
        is_scan(entries, prefix, found),
        0 <= first < found.len(),
        0 <= second < found.len(),
        first != second,
    ensures
        found[first].0 != found[second].0,
{
    lemma_bytes_before_irreflexive(encode_utf8(found[first].0));
    if first < second {
        assert(bytes_before(encode_utf8(found[first].0), encode_utf8(found[second].0)));
    } else {
        assert(bytes_before(encode_utf8(found[second].0), encode_utf8(found[first].0)));
    }
}

/// A suffix of a path that is not empty is a path.
pub proof fn lemma_suffix_is_path(path: Seq<Seq<char>>, from: int)
    requires
        is_path(path),
        0 <= from < path.len(),
    ensures
        is_path(path.skip(from)),
{
    let rest = path.skip(from);
    assert forall|i: int| 0 <= i < rest.len() implies is_component(#[trigger] rest[i]) by {
        assert(rest[i] == path[from + i]);
    }
}

/// The full path of a definition that a well-kept index holds means that
/// definition and no other.
pub proof fn law_full_path_finds_definition(
    entries: Map<Seq<char>, Seq<u8>>,
    definition: AltDefinitionView,
)
    requires
        well_kept(entries),
        holds_definition(entries, definition),
        is_scan(
            entries,
            c_family() + path_text(definition.official_path),
            scan(entries, c_family() + path_text(definition.official_path)),
        ),
    ensures
        definitions_of(entries, path_text(definition.official_path)) == seq![definition],
{
    let path = definition.official_path;
    let full = path_text(path);
    let left = c_family() + full;
    let found = scan(entries, left);
    let key = c_key(full, full);
    assert(path.skip(0) =~= path);
    assert(ends_in(path, full));
    lemma_short_has_key(definition, full);
    assert(key_of_held(entries, definition, key));
    lemma_owner_key(entries, definition, key);
    lemma_index_key_prefix(c_family(), full, full);
    let at = choose|at: int| 0 <= at < found.len() && (#[trigger] found[at]).0 == key;
    lemma_parse_index_key(c_family(), full, full, left);
    lemma_split_path_text(path);
    assert forall|i: int| 0 <= i < found.len() && i != at implies leads_deeper(
        (#[trigger] found[i]).0,
        left,
        depth(full),
    ) by {
        lemma_scan_keys_differ(entries, left, found, i, at);
        match parse_index_key(found[i].0, left) {
            Some(other) => {
                let owner = lemma_candidate(entries, full, found[i].0, other);
                let m = choose|m: int|
                    0 <= m < owner.official_path.len() && path_text(
                        #[trigger] owner.official_path.skip(m),
                    ) == full;
                lemma_suffix_is_path(owner.official_path, m);
                lemma_path_text_injective(owner.official_path.skip(m), path);
                if m == 0 {
                    assert(owner.official_path.skip(0) =~= owner.official_path);
                    assert(false);
                }
            },
            None => {},
        }
    }
    lemma_one_least(found, left, at, full);
    let kept = seq![full];
    assert(kept.drop_last() =~= Seq::<Seq<char>>::empty());
    assert(kept.last() == full);
    assert(lookups(entries, kept.drop_last()) =~= Seq::<AltDefinitionView>::empty());
    assert(lookups(entries, kept) =~= seq![definition]);
}


/// Two listings of the suffix index under one short path, taken with no
/// write between them, give the same definitions in the same order.
pub proof fn law_definitions_are_repeatable(
    entries: Map<Seq<char>, Seq<u8>>,
    short: Seq<char>,
    first: Seq<(Seq<char>, Seq<u8>)>,
    second: Seq<(Seq<char>, Seq<u8>)>,
)
    requires
        is_scan(entries, c_family() + short, first),
        is_scan(entries, c_family() + short, second),
    ensures
        crate::index::definitions_from(entries, short, first) == crate::index::definitions_from(
            entries,
            short,
            second,
        ),
        crate::index::definitions_from(entries, short, first) == definitions_of(entries, short),
{
    lemma_scan_unique(entries, c_family() + short, first, second);
    lemma_scan_unique(entries, c_family() + short, first, scan(entries, c_family() + short));
}


/// Whether a definition uses a short path: the short path is the text of
/// a suffix, not empty, of the path under which one of its usages is
/// indexed.
#[verifier::opaque]
pub open spec fn uses(definition: AltDefinitionView, short: Seq<char>) -> bool {
    exists|i: int, m: int|
        0 <= i < definition.usages.len() && 0 <= m < crate::keys::usage_target(
            definition.usages[i],
        ).len() && #[trigger] usage_short(definition, i, m) == short
}

/// The short path that the usage at place `i` of a definition gives from
/// place `m` of its target on.
pub open spec fn usage_short(definition: AltDefinitionView, i: int, m: int) -> Seq<char> {
    path_text(crate::keys::usage_target(definition.usages[i]).skip(m))
}

/// The keys that usages have in the usage index are those that lead from
/// the short paths of their targets.
pub proof fn lemma_usages_writes_shorts(
    usages: Seq<crate::model::UsageView>,
    full: Seq<char>,
    key: Seq<char>,
)
    ensures
        writes_to(usages_writes(usages, full, false), key) <==> exists|i: int, m: int|
            0 <= i < usages.len() && 0 <= m < crate::keys::usage_target(usages[i]).len() && key
                == #[trigger] index_key(
                u_family(),
                path_text(crate::keys::usage_target(usages[i]).skip(m)),
                full,
            ),
    decreases usages.len(),
{
    if usages.len() > 0 {
        let front = usages.drop_last();
        let last = usages.last();
        let target = crate::keys::usage_target(last);
        let tail = suffix_writes(u_family(), target, full, false);
        lemma_usages_writes_shorts(front, full, key);
        lemma_writes_to_concat(usages_writes(front, full, false), tail, key);
        if writes_to(usages_writes(front, full, false), key) {
            let (i, m) = choose|i: int, m: int|
                0 <= i < front.len() && 0 <= m < crate::keys::usage_target(front[i]).len() && key
                    == #[trigger] index_key(
                    u_family(),
                    path_text(crate::keys::usage_target(front[i]).skip(m)),
                    full,
                );
            assert(usages[i] == front[i]);
            assert(key == index_key(
                u_family(),
                path_text(crate::keys::usage_target(usages[i]).skip(m)),
                full,
            ));
        }
        if writes_to(tail, key) {
            let m = choose|m: int| 0 <= m < tail.len() && (#[trigger] tail[m]).0 == key;
            let i = usages.len() - 1;
            assert(key == index_key(
                u_family(),
                path_text(crate::keys::usage_target(usages[i]).skip(m)),
                full,
            ));
        }
        if exists|i: int, m: int|
            0 <= i < usages.len() && 0 <= m < crate::keys::usage_target(usages[i]).len() && key
                == #[trigger] index_key(
                u_family(),
                path_text(crate::keys::usage_target(usages[i]).skip(m)),
                full,
            ) {
            let (i, m) = choose|i: int, m: int|
                0 <= i < usages.len() && 0 <= m < crate::keys::usage_target(usages[i]).len() && key
                    == #[trigger] index_key(
                    u_family(),
                    path_text(crate::keys::usage_target(usages[i]).skip(m)),
                    full,
                );
            if i < front.len() {
                assert(front[i] == usages[i]);
                assert(key == index_key(
                    u_family(),
                    path_text(crate::keys::usage_target(front[i]).skip(m)),
                    full,
                ));
            } else {
                assert(tail[m].0 == key);
            }
        }
    } else {
        assert(!writes_to(usages_writes(usages, full, false), key));
    }
}

/// A held definition has the key that leads from a short path to it in
/// the usage index exactly where it uses the short path.
pub proof fn lemma_usage_key(definition: AltDefinitionView, short: Seq<char>)
    requires
        is_definition(definition),
    ensures
        uses(definition, short) ==> is_index_key_of(
            definition,
            crate::keys::u_key(short, path_text(definition.official_path)),
        ) && no_whitespace(short),
        is_index_key_of(definition, crate::keys::u_key(short, path_text(definition.official_path)))
            && no_whitespace(short) ==> uses(definition, short),
        no_whitespace(path_text(definition.official_path)),
{
    reveal(uses);
    let path = definition.official_path;
    let full = path_text(path);
    let key = crate::keys::u_key(short, full);
    let c_writes = suffix_writes(c_family(), path, full, false);
    let u_writes = usages_writes(definition.usages, full, false);
    lemma_writes_to_concat(c_writes, u_writes, key);
    lemma_usages_writes_shorts(definition.usages, full, key);
    assert forall|i: int| 0 <= i < path.len() implies no_whitespace(#[trigger] path[i]) by {
        assert(is_component(path[i]));
    }
    lemma_path_text_plain(path);
    if uses(definition, short) {
        let (i, m) = choose|i: int, m: int|
            0 <= i < definition.usages.len() && 0 <= m < crate::keys::usage_target(
                definition.usages[i],
            ).len() && #[trigger] usage_short(definition, i, m) == short;
        assert(key == index_key(
            u_family(),
            path_text(crate::keys::usage_target(definition.usages[i]).skip(m)),
            full,
        ));
        lemma_target_short_plain(definition, i, m);
    }
    if is_index_key_of(definition, key) && no_whitespace(short) {
        if writes_to(c_writes, key) {
            let m = choose|m: int| 0 <= m < c_writes.len() && (#[trigger] c_writes[m]).0 == key;
            assert(index_key(c_family(), path_text(path.skip(m)), full)[0] == 'c');
            assert(key[0] == 'u');
            assert(false);
        }
        let (i, m) = choose|i: int, m: int|
            0 <= i < definition.usages.len() && 0 <= m < crate::keys::usage_target(
                definition.usages[i],
            ).len() && key == #[trigger] index_key(
                u_family(),
                path_text(crate::keys::usage_target(definition.usages[i]).skip(m)),
                full,
            );
        lemma_target_short_plain(definition, i, m);
        lemma_index_key_parts(u_family(), usage_short(definition, i, m), full, short, full);
        assert(usage_short(definition, i, m) == short);
    }
}

/// A short path of the target of a well-formed usage holds no white
/// space.
pub proof fn lemma_target_short_plain(definition: AltDefinitionView, i: int, m: int)
    requires
        is_definition(definition),
        0 <= i < definition.usages.len(),
        0 <= m < crate::keys::usage_target(definition.usages[i]).len(),
    ensures
        no_whitespace(usage_short(definition, i, m)),
{
    let target = crate::keys::usage_target(definition.usages[i]);
    assert(crate::laws::is_usage(definition.usages[i]));
    crate::laws::lemma_usage_target_plain(definition.usages[i]);
    let rest = target.skip(m);
    assert forall|j: int| 0 <= j < rest.len() implies no_whitespace(#[trigger] rest[j]) by {
        assert(rest[j] == target[m + j]);
    }
    lemma_path_text_plain(rest);
}

/// A definition that stands in the index at one of the paths is among the
/// definitions found at the paths.
pub proof fn lemma_lookup_found(entries: Map<Seq<char>, Seq<u8>>, paths: Seq<Seq<char>>, from: int) -> (at:
    int)
    requires
        0 <= from < paths.len(),
        stored_definition(entries, paths[from]) is Some,
    ensures
        0 <= at < lookups(entries, paths).len(),
        Some(lookups(entries, paths)[at]) == stored_definition(entries, paths[from]),
    decreases paths.len(),
{
    let front = paths.drop_last();
    let before = lookups(entries, front);
    if from < front.len() {
        assert(front[from] == paths[from]);
        let at = lemma_lookup_found(entries, front, from);
        assert(lookups(entries, paths)[at] == before[at]);
        at
    } else {
        lookups(entries, paths).len() - 1
    }
}

/// The full path that a key of a well-kept index leads to from a short
/// path in the usage index is that of a definition that the index holds
/// and that uses the short path.
pub proof fn lemma_user(
    entries: Map<Seq<char>, Seq<u8>>,
    short: Seq<char>,
    key: Seq<char>,
    full: Seq<char>,
) -> (owner: AltDefinitionView)
    requires
        well_kept(entries),
        no_whitespace(short),
        entries.contains_key(key),
        starts_with(key, u_family() + short),
        parse_index_key(key, u_family() + short) == Some(full),
    ensures
        holds_definition(entries, owner),
        path_text(owner.official_path) == full,
        uses(owner, short),
        stored_definition(entries, full) == Some(owner),
{
    let left = u_family() + short;
    let holder = crate::laws::lemma_key_owner(entries, key);
    let own = path_text(holder.official_path);
    assert(key[0] == left[0]);
    assert(d_key(own)[0] == 'd');
    crate::laws::lemma_index_key_leads(holder, key);
    if leads_to(key, c_family(), own) {
        let s = choose|s: Seq<char>|
            no_whitespace(s) && key == #[trigger] index_key(c_family(), s, own);
        assert(index_key(c_family(), s, own)[0] == 'c');
        assert(false);
    }
    let s = choose|s: Seq<char>| no_whitespace(s) && key == #[trigger] index_key(u_family(), s, own);
    lemma_parse_index_key(u_family(), s, own, left);
    assert(short =~= left.skip(2));
    assert(s =~= (u_family() + s).skip(2));
    lemma_user_of_key(holder, short);
    holder
}

/// A well-formed definition that has the key leading from a short path to
/// it in the usage index uses the short path.
pub proof fn lemma_user_of_key(definition: AltDefinitionView, short: Seq<char>)
    requires
        is_definition(definition),
        no_whitespace(short),
        is_index_key_of(definition, crate::keys::u_key(short, path_text(definition.official_path))),
    ensures
        uses(definition, short),
{
    lemma_usage_key(definition, short);
}

/// A well-formed definition that uses a short path has the key leading
/// from the short path to it in the usage index.
pub proof fn lemma_key_of_user(definition: AltDefinitionView, short: Seq<char>)
    requires
        is_definition(definition),
        uses(definition, short),
    ensures
        is_index_key_of(definition, crate::keys::u_key(short, path_text(definition.official_path))),
        no_whitespace(short),
        no_whitespace(path_text(definition.official_path)),
{
    lemma_usage_key(definition, short);
}

/// The key that leads from a short path that a held definition uses is
/// listed under the short path, and leads to the definition's full path.
pub proof fn lemma_user_is_listed(
    entries: Map<Seq<char>, Seq<u8>>,
    short: Seq<char>,
    definition: AltDefinitionView,
) -> (at: int)
    requires
        well_kept(entries),
        is_scan(entries, u_family() + short, scan(entries, u_family() + short)),
        holds_definition(entries, definition),
        uses(definition, short),
    ensures
        0 <= at < scan(entries, u_family() + short).len(),
        parse_index_key(scan(entries, u_family() + short)[at].0, u_family() + short) == Some(
            path_text(definition.official_path),
        ),
{
    let left = u_family() + short;
    let listed = scan(entries, left);
    let full = path_text(definition.official_path);
    let key = crate::keys::u_key(short, full);
    lemma_key_of_user(definition, short);
    assert(key_of_held(entries, definition, key));
    lemma_owner_key(entries, definition, key);
    lemma_index_key_prefix(u_family(), short, full);
    let k = choose|k: int| 0 <= k < listed.len() && (#[trigger] listed[k]).0 == key;
    lemma_parse_index_key(u_family(), short, full, left);
    k
}

/// Each definition that is found for a short path in the usage index is
/// held by the index and uses the short path.
pub proof fn law_usages_are_users(entries: Map<Seq<char>, Seq<u8>>, short: Seq<char>, at: int)
    requires
        well_kept(entries),
        no_whitespace(short),
        is_scan(entries, u_family() + short, scan(entries, u_family() + short)),
        0 <= at < crate::index::usages_of(entries, short).len(),
    ensures
        holds_definition(entries, crate::index::usages_of(entries, short)[at]),
        uses(crate::index::usages_of(entries, short)[at], short),
{
    let left = u_family() + short;
    let listed = scan(entries, left);
    let paths = crate::index::user_paths(entries, short);
    let found = crate::index::usages_of(entries, short)[at];
    let i = lemma_lookup_source(entries, paths, at);
    let k = lemma_path_source(listed, left, i);
    let owner = lemma_user(entries, short, listed[k].0, paths[i]);
    assert(owner == found);
}

/// Each definition that the index holds and that uses a short path is
/// found for the short path in the usage index.
pub proof fn law_users_are_found(
    entries: Map<Seq<char>, Seq<u8>>,
    short: Seq<char>,
    definition: AltDefinitionView,
)
    requires
        well_kept(entries),
        is_scan(entries, u_family() + short, scan(entries, u_family() + short)),
        holds_definition(entries, definition),
        uses(definition, short),
    ensures
        exists|at: int|
            0 <= at < crate::index::usages_of(entries, short).len() && #[trigger] crate::index::usages_of(
                entries,
                short,
            )[at] == definition,
{
    let paths = crate::index::user_paths(entries, short);
    let i = lemma_user_path_is_found(entries, short, definition);
    let at = lemma_lookup_found(entries, paths, i);
    let found = crate::index::usages_of(entries, short);
    assert(found[at] == definition);
}

/// The full path of a held definition that uses a short path is among
/// the full paths that the usage index gives for the short path.
pub proof fn lemma_user_path_is_found(
    entries: Map<Seq<char>, Seq<u8>>,
    short: Seq<char>,
    definition: AltDefinitionView,
) -> (at: int)
    requires
        well_kept(entries),
        is_scan(entries, u_family() + short, scan(entries, u_family() + short)),
        holds_definition(entries, definition),
        uses(definition, short),
    ensures
        0 <= at < crate::index::user_paths(entries, short).len(),
        crate::index::user_paths(entries, short)[at] == path_text(definition.official_path),
{
    let left = u_family() + short;
    let listed = scan(entries, left);
    let paths = crate::index::user_paths(entries, short);
    let k = lemma_user_is_listed(entries, short, definition);
    lemma_path_listed(listed, left, k)
}

/// Each definition that is listed for a file is held by the index, and
/// the text of its path begins with the text of the file's prefix.
pub proof fn law_symbols_are_of_the_file(
    entries: Map<Seq<char>, Seq<u8>>,
    cpath: Seq<char>,
    at: int,
)
    requires
        well_kept(entries),
        is_scan(
            entries,
            crate::index::file_records_prefix(cpath),
            scan(entries, crate::index::file_records_prefix(cpath)),
        ),
        0 <= at < crate::index::symbols_of(entries, cpath).len(),
    ensures
        holds_definition(entries, crate::index::symbols_of(entries, cpath)[at]),
        starts_with(
            path_text(crate::index::symbols_of(entries, cpath)[at].official_path),
            crate::path::file_prefix_text(cpath),
        ),
{
    let prefix = crate::index::file_records_prefix(cpath);
    let stem = crate::path::file_prefix_text(cpath);
    let listed = scan(entries, prefix);
    let found = crate::index::symbols_of(entries, cpath)[at];
    let k = lemma_record_source(listed, at);
    let key = listed[k].0;
    assert(entries.contains_key(key) && entries[key] == listed[k].1);
    let holder = crate::laws::lemma_key_owner(entries, key);
    let own = path_text(holder.official_path);
    crate::state_laws::lemma_listed_is_record_key(entries, listed, stem, k);
    if is_index_key_of(holder, key) {
        crate::state_laws::lemma_index_write_family(holder, false, key, key.skip(2));
    }
    assert(key == d_key(own));
    assert(holder == found);
    assert(starts_with(key, prefix));
    assert(own.subrange(0, stem.len() as int) =~= key.subrange(0, prefix.len() as int).skip(2));
    assert(stem =~= prefix.skip(2));
}

/// Each held definition whose path's text begins with the text of the
/// file's prefix is listed for the file.
pub proof fn law_file_symbols_are_listed(
    entries: Map<Seq<char>, Seq<u8>>,
    cpath: Seq<char>,
    definition: AltDefinitionView,
)
    requires
        is_scan(
            entries,
            crate::index::file_records_prefix(cpath),
            scan(entries, crate::index::file_records_prefix(cpath)),
        ),
        holds_definition(entries, definition),
        starts_with(path_text(definition.official_path), crate::path::file_prefix_text(cpath)),
    ensures
        exists|at: int|
            0 <= at < crate::index::symbols_of(entries, cpath).len() && #[trigger] crate::index::symbols_of(
                entries,
                cpath,
            )[at] == definition,
{
    let prefix = crate::index::file_records_prefix(cpath);
    let listed = scan(entries, prefix);
    let own = path_text(definition.official_path);
    crate::laws::lemma_record_key_prefix(own, crate::path::file_prefix_text(cpath));
    let k = choose|k: int| 0 <= k < listed.len() && (#[trigger] listed[k]).0 == d_key(own);
    assert(listed[k].1 == entries[d_key(own)]);
    assert(crate::codec::record_definition(listed[k].1) == Some(definition));
    let all = crate::index::symbols_of(entries, cpath);
    let at = lemma_record_listed(listed, k);
    assert(all[at] == definition);
}

/// A definition read from listed records is the definition of one of
/// the records.
pub proof fn lemma_record_source(found: Seq<(Seq<char>, Seq<u8>)>, at: int) -> (from: int)
    requires
        0 <= at < crate::index::records_definitions(found).len(),
    ensures
        0 <= from < found.len(),
        crate::codec::record_definition(found[from].1) == Some(
            crate::index::records_definitions(found)[at],
        ),
    decreases found.len(),
{
    let front = found.drop_last();
    let before = crate::index::records_definitions(front);
    if at < before.len() {
        let from = lemma_record_source(front, at);
        assert(found[from] == front[from]);
        assert(crate::index::records_definitions(found)[at] == before[at]);
        from
    } else {
        found.len() - 1
    }
}

/// A listed record that can be read has its definition among those read
/// from the listing.
pub proof fn lemma_record_listed(found: Seq<(Seq<char>, Seq<u8>)>, from: int) -> (at: int)
    requires
        0 <= from < found.len(),
        crate::codec::record_definition(found[from].1) is Some,
    ensures
        0 <= at < crate::index::records_definitions(found).len(),
        Some(crate::index::records_definitions(found)[at]) == crate::codec::record_definition(
            found[from].1,
        ),
    decreases found.len(),
{
    let front = found.drop_last();
    let before = crate::index::records_definitions(front);
    if from < front.len() {
        assert(front[from] == found[from]);
        let at = lemma_record_listed(front, from);
        assert(crate::index::records_definitions(found)[at] == before[at]);
        at
    } else {
        crate::index::records_definitions(found).len() - 1
    }
}

} // verus!
