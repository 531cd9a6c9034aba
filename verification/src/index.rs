//! The operations of the index: putting the definitions of a file in,
//! taking a file out, and finding definitions and usages by short path.

use vstd::prelude::*;
use crate::codec::{definition_record, read_record, record_definition, write_record};
use crate::keys::{
    c_family,
    d_family,
    d_key,
    d_key_string,
    definition_writes,
    depth,
    full_path_of_key,
    index_writes,
    parse_index_key,
    path_depth,
    push_definition_writes,
    push_index_writes,
    u_family,
};
use crate::model::{
    AltDefinition,
    AltDefinitionView,
    definition_text,
    definition_views,
    path_separator,
    path_text,
};
use crate::path::{file_prefix_text, filesystem_path_to_double_colon_path};
use crate::laws::well_kept;
use crate::state_laws::{
    are_new,
    law_add_keeps_index,
    law_empty_index_is_well_kept,
    law_remove_keeps_index,
};
use crate::store::{
    AltIndex,
    IndexError,
    IndexWrite,
    StoredEntry,
    apply_writes,
    entry_at,
    entry_views,
    is_scan,
    scan,
    write_views,
};
use crate::text::{begins_with, chars_of, join_strings, starts_with, texts};
use vstd::string::StringExecFns;

verus! {

/// The writes that put the definitions into the index, one definition
/// after the other, or `None` where one of them has no record.
pub open spec fn record_writes(definitions: Seq<AltDefinitionView>) -> Option<
    Seq<(Seq<char>, Option<Seq<u8>>)>,
>
    decreases definitions.len(),
{
    if definitions.len() == 0 {
        Some(Seq::empty())
    } else {
        match (record_writes(definitions.drop_last()), definition_record(definitions.last())) {
            (Some(front), Some(record)) => Some(
                front + definition_writes(definitions.last(), record),
            ),
            _ => None,
        }
    }
}

/// The first place at or after `from` of a definition that has no record.
pub open spec fn first_unrecorded(definitions: Seq<AltDefinitionView>, from: int) -> Option<int>
    decreases definitions.len() - from,
{
    if from < 0 || from >= definitions.len() {
        None
    } else if definition_record(definitions[from]) is None {
        Some(from)
    } else {
        first_unrecorded(definitions, from + 1)
    }
}

/// The writes that take one stored definition out: its keys in the two
/// indexes, as far as its record can be read, then its own key.
pub open spec fn entry_removal(entry: (Seq<char>, Seq<u8>)) -> Seq<(Seq<char>, Option<Seq<u8>>)> {
    match record_definition(entry.1) {
        Some(definition) => index_writes(definition, true).push((entry.0, None)),
        None => seq![(entry.0, None)],
    }
}

/// The writes that take the listed definitions out.
pub open spec fn removal_writes(found: Seq<(Seq<char>, Seq<u8>)>) -> Seq<
    (Seq<char>, Option<Seq<u8>>),
>
    decreases found.len(),
{
    if found.len() == 0 {
        Seq::empty()
    } else {
        removal_writes(found.drop_last()) + entry_removal(found.last())
    }
}

/// The key prefix under which the records of a file's definitions stand.
pub open spec fn file_records_prefix(cpath: Seq<char>) -> Seq<char> {
    d_key(file_prefix_text(cpath))
}

/// The index after a file has been taken out.
pub open spec fn without_file(entries: Map<Seq<char>, Seq<u8>>, cpath: Seq<char>) -> Map<
    Seq<char>,
    Seq<u8>,
> {
    apply_writes(entries, removal_writes(scan(entries, file_records_prefix(cpath))))
}

/// The definitions whose records are listed, in their order; a record
/// that cannot be read is passed over.
pub open spec fn records_definitions(found: Seq<(Seq<char>, Seq<u8>)>) -> Seq<AltDefinitionView>
    decreases found.len(),
{
    if found.len() == 0 {
        Seq::empty()
    } else {
        let front = records_definitions(found.drop_last());
        match record_definition(found.last().1) {
            Some(definition) => front.push(definition),
            None => front,
        }
    }
}

/// The definitions of a file that the index holds.
pub open spec fn symbols_of(entries: Map<Seq<char>, Seq<u8>>, cpath: Seq<char>) -> Seq<
    AltDefinitionView,
> {
    records_definitions(scan(entries, file_records_prefix(cpath)))
}

/// The full paths that the listed index keys lead to from `left`, in
/// their order; a key of another shape is passed over.
pub open spec fn matching_paths(found: Seq<(Seq<char>, Seq<u8>)>, left: Seq<char>) -> Seq<
    Seq<char>,
>
    decreases found.len(),
{
    if found.len() == 0 {
        Seq::empty()
    } else {
        let front = matching_paths(found.drop_last(), left);
        match parse_index_key(found.last().0, left) {
            Some(path) => front.push(path),
            None => front,
        }
    }
}

/// The least depth among the paths; 0 where there is no path.
pub open spec fn least_depth(paths: Seq<Seq<char>>) -> nat
    decreases paths.len(),
{
    if paths.len() == 0 {
        0
    } else if paths.len() == 1 {
        depth(paths[0])
    } else {
        let front = least_depth(paths.drop_last());
        if depth(paths.last()) < front {
            depth(paths.last())
        } else {
            front
        }
    }
}

/// The paths that lie at the given depth, in their order.
pub open spec fn paths_at_depth(paths: Seq<Seq<char>>, wanted: nat) -> Seq<Seq<char>>
    decreases paths.len(),
{
    if paths.len() == 0 {
        Seq::empty()
    } else {
        let front = paths_at_depth(paths.drop_last(), wanted);
        if depth(paths.last()) == wanted {
            front.push(paths.last())
        } else {
            front
        }
    }
}

/// The paths that lie least deep, in their order.
pub open spec fn shortest_paths(paths: Seq<Seq<char>>) -> Seq<Seq<char>> {
    paths_at_depth(paths, least_depth(paths))
}

/// The definition that the index holds at a full path, if its record is
/// there and can be read.
pub open spec fn stored_definition(entries: Map<Seq<char>, Seq<u8>>, path: Seq<char>) -> Option<
    AltDefinitionView,
> {
    match entry_at(entries, d_key(path)) {
        Some(record) => record_definition(record),
        None => None,
    }
}

/// The definitions that the index holds at the paths, in their order; a
/// path without a readable record is passed over.
pub open spec fn lookups(entries: Map<Seq<char>, Seq<u8>>, paths: Seq<Seq<char>>) -> Seq<
    AltDefinitionView,
>
    decreases paths.len(),
{
    if paths.len() == 0 {
        Seq::empty()
    } else {
        let front = lookups(entries, paths.drop_last());
        match stored_definition(entries, paths.last()) {
            Some(definition) => front.push(definition),
            None => front,
        }
    }
}

/// The full paths that the suffix index gives for a short path.
pub open spec fn candidate_paths(entries: Map<Seq<char>, Seq<u8>>, short: Seq<char>) -> Seq<
    Seq<char>,
> {
    matching_paths(scan(entries, c_family() + short), c_family() + short)
}

/// The definitions that a short path means, worked out from a listing of
/// the suffix index under the short path: of the full paths that the
/// listing leads to, those that lie least deep.
pub open spec fn definitions_from(
    entries: Map<Seq<char>, Seq<u8>>,
    short: Seq<char>,
    found: Seq<(Seq<char>, Seq<u8>)>,
) -> Seq<AltDefinitionView> {
    lookups(entries, shortest_paths(matching_paths(found, c_family() + short)))
}

/// The definitions that a short path means: of the full paths that end
/// in it, those that lie least deep.
pub open spec fn definitions_of(entries: Map<Seq<char>, Seq<u8>>, short: Seq<char>) -> Seq<
    AltDefinitionView,
> {
    definitions_from(entries, short, scan(entries, c_family() + short))
}

/// The full paths that the usage index gives for a short path.
pub open spec fn user_paths(entries: Map<Seq<char>, Seq<u8>>, short: Seq<char>) -> Seq<Seq<char>> {
    matching_paths(scan(entries, u_family() + short), u_family() + short)
}

/// The definitions that use a short path.
pub open spec fn usages_of(entries: Map<Seq<char>, Seq<u8>>, short: Seq<char>) -> Seq<
    AltDefinitionView,
> {
    lookups(entries, user_paths(entries, short))
}

/// The line that a dump shows for an entry: a record's key and, below it,
/// its definition as text, or a note where the record cannot be read; the
/// key of an index entry; nothing for any other entry.
pub open spec fn dump_line(entry: (Seq<char>, Seq<u8>)) -> Option<Seq<char>> {
    if starts_with(entry.0, d_family()) {
        match record_definition(entry.1) {
            Some(definition) => Some(entry.0 + seq!['\n'] + definition_text(definition)),
            None => Some("Failed to deserialize value at "@ + entry.0),
        }
    } else if starts_with(entry.0, c_family()) || starts_with(entry.0, u_family()) {
        Some(entry.0)
    } else {
        None
    }
}

/// The lines that a dump shows for the listed entries.
pub open spec fn dump_lines(found: Seq<(Seq<char>, Seq<u8>)>) -> Seq<Seq<char>>
    decreases found.len(),
{
    if found.len() == 0 {
        Seq::empty()
    } else {
        let front = dump_lines(found.drop_last());
        match dump_line(found.last()) {
            Some(line) => front.push(line),
            None => front,
        }
    }
}

/// What a dump of the index shows.
#[derive(Clone, Debug, PartialEq, Eq)]
pub struct DatabaseDump {
    /// How many entries the store holds under text keys.
    pub records: usize,
    /// A line for each record and each index entry, in the order of the
    /// store.
    pub lines: Vec<String>,
}

/// Takes the store as the index's own and empties it.
pub fn alt_index_init(sleddb: sled::Db) -> (made: Result<AltIndex, IndexError>)
    ensures
        made matches Ok(index) ==> index@ == Map::<Seq<char>, Seq<u8>>::empty() && well_kept(
            index@,
        ),
        made matches Err(error) ==> error is Store,
{
    let mut index = AltIndex::new(sleddb);
    match index.clear() {
        Ok(()) => {
            proof {
                law_empty_index_is_well_kept();
            }
            Ok(index)
        },
        Err(error) => Err(error),
    }
}

/// Puts the definitions into the index in one batch: for each its record
/// under its `d/` key, a `c/` key for each of its short paths, and a `u/`
/// key for each short path of what each of its usages points to.
///
/// A well-kept index stays well kept where the definitions are new to it:
/// a file that is indexed again is taken out first.
///
/// Where a definition has no record, nothing is written, and the error
/// names the path of the first such definition. After a failure of the
/// store the index may hold a part of the batch.
pub fn doc_add(index: &mut AltIndex, definitions: &Vec<AltDefinition>) -> (done: Result<
    (),
    IndexError,
>)
    ensures
        match record_writes(definition_views(definitions@)) {
            Some(writes) => match done {
                Ok(()) => final(index)@ == apply_writes(old(index)@, writes),
                Err(error) => error is Store && writes.len() > 0,
            },
            None => *final(index) == *old(index) && match done {
                Err(IndexError::Record(path)) => match first_unrecorded(
                    definition_views(definitions@),
                    0,
                ) {
                    Some(at) => path@ == path_text(
                        definition_views(definitions@)[at].official_path,
                    ),
                    None => false,
                },
                _ => false,
            },
        },
        done is Ok && well_kept(old(index)@) && are_new(
            old(index)@,
            definition_views(definitions@),
        ) ==> well_kept(final(index)@),
{
    let ghost views = definition_views(definitions@);
    let ghost before = index@;
    proof {
        if well_kept(before) && are_new(before, views) && record_writes(views) is Some {
            law_add_keeps_index(before, views);
        }
    }
    let mut batch: Vec<IndexWrite> = Vec::new();
    let mut i: usize = 0;
    while i < definitions.len()
        invariant
            i <= definitions.len(),
            views == definition_views(definitions@),
            record_writes(views.take(i as int)) == Some(write_views(batch@)),
            first_unrecorded(views, 0) == first_unrecorded(views, i as int),
        decreases definitions.len() - i,
    {
        proof {
            assert(views.take(i + 1).drop_last() =~= views.take(i as int));
            assert(views.take(i + 1).last() == definitions@[i as int]@);
        }
        match write_record(&definitions[i]) {
            Some(record) => {
                push_definition_writes(&mut batch, &definitions[i], record);
            },
            None => {
                proof {
                    lemma_record_writes_fail(views, i + 1);
                    assert(views.take(definitions.len() as int) =~= views);
                }
                return Err(IndexError::Record(definitions[i].path()));
            },
        }
        i += 1;
    }
    proof {
        assert(views.take(definitions.len() as int) =~= views);
    }
    if batch.len() == 0 {
        proof {
            assert(write_views(batch@) =~= Seq::empty());
        }
        return Ok(());
    }
    match index.apply(&batch) {
        Ok(()) => Ok(()),
        Err(error) => {
            proof {
                assert(write_views(batch@).len() == batch.len());
            }
            Err(error)
        },
    }
}

/// Where the first definitions have no writes, all of them have none.
pub proof fn lemma_record_writes_fail(definitions: Seq<AltDefinitionView>, fewer: int)
    requires
        0 <= fewer <= definitions.len(),
        record_writes(definitions.take(fewer)) is None,
    ensures
        record_writes(definitions) is None,
    decreases definitions.len() - fewer,
{
    if fewer < definitions.len() {
        assert(definitions.take(fewer + 1).drop_last() =~= definitions.take(fewer));
        lemma_record_writes_fail(definitions, fewer + 1);
    } else {
        assert(definitions.take(fewer) =~= definitions);
    }
}

/// Takes a file out of the index in one batch: every definition whose
/// `d/` key begins with the file's prefix goes, with the keys that it has
/// in the two indexes. A well-kept index stays well kept.
pub fn doc_remove(index: &mut AltIndex, cpath: &str) -> (done: Result<(), IndexError>)
    ensures
        done is Ok ==> final(index)@ == without_file(old(index)@, cpath@) && is_scan(
            old(index)@,
            file_records_prefix(cpath@),
            scan(old(index)@, file_records_prefix(cpath@)),
        ),
        done is Ok && well_kept(old(index)@) ==> well_kept(final(index)@),
        done matches Err(error) ==> error is Store,
{
    let ghost before = index@;
    let prefix = filesystem_path_to_double_colon_path(cpath);
    let prefix_text = join_strings(&prefix, 0, "::");
    proof {
        reveal_strlit("::");
        assert("::"@ =~= path_separator());
        assert(texts(prefix@).skip(0) =~= texts(prefix@));
    }
    let d_prefix = d_key_string(prefix_text.as_str());
    let found = match index.scan_prefix(d_prefix.as_str()) {
        Ok(found) => found,
        Err(error) => {
            return Err(error);
        },
    };
    proof {
        if well_kept(before) {
            law_remove_keeps_index(before, cpath@);
        }
    }
    let ghost listed = entry_views(found@);
    let mut batch: Vec<IndexWrite> = Vec::new();
    let mut i: usize = 0;
    while i < found.len()
        invariant
            i <= found.len(),
            listed == entry_views(found@),
            write_views(batch@) == removal_writes(listed.take(i as int)),
        decreases found.len() - i,
    {
        proof {
            assert(listed.take(i + 1).drop_last() =~= listed.take(i as int));
            assert(listed.take(i + 1).last() == found@[i as int]@);
        }
        let ghost so_far = write_views(batch@);
        match read_record(found[i].value.as_slice()) {
            Some(definition) => {
                push_index_writes(&mut batch, &definition, true);
            },
            None => {},
        }
        let ghost indexed = write_views(batch@);
        batch.push(IndexWrite { key: found[i].key.clone(), value: None });
        proof {
            assert(write_views(batch@) =~= indexed.push((found@[i as int].key@, None)));
            assert(write_views(batch@) =~= so_far + entry_removal(found@[i as int]@));
        }
        i += 1;
    }
    proof {
        assert(listed.take(found.len() as int) =~= listed);
    }
    if batch.len() == 0 {
        proof {
            assert(write_views(batch@) =~= Seq::empty());
        }
        return Ok(());
    }
    match index.apply(&batch) {
        Ok(()) => Ok(()),
        Err(error) => Err(error),
    }
}

/// Reads the definitions whose records are listed.
pub fn definitions_of_records(found: &Vec<StoredEntry>) -> (definitions: Vec<AltDefinition>)
    ensures
        definition_views(definitions@) == records_definitions(entry_views(found@)),
{
    let ghost listed = entry_views(found@);
    let mut definitions: Vec<AltDefinition> = Vec::new();
    let mut i: usize = 0;
    while i < found.len()
        invariant
            i <= found.len(),
            listed == entry_views(found@),
            definition_views(definitions@) == records_definitions(listed.take(i as int)),
        decreases found.len() - i,
    {
        proof {
            assert(listed.take(i + 1).drop_last() =~= listed.take(i as int));
            assert(listed.take(i + 1).last() == found@[i as int]@);
        }
        match read_record(found[i].value.as_slice()) {
            Some(definition) => {
                let ghost so_far = definition_views(definitions@);
                definitions.push(definition);
                proof {
                    assert(definition_views(definitions@) =~= so_far.push(definition@));
                }
            },
            None => {},
        }
        i += 1;
    }
    proof {
        assert(listed.take(found.len() as int) =~= listed);
    }
    definitions
}

/// The definitions of a file that the index holds, in the order of the
/// store.
pub fn doc_symbols(index: &AltIndex, cpath: &str) -> (found: Result<Vec<AltDefinition>, IndexError>)
    ensures
        found matches Ok(definitions) ==> definition_views(definitions@) == symbols_of(
            index@,
            cpath@,
        ) && is_scan(
            index@,
            file_records_prefix(cpath@),
            scan(index@, file_records_prefix(cpath@)),
        ),
        found matches Err(error) ==> error is Store,
{
    let prefix = filesystem_path_to_double_colon_path(cpath);
    let prefix_text = join_strings(&prefix, 0, "::");
    proof {
        reveal_strlit("::");
        assert("::"@ =~= path_separator());
        assert(texts(prefix@).skip(0) =~= texts(prefix@));
    }
    let d_prefix = d_key_string(prefix_text.as_str());
    match index.scan_prefix(d_prefix.as_str()) {
        Ok(found) => Ok(definitions_of_records(&found)),
        Err(error) => Err(error),
    }
}

/// Fills in what each usage was resolved as. Nothing is resolved yet: the
/// index stays as it is.
pub fn connect_usages(index: &mut AltIndex)
    ensures
        *final(index) == *old(index),
{
}

/// Reads the full paths that the listed index keys lead to from `left`.
pub fn full_paths_of_keys(found: &Vec<StoredEntry>, left: &str) -> (paths: Vec<String>)
    ensures
        texts(paths@) == matching_paths(entry_views(found@), left@),
{
    let ghost listed = entry_views(found@);
    let mut paths: Vec<String> = Vec::new();
    let mut i: usize = 0;
    while i < found.len()
        invariant
            i <= found.len(),
            listed == entry_views(found@),
            texts(paths@) == matching_paths(listed.take(i as int), left@),
        decreases found.len() - i,
    {
        proof {
            assert(listed.take(i + 1).drop_last() =~= listed.take(i as int));
            assert(listed.take(i + 1).last() == found@[i as int]@);
        }
        match full_path_of_key(found[i].key.as_str(), left) {
            Some(path) => {
                let ghost so_far = texts(paths@);
                paths.push(path);
                proof {
                    assert(texts(paths@) =~= so_far.push(path@));
                }
            },
            None => {},
        }
        i += 1;
    }
    proof {
        assert(listed.take(found.len() as int) =~= listed);
    }
    paths
}

/// Keeps the paths that lie least deep.
pub fn shortest(paths: &Vec<String>) -> (kept: Vec<String>)
    ensures
        texts(kept@) == shortest_paths(texts(paths@)),
{
    let ghost all = texts(paths@);
    let mut depths: Vec<usize> = Vec::new();
    let mut least: usize = 0;
    let mut i: usize = 0;
    while i < paths.len()
        invariant
            i <= paths.len(),
            all == texts(paths@),
            depths.len() == i,
            forall|j: int| 0 <= j < i ==> #[trigger] depths@[j] == depth(all[j]),
            least == least_depth(all.take(i as int)),
        decreases paths.len() - i,
    {
        proof {
            assert(all.take(i + 1).drop_last() =~= all.take(i as int));
            assert(all.take(i + 1).last() == all[i as int]);
            if i == 0 {
                assert(all.take(1)[0] == all[0]);
            }
        }
        let here = path_depth(paths[i].as_str());
        depths.push(here);
        if i == 0 || here < least {
            least = here;
        }
        i += 1;
    }
    proof {
        assert(all.take(paths.len() as int) =~= all);
    }
    let mut kept: Vec<String> = Vec::new();
    let mut k: usize = 0;
    while k < paths.len()
        invariant
            k <= paths.len(),
            all == texts(paths@),
            depths.len() == paths.len(),
            forall|j: int| 0 <= j < paths.len() ==> #[trigger] depths@[j] == depth(all[j]),
            texts(kept@) == paths_at_depth(all.take(k as int), least as nat),
        decreases paths.len() - k,
    {
        proof {
            assert(all.take(k + 1).drop_last() =~= all.take(k as int));
            assert(all.take(k + 1).last() == all[k as int]);
        }
        if depths[k] == least {
            let ghost so_far = texts(kept@);
            kept.push(paths[k].clone());
            proof {
                assert(texts(kept@) =~= so_far.push(all[k as int]));
            }
        }
        k += 1;
    }
    proof {
        assert(all.take(paths.len() as int) =~= all);
    }
    kept
}

/// Reads the definitions that the index holds at the paths.
pub fn fetch_definitions(index: &AltIndex, paths: &Vec<String>) -> (found: Result<
    Vec<AltDefinition>,
    IndexError,
>)
    ensures
        found matches Ok(definitions) ==> definition_views(definitions@) == lookups(
            index@,
            texts(paths@),
        ),
        found matches Err(error) ==> error is Store,
{
    let ghost all = texts(paths@);
    let mut definitions: Vec<AltDefinition> = Vec::new();
    let mut i: usize = 0;
    while i < paths.len()
        invariant
            i <= paths.len(),
            all == texts(paths@),
            definition_views(definitions@) == lookups(index@, all.take(i as int)),
        decreases paths.len() - i,
    {
        proof {
            assert(all.take(i + 1).drop_last() =~= all.take(i as int));
            assert(all.take(i + 1).last() == all[i as int]);
        }
        let key = d_key_string(paths[i].as_str());
        match index.get(key.as_str()) {
            Ok(Some(record)) => {
                match read_record(record.as_slice()) {
                    Some(definition) => {
                        let ghost so_far = definition_views(definitions@);
                        definitions.push(definition);
                        proof {
                            assert(definition_views(definitions@) =~= so_far.push(definition@));
                        }
                    },
                    None => {},
                }
            },
            Ok(None) => {},
            Err(error) => {
                return Err(error);
            },
        }
        i += 1;
    }
    proof {
        assert(all.take(paths.len() as int) =~= all);
    }
    Ok(definitions)
}

/// The definitions that use the symbol with this short path, in the order
/// of the store.
pub fn usages(index: &AltIndex, double_colon_path: &str) -> (found: Result<
    Vec<AltDefinition>,
    IndexError,
>)
    ensures
        found matches Ok(definitions) ==> definition_views(definitions@) == usages_of(
            index@,
            double_colon_path@,
        ) && is_scan(
            index@,
            u_family() + double_colon_path@,
            scan(index@, u_family() + double_colon_path@),
        ),
        found matches Err(error) ==> error is Store,
{
    let mut left = String::from_str("u/");
    left.append(double_colon_path);
    proof {
        reveal_strlit("u/");
        assert(left@ =~= u_family() + double_colon_path@);
    }
    let found = match index.scan_prefix(left.as_str()) {
        Ok(found) => found,
        Err(error) => {
            return Err(error);
        },
    };
    let paths = full_paths_of_keys(&found, left.as_str());
    fetch_definitions(index, &paths)
}

/// The definitions that this short path means: of the definitions whose
/// full path ends in it, those that lie least deep, in the order of the
/// store.
pub fn definitions(index: &AltIndex, double_colon_path: &str) -> (found: Result<
    Vec<AltDefinition>,
    IndexError,
>)
    ensures
        found matches Ok(definitions) ==> definition_views(definitions@) == definitions_of(
            index@,
            double_colon_path@,
        ) && is_scan(
            index@,
            c_family() + double_colon_path@,
            scan(index@, c_family() + double_colon_path@),
        ),
        found matches Err(error) ==> error is Store,
{
    let mut left = String::from_str("c/");
    left.append(double_colon_path);
    proof {
        reveal_strlit("c/");
        assert(left@ =~= c_family() + double_colon_path@);
    }
    let found = match index.scan_prefix(left.as_str()) {
        Ok(found) => found,
        Err(error) => {
            return Err(error);
        },
    };
    let paths = full_paths_of_keys(&found, left.as_str());
    let kept = shortest(&paths);
    fetch_definitions(index, &kept)
}

/// The line that a dump shows for an entry.
pub fn dump_entry(entry: &StoredEntry) -> (line: Option<String>)
    ensures
        match line {
            Some(text) => dump_line(entry@) == Some(text@),
            None => dump_line(entry@) is None,
        },
{
    let key_chars = chars_of(entry.key.as_str());
    let mut family: Vec<char> = Vec::new();
    family.push('d');
    family.push('/');
    proof {
        assert(family@ =~= d_family());
    }
    if begins_with(&key_chars, &family) {
        match read_record(entry.value.as_slice()) {
            Some(definition) => {
                let mut line = entry.key.clone();
                line.append("\n");
                line.append(definition.debug_string().as_str());
                proof {
                    reveal_strlit("\n");
                    assert("\n"@ =~= seq!['\n']);
                }
                return Some(line);
            },
            None => {
                let mut line = String::from_str("Failed to deserialize value at ");
                line.append(entry.key.as_str());
                return Some(line);
            },
        }
    }
    family.set(0, 'c');
    proof {
        assert(family@ =~= c_family());
    }
    if begins_with(&key_chars, &family) {
        return Some(entry.key.clone());
    }
    family.set(0, 'u');
    proof {
        assert(family@ =~= u_family());
    }
    if begins_with(&key_chars, &family) {
        return Some(entry.key.clone());
    }
    None
}

/// What the index holds, for a reader: the number of its entries, and a
/// line for each record and each index entry.
pub fn dump_database(index: &AltIndex) -> (dump: Result<DatabaseDump, IndexError>)
    ensures
        dump matches Ok(shown) ==> shown.records == scan(index@, Seq::empty()).len() && texts(
            shown.lines@,
        ) == dump_lines(scan(index@, Seq::empty())),
        dump matches Err(error) ==> error is Store,
{
    let found = match index.scan_prefix("") {
        Ok(found) => found,
        Err(error) => {
            return Err(error);
        },
    };
    proof {
        reveal_strlit("");
        assert(""@ =~= Seq::<char>::empty());
    }
    let ghost listed = entry_views(found@);
    let mut lines: Vec<String> = Vec::new();
    let mut i: usize = 0;
    while i < found.len()
        invariant
            i <= found.len(),
            listed == entry_views(found@),
            texts(lines@) == dump_lines(listed.take(i as int)),
        decreases found.len() - i,
    {
        proof {
            assert(listed.take(i + 1).drop_last() =~= listed.take(i as int));
            assert(listed.take(i + 1).last() == found@[i as int]@);
        }
        match dump_entry(&found[i]) {
            Some(line) => {
                let ghost so_far = texts(lines@);
                lines.push(line);
                proof {
                    assert(texts(lines@) =~= so_far.push(line@));
                }
            },
            None => {},
        }
        i += 1;
    }
    proof {
        assert(listed.take(found.len() as int) =~= listed);
    }
    Ok(DatabaseDump { records: found.len(), lines })
}

} // verus!
