//! The ordered key-value store that the index lives in.
//!
//! The store keeps byte strings under byte-string keys. The index reads and
//! writes it by text keys, and sees of it the entries whose key is the
//! UTF-8 form of a text.

use vstd::prelude::*;
use vstd::utf8::*;
use crate::text::{begins_with, chars_of, starts_with};

verus! {

#[verifier::external_type_specification]
#[verifier::external_body]
pub struct ExDb(sled::Db);

#[verifier::external_type_specification]
#[verifier::external_body]
pub struct ExStoreError(sled::Error);

#[verifier::external_type_specification]
#[verifier::external_body]
pub struct ExBatch(sled::Batch);

/// What a store holds: each key with its value.
pub uninterp spec fn store_entries(db: sled::Db) -> Map<Seq<u8>, Seq<u8>>;

/// What a batch holds: for each key that it names the value to put under
/// the key, or `None` where the key is to be taken out.
pub uninterp spec fn batch_writes(batch: sled::Batch) -> Map<Seq<u8>, Option<Seq<u8>>>;

/// The entries after a batch: a key that the batch names holds what the
/// batch says, another key what it held.
pub open spec fn merged(entries: Map<Seq<u8>, Seq<u8>>, writes: Map<Seq<u8>, Option<Seq<u8>>>) -> Map<
    Seq<u8>,
    Seq<u8>,
> {
    Map::new(
        |key: Seq<u8>|
            if writes.contains_key(key) {
                writes[key] is Some
            } else {
                entries.contains_key(key)
            },
        |key: Seq<u8>|
            if writes.contains_key(key) {
                writes[key]->0
            } else {
                entries[key]
            },
    )
}

/// The batch that writes, made in their order, fill: of two writes to one
/// key the later one stands.
pub open spec fn batch_of(writes: Seq<(Seq<u8>, Option<Seq<u8>>)>) -> Map<Seq<u8>, Option<Seq<u8>>>
    decreases writes.len(),
{
    if writes.len() == 0 {
        Map::empty()
    } else {
        batch_of(writes.drop_last()).insert(writes.last().0, writes.last().1)
    }
}

/// The store that holds nothing.
pub open spec fn nothing_stored() -> Map<Seq<u8>, Seq<u8>> {
    Map::empty()
}

/// The entry of `entries` under `key`, if there is one.
pub open spec fn entry_at<K, V>(entries: Map<K, V>, key: K) -> Option<V> {
    if entries.contains_key(key) {
        Some(entries[key])
    } else {
        None
    }
}

/// The entries after one write: a value is put under the key, or the key
/// is taken out.
pub open spec fn write_entry<K, V>(entries: Map<K, V>, key: K, value: Option<V>) -> Map<K, V> {
    match value {
        Some(v) => entries.insert(key, v),
        None => entries.remove(key),
    }
}

/// The entries after the writes, made in their order: of two writes to
/// one key the later one stands.
pub open spec fn apply_writes<K, V>(entries: Map<K, V>, writes: Seq<(K, Option<V>)>) -> Map<K, V>
    decreases writes.len(),
{
    if writes.len() == 0 {
        entries
    } else {
        write_entry(apply_writes(entries, writes.drop_last()), writes.last().0, writes.last().1)
    }
}

/// The order of the store's keys: byte by byte, a proper prefix first.
pub open spec fn bytes_before(a: Seq<u8>, b: Seq<u8>) -> bool
    decreases a.len(),
{
    if b.len() == 0 {
        false
    } else if a.len() == 0 {
        true
    } else if a[0] != b[0] {
        a[0] < b[0]
    } else {
        bytes_before(a.drop_first(), b.drop_first())
    }
}

/// Whether `key` begins with `prefix`.
pub open spec fn has_prefix(key: Seq<u8>, prefix: Seq<u8>) -> bool {
    prefix.len() <= key.len() && key.subrange(0, prefix.len() as int) == prefix
}

/// A key and a value as the store hands them out.
pub struct RawEntry {
    pub key: Vec<u8>,
    pub value: Vec<u8>,
}

impl View for RawEntry {
    type V = (Seq<u8>, Seq<u8>);

    open spec fn view(&self) -> (Seq<u8>, Seq<u8>) {
        (self.key@, self.value@)
    }
}

/// The views of raw entries.
pub open spec fn raw_entries(found: Seq<RawEntry>) -> Seq<(Seq<u8>, Seq<u8>)> {
    found.map_values(|e: RawEntry| e@)
}

/// Whether `found` lists the entries of `entries` whose key begins with
/// `prefix`: each of them once, in the order of their keys.
pub open spec fn is_raw_scan(
    entries: Map<Seq<u8>, Seq<u8>>,
    prefix: Seq<u8>,
    found: Seq<(Seq<u8>, Seq<u8>)>,
) -> bool {
    &&& forall|i: int|
        0 <= i < found.len() ==> has_prefix(#[trigger] found[i].0, prefix) && entries.contains_key(
            found[i].0,
        ) && entries[found[i].0] == found[i].1
    &&& forall|k: Seq<u8>| #[trigger]
        entries.contains_key(k) && has_prefix(k, prefix) ==> exists|i: int|
            0 <= i < found.len() && #[trigger] found[i].0 == k
    &&& forall|i: int, j: int|
        0 <= i < j < found.len() ==> bytes_before(#[trigger] found[i].0, #[trigger] found[j].0)
}

/// `sled::Tree::get` on the store: on success the value under `key`, or
/// `None` where the store has no such key.
#[verifier::external_body]
pub(crate) fn store_get(db: &sled::Db, key: &[u8]) -> (found: Result<Option<Vec<u8>>, sled::Error>)
    ensures
        found matches Ok(Some(value)) ==> entry_at(store_entries(*db), key@) == Some(value@),
        found matches Ok(None) ==> entry_at(store_entries(*db), key@) is None,
{
    db.get(key).map(|found| found.map(|value| value.to_vec()))
}

/// `sled::Tree::scan_prefix` on the store, walked to its end: on success
/// the entries whose key begins with `prefix`, in the order of their keys.
#[verifier::external_body]
pub(crate) fn store_scan_prefix(db: &sled::Db, prefix: &[u8]) -> (found: Result<
    Vec<RawEntry>,
    sled::Error,
>)
    ensures
        found matches Ok(entries) ==> is_raw_scan(
            store_entries(*db),
            prefix@,
            raw_entries(entries@),
        ),
{
    db.scan_prefix(prefix).map(
        |item| item.map(|(key, value)| RawEntry { key: key.to_vec(), value: value.to_vec() }),
    ).collect()
}

/// `sled::Batch::default`: a batch that names no key.
#[verifier::external_body]
pub(crate) fn batch_new() -> (batch: sled::Batch)
    ensures
        batch_writes(batch) == batch_of(Seq::empty()),
{
    sled::Batch::default()
}

/// `sled::Batch::insert`: the batch then says of the key that the value is
/// to be put under it, whatever it said of the key before.
#[verifier::external_body]
pub(crate) fn batch_insert(batch: &mut sled::Batch, key: &[u8], value: &[u8])
    ensures
        batch_writes(*final(batch)) == batch_writes(*old(batch)).insert(key@, Some(value@)),
{
    batch.insert(key, value)
}

/// `sled::Batch::remove`: the batch then says of the key that it is to be
/// taken out, whatever it said of the key before.
#[verifier::external_body]
pub(crate) fn batch_remove(batch: &mut sled::Batch, key: &[u8])
    ensures
        batch_writes(*final(batch)) == batch_writes(*old(batch)).insert(key@, None),
{
    batch.remove(key)
}

/// `sled::Tree::apply_batch` on the store: on success every key that the
/// batch names holds what the batch says of it, and the other keys are as
/// before.
#[verifier::external_body]
pub(crate) fn store_apply(db: &mut sled::Db, batch: sled::Batch) -> (done: Result<(), sled::Error>)
    ensures
        done is Ok ==> store_entries(*final(db)) == merged(
            store_entries(*old(db)),
            batch_writes(batch),
        ),
{
    db.apply_batch(batch)
}

/// `sled::Tree::clear` on the store: on success the store holds nothing.
#[verifier::external_body]
pub(crate) fn store_clear(db: &mut sled::Db) -> (done: Result<(), sled::Error>)
    ensures
        done is Ok ==> store_entries(*final(db)) == nothing_stored(),
{
    db.clear()
}

/// The `Debug` form of a `sled::Error`.
#[verifier::external_body]
pub(crate) fn store_error_text(error: &sled::Error) -> (text: String) {
    format!("{:?}", error)
}

/// `String::from_utf8`: the text that the bytes are the UTF-8 form of, or
/// `None` where they are the form of none.
#[verifier::external_body]
pub(crate) fn text_of_utf8(bytes: Vec<u8>) -> (text: Option<String>)
    ensures
        text is Some <==> valid_utf8(bytes@),
        text matches Some(t) ==> t@ == decode_utf8(bytes@),
{
    String::from_utf8(bytes).ok()
}

/// Why an operation on the index failed.
#[derive(Clone, Debug, PartialEq, Eq)]
pub enum IndexError {
    /// The store reported a failure; the text is the store's own.
    Store(String),
    /// A definition has no record that reads back as the same definition;
    /// the text is the definition's path.
    Record(String),
}

/// A key and its value as the index sees them.
pub struct StoredEntry {
    pub key: String,
    pub value: Vec<u8>,
}

/// A write as the index makes it: the value to put under the key, or
/// `None` to take the key out.
pub struct IndexWrite {
    pub key: String,
    pub value: Option<Vec<u8>>,
}

impl View for StoredEntry {
    type V = (Seq<char>, Seq<u8>);

    open spec fn view(&self) -> (Seq<char>, Seq<u8>) {
        (self.key@, self.value@)
    }
}

impl View for IndexWrite {
    type V = (Seq<char>, Option<Seq<u8>>);

    open spec fn view(&self) -> (Seq<char>, Option<Seq<u8>>) {
        (
            self.key@,
            match self.value {
                Some(v) => Some(v@),
                None => None,
            },
        )
    }
}

/// The views of stored entries.
pub open spec fn entry_views(found: Seq<StoredEntry>) -> Seq<(Seq<char>, Seq<u8>)> {
    found.map_values(|e: StoredEntry| e@)
}

/// The views of index writes.
pub open spec fn write_views(writes: Seq<IndexWrite>) -> Seq<(Seq<char>, Option<Seq<u8>>)> {
    writes.map_values(|w: IndexWrite| w@)
}

/// The entries of a store whose key is the UTF-8 form of a text, by that
/// text.
pub open spec fn text_entries(raw: Map<Seq<u8>, Seq<u8>>) -> Map<Seq<char>, Seq<u8>> {
    Map::new(
        |k: Seq<char>| raw.contains_key(encode_utf8(k)),
        |k: Seq<char>| raw[encode_utf8(k)],
    )
}

/// Whether `found` lists the entries of `entries` whose key begins with
/// `prefix`: each of them once, in the order that the store gives to the
/// UTF-8 forms of their keys.
pub open spec fn is_scan(
    entries: Map<Seq<char>, Seq<u8>>,
    prefix: Seq<char>,
    found: Seq<(Seq<char>, Seq<u8>)>,
) -> bool {
    &&& forall|i: int|
        0 <= i < found.len() ==> starts_with(#[trigger] found[i].0, prefix) && entries.contains_key(
            found[i].0,
        ) && entries[found[i].0] == found[i].1
    &&& forall|k: Seq<char>| #[trigger]
        entries.contains_key(k) && starts_with(k, prefix) ==> exists|i: int|
            0 <= i < found.len() && #[trigger] found[i].0 == k
    &&& forall|i: int, j: int|
        0 <= i < j < found.len() ==> bytes_before(
            encode_utf8(#[trigger] found[i].0),
            encode_utf8(#[trigger] found[j].0),
        )
}

/// The entries of `entries` whose key begins with `prefix`, in the order
/// of the store.
pub open spec fn scan(entries: Map<Seq<char>, Seq<u8>>, prefix: Seq<char>) -> Seq<
    (Seq<char>, Seq<u8>),
> {
    choose|found: Seq<(Seq<char>, Seq<u8>)>| is_scan(entries, prefix, found)
}

/// No byte string comes before itself.
pub proof fn lemma_bytes_before_irreflexive(a: Seq<u8>)
    ensures
        !bytes_before(a, a),
    decreases a.len(),
{
    if a.len() > 0 {
        lemma_bytes_before_irreflexive(a.drop_first());
    }
}

/// Of two byte strings at most one comes before the other.
pub proof fn lemma_bytes_before_asymmetric(a: Seq<u8>, b: Seq<u8>)
    ensures
        !(bytes_before(a, b) && bytes_before(b, a)),
    decreases a.len(),
{
    if a.len() > 0 && b.len() > 0 && a[0] == b[0] {
        lemma_bytes_before_asymmetric(a.drop_first(), b.drop_first());
    }
}

/// The UTF-8 form of two texts in a row is the two forms in a row.
pub proof fn lemma_encode_concat(a: Seq<char>, b: Seq<char>)
    ensures
        encode_utf8(a + b) == encode_utf8(a) + encode_utf8(b),
    decreases a.len(),
{
    if a.len() == 0 {
        assert(a + b =~= b);
        assert(encode_utf8(a) + encode_utf8(b) =~= encode_utf8(b));
    } else {
        lemma_encode_concat(a.drop_first(), b);
        assert((a + b).drop_first() =~= a.drop_first() + b);
        assert(encode_utf8(a + b) =~= encode_utf8(a) + encode_utf8(b));
    }
}

/// Two texts with one UTF-8 form are one text.
pub proof fn lemma_encode_injective(a: Seq<char>, b: Seq<char>)
    requires
        encode_utf8(a) == encode_utf8(b),
    ensures
        a == b,
{
    encode_utf8_decode_utf8(a);
    encode_utf8_decode_utf8(b);
}

/// A listing of the entries under a prefix is the only one.
pub proof fn lemma_scan_unique(
    entries: Map<Seq<char>, Seq<u8>>,
    prefix: Seq<char>,
    first: Seq<(Seq<char>, Seq<u8>)>,
    second: Seq<(Seq<char>, Seq<u8>)>,
)
    requires
        is_scan(entries, prefix, first),
        is_scan(entries, prefix, second),
    ensures
        first == second,
    decreases first.len(),
{
    if first.len() == 0 {
        if second.len() > 0 {
            let k = second[0].0;
            assert(entries.contains_key(k) && starts_with(k, prefix));
        }
        assert(first =~= second);
    } else {
        let n = first.len() - 1;
        let top = first[n].0;
        assert(entries.contains_key(top) && starts_with(top, prefix));
        let j = choose|j: int| 0 <= j < second.len() && #[trigger] second[j].0 == top;
        let m = second.len() - 1;
        if j < m {
            let other = second[m].0;
            assert(entries.contains_key(other) && starts_with(other, prefix));
            let i = choose|i: int| 0 <= i < first.len() && #[trigger] first[i].0 == other;
            lemma_bytes_before_irreflexive(encode_utf8(top));
            lemma_bytes_before_asymmetric(encode_utf8(top), encode_utf8(other));
            assert(bytes_before(encode_utf8(second[j].0), encode_utf8(second[m].0)));
            if i < n {
                assert(bytes_before(encode_utf8(first[i].0), encode_utf8(first[n].0)));
            }
            assert(false);
        }
        let rest = entries.remove(top);
        let first_rest = first.drop_last();
        let second_rest = second.drop_last();
        assert(is_scan(rest, prefix, first_rest)) by {
            assert forall|i: int| 0 <= i < first_rest.len() implies starts_with(
                #[trigger] first_rest[i].0,
                prefix,
            ) && rest.contains_key(first_rest[i].0) && rest[first_rest[i].0] == first_rest[i].1 by {
                assert(bytes_before(encode_utf8(first[i].0), encode_utf8(first[n].0)));
                lemma_bytes_before_irreflexive(encode_utf8(top));
            }
            assert forall|k: Seq<char>| #[trigger]
                rest.contains_key(k) && starts_with(k, prefix) implies exists|i: int|
                0 <= i < first_rest.len() && #[trigger] first_rest[i].0 == k by {
                assert(entries.contains_key(k) && starts_with(k, prefix));
                let i = choose|i: int| 0 <= i < first.len() && #[trigger] first[i].0 == k;
                assert(first_rest[i].0 == k);
            }
            assert forall|i: int, j: int| 0 <= i < j < first_rest.len() implies bytes_before(
                encode_utf8(#[trigger] first_rest[i].0),
                encode_utf8(#[trigger] first_rest[j].0),
            ) by {
                assert(bytes_before(encode_utf8(first[i].0), encode_utf8(first[j].0)));
            }
        }
        assert(is_scan(rest, prefix, second_rest)) by {
            assert forall|i: int| 0 <= i < second_rest.len() implies starts_with(
                #[trigger] second_rest[i].0,
                prefix,
            ) && rest.contains_key(second_rest[i].0) && rest[second_rest[i].0]
                == second_rest[i].1 by {
                assert(bytes_before(encode_utf8(second[i].0), encode_utf8(second[m].0)));
                lemma_bytes_before_irreflexive(encode_utf8(top));
            }
            assert forall|k: Seq<char>| #[trigger]
                rest.contains_key(k) && starts_with(k, prefix) implies exists|i: int|
                0 <= i < second_rest.len() && #[trigger] second_rest[i].0 == k by {
                assert(entries.contains_key(k) && starts_with(k, prefix));
                let i = choose|i: int| 0 <= i < second.len() && #[trigger] second[i].0 == k;
                assert(second_rest[i].0 == k);
            }
            assert forall|i: int, j: int| 0 <= i < j < second_rest.len() implies bytes_before(
                encode_utf8(#[trigger] second_rest[i].0),
                encode_utf8(#[trigger] second_rest[j].0),
            ) by {
                assert(bytes_before(encode_utf8(second[i].0), encode_utf8(second[j].0)));
            }
        }
        lemma_scan_unique(rest, prefix, first_rest, second_rest);
        assert(first[n].1 == second[m].1);
        assert(first =~= first_rest.push(first[n]));
        assert(second =~= second_rest.push(second[m]));
    }
}


/// A batch that writes have filled changes the store as the writes do
/// when made in their order.
pub proof fn lemma_batch_applies(entries: Map<Seq<u8>, Seq<u8>>, writes: Seq<(Seq<u8>, Option<Seq<u8>>)>)
    ensures
        merged(entries, batch_of(writes)) == apply_writes(entries, writes),
    decreases writes.len(),
{
    if writes.len() == 0 {
        assert(merged(entries, batch_of(writes)) =~= entries);
    } else {
        let front = writes.drop_last();
        lemma_batch_applies(entries, front);
        assert(merged(entries, batch_of(writes)) =~= write_entry(
            merged(entries, batch_of(front)),
            writes.last().0,
            writes.last().1,
        ));
    }
}

/// One write by a text key changes the text-keyed entries as the same
/// write by the key's UTF-8 form changes the store.
pub proof fn lemma_text_write(raw: Map<Seq<u8>, Seq<u8>>, key: Seq<char>, value: Option<Seq<u8>>)
    ensures
        text_entries(write_entry(raw, encode_utf8(key), value)) == write_entry(
            text_entries(raw),
            key,
            value,
        ),
{
    let after = write_entry(raw, encode_utf8(key), value);
    assert forall|k: Seq<char>| encode_utf8(k) == encode_utf8(key) implies k == key by {
        lemma_encode_injective(k, key);
    }
    assert(text_entries(after) =~= write_entry(text_entries(raw), key, value));
}

/// The UTF-8 form of each write's key, with the write's value.
pub open spec fn encoded_writes(writes: Seq<(Seq<char>, Option<Seq<u8>>)>) -> Seq<
    (Seq<u8>, Option<Seq<u8>>),
> {
    writes.map_values(|w: (Seq<char>, Option<Seq<u8>>)| (encode_utf8(w.0), w.1))
}

/// Writes by text keys change the text-keyed entries as the same writes by
/// UTF-8 keys change the store.
pub proof fn lemma_text_writes(raw: Map<Seq<u8>, Seq<u8>>, writes: Seq<(Seq<char>, Option<Seq<u8>>)>)
    ensures
        text_entries(apply_writes(raw, encoded_writes(writes))) == apply_writes(
            text_entries(raw),
            writes,
        ),
    decreases writes.len(),
{
    if writes.len() > 0 {
        let front = writes.drop_last();
        lemma_text_writes(raw, front);
        assert(encoded_writes(writes).drop_last() =~= encoded_writes(front));
        lemma_text_write(apply_writes(raw, encoded_writes(front)), writes.last().0, writes.last().1);
    }
}

/// The symbol index: the store that holds its records.
///
/// The index takes the store as its own: nothing else writes to it while
/// the index lives.
pub struct AltIndex {
    pub sleddb: sled::Db,
}

impl View for AltIndex {
    type V = Map<Seq<char>, Seq<u8>>;

    /// The entries under text keys.
    open spec fn view(&self) -> Map<Seq<char>, Seq<u8>> {
        text_entries(store_entries(self.sleddb))
    }
}

/// A copy of the bytes.
pub fn copy_bytes(bytes: &Vec<u8>) -> (out: Vec<u8>)
    ensures
        out@ == bytes@,
{
    let mut out: Vec<u8> = Vec::new();
    let mut i: usize = 0;
    while i < bytes.len()
        invariant
            i <= bytes.len(),
            out@ == bytes@.take(i as int),
        decreases bytes.len() - i,
    {
        out.push(bytes[i]);
        i += 1;
        proof {
            assert(out@ =~= bytes@.take(i as int));
        }
    }
    proof {
        assert(bytes@.take(bytes.len() as int) =~= bytes@);
    }
    out
}

impl AltIndex {
    /// An index over the store as it stands.
    pub fn new(sleddb: sled::Db) -> (index: AltIndex)
        ensures
            index.sleddb == sleddb,
    {
        AltIndex { sleddb }
    }

    /// The value under `key`, if the index holds one.
    pub fn get(&self, key: &str) -> (found: Result<Option<Vec<u8>>, IndexError>)
        ensures
            found matches Ok(Some(value)) ==> entry_at(self@, key@) == Some(value@),
            found matches Ok(None) ==> entry_at(self@, key@) is None,
            found matches Err(error) ==> error is Store,
    {
        match store_get(&self.sleddb, key.as_bytes()) {
            Ok(found) => Ok(found),
            Err(error) => Err(IndexError::Store(store_error_text(&error))),
        }
    }

    /// The entries whose key begins with `prefix`, in the order of the
    /// store.
    pub fn scan_prefix(&self, prefix: &str) -> (found: Result<Vec<StoredEntry>, IndexError>)
        ensures
            found matches Ok(entries) ==> entry_views(entries@) == scan(self@, prefix@)
                && is_scan(self@, prefix@, scan(self@, prefix@)),
            found matches Err(error) ==> error is Store,
    {
        let raw = match store_scan_prefix(&self.sleddb, prefix.as_bytes()) {
            Ok(raw) => raw,
            Err(error) => {
                return Err(IndexError::Store(store_error_text(&error)));
            },
        };
        let prefix_chars = chars_of(prefix);
        let mut out: Vec<StoredEntry> = Vec::new();
        let ghost mut origin: Seq<int> = Seq::empty();
        let ghost store = store_entries(self.sleddb);
        let mut i: usize = 0;
        while i < raw.len()
            invariant
                i <= raw.len(),
                prefix_chars@ == prefix@,
                is_raw_scan(store, encode_utf8(prefix@), raw_entries(raw@)),
                origin.len() == out.len(),
                forall|j: int|
                    0 <= j < out.len() ==> 0 <= #[trigger] origin[j] < i && valid_utf8(
                        raw@[origin[j]].key@,
                    ) && out@[j].key@ == decode_utf8(raw@[origin[j]].key@) && out@[j].value@
                        == raw@[origin[j]].value@ && starts_with(out@[j].key@, prefix@),
                forall|a: int, b: int|
                    0 <= a < b < out.len() ==> #[trigger] origin[a] < #[trigger] origin[b],
                forall|r: int|
                    0 <= r < i && valid_utf8(raw@[r].key@) && starts_with(
                        decode_utf8(#[trigger] raw@[r].key@),
                        prefix@,
                    ) ==> exists|j: int| 0 <= j < out.len() && origin[j] == r,
            decreases raw.len() - i,
        {
            match text_of_utf8(copy_bytes(&raw[i].key)) {
                Some(key) => {
                    let key_chars = chars_of(key.as_str());
                    if begins_with(&key_chars, &prefix_chars) {
                        let value = copy_bytes(&raw[i].value);
                        let ghost before = origin;
                        let ghost listed = out@;
                        out.push(StoredEntry { key, value });
                        proof {
                            origin = origin.push(i as int);
                            assert forall|j: int| 0 <= j < out.len() implies 0 <= #[trigger] origin[j]
                                < i + 1 && valid_utf8(raw@[origin[j]].key@) && out@[j].key@
                                == decode_utf8(raw@[origin[j]].key@) && out@[j].value@
                                == raw@[origin[j]].value@ && starts_with(out@[j].key@, prefix@) by {
                                if j < listed.len() {
                                    assert(out@[j] == listed[j]);
                                    assert(origin[j] == before[j]);
                                } else {
                                    assert(origin[j] == i);
                                }
                            }
                            assert forall|a: int, b: int| 0 <= a < b < out.len() implies #[trigger] origin[a]
                                < #[trigger] origin[b] by {
                                assert(origin[a] == before[a]);
                                if b < listed.len() {
                                    assert(origin[b] == before[b]);
                                }
                            }
                            assert forall|r: int|
                                0 <= r < i + 1 && valid_utf8(raw@[r].key@) && starts_with(
                                    decode_utf8(#[trigger] raw@[r].key@),
                                    prefix@,
                                ) implies exists|j: int| 0 <= j < out.len() && origin[j] == r by {
                                if r < i {
                                    let j = choose|j: int| 0 <= j < before.len() && before[j] == r;
                                    assert(origin[j] == r);
                                } else {
                                    assert(origin[out.len() - 1] == r);
                                }
                            }
                        }
                    }
                },
                None => {},
            }
            i += 1;
        }
        proof {
            let found = entry_views(out@);
            let raw_found = raw_entries(raw@);
            assert forall|j: int| 0 <= j < found.len() implies starts_with(
                #[trigger] found[j].0,
                prefix@,
            ) && self@.contains_key(found[j].0) && self@[found[j].0] == found[j].1 by {
                let r = origin[j];
                decode_utf8_encode_utf8(raw@[r].key@);
                assert(raw_found[r].0 == raw@[r].key@);
                assert(store.contains_key(raw_found[r].0));
            }
            assert forall|k: Seq<char>| #[trigger]
                self@.contains_key(k) && starts_with(k, prefix@) implies exists|j: int|
                0 <= j < found.len() && #[trigger] found[j].0 == k by {
                let rest = k.subrange(prefix@.len() as int, k.len() as int);
                assert(k =~= prefix@ + rest);
                lemma_encode_concat(prefix@, rest);
                let kb = encode_utf8(k);
                assert(kb.subrange(0, encode_utf8(prefix@).len() as int) =~= encode_utf8(
                    prefix@,
                ));
                assert(store.contains_key(kb) && has_prefix(kb, encode_utf8(prefix@)));
                let r = choose|r: int| 0 <= r < raw_found.len() && #[trigger] raw_found[r].0 == kb;
                assert(raw@[r].key@ == kb);
                encode_utf8_valid_utf8(k);
                encode_utf8_decode_utf8(k);
                let j = choose|j: int| 0 <= j < out.len() && origin[j] == r;
                assert(found[j].0 == k);
            }
            assert forall|a: int, b: int| 0 <= a < b < found.len() implies bytes_before(
                encode_utf8(#[trigger] found[a].0),
                encode_utf8(#[trigger] found[b].0),
            ) by {
                decode_utf8_encode_utf8(raw@[origin[a]].key@);
                decode_utf8_encode_utf8(raw@[origin[b]].key@);
                assert(bytes_before(raw_found[origin[a]].0, raw_found[origin[b]].0));
            }
            assert(is_scan(self@, prefix@, found));
            lemma_scan_unique(self@, prefix@, found, scan(self@, prefix@));
        }
        Ok(out)
    }

    /// Makes the writes in one batch. On success the index holds what the
    /// writes say; after a failure it may hold a part of them.
    pub fn apply(&mut self, writes: &Vec<IndexWrite>) -> (done: Result<(), IndexError>)
        ensures
            done is Ok ==> final(self)@ == apply_writes(old(self)@, write_views(writes@)),
            done matches Err(error) ==> error is Store,
    {
        let ghost wanted = encoded_writes(write_views(writes@));
        let mut batch = batch_new();
        let mut i: usize = 0;
        while i < writes.len()
            invariant
                i <= writes.len(),
                wanted == encoded_writes(write_views(writes@)),
                batch_writes(batch) == batch_of(wanted.take(i as int)),
            decreases writes.len() - i,
        {
            let key = copy_bytes_of(writes[i].key.as_str());
            match &writes[i].value {
                Some(value) => batch_insert(&mut batch, key.as_slice(), value.as_slice()),
                None => batch_remove(&mut batch, key.as_slice()),
            }
            i += 1;
            proof {
                assert(wanted.take(i as int).drop_last() =~= wanted.take(i - 1));
                assert(wanted.take(i as int).last() == wanted[i - 1]);
                assert(wanted[i - 1] == (
                    encode_utf8(writes@[i - 1].key@),
                    write_views(writes@)[i - 1].1,
                ));
            }
        }
        proof {
            assert(wanted.take(writes.len() as int) =~= wanted);
            lemma_batch_applies(store_entries(self.sleddb), wanted);
            lemma_text_writes(store_entries(self.sleddb), write_views(writes@));
        }
        match store_apply(&mut self.sleddb, batch) {
            Ok(()) => Ok(()),
            Err(error) => Err(IndexError::Store(store_error_text(&error))),
        }
    }

    /// Takes every entry out of the store.
    pub fn clear(&mut self) -> (done: Result<(), IndexError>)
        ensures
            done is Ok ==> final(self)@ == Map::<Seq<char>, Seq<u8>>::empty(),
            done matches Err(error) ==> error is Store,
    {
        match store_clear(&mut self.sleddb) {
            Ok(()) => {
                proof {
                    assert(self@ =~= Map::<Seq<char>, Seq<u8>>::empty());
                }
                Ok(())
            },
            Err(error) => Err(IndexError::Store(store_error_text(&error))),
        }
    }
}

/// The UTF-8 form of a text.
pub fn copy_bytes_of(text: &str) -> (out: Vec<u8>)
    ensures
        out@ == encode_utf8(text@),
{
    text.as_bytes_vec()
}

} // verus!
