//! The memtable: an ordered concurrent map from key to the position of the
//! key's latest record, kept in a `crossbeam_skiplist::SkipMap`.

use vstd::prelude::*;

use crate::file_id::FileId;

verus! {

/// The position of a record: its file and the offset of its frame header.
#[derive(Debug, Clone, Copy, PartialEq, Eq, Structural)]
pub struct TableEntry {
    pub file_id: FileId,
    pub offset: u32,
}

#[verifier::external_type_specification]
#[verifier::external_body]
#[verifier::reject_recursive_types(K)]
#[verifier::reject_recursive_types(V)]
pub struct ExSkipMap<K, V>(crossbeam_skiplist::SkipMap<K, V>);

pub type Table = crossbeam_skiplist::SkipMap<String, TableEntry>;

/// What a memtable holds.
pub uninterp spec fn table_contents(m: crossbeam_skiplist::SkipMap<String, TableEntry>) -> Map<Seq<char>, TableEntry>;

/// Byte-wise lexicographic order, the order of `String`.
pub open spec fn bytes_lt(a: Seq<u8>, b: Seq<u8>) -> bool
    decreases a.len(),
{
    if a.len() == 0 {
        b.len() > 0
    } else if b.len() == 0 {
        false
    } else if a[0] != b[0] {
        a[0] < b[0]
    } else {
        bytes_lt(a.drop_first(), b.drop_first())
    }
}

/// Relies on `SkipMap::new`: an empty map.
#[verifier::external_body]
pub(crate) fn table_new() -> (r: Table)
    ensures
        table_contents(r).dom().is_empty(),
{
    crossbeam_skiplist::SkipMap::new()
}

/// Relies on `SkipMap::get`: the entry of the key, if present.
#[verifier::external_body]
pub(crate) fn table_get(m: &Table, key: &String) -> (r: Option<TableEntry>)
    ensures
        table_contents(*m).contains_key(key@) ==> r == Some(table_contents(*m)[key@]),
        !table_contents(*m).contains_key(key@) ==> r is None,
{
    m.get(key).map(|e| *e.value())
}

/// Relies on `SkipMap::insert`: an existing entry of the key is replaced.
#[verifier::external_body]
pub(crate) fn table_insert(m: &mut Table, key: String, value: TableEntry)
    ensures
        table_contents(*final(m)) == table_contents(*old(m)).insert(key@, value),
{
    m.insert(key, value);
}

/// Relies on `SkipMap::remove`: returns whether the key was present.
#[verifier::external_body]
pub(crate) fn table_remove(m: &mut Table, key: &String) -> (r: bool)
    ensures
        r == table_contents(*old(m)).contains_key(key@),
        table_contents(*final(m)) == table_contents(*old(m)).remove(key@),
{
    m.remove(key).is_some()
}

/// Relies on `SkipMap::iter`: every entry once, in ascending key order.
#[verifier::external_body]
pub(crate) fn table_entries(m: &Table) -> (r: Vec<(String, TableEntry)>)
    ensures
        forall|i: int, j: int|
            0 <= i < j < r@.len() ==> bytes_lt(
                vstd::utf8::encode_utf8(r@[i].0@),
                vstd::utf8::encode_utf8(r@[j].0@),
            ),
        forall|i: int, j: int| 0 <= i < j < r@.len() ==> r@[i].0@ != r@[j].0@,
        forall|i: int|
            0 <= i < r@.len() ==> table_contents(*m).contains_key(#[trigger] r@[i].0@)
                && table_contents(*m)[r@[i].0@] == r@[i].1,
        forall|k: Seq<char>|
            table_contents(*m).contains_key(k) ==> exists|i: int| 0 <= i < r@.len() && #[trigger] r@[i].0@ == k,
{
    m.iter().map(|e| (e.key().clone(), *e.value())).collect()
}

} // verus!
