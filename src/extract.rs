//! Classification of the files found in a data directory.

use vstd::prelude::*;

use crate::error::KvError;
use crate::file_id::{parse_file_name, version_of, FileId};

verus! {

broadcast use vstd::seq_lib::group_to_multiset_ensures;

/// The log files of a data directory, by role, each list in ascending
/// order of version.
#[derive(Debug)]
pub struct FileExtract {
    pub compact_files: Vec<FileId>,
    pub append_files: Vec<FileId>,
    pub temp_files: Vec<FileId>,
    /// The largest version among the files found, or 0 if there are none.
    pub last_version: u32,
}

/// The ids of the regular files among `entries` (name, is-directory), in
/// order, or the name of the first regular file that is not a log file.
pub open spec fn scan_ids(entries: Seq<(String, bool)>) -> Result<Seq<FileId>, Seq<char>>
    decreases entries.len(),
{
    if entries.len() == 0 {
        Ok(Seq::empty())
    } else {
        match scan_ids(entries.drop_last()) {
            Err(name) => Err(name),
            Ok(ids) => {
                let (name, is_dir) = entries.last();
                if is_dir {
                    Ok(ids)
                } else {
                    match parse_file_name(name@) {
                        Some(id) => Ok(ids.push(id)),
                        None => Err(name@),
                    }
                }
            },
        }
    }
}

pub open spec fn max_version(ids: Seq<FileId>) -> u32
    decreases ids.len(),
{
    if ids.len() == 0 {
        0
    } else {
        let m = max_version(ids.drop_last());
        let v = version_of(ids.last());
        if v > m {
            v
        } else {
            m
        }
    }
}

pub open spec fn sorted_by_version(s: Seq<FileId>) -> bool {
    forall|i: int, j: int| 0 <= i < j < s.len() ==> version_of(s[i]) <= version_of(s[j])
}

pub open spec fn compact_role() -> spec_fn(FileId) -> bool {
    |id: FileId| id is Compact
}

pub open spec fn append_role() -> spec_fn(FileId) -> bool {
    |id: FileId| id is Append
}

pub open spec fn temp_role() -> spec_fn(FileId) -> bool {
    |id: FileId| id is Temp
}

/// `files` holds exactly the ids of `ids` that have the role, in ascending
/// order of version.
pub open spec fn sorted_role(files: Seq<FileId>, ids: Seq<FileId>, role: spec_fn(FileId) -> bool) -> bool {
    &&& sorted_by_version(files)
    &&& files.to_multiset() == ids.filter(role).to_multiset()
}

/// The append file that a store without append files starts writing to.
pub open spec fn fresh_append(last_version: u32) -> FileId {
    FileId::Append(if last_version < u32::MAX { (last_version + 1) as u32 } else { u32::MAX })
}

/// What the classification of the file ids `ids` is.
pub open spec fn extract_of(x: FileExtract, ids: Seq<FileId>) -> bool {
    &&& sorted_role(x.compact_files@, ids, compact_role())
    &&& sorted_role(x.temp_files@, ids, temp_role())
    &&& x.last_version == max_version(ids)
    &&& if ids.filter(append_role()).len() == 0 {
        x.append_files@ == seq![fresh_append(max_version(ids))]
    } else {
        sorted_role(x.append_files@, ids, append_role())
    }
}

/// Inserts `id` into `v`, which is sorted by version, keeping it sorted.
fn insert_sorted(v: &mut Vec<FileId>, id: FileId)
    requires
        sorted_by_version(old(v)@),
    ensures
        sorted_by_version(final(v)@),
        final(v)@.to_multiset() == old(v)@.to_multiset().insert(id),
{
    let mut j: usize = 0;
    while j < v.len() && v[j].version() <= id.version()
        invariant
            j <= v.len(),
            forall|k: int| 0 <= k < j ==> version_of(#[trigger] v@[k]) <= version_of(id),
        decreases v.len() - j,
    {
        j = j + 1;
    }
    let ghost before = v@;
    v.insert(j, id);
    proof {
        assert(v@ == before.insert(j as int, id));
        before.insert_ensures(j as int, id);
        vstd::seq_lib::to_multiset_insert(before, j as int, id);
        assert forall|a: int, b: int| 0 <= a < b < v@.len() implies version_of(v@[a]) <= version_of(
            v@[b],
        ) by {
            if b < j {
            } else if b == j {
            } else if a < j {
                assert(v@[b] == before[b - 1]);
                assert(version_of(before[j as int]) > version_of(id));
                assert(version_of(before[j as int]) <= version_of(before[b - 1]));
            } else if a == j {
                assert(v@[b] == before[b - 1]);
                assert(version_of(before[j as int]) <= version_of(before[b - 1]));
            } else {
                assert(v@[a] == before[a - 1]);
                assert(v@[b] == before[b - 1]);
            }
        }
    }
}

/// Classifies the entries of a data directory, given as (name, is-directory)
/// pairs: directories are skipped, and every other entry must be a log file.
/// When there is no append file, a fresh one after the largest version is
/// listed, so that a new store starts on `a_1`.
pub fn extract_files(entries: &Vec<(String, bool)>) -> (r: Result<FileExtract, KvError>)
    ensures
        match scan_ids(entries@) {
            Err(name) => r matches Err(KvError::ParseFileId { path: p }) && p@ == name,
            Ok(ids) => r matches Ok(x) && extract_of(x, ids),
        },
{
    let mut compact_files: Vec<FileId> = Vec::new();
    let mut append_files: Vec<FileId> = Vec::new();
    let mut temp_files: Vec<FileId> = Vec::new();
    let mut last_version: u32 = 0;
    let ghost mut ids: Seq<FileId> = Seq::empty();
    let mut i: usize = 0;
    assert(entries@.subrange(0, 0) =~= Seq::<(String, bool)>::empty());
    proof {
        ids.lemma_filter_len(compact_role());
        ids.lemma_filter_len(append_role());
        ids.lemma_filter_len(temp_role());
        assert(ids.filter(compact_role()) =~= Seq::<FileId>::empty());
        assert(ids.filter(append_role()) =~= Seq::<FileId>::empty());
        assert(ids.filter(temp_role()) =~= Seq::<FileId>::empty());
    }
    while i < entries.len()
        invariant
            i <= entries.len(),
            scan_ids(entries@.subrange(0, i as int)) == Ok::<Seq<FileId>, Seq<char>>(ids),
            sorted_role(compact_files@, ids, compact_role()),
            sorted_role(append_files@, ids, append_role()),
            sorted_role(temp_files@, ids, temp_role()),
            last_version == max_version(ids),
        decreases entries.len() - i,
    {
        let ghost prefix = entries@.subrange(0, i as int);
        let ghost next = entries@.subrange(0, i + 1);
        assert(next.drop_last() =~= prefix);
        let (name, is_dir) = &entries[i];
        if !*is_dir {
            let id = match FileId::parse(name.as_str()) {
                Ok(id) => id,
                Err(e) => {
                    proof {
                        lemma_scan_error_persists(entries@, i as int + 1);
                        assert(entries@.subrange(0, entries@.len() as int) =~= entries@);
                    }
                    return Err(e);
                },
            };
            let ghost old_ids = ids;
            proof {
                ids = old_ids.push(id);
                old_ids.lemma_filter_push(id, compact_role());
                old_ids.lemma_filter_push(id, append_role());
                old_ids.lemma_filter_push(id, temp_role());
                assert(next.last() == entries@[i as int]);
                assert(ids.drop_last() =~= old_ids);
            }
            match id {
                FileId::Compact(_) => {
                    insert_sorted(&mut compact_files, id);
                    assert(compact_files@.to_multiset() =~= ids.filter(compact_role()).to_multiset());
                },
                FileId::Append(_) => {
                    insert_sorted(&mut append_files, id);
                    assert(append_files@.to_multiset() =~= ids.filter(append_role()).to_multiset());
                },
                FileId::Temp(_) => {
                    insert_sorted(&mut temp_files, id);
                    assert(temp_files@.to_multiset() =~= ids.filter(temp_role()).to_multiset());
                },
            }
            let v = id.version();
            if v > last_version {
                last_version = v;
            }
        } else {
            assert(next.last() == entries@[i as int]);
        }
        i = i + 1;
    }
    assert(entries@.subrange(0, entries@.len() as int) =~= entries@);
    proof {
        let af = ids.filter(append_role());
        assert(af.to_multiset().len() == af.len());
        assert(append_files@.to_multiset().len() == append_files@.len());
    }
    if append_files.len() == 0 {
        let next = if last_version < u32::MAX {
            last_version + 1
        } else {
            u32::MAX
        };
        append_files.push(FileId::Append(next));
        assert(append_files@ =~= seq![fresh_append(last_version)]);
    }
    Ok(FileExtract { compact_files, append_files, temp_files, last_version })
}

/// Once a prefix of the entries fails to scan, every longer prefix fails
/// with the same name.
proof fn lemma_scan_error_persists(entries: Seq<(String, bool)>, k: int)
    requires
        0 <= k <= entries.len(),
        scan_ids(entries.subrange(0, k)) is Err,
    ensures
        scan_ids(entries) == scan_ids(entries.subrange(0, k)),
    decreases entries.len() - k,
{
    if k < entries.len() {
        let next = entries.subrange(0, k + 1);
        assert(next.drop_last() =~= entries.subrange(0, k));
        lemma_scan_error_persists(entries, k + 1);
    } else {
        assert(entries.subrange(0, k) =~= entries);
    }
}

} // verus!
