//! The engine's index: the memtable, the writer of the current append file,
//! the duplicate counter and the files the store tracks. Reading records
//! back from files is left to the caller, which owns the file handles.

use vstd::prelude::*;

use crate::entry::{entry_bytes, EntryModel, LogEntry};
use crate::frame::frame_bytes;
use crate::error::{invalid_data, KvError};
use crate::extract::FileExtract;
use crate::file_id::{version_of, FileId};
use crate::log_io::{
    failed_read, lemma_frame_read_error, ReadTrace, lemma_frame_read_result, lemma_pos_read_result, whole_read, read_chain, replay_reads, write_outcome, LogReader, LogRecord, LogSink, LogSource, LogWriter,
};
use crate::table::{
    bytes_lt, table_contents, table_entries, table_get, table_insert, table_new, table_remove, Table,
    TableEntry,
};

verus! {

/// The number of shadowed records that triggers a compaction.
pub const DUPLICATE_THRESHOLD: u32 = 1000;

/// The position of a record, as a key of the record log.
pub open spec fn pos_of(te: TableEntry) -> (FileId, u32) {
    (te.file_id, te.offset)
}

/// The value of a record; empty for a removal.
pub open spec fn record_value(e: EntryModel) -> Seq<char> {
    match e {
        EntryModel::Put { val, .. } => val,
        EntryModel::Remove { .. } => Seq::empty(),
    }
}

/// The record at `te` writes a value of `key`.
pub open spec fn points_to_put(
    log: Map<(FileId, u32), EntryModel>,
    te: TableEntry,
    key: Seq<char>,
) -> bool {
    &&& log.contains_key(pos_of(te))
    &&& log[pos_of(te)] matches EntryModel::Put { key: k, .. }
    &&& k == key
}

/// Every key of the table points to a record that writes a value of it.
pub open spec fn table_consistent(
    table: Map<Seq<char>, TableEntry>,
    log: Map<(FileId, u32), EntryModel>,
) -> bool {
    forall|k: Seq<char>| #[trigger] table.contains_key(k) ==> points_to_put(log, table[k], k)
}

/// The value of each key of the table, read from the record it points to.
pub open spec fn table_values(
    table: Map<Seq<char>, TableEntry>,
    log: Map<(FileId, u32), EntryModel>,
) -> Map<Seq<char>, Seq<char>> {
    Map::new(|k: Seq<char>| table.contains_key(k), |k: Seq<char>| record_value(log[pos_of(table[k])]))
}

/// The values that rewritten (key, value, offset) records give, a later
/// record of a key replacing an earlier one.
pub open spec fn rewritten_values(rw: Seq<(String, String, u32)>) -> Map<Seq<char>, Seq<char>>
    decreases rw.len(),
{
    if rw.len() == 0 {
        Map::empty()
    } else {
        rewritten_values(rw.drop_last()).insert(rw.last().0@, rw.last().1@)
    }
}

/// The memtable after one more record: a write points its key at the
/// record, a removal drops its key.
pub open spec fn apply_record(table: Map<Seq<char>, TableEntry>, r: LogRecord) -> Map<Seq<char>, TableEntry> {
    match r.entry {
        EntryModel::Put { key, .. } => table.insert(key, TableEntry { file_id: r.file_id, offset: r.offset }),
        EntryModel::Remove { key } => table.remove(key),
    }
}

/// The memtable that replaying `h` in order builds.
pub open spec fn replay_table(h: Seq<LogRecord>) -> Map<Seq<char>, TableEntry>
    decreases h.len(),
{
    if h.len() == 0 {
        Map::empty()
    } else {
        apply_record(replay_table(h.drop_last()), h.last())
    }
}

/// The record at each position of `h`, a later record at a position
/// replacing an earlier one.
pub open spec fn records_of(h: Seq<LogRecord>) -> Map<(FileId, u32), EntryModel>
    decreases h.len(),
{
    if h.len() == 0 {
        Map::empty()
    } else {
        records_of(h.drop_last()).insert((h.last().file_id, h.last().offset), h.last().entry)
    }
}

proof fn lemma_push_record(h: Seq<LogRecord>, r: LogRecord)
    ensures
        records_of(h.push(r)) == records_of(h).insert((r.file_id, r.offset), r.entry),
        replay_table(h.push(r)) == apply_record(replay_table(h), r),
{
    assert(h.push(r).drop_last() =~= h);
}

/// The reads made since a reader made `before`.
pub open spec fn reads_since(before: Seq<(u32, ReadTrace)>, after: Seq<(u32, ReadTrace)>) -> Seq<(u32, ReadTrace)> {
    after.subrange(before.len() as int, after.len() as int)
}

/// An index opened by replaying a compact file (`compact`) and then an
/// append file (`append`): its records are those of both replays in order,
/// and writing resumes where the append file's frames end.
pub open spec fn opened_from(
    history: Seq<LogRecord>,
    write_position: u32,
    compact: Option<(Seq<LogRecord>, u32)>,
    append: Option<(Seq<LogRecord>, u32)>,
) -> bool {
    &&& compact matches Some((rc, _))
    &&& append matches Some((ra, end))
    &&& history == rc + ra
    &&& write_position == end
}

/// Whether a removal's record was written: `KeyNotFound` comes only after
/// the record is written.
pub open spec fn written(r: Result<(), KvError>) -> Result<(), KvError> {
    match r {
        Err(KvError::KeyNotFound) => Ok(()),
        _ => r,
    }
}

/// The index of a store, over the sink of its current append file.
pub struct KvIndex<W: LogSink> {
    mem_table: Table,
    writer: LogWriter<W>,
    current_file: FileId,
    duplicate_count: u32,
    files: Vec<FileId>,
    log: Ghost<Map<(FileId, u32), EntryModel>>,
    history: Ghost<Seq<LogRecord>>,
}

impl<W: LogSink> KvIndex<W> {
    /// The memtable: each live key and the position of its latest record.
    pub closed spec fn table(&self) -> Map<Seq<char>, TableEntry> {
        table_contents(self.mem_table)
    }

    /// The records that this index has written or replayed, by position.
    pub closed spec fn records(&self) -> Map<(FileId, u32), EntryModel> {
        self.log@
    }

    /// The records that this index has written or replayed, in order.
    pub closed spec fn history(&self) -> Seq<LogRecord> {
        self.history@
    }

    /// Every write to the current file's sink: the bytes handed, if any,
    /// and whether the sink failed.
    pub closed spec fn write_calls(&self) -> Seq<(Option<Seq<u8>>, bool)> {
        self.writer.calls()
    }

    /// The bytes handed to the current file's sink by the last write, if any.
    pub open spec fn last_handed(&self) -> Option<Seq<u8>> {
        self.write_calls().last().0
    }

    /// Whether the sink failed in the last write.
    pub open spec fn last_sink_failed(&self) -> bool {
        self.write_calls().last().1
    }

    /// The bytes written to the current file's sink through this index.
    pub closed spec fn sent(&self) -> Seq<u8> {
        self.writer.sent()
    }

    /// The append file that writes go to.
    pub closed spec fn current(&self) -> FileId {
        self.current_file
    }

    /// The offset at which the next record of the current file starts.
    pub closed spec fn write_position(&self) -> u32 {
        self.writer.position()
    }

    /// The files of the data directory that the store knows of.
    pub closed spec fn tracked_files(&self) -> Seq<FileId> {
        self.files@
    }

    /// The number of records written since the last compaction that shadow
    /// an earlier record.
    pub closed spec fn duplicates(&self) -> u32 {
        self.duplicate_count
    }

    pub open spec fn wf(&self) -> bool {
        &&& table_consistent(self.table(), self.records())
        &&& forall|p: (FileId, u32)| #[trigger]
            self.records().contains_key(p) && p.0 == self.current() ==> p.1 < self.write_position()
        &&& forall|k: Seq<char>| #[trigger]
            self.table().contains_key(k) ==> self.tracked_files().contains(self.table()[k].file_id)
        &&& self.tracked_files().contains(self.current())
        &&& self.current() is Append
        &&& self.table() == replay_table(self.history())
        &&& self.records() == records_of(self.history())
    }

    /// The logical contents of the store: each live key and its value.
    pub open spec fn view(&self) -> Map<Seq<char>, Seq<char>> {
        table_values(self.table(), self.records())
    }

    /// Writes `value` for `key`. A write that shadows an earlier value of
    /// the key counts as a duplicate.
    pub fn set(&mut self, key: String, value: String) -> (r: Result<(), KvError>)
        requires
            old(self).wf(),
        ensures
            final(self).wf(),
            final(self).current() == old(self).current(),
            final(self).tracked_files() == old(self).tracked_files(),
            final(self).write_calls().drop_last() == old(self).write_calls(),
            final(self).write_calls().len() == old(self).write_calls().len() + 1,
            write_outcome(
                EntryModel::Put { key: key@, val: value@ },
                old(self).write_position(),
                final(self).last_handed(),
                final(self).last_sink_failed(),
                r,
            ),
            r is Ok ==> (entry_bytes(EntryModel::Put { key: key@, val: value@ }) matches Some(b)
                && final(self).sent() == old(self).sent() + frame_bytes(b)),
            r is Ok ==> final(self).view() == old(self).view().insert(key@, value@),
            r is Ok ==> final(self).history() == old(self).history().push(
                LogRecord {
                    file_id: old(self).current(),
                    offset: old(self).write_position(),
                    entry: EntryModel::Put { key: key@, val: value@ },
                },
            ),
            r is Err ==> final(self).history() == old(self).history(),
            r is Ok ==> final(self).duplicates() == if old(self).view().contains_key(key@)
                && old(self).duplicates() < u32::MAX {
                (old(self).duplicates() + 1) as u32
            } else {
                old(self).duplicates()
            },
            r is Err ==> final(self).view() == old(self).view() && final(self).duplicates()
                == old(self).duplicates(),
    {
        let offset = self.writer.pos();
        let entry = LogEntry::Put { key: key.clone(), val: value };
        let ghost record = entry@;
        if let Err(e) = self.writer.write(entry) {
            return Err(e);
        }
        let ghost old_log = self.log@;
        let ghost old_table = self.table();
        self.log = Ghost(self.log@.insert((self.current_file, offset), record));
        let ghost rec = LogRecord { file_id: self.current_file, offset, entry: record };
        proof {
            lemma_push_record(self.history@, rec);
        }
        self.history = Ghost(self.history@.push(rec));
        let present = table_get(&self.mem_table, &key).is_some();
        if present && self.duplicate_count < u32::MAX {
            self.duplicate_count = self.duplicate_count + 1;
        }
        let te = TableEntry { file_id: self.current_file, offset };
        table_insert(&mut self.mem_table, key, te);
        proof {
            assert forall|k: Seq<char>| #[trigger] old_table.contains_key(k) implies pos_of(
                old_table[k],
            ) != (self.current_file, offset) && self.log@[pos_of(old_table[k])] == old_log[pos_of(
                old_table[k],
            )] by {
                assert(points_to_put(old_log, old_table[k], k));
            }
            assert(self.view() =~= table_values(old_table, old_log).insert(key@, value@));
        }
        Ok(())
    }

    /// Writes a removal of `key`, then drops the key from the memtable. The
    /// removal counts as a duplicate; a key that was not present gives
    /// `KeyNotFound` once the removal is written.
    pub fn remove(&mut self, key: &String) -> (r: Result<(), KvError>)
        requires
            old(self).wf(),
        ensures
            final(self).wf(),
            final(self).current() == old(self).current(),
            final(self).tracked_files() == old(self).tracked_files(),
            final(self).write_calls().drop_last() == old(self).write_calls(),
            final(self).write_calls().len() == old(self).write_calls().len() + 1,
            write_outcome(
                EntryModel::Remove { key: key@ },
                old(self).write_position(),
                final(self).last_handed(),
                final(self).last_sink_failed(),
                written(r),
            ),
            written(r) is Ok ==> (entry_bytes(EntryModel::Remove { key: key@ }) matches Some(b)
                && final(self).sent() == old(self).sent() + frame_bytes(b)),
            r is Ok ==> old(self).view().contains_key(key@),
            r matches Err(KvError::KeyNotFound) ==> !old(self).view().contains_key(key@),
            (r is Ok || r matches Err(KvError::KeyNotFound)) ==> final(self).view() == old(
                self,
            ).view().remove(key@) && final(self).duplicates() == if old(self).duplicates()
                < u32::MAX {
                (old(self).duplicates() + 1) as u32
            } else {
                old(self).duplicates()
            },
            !(r is Ok || r matches Err(KvError::KeyNotFound)) ==> final(self).view() == old(
                self,
            ).view() && final(self).duplicates() == old(self).duplicates() && final(self).history()
                == old(self).history(),
            (r is Ok || r matches Err(KvError::KeyNotFound)) ==> final(self).history() == old(
                self,
            ).history().push(
                LogRecord {
                    file_id: old(self).current(),
                    offset: old(self).write_position(),
                    entry: EntryModel::Remove { key: key@ },
                },
            ),
    {
        let offset = self.writer.pos();
        let entry = LogEntry::Remove { key: key.clone() };
        let ghost record = entry@;
        if let Err(e) = self.writer.write(entry) {
            return Err(e);
        }
        let ghost old_log = self.log@;
        let ghost old_table = self.table();
        self.log = Ghost(self.log@.insert((self.current_file, offset), record));
        let ghost rec = LogRecord { file_id: self.current_file, offset, entry: record };
        proof {
            lemma_push_record(self.history@, rec);
        }
        self.history = Ghost(self.history@.push(rec));
        if self.duplicate_count < u32::MAX {
            self.duplicate_count = self.duplicate_count + 1;
        }
        let present = table_remove(&mut self.mem_table, key);
        proof {
            assert forall|k: Seq<char>| #[trigger] old_table.contains_key(k) implies pos_of(
                old_table[k],
            ) != (self.current_file, offset) && self.log@[pos_of(old_table[k])] == old_log[pos_of(
                old_table[k],
            )] by {
                assert(points_to_put(old_log, old_table[k], k));
            }
            assert(self.view() =~= table_values(old_table, old_log).remove(key@));
        }
        if present {
            Ok(())
        } else {
            Err(KvError::KeyNotFound)
        }
    }

    /// The position of the latest record of `key`, if the key is live; the
    /// record there writes the key's value.
    pub fn lookup(&self, key: &String) -> (r: Option<TableEntry>)
        requires
            self.wf(),
        ensures
            r is Some <==> self.view().contains_key(key@),
            r matches Some(te) ==> self.records().contains_key(pos_of(te)) && self.records()[pos_of(
                te,
            )] == (EntryModel::Put { key: key@, val: self.view()[key@] }),
    {
        let r = table_get(&self.mem_table, key);
        proof {
            if self.table().contains_key(key@) {
                assert(points_to_put(self.records(), self.table()[key@], key@));
            }
        }
        r
    }

    /// The sink of the current append file.
    pub fn sink(&self) -> &W {
        self.writer.sink()
    }

    /// Where the next record of the current append file starts.
    pub fn write_pos(&self) -> (r: u32)
        ensures
            r == self.write_position(),
    {
        self.writer.pos()
    }

    pub fn current_file(&self) -> (r: FileId)
        ensures
            r == self.current(),
    {
        self.current_file
    }

    pub fn files(&self) -> (r: &Vec<FileId>)
        ensures
            r@ == self.tracked_files(),
    {
        &self.files
    }

    /// Whether enough duplicates have piled up for a compaction.
    pub fn compaction_due(&self) -> (r: bool)
        ensures
            r == (self.duplicates() >= DUPLICATE_THRESHOLD),
    {
        self.duplicate_count >= DUPLICATE_THRESHOLD
    }
}

impl<W: LogSink> KvIndex<W> {
    /// Builds the index of a data directory: replays, through `compact`, the
    /// last compact file (where there is one) and then, through `append`,
    /// the last append file, and writes on through `sink` after the last
    /// frame of that append file. Every file found is tracked.
    pub fn open<S: LogSource>(
        extract: &FileExtract,
        compact: &mut LogReader<S>,
        append: &mut LogReader<S>,
        sink: W,
    ) -> (r: Result<KvIndex<W>, KvError>)
        requires
            extract.append_files@.len() > 0,
            extract.append_files@.last() is Append,
            extract.compact_files@.len() > 0 ==> extract.compact_files@.last() is Compact,
        ensures
            extract.compact_files@.len() == 0 ==> final(compact).reads() == old(compact).reads(),
            r matches Err(e) ==> (e is Io || e is DeserializeEntry),
            r is Err ==> (final(compact).reads().len() > old(compact).reads().len() && failed_read(
                final(compact).last_trace(),
                final(compact).reads().last().0,
            )) || (final(append).reads().len() > old(append).reads().len() && failed_read(
                final(append).last_trace(),
                final(append).reads().last().0,
            )),
            r matches Ok(x) ==> {
                &&& x.wf()
                &&& x.current() == extract.append_files@.last()
                &&& x.duplicates() == 0
                &&& x.sent() == Seq::<u8>::empty()
                &&& x.tracked_files() == extract.compact_files@ + extract.append_files@
                    + extract.temp_files@
                &&& opened_from(
                    x.history(),
                    x.write_position(),
                    if extract.compact_files@.len() > 0 {
                        replay_reads(
                            reads_since(old(compact).reads(), final(compact).reads()),
                            old(compact).position(),
                            extract.compact_files@.last(),
                        )
                    } else {
                        Some((Seq::empty(), 0))
                    },
                    replay_reads(
                        reads_since(old(append).reads(), final(append).reads()),
                        old(append).position(),
                        x.current(),
                    ),
                )
            },
    {
        let mut table = table_new();
        let mut log: Ghost<Map<(FileId, u32), EntryModel>> = Ghost(Map::empty());
        let mut history: Ghost<Seq<LogRecord>> = Ghost(Seq::empty());
        let current = extract.append_files[extract.append_files.len() - 1];
        let ghost mut compact_id: Option<FileId> = None;
        assert(table_contents(table) =~= Map::<Seq<char>, TableEntry>::empty());
        let ghost compact_old = compact.reads();
        let ghost append_old = append.reads();
        let ghost append_pos = append.position();
        if extract.compact_files.len() > 0 {
            let id = extract.compact_files[extract.compact_files.len() - 1];
            match replay_file(&mut table, log, history, id, compact) {
                Ok((l, h)) => {
                    log = l;
                    history = h;
                },
                Err(e) => return Err(e),
            }
            proof {
                compact_id = Some(id);
            }
        }
        let ghost before = table_contents(table);
        let ghost split = history@.len();
        let ghost compact_hist = history@;
        match replay_file(&mut table, log, history, current, append) {
            Ok((l, h)) => {
                log = l;
                history = h;
            },
            Err(e) => return Err(e),
        }
        let mut files: Vec<FileId> = Vec::new();
        push_all(&mut files, &extract.compact_files);
        push_all(&mut files, &extract.append_files);
        push_all(&mut files, &extract.temp_files);
        let x = KvIndex {
            mem_table: table,
            writer: LogWriter::new_at(sink, append.pos()),
            current_file: current,
            duplicate_count: 0,
            files,
            log,
            history,
        };
        proof {
            let all = extract.compact_files@ + extract.append_files@ + extract.temp_files@;
            assert(x.tracked_files() =~= all);
            assert(all[extract.compact_files@.len() + extract.append_files@.len() - 1] == current);
            if let Some(c) = compact_id {
                assert(all[extract.compact_files@.len() - 1] == c);
            }
            assert(x.history() =~= compact_hist + x.history().subrange(split as int, x.history().len() as int));
            if extract.compact_files@.len() == 0 {
                assert(compact_hist =~= Seq::<LogRecord>::empty());
            } else {
                assert(compact_hist =~= compact_hist.subrange(0, compact_hist.len() as int));
            }
            assert forall|k: Seq<char>| #[trigger]
                x.table().contains_key(k) implies x.tracked_files().contains(x.table()[k].file_id) by {
                if x.table()[k].file_id != current {
                    assert(before.contains_key(k));
                }
            }
        }
        Ok(x)
    }
}

/// The offsets of rewritten records strictly increase.
pub open spec fn offsets_increasing(rw: Seq<(String, String, u32)>) -> bool {
    forall|a: int, b: int| 0 <= a < b < rw.len() ==> rw[a].2 < rw[b].2
}

/// Tracked files other than `keep1` and `keep2`.
pub open spec fn files_except(files: Seq<FileId>, keep1: FileId, keep2: FileId) -> Seq<FileId> {
    files.filter(other_than(keep1, keep2))
}

pub open spec fn other_than(keep1: FileId, keep2: FileId) -> spec_fn(FileId) -> bool {
    |f: FileId| f != keep1 && f != keep2
}

/// Whether the offsets of rewritten records strictly increase.
fn offsets_strictly_increase(rw: &Vec<(String, String, u32)>) -> (r: bool)
    ensures
        r == offsets_increasing(rw@),
{
    let n = rw.len();
    let mut i: usize = 1;
    while i < n
        invariant
            1 <= i,
            n == rw@.len(),
            forall|a: int, b: int| 0 <= a < b < i && b < n ==> rw@[a].2 < rw@[b].2,
        decreases n - i,
    {
        if rw[i - 1].2 >= rw[i].2 {
            return false;
        }
        i = i + 1;
    }
    true
}

impl<W: LogSink> KvIndex<W> {
    /// What a compaction of this index works with: the compact file to
    /// write (`Compact` of the current version), the append file to
    /// continue in (`Append` of the next version), and every live key with
    /// the position of its record. `None` where the current version is the
    /// largest, so that no next version exists.
    pub fn compaction_plan(&self) -> (r: Option<(FileId, FileId, Vec<(String, TableEntry)>)>)
        requires
            self.wf(),
        ensures
            r is None ==> version_of(self.current()) == u32::MAX,
            r matches Some(plan) ==> {
                &&& version_of(self.current()) < u32::MAX
                &&& plan.0 == FileId::Compact(version_of(self.current()))
                &&& plan.1 == FileId::Append((version_of(self.current()) + 1) as u32)
                &&& forall|i: int, j: int|
                    0 <= i < j < plan.2@.len() ==> plan.2@[i].0@ != plan.2@[j].0@
                &&& forall|i: int, j: int|
                    0 <= i < j < plan.2@.len() ==> bytes_lt(
                        vstd::utf8::encode_utf8(plan.2@[i].0@),
                        vstd::utf8::encode_utf8(plan.2@[j].0@),
                    )
                &&& forall|i: int|
                    0 <= i < plan.2@.len() ==> self.table().contains_key(#[trigger] plan.2@[i].0@)
                        && self.table()[plan.2@[i].0@] == plan.2@[i].1
                &&& forall|k: Seq<char>|
                    self.table().contains_key(k) ==> exists|i: int|
                        0 <= i < plan.2@.len() && #[trigger] plan.2@[i].0@ == k
            },
    {
        let v = self.current_file.version();
        if v == u32::MAX {
            return None;
        }
        assert(v == version_of(self.current()));
        let items = table_entries(&self.mem_table);
        assert(forall|i: int, j: int| 0 <= i < j < items@.len() ==> items@[i].0@ != items@[j].0@);
        assert(forall|i: int, j: int|
            0 <= i < j < items@.len() ==> bytes_lt(
                vstd::utf8::encode_utf8(items@[i].0@),
                vstd::utf8::encode_utf8(items@[j].0@),
            ));
        assert(forall|i: int|
            0 <= i < items@.len() ==> self.table().contains_key(#[trigger] items@[i].0@)
                && self.table()[items@[i].0@] == items@[i].1);
        assert(forall|k: Seq<char>|
            self.table().contains_key(k) ==> exists|i: int|
                0 <= i < items@.len() && #[trigger] items@[i].0@ == k);
        let plan = (FileId::Compact(v), FileId::Append(v + 1), items);
        assert(plan.2@ == items@);
        Some(plan)
    }

    /// Swaps in a compacted log: the memtable points each live key that
    /// `rewritten` holds at its rewritten record in `compact`, keys that it
    /// does not hold are dropped, writes continue in the empty file `append`
    /// through `sink`, and the duplicate count restarts. Returns the files
    /// that the store no longer needs, for deletion. Fails, changing
    /// nothing, unless `compact` is a compact file, `append` an append file
    /// and the rewritten offsets strictly increase.
    pub fn finish_compaction(
        &mut self,
        compact: FileId,
        append: FileId,
        rewritten: &Vec<(String, String, u32)>,
        sink: W,
    ) -> (r: Result<Vec<FileId>, KvError>)
        requires
            old(self).wf(),
        ensures
            final(self).wf(),
            r is Ok <==> (compact is Compact && append is Append && offsets_increasing(rewritten@)),
            r is Err ==> final(self).view() == old(self).view() && final(self).current() == old(
                self,
            ).current() && final(self).tracked_files() == old(self).tracked_files()
                && final(self).duplicates() == old(self).duplicates(),
            r matches Ok(deleted) ==> {
                &&& final(self).view() == rewritten_values(rewritten@).restrict(
                    old(self).view().dom(),
                )
                &&& final(self).current() == append
                &&& final(self).write_position() == 0
                &&& final(self).tracked_files() == seq![compact, append]
                &&& deleted@ == files_except(old(self).tracked_files(), compact, append)
                &&& final(self).duplicates() == 0
                &&& forall|k: Seq<char>| #[trigger]
                    final(self).table().contains_key(k) ==> final(self).table()[k].file_id == compact
            },
    {
        if !compact.is_compacted() || !append.is_append() {
            return Err(KvError::Io(invalid_data("compaction needs a compact and an append file")));
        }
        if !offsets_strictly_increase(rewritten) {
            return Err(KvError::Io(invalid_data("rewritten offsets must increase")));
        }
        let n = rewritten.len();
        let ghost old_table = self.table();
        let ghost old_view = self.view();
        let ghost dom = old_view.dom();
        let mut table = table_new();
        let ghost mut l: Map<(FileId, u32), EntryModel> = Map::empty();
        let ghost mut h: Seq<LogRecord> = Seq::empty();
        let mut j: usize = 0;
        proof {
            assert(rewritten@.subrange(0, 0) =~= Seq::<(String, String, u32)>::empty());
            assert(table_values(table_contents(table), l) =~= rewritten_values(
                rewritten@.subrange(0, 0),
            ).restrict(dom));
        }
        while j < n
            invariant
                j <= n,
                n == rewritten@.len(),
                offsets_increasing(rewritten@),
                self.wf(),
                old_table == self.table(),
                old_view == self.view(),
                dom == old_view.dom(),
                compact is Compact,
                table_consistent(table_contents(table), l),
                table_contents(table) == replay_table(h),
                l == records_of(h),
                forall|p: (FileId, u32)| #[trigger]
                    l.contains_key(p) ==> p.0 == compact && (j < n ==> p.1 < rewritten@[j as int].2),
                forall|k: Seq<char>| #[trigger]
                    table_contents(table).contains_key(k) ==> table_contents(table)[k].file_id == compact,
                table_values(table_contents(table), l) == rewritten_values(
                    rewritten@.subrange(0, j as int),
                ).restrict(dom),
            decreases n - j,
        {
            let key = &rewritten[j].0;
            let off = rewritten[j].2;
            let ghost val = rewritten@[j as int].1@;
            let ghost before = table_contents(table);
            let ghost old_l = l;
            let ghost prev = rewritten_values(rewritten@.subrange(0, j as int));
            proof {
                let next = rewritten@.subrange(0, j + 1);
                assert(next.drop_last() =~= rewritten@.subrange(0, j as int));
                assert(rewritten_values(next) == prev.insert(key@, val));
            }
            if table_get(&self.mem_table, key).is_some() {
                proof {
                    l = l.insert((compact, off), EntryModel::Put { key: key@, val });
                    let rec = LogRecord {
                        file_id: compact,
                        offset: off,
                        entry: EntryModel::Put { key: key@, val },
                    };
                    lemma_push_record(h, rec);
                    h = h.push(rec);
                }
                table_insert(&mut table, key.clone(), TableEntry { file_id: compact, offset: off });
                proof {
                    assert forall|k: Seq<char>| #[trigger] before.contains_key(k) implies pos_of(
                        before[k],
                    ) != (compact, off) && l[pos_of(before[k])] == old_l[pos_of(before[k])] by {
                        assert(points_to_put(old_l, before[k], k));
                    }
                    assert(dom.contains(key@));
                    let after = table_contents(table);
                    assert forall|k: Seq<char>| #[trigger] after.contains_key(k) && k != key@ implies record_value(
                        l[pos_of(after[k])],
                    ) == prev.restrict(dom)[k] by {
                        assert(before.contains_key(k));
                        assert(table_values(before, old_l)[k] == record_value(old_l[pos_of(before[k])]));
                    }
                    let lhs = table_values(table_contents(table), l);
                    let rhs = prev.insert(key@, val).restrict(dom);
                    assert(table_values(before, old_l) == prev.restrict(dom));
                    assert forall|k: Seq<char>| lhs.contains_key(k) <==> rhs.contains_key(k) by {
                        if k != key@ {
                            assert(lhs.contains_key(k) <==> before.contains_key(k));
                            assert(before.contains_key(k) <==> table_values(before, old_l).contains_key(k));
                        }
                    }
                    assert forall|k: Seq<char>| lhs.contains_key(k) implies lhs[k] == rhs[k] by {
                        if k != key@ {
                            assert(lhs[k] == record_value(l[pos_of(after[k])]));
                        } else {
                            assert(l[(compact, off)] == EntryModel::Put { key: key@, val });
                        }
                    }
                    assert(lhs =~= rhs);
                }
            } else {
                proof {
                    assert(!dom.contains(key@));
                    assert(prev.restrict(dom) =~= prev.insert(key@, val).restrict(dom));
                }
            }
            j = j + 1;
        }
        proof {
            assert(rewritten@.subrange(0, n as int) =~= rewritten@);
        }
        let deleted = files_other_than(&self.files, compact, append);
        let mut files: Vec<FileId> = Vec::new();
        files.push(compact);
        files.push(append);
        self.mem_table = table;
        self.log = Ghost(l);
        self.history = Ghost(h);
        self.files = files;
        self.current_file = append;
        self.writer = LogWriter::new(sink);
        self.duplicate_count = 0;
        proof {
            assert(self.tracked_files() =~= seq![compact, append]);
            assert(self.tracked_files()[0] == compact);
        }
        Ok(deleted)
    }
}

pub open spec fn put_of(item: (String, String)) -> EntryModel {
    EntryModel::Put { key: item.0@, val: item.1@ }
}

/// The frames that writing a record of each item, in order, appends.
pub open spec fn compact_bytes(items: Seq<(String, String)>) -> Seq<u8>
    decreases items.len(),
{
    if items.len() == 0 {
        Seq::empty()
    } else {
        compact_bytes(items.drop_last()) + match entry_bytes(put_of(items.last())) {
            Some(b) => frame_bytes(b),
            None => Seq::empty(),
        }
    }
}

/// The (key, value) pairs that a compaction rewrites: each planned key
/// whose record held a value, in plan order; keys whose record was a
/// removal are left out.
pub open spec fn live_pairs(items: Seq<(String, TableEntry)>, values: Seq<Option<String>>) -> Seq<(Seq<char>, Seq<char>)>
    decreases items.len(),
{
    if items.len() == 0 || values.len() == 0 {
        Seq::empty()
    } else {
        let rest = live_pairs(items.drop_last(), values.drop_last());
        match values.last() {
            Some(v) => rest.push((items.last().0@, v@)),
            None => rest,
        }
    }
}

/// Pairs each planned key with the value read for it, dropping keys whose
/// record held no value.
pub fn live_values(items: &Vec<(String, TableEntry)>, values: &Vec<Option<String>>) -> (r: Vec<(String, String)>)
    requires
        items@.len() == values@.len(),
    ensures
        r@.map_values(|p: (String, String)| (p.0@, p.1@)) == live_pairs(items@, values@),
{
    let mut r: Vec<(String, String)> = Vec::new();
    let mut i: usize = 0;
    assert(items@.subrange(0, 0) =~= Seq::<(String, TableEntry)>::empty());
    assert(r@.map_values(|p: (String, String)| (p.0@, p.1@)) =~= Seq::<(Seq<char>, Seq<char>)>::empty());
    while i < items.len()
        invariant
            i <= items@.len(),
            items@.len() == values@.len(),
            r@.map_values(|p: (String, String)| (p.0@, p.1@)) == live_pairs(
                items@.subrange(0, i as int),
                values@.subrange(0, i as int),
            ),
        decreases items@.len() - i,
    {
        let ghost before = r@;
        assert(items@.subrange(0, i + 1).drop_last() =~= items@.subrange(0, i as int));
        assert(values@.subrange(0, i + 1).drop_last() =~= values@.subrange(0, i as int));
        match &values[i] {
            Some(v) => {
                r.push((items[i].0.clone(), v.clone()));
                assert(r@.map_values(|p: (String, String)| (p.0@, p.1@)) =~= before.map_values(
                    |p: (String, String)| (p.0@, p.1@),
                ).push((items@[i as int].0@, v@)));
            },
            None => {},
        }
        i = i + 1;
    }
    assert(items@.subrange(0, items@.len() as int) =~= items@);
    assert(values@.subrange(0, values@.len() as int) =~= values@);
    r
}

/// Writes a record of each (key, value) item in order, returning each item
/// with the offset of its record.
pub fn write_compact_file<S: LogSink>(
    writer: &mut LogWriter<S>,
    items: &Vec<(String, String)>,
) -> (r: Result<Vec<(String, String, u32)>, KvError>)
    ensures
        r matches Ok(rw) ==> {
            &&& rw@.len() == items@.len()
            &&& forall|i: int|
                0 <= i < items@.len() ==> #[trigger] rw@[i].0@ == items@[i].0@ && rw@[i].1@
                    == items@[i].1@
            &&& offsets_increasing(rw@)
            &&& forall|i: int| 0 <= i < rw@.len() ==> old(writer).position() <= #[trigger] rw@[i].2 < final(writer).position()
            &&& final(writer).sent() == old(writer).sent() + compact_bytes(items@)
        },
        (exists|i: int| 0 <= i < items@.len() && entry_bytes(put_of(#[trigger] items@[i])) is None)
            ==> r is Err,
        r matches Err(KvError::SerializeEntry { .. }) ==> exists|i: int|
            0 <= i < items@.len() && entry_bytes(put_of(#[trigger] items@[i])) is None,
        r matches Err(e) ==> (e is Io || e is SerializeEntry),
        r is Ok ==> final(writer).calls().len() == old(writer).calls().len() + items@.len(),
        r is Err ==> old(writer).calls().len() < final(writer).calls().len() <= old(writer).calls().len()
            + items@.len(),
        r matches Err(KvError::Io(_)) ==> final(writer).last_sink_failed() || final(writer).last_handed() is None,
{
    let mut rw: Vec<(String, String, u32)> = Vec::new();
    let mut i: usize = 0;
    let ghost start = writer.position();
    let ghost start_sent = writer.sent();
    assert(items@.subrange(0, 0) =~= Seq::<(String, String)>::empty());
    while i < items.len()
        invariant
            i <= items@.len(),
            rw@.len() == i,
            start == old(writer).position(),
            start <= writer.position(),
            forall|a: int|
                0 <= a < i ==> #[trigger] rw@[a].0@ == items@[a].0@ && rw@[a].1@ == items@[a].1@,
            offsets_increasing(rw@),
            forall|a: int| 0 <= a < rw@.len() ==> start <= #[trigger] rw@[a].2 < writer.position(),
            writer.sent() == start_sent + compact_bytes(items@.subrange(0, i as int)),
            writer.calls().len() == old(writer).calls().len() + i,
            forall|a: int| 0 <= a < i ==> entry_bytes(put_of(#[trigger] items@[a])) is Some,
        decreases items@.len() - i,
    {
        let ghost prefix = items@.subrange(0, i + 1);
        assert(prefix.drop_last() =~= items@.subrange(0, i as int));
        let off = writer.pos();
        let key = items[i].0.clone();
        let val = items[i].1.clone();
        if let Err(e) = writer.write(LogEntry::Put { key, val }) {
            proof {
                if e is SerializeEntry {
                    assert(entry_bytes(put_of(items@[i as int])) is None);
                }
            }
            return Err(e);
        }
        rw.push((items[i].0.clone(), items[i].1.clone(), off));
        i = i + 1;
    }
    assert(items@.subrange(0, items@.len() as int) =~= items@);
    Ok(rw)
}

/// The ids of `files` other than `keep1` and `keep2`, in order.
fn files_other_than(files: &Vec<FileId>, keep1: FileId, keep2: FileId) -> (r: Vec<FileId>)
    ensures
        r@ == files_except(files@, keep1, keep2),
{
    let mut r: Vec<FileId> = Vec::new();
    let mut i: usize = 0;
    let ghost keep = other_than(keep1, keep2);
    assert(files@.subrange(0, 0) =~= Seq::<FileId>::empty());
    proof {
        Seq::<FileId>::empty().lemma_filter_len(keep);
    }
    assert(files@.subrange(0, 0).filter(keep) =~= Seq::<FileId>::empty());
    while i < files.len()
        invariant
            i <= files@.len(),
            keep == other_than(keep1, keep2),
            r@ == files@.subrange(0, i as int).filter(keep),
        decreases files@.len() - i,
    {
        let f = files[i];
        proof {
            files@.subrange(0, i as int).lemma_filter_push(f, keep);
            assert(files@.subrange(0, i + 1) =~= files@.subrange(0, i as int).push(f));
        }
        if f != keep1 && f != keep2 {
            r.push(f);
        }
        i = i + 1;
    }
    assert(files@.subrange(0, files@.len() as int) =~= files@);
    r
}

/// Compaction keeps the contents of the store: when every live key is
/// rewritten with the value it had, the contents after the swap are the
/// contents before.
pub proof fn lemma_compaction_keeps_contents(
    before: Map<Seq<char>, Seq<char>>,
    rewritten: Seq<(String, String, u32)>,
)
    requires
        forall|k: Seq<char>| #[trigger]
            before.contains_key(k) ==> rewritten_values(rewritten).contains_key(k)
                && rewritten_values(rewritten)[k] == before[k],
    ensures
        rewritten_values(rewritten).restrict(before.dom()) == before,
{
    assert(rewritten_values(rewritten).restrict(before.dom()) =~= before);
}

/// Appends the ids of `src` to `dst`.
fn push_all(dst: &mut Vec<FileId>, src: &Vec<FileId>)
    ensures
        final(dst)@ == old(dst)@ + src@,
{
    let ghost start = dst@;
    let mut i: usize = 0;
    while i < src.len()
        invariant
            i <= src@.len(),
            dst@ == start + src@.subrange(0, i as int),
        decreases src@.len() - i,
    {
        dst.push(src[i]);
        i = i + 1;
        assert(dst@ =~= start + src@.subrange(0, i as int));
    }
    assert(src@.subrange(0, src@.len() as int) =~= src@);
}

/// Replays the frames of `file`, in order, into the memtable: a write points
/// its key at the frame, a removal drops its key. Returns the record log
/// extended with the frames read.
fn replay_file<S: LogSource>(
    table: &mut Table,
    log: Ghost<Map<(FileId, u32), EntryModel>>,
    hist: Ghost<Seq<LogRecord>>,
    file: FileId,
    reader: &mut LogReader<S>,
) -> (r: Result<(Ghost<Map<(FileId, u32), EntryModel>>, Ghost<Seq<LogRecord>>), KvError>)
    requires
        table_consistent(table_contents(*old(table)), log@),
        table_contents(*old(table)) == replay_table(hist@),
        log@ == records_of(hist@),
        forall|p: (FileId, u32)| #[trigger]
            log@.contains_key(p) && p.0 == file ==> p.1 < old(reader).position(),
    ensures
        final(reader).reads().len() >= old(reader).reads().len(),
        final(reader).reads().subrange(0, old(reader).reads().len() as int) == old(reader).reads(),
        r matches Err(e) ==> (e is Io || e is DeserializeEntry),
        r is Err ==> final(reader).reads().len() > old(reader).reads().len() && failed_read(
            final(reader).last_trace(),
            final(reader).reads().last().0,
        ),
        r matches Ok((l, h)) ==> {
            &&& replay_reads(
                final(reader).reads().subrange(
                    old(reader).reads().len() as int,
                    final(reader).reads().len() as int,
                ),
                old(reader).position(),
                file,
            ) == Some((h@.subrange(hist@.len() as int, h@.len() as int), final(reader).position()))
            &&& table_consistent(table_contents(*final(table)), l@)
            &&& table_contents(*final(table)) == replay_table(h@)
            &&& l@ == records_of(h@)
            &&& hist@.len() <= h@.len()
            &&& h@.subrange(0, hist@.len() as int) == hist@
            &&& forall|i: int| hist@.len() <= i < h@.len() ==> (#[trigger] h@[i]).file_id == file
            &&& forall|p: (FileId, u32)| #[trigger]
                l@.contains_key(p) && p.0 == file ==> p.1 < final(reader).position()
            &&& forall|p: (FileId, u32)| #[trigger] l@.contains_key(p) ==> p.0 == file || log@.contains_key(p)
            &&& forall|k: Seq<char>| #[trigger]
                table_contents(*final(table)).contains_key(k) ==> table_contents(*final(table))[k].file_id
                    == file || (table_contents(*old(table)).contains_key(k) && table_contents(
                    *final(table),
                )[k] == table_contents(*old(table))[k])
        },
{
    let ghost mut l = log@;
    let ghost mut h = hist@;
    let ghost start = table_contents(*table);
    let ghost start_pos = reader.position();
    let ghost old_reads = reader.reads();
    assert(h.subrange(0, hist@.len() as int) =~= hist@);
    assert(reader.reads().subrange(0, old_reads.len() as int) =~= old_reads);
    assert(reader.reads().subrange(old_reads.len() as int, reader.reads().len() as int) =~= Seq::<(u32, crate::log_io::ReadTrace)>::empty());
    assert(h.subrange(hist@.len() as int, h.len() as int) =~= Seq::<LogRecord>::empty());
    loop
        invariant
            table_consistent(table_contents(*table), l),
            table_contents(*table) == replay_table(h),
            l == records_of(h),
            hist@.len() <= h.len(),
            h.subrange(0, hist@.len() as int) == hist@,
            forall|i: int| hist@.len() <= i < h.len() ==> (#[trigger] h[i]).file_id == file,
            forall|p: (FileId, u32)| #[trigger] l.contains_key(p) && p.0 == file ==> p.1 < reader.position(),
            forall|p: (FileId, u32)| #[trigger] l.contains_key(p) ==> p.0 == file || log@.contains_key(p),
            start == table_contents(*old(table)),
            start_pos == old(reader).position(),
            old_reads == old(reader).reads(),
            reader.reads().len() >= old_reads.len(),
            reader.reads().subrange(0, old_reads.len() as int) == old_reads,
            read_chain(
                reader.reads().subrange(old_reads.len() as int, reader.reads().len() as int),
                start_pos,
                file,
            ) == Some((h.subrange(hist@.len() as int, h.len() as int), reader.position())),
            forall|k: Seq<char>| #[trigger]
                table_contents(*table).contains_key(k) ==> table_contents(*table)[k].file_id == file
                    || (start.contains_key(k) && table_contents(*table)[k] == start[k]),
        decreases u32::MAX - reader.position(),
    {
        let ghost before_pos = reader.position();
        let ghost before_reads = reader.reads();
        let ghost before_delta = before_reads.subrange(old_reads.len() as int, before_reads.len() as int);
        let res = reader.read_next();
        proof {
            lemma_frame_read_result(reader.last_trace(), before_pos, res);
            if res is Err {
                lemma_frame_read_error(reader.last_trace(), before_pos, res);
            }
            let delta = reader.reads().subrange(old_reads.len() as int, reader.reads().len() as int);
            assert(delta.drop_last() =~= before_delta);
            assert(delta.last() == reader.reads().last());
            assert(reader.reads().subrange(0, old_reads.len() as int) =~= before_reads.subrange(0, old_reads.len() as int));
        }
        let frame = match res {
            Err(e) => return Err(e),
            Ok(None) => return Ok((Ghost(l), Ghost(h))),
            Ok(Some(f)) => f,
        };
        let off = frame.offset;
        let ghost record = frame.entry@;
        let ghost old_l = l;
        let ghost old_table = table_contents(*table);
        proof {
            l = l.insert((file, off), record);
            let rec = LogRecord { file_id: file, offset: off, entry: record };
            lemma_push_record(h, rec);
            let prev = h;
            h = h.push(rec);
            assert(h.subrange(hist@.len() as int, h.len() as int) =~= prev.subrange(hist@.len() as int, prev.len() as int).push(rec));
            assert(h.subrange(0, hist@.len() as int) =~= prev.subrange(0, hist@.len() as int));
            assert forall|i: int| hist@.len() <= i < h.len() implies (#[trigger] h[i]).file_id == file by {
                if i < prev.len() {
                    assert(h[i] == prev[i]);
                }
            }
        }
        match frame.entry {
            LogEntry::Put { key, .. } => {
                table_insert(table, key, TableEntry { file_id: file, offset: off });
            },
            LogEntry::Remove { key } => {
                table_remove(table, &key);
            },
        }
        proof {
            assert forall|k: Seq<char>| #[trigger] old_table.contains_key(k) implies pos_of(
                old_table[k],
            ) != (file, off) && l[pos_of(old_table[k])] == old_l[pos_of(old_table[k])] by {
                assert(points_to_put(old_l, old_table[k], k));
            }
            assert forall|k: Seq<char>| #[trigger]
                table_contents(*table).contains_key(k) implies points_to_put(l, table_contents(*table)[k], k) by {
                if old_table.contains_key(k) && table_contents(*table)[k] == old_table[k] {
                    assert(points_to_put(old_l, old_table[k], k));
                }
            }
        }
    }
}

/// What reading a value at `offset` gives, from what the read found: the
/// value of a whole frame's entry (`None` for a removal), and an error
/// where no whole frame was found.
pub open spec fn value_read(t: ReadTrace, offset: u32, r: Result<Option<String>, KvError>) -> bool {
    match whole_read(t, offset) {
        Some((_, EntryModel::Put { val, .. })) => r matches Ok(Some(v)) && v@ == val,
        Some((_, EntryModel::Remove { .. })) => r matches Ok(None),
        None => r is Err,
    }
}

/// The value that a record holds: `None` for a removal.
pub fn entry_value(entry: LogEntry) -> (r: Option<String>)
    ensures
        match entry@ {
            EntryModel::Put { val, .. } => r matches Some(v) && v@ == val,
            EntryModel::Remove { .. } => r is None,
        },
{
    match entry {
        LogEntry::Put { val, .. } => Some(val),
        LogEntry::Remove { .. } => None,
    }
}

/// Reads the value of the record at `te` through `reader`, which reads the
/// file `te.file_id`: `None` where the record there is a removal.
pub fn read_value<S: LogSource>(reader: &mut LogReader<S>, te: TableEntry) -> (r: Result<
    Option<String>,
    KvError,
>)
    ensures
        final(reader).reads().drop_last() == old(reader).reads(),
        final(reader).reads().last().0 == te.offset,
        value_read(final(reader).last_trace(), te.offset, r),
        r is Err ==> final(reader).position() == old(reader).position(),
{
    let res = reader.read_pos(te.offset);
    proof {
        lemma_pos_read_result(reader.last_trace(), te.offset, res);
    }
    match res {
        Ok(frame) => Ok(entry_value(frame.entry)),
        Err(e) => Err(e),
    }
}

} // verus!

verus! {

/// A write or a removal of a key, as issued to the store.
pub enum KvOp {
    Put { key: Seq<char>, val: Seq<char> },
    Remove { key: Seq<char> },
}

/// The contents after applying `ops` in order: a write sets its key, a
/// removal drops it. This is how `KvIndex::set` and `KvIndex::remove`
/// change the view.
pub open spec fn apply_ops(contents: Map<Seq<char>, Seq<char>>, ops: Seq<KvOp>) -> Map<Seq<char>, Seq<char>>
    decreases ops.len(),
{
    if ops.len() == 0 {
        contents
    } else {
        let before = apply_ops(contents, ops.drop_last());
        match ops.last() {
            KvOp::Put { key, val } => before.insert(key, val),
            KvOp::Remove { key } => before.remove(key),
        }
    }
}

pub open spec fn op_key(op: KvOp) -> Seq<char> {
    match op {
        KvOp::Put { key, .. } => key,
        KvOp::Remove { key } => key,
    }
}

/// The value that `k` holds after `ops`: that of the last operation on
/// `k` (none for a removal), or the value it held before where no
/// operation touches it.
pub open spec fn last_value(contents: Map<Seq<char>, Seq<char>>, ops: Seq<KvOp>, k: Seq<char>) -> Option<Seq<char>>
    decreases ops.len(),
{
    if ops.len() == 0 {
        if contents.contains_key(k) {
            Some(contents[k])
        } else {
            None
        }
    } else if op_key(ops.last()) == k {
        match ops.last() {
            KvOp::Put { val, .. } => Some(val),
            KvOp::Remove { .. } => None,
        }
    } else {
        last_value(contents, ops.drop_last(), k)
    }
}

/// The last write wins: after a run of writes and removals, a key holds
/// the value of its last write, unless a removal of it came later, in
/// which case it is absent.
pub proof fn lemma_last_write_wins(contents: Map<Seq<char>, Seq<char>>, ops: Seq<KvOp>, k: Seq<char>)
    ensures
        match last_value(contents, ops, k) {
            Some(v) => apply_ops(contents, ops).contains_key(k) && apply_ops(contents, ops)[k] == v,
            None => !apply_ops(contents, ops).contains_key(k),
        },
    decreases ops.len(),
{
    if ops.len() > 0 {
        lemma_last_write_wins(contents, ops.drop_last(), k);
    }
}

/// The files of the data directory after a compaction are exactly the
/// files the store tracks then: the files known before, with the compact
/// and append files created, less the files handed back for deletion.
pub proof fn lemma_compaction_files(known: Seq<FileId>, compact: FileId, append: FileId)
    ensures
        known.to_set().insert(compact).insert(append).difference(
            files_except(known, compact, append).to_set(),
        ) == seq![compact, append].to_set(),
{
    let deleted = files_except(known, compact, append);
    let lhs = known.to_set().insert(compact).insert(append).difference(deleted.to_set());
    let rhs = seq![compact, append].to_set();
    let p = other_than(compact, append);
    assert forall|f: FileId| lhs.contains(f) <==> rhs.contains(f) by {
        if deleted.contains(f) {
            known.lemma_filter_contains_rev(p, f);
            let i = choose|i: int| 0 <= i < deleted.len() && deleted[i] == f;
            known.lemma_filter_pred(p, i);
        }
        if known.contains(f) && f != compact && f != append {
            let i = choose|i: int| 0 <= i < known.len() && known[i] == f;
            known.lemma_filter_contains(p, i);
        }
        if f == compact {
            assert(seq![compact, append][0] == f);
        }
        if f == append {
            assert(seq![compact, append][1] == f);
        }
        if rhs.contains(f) {
            let i = choose|i: int| 0 <= i < 2 && seq![compact, append][i] == f;
        }
    }
    assert(lhs =~= rhs);
}

} // verus!

verus! {

/// The contents of an index are a function of its records, in order: two
/// indexes that have written or replayed the same records hold the same
/// contents. `KvIndex::set` and `KvIndex::remove` state the record they
/// append and the frame they hand to the sink; `KvIndex::open` states that
/// its records are the whole frames its readers found. So where the frames
/// read back are the records written, the reopened index holds the same
/// contents; that the files give back what was written is not stated here.
pub proof fn lemma_same_records_same_contents<W1: LogSink, W2: LogSink>(
    x: &KvIndex<W1>,
    y: &KvIndex<W2>,
)
    requires
        x.wf(),
        y.wf(),
        x.history() == y.history(),
    ensures
        x.view() == y.view(),
{
}

} // verus!
