//! Reading and writing frames of log entries.

use vstd::prelude::*;

use crate::entry::{entry_bytes, entry_of_bytes, EntryModel, LogEntry};
use crate::error::{invalid_data, unexpected_eof, KvError};
use crate::file_id::FileId;
use crate::frame::{be_value, encode_frame, frame_bytes, header_value, FRAME_HEADER_SIZE};

verus! {

/// A byte source that can be read at any position, such as a log file.
pub trait LogSource {
    /// Reads `len` bytes from `pos` on, or fewer where the source ends first.
    fn read_at(&mut self, pos: u64, len: usize) -> Result<Vec<u8>, std::io::Error>;
}

/// A byte sink that frames are appended to, such as a log file.
pub trait LogSink {
    /// Appends all of `bytes`.
    fn write_all(&mut self, bytes: &[u8]) -> Result<(), std::io::Error>;

    /// Pushes buffered bytes to the underlying store.
    fn flush(&mut self) -> Result<(), std::io::Error>;
}

/// A log held in memory.
pub struct MemLog {
    bytes: Vec<u8>,
}

impl MemLog {
    pub fn new(bytes: Vec<u8>) -> (r: MemLog)
        ensures
            r.contents() == bytes@,
    {
        MemLog { bytes }
    }

    pub closed spec fn contents(&self) -> Seq<u8> {
        self.bytes@
    }

    pub fn bytes(&self) -> (r: &Vec<u8>)
        ensures
            r@ == self.contents(),
    {
        &self.bytes
    }

    /// The bytes from `pos` on, at most `len` of them.
    pub fn read_range(&self, pos: u64, len: usize) -> (r: Vec<u8>)
        ensures
            pos >= self.contents().len() ==> r@.len() == 0,
            pos < self.contents().len() ==> r@ == self.contents().subrange(
                pos as int,
                if pos + len <= self.contents().len() {
                    pos + len
                } else {
                    self.contents().len() as int
                },
            ),
    {
        let mut r: Vec<u8> = Vec::new();
        if pos >= self.bytes.len() as u64 {
            return r;
        }
        let start = pos as usize;
        let end: usize = if len <= self.bytes.len() - start {
            start + len
        } else {
            self.bytes.len()
        };
        let mut i: usize = start;
        while i < end
            invariant
                start <= i <= end <= self.bytes@.len(),
                r@ == self.bytes@.subrange(start as int, i as int),
            decreases end - i,
        {
            r.push(self.bytes[i]);
            i = i + 1;
            assert(r@ =~= self.bytes@.subrange(start as int, i as int));
        }
        r
    }

    /// Appends `data`.
    pub fn append(&mut self, data: &[u8])
        ensures
            final(self).contents() == old(self).contents() + data@,
    {
        let mut i: usize = 0;
        let ghost start = self.bytes@;
        while i < data.len()
            invariant
                i <= data@.len(),
                self.bytes@ == start + data@.subrange(0, i as int),
            decreases data@.len() - i,
        {
            self.bytes.push(data[i]);
            i = i + 1;
            assert(self.bytes@ =~= start + data@.subrange(0, i as int));
        }
        assert(data@.subrange(0, data@.len() as int) =~= data@);
    }
}

impl LogSource for MemLog {
    fn read_at(&mut self, pos: u64, len: usize) -> Result<Vec<u8>, std::io::Error> {
        Ok(self.read_range(pos, len))
    }
}

impl LogSink for MemLog {
    fn write_all(&mut self, bytes: &[u8]) -> Result<(), std::io::Error> {
        self.append(bytes);
        Ok(())
    }

    fn flush(&mut self) -> Result<(), std::io::Error> {
        Ok(())
    }
}

/// An entry read from a log, with the position of its frame and the length
/// of its payload.
#[derive(Debug)]
pub struct LogFrame {
    pub entry: LogEntry,
    pub offset: u32,
    pub size: u32,
}

/// What reading a frame at `offset` comes to, given the header bytes and
/// the payload bytes that the source returned.
pub enum FrameOutcome {
    /// The source ends before a whole header.
    End,
    /// The frame would end beyond the largest offset.
    TooLong,
    /// The source ends inside the payload.
    Cut,
    /// The payload is not a log entry.
    Bad,
    /// A whole frame with a payload of `size` bytes recording `entry`.
    Whole { size: u32, entry: EntryModel },
}

/// The payload length that a header gives, when the header is whole and
/// the frame fits below the largest offset.
pub open spec fn header_size(offset: u32, h: Seq<u8>) -> Option<u32> {
    if h.len() == FRAME_HEADER_SIZE && offset + FRAME_HEADER_SIZE + be_value(h) <= u32::MAX {
        Some(be_value(h) as u32)
    } else {
        None
    }
}

pub open spec fn frame_outcome(offset: u32, h: Seq<u8>, p: Seq<u8>) -> FrameOutcome {
    if h.len() != FRAME_HEADER_SIZE {
        FrameOutcome::End
    } else if offset + FRAME_HEADER_SIZE + be_value(h) > u32::MAX {
        FrameOutcome::TooLong
    } else if p.len() != be_value(h) {
        FrameOutcome::Cut
    } else {
        match entry_of_bytes(p) {
            Some(e) => FrameOutcome::Whole { size: be_value(h) as u32, entry: e },
            None => FrameOutcome::Bad,
        }
    }
}

/// The result that a read gives for an outcome: `None` at the end, an I/O
/// error for a frame too long or cut short, `DeserializeEntry` at the
/// offset for a payload that is no entry.
pub open spec fn result_of(
    r: Result<Option<LogFrame>, KvError>,
    o: FrameOutcome,
    offset: u32,
) -> bool {
    match o {
        FrameOutcome::End => r matches Ok(None),
        FrameOutcome::TooLong => r matches Err(KvError::Io(_)),
        FrameOutcome::Cut => r matches Err(KvError::Io(_)),
        FrameOutcome::Bad => r matches Err(KvError::DeserializeEntry { pos, .. }) && pos == offset,
        FrameOutcome::Whole { size, entry } => r matches Ok(Some(f)) && f.offset == offset && f.size
            == size && f.entry@ == entry,
    }
}

/// What one frame read asked of the source, and what came back (`None`
/// where the source failed).
pub struct ReadTrace {
    pub requests: Seq<(u64, usize)>,
    pub answers: Seq<Option<Seq<u8>>>,
}

/// The trace of a frame read at `offset`: the header is asked for first,
/// then, where the header gives a size, the payload after it; the result
/// is an I/O error where the source failed, and otherwise the result of
/// what came back.
pub open spec fn frame_read(t: ReadTrace, offset: u32, r: Result<Option<LogFrame>, KvError>) -> bool {
    &&& t.requests.len() == t.answers.len()
    &&& 1 <= t.requests.len() <= 2
    &&& t.requests[0] == (offset as u64, FRAME_HEADER_SIZE)
    &&& match t.answers[0] {
        None => t.requests.len() == 1 && r matches Err(KvError::Io(_)),
        Some(h) => match header_size(offset, h) {
            None => t.requests.len() == 1 && result_of(r, frame_outcome(offset, h, Seq::empty()), offset),
            Some(n) => {
                &&& t.requests.len() == 2
                &&& t.requests[1] == ((offset + FRAME_HEADER_SIZE) as u64, n as usize)
                &&& match t.answers[1] {
                    None => r matches Err(KvError::Io(_)),
                    Some(p) => result_of(r, frame_outcome(offset, h, p), offset),
                }
            },
        },
    }
}

pub open spec fn some_frame(r: Result<LogFrame, KvError>) -> Result<Option<LogFrame>, KvError> {
    match r {
        Ok(f) => Ok(Some(f)),
        Err(e) => Err(e),
    }
}

/// The trace of a read at a given offset: as a frame read, except that a
/// source ending before a whole header is an I/O error.
pub open spec fn pos_read(t: ReadTrace, offset: u32, r: Result<LogFrame, KvError>) -> bool {
    if t.answers.len() >= 1 && t.answers[0] is Some && t.answers[0]->Some_0.len() != FRAME_HEADER_SIZE {
        &&& t.requests == seq![(offset as u64, FRAME_HEADER_SIZE)]
        &&& t.answers.len() == 1
        &&& r matches Err(KvError::Io(_))
    } else {
        frame_read(t, offset, some_frame(r))
    }
}

/// A record as written to, or replayed from, a log file.
pub struct LogRecord {
    pub file_id: FileId,
    pub offset: u32,
    pub entry: EntryModel,
}

/// The payload size and entry of a read that found a whole frame.
pub open spec fn whole_read(t: ReadTrace, offset: u32) -> Option<(u32, EntryModel)> {
    if t.answers.len() == 2 && t.answers[0] is Some && t.answers[1] is Some {
        match frame_outcome(offset, t.answers[0]->Some_0, t.answers[1]->Some_0) {
            FrameOutcome::Whole { size, entry } => Some((size, entry)),
            _ => None,
        }
    } else {
        None
    }
}

/// A read that found the source ending before a whole header.
pub open spec fn end_read(t: ReadTrace, offset: u32) -> bool {
    &&& t.requests == seq![(offset as u64, FRAME_HEADER_SIZE)]
    &&& t.answers.len() == 1
    &&& t.answers[0] matches Some(h)
    &&& h.len() != FRAME_HEADER_SIZE
}

/// Whole frames read one after another from `start`: the records of
/// `file` they give, and where the next frame starts.
pub open spec fn read_chain(reads: Seq<(u32, ReadTrace)>, start: u32, file: FileId) -> Option<(Seq<LogRecord>, u32)>
    decreases reads.len(),
{
    if reads.len() == 0 {
        Some((Seq::empty(), start))
    } else {
        match read_chain(reads.drop_last(), start, file) {
            None => None,
            Some((recs, next)) => {
                let off = reads.last().0;
                if off != next {
                    None
                } else {
                    match whole_read(reads.last().1, off) {
                        Some((n, e)) => if off + FRAME_HEADER_SIZE + n <= u32::MAX {
                            Some(
                                (
                                    recs.push(LogRecord { file_id: file, offset: off, entry: e }),
                                    (off + FRAME_HEADER_SIZE + n) as u32,
                                ),
                            )
                        } else {
                            None
                        },
                        None => None,
                    }
                }
            },
        }
    }
}

/// A replay of `file` that made the reads `reads`: whole frames from
/// `start` on, then the end of the source where the next frame would
/// start. Gives the records read and that end.
pub open spec fn replay_reads(reads: Seq<(u32, ReadTrace)>, start: u32, file: FileId) -> Option<(Seq<LogRecord>, u32)> {
    if reads.len() >= 1 && end_read(reads.last().1, reads.last().0) {
        match read_chain(reads.drop_last(), start, file) {
            Some((recs, next)) => if reads.last().0 == next {
                Some((recs, next))
            } else {
                None
            },
            None => None,
        }
    } else {
        None
    }
}

/// A frame read that returned a frame found a whole frame; one that
/// returned `None` found the end of the source.
pub proof fn lemma_frame_read_result(t: ReadTrace, offset: u32, r: Result<Option<LogFrame>, KvError>)
    requires
        frame_read(t, offset, r),
    ensures
        r matches Ok(Some(f)) ==> whole_read(t, offset) == Some((f.size, f.entry@)),
        r matches Ok(None) ==> end_read(t, offset),
{
    if r matches Ok(None) {
        assert(t.requests =~= seq![(offset as u64, FRAME_HEADER_SIZE)]);
    }
}

/// A read at a given offset returns a frame exactly when it found a whole
/// frame, and then the frame found.
pub proof fn lemma_pos_read_result(t: ReadTrace, offset: u32, r: Result<LogFrame, KvError>)
    requires
        pos_read(t, offset, r),
    ensures
        r is Ok <==> whole_read(t, offset) is Some,
        r matches Ok(f) ==> whole_read(t, offset) == Some((f.size, f.entry@)),
{
}

/// A read that failed: it neither found a whole frame nor the end.
pub open spec fn failed_read(t: ReadTrace, offset: u32) -> bool {
    whole_read(t, offset) is None && !end_read(t, offset)
}

/// A frame read that returned an error failed.
pub proof fn lemma_frame_read_error(t: ReadTrace, offset: u32, r: Result<Option<LogFrame>, KvError>)
    requires
        frame_read(t, offset, r),
        r is Err,
    ensures
        failed_read(t, offset),
{
}

/// The payload length that a frame header read at `offset` gives: `None`
/// where fewer than four bytes came back, an I/O error where the frame
/// would end beyond the largest offset.
pub fn frame_size(header: &[u8], offset: u32) -> (r: Result<Option<u32>, KvError>)
    ensures
        header@.len() != FRAME_HEADER_SIZE ==> r matches Ok(None),
        header@.len() == FRAME_HEADER_SIZE ==> match header_size(offset, header@) {
            Some(n) => r == Ok::<Option<u32>, KvError>(Some(n)),
            None => r matches Err(KvError::Io(_)),
        },
{
    if header.len() != FRAME_HEADER_SIZE {
        return Ok(None);
    }
    let size = header_value(header);
    if offset as u64 + FRAME_HEADER_SIZE as u64 + size as u64 > u32::MAX as u64 {
        return Err(KvError::Io(invalid_data("frame ends beyond the largest offset")));
    }
    Ok(Some(size))
}

/// The frame at `offset` whose header gives `size`, from the payload bytes
/// that came back: an `UnexpectedEof` I/O error where fewer came back.
pub fn parse_frame(payload: &[u8], size: u32, offset: u32) -> (r: Result<LogFrame, KvError>)
    ensures
        payload@.len() != size ==> r matches Err(KvError::Io(_)),
        payload@.len() == size ==> match entry_of_bytes(payload@) {
            Some(e) => r matches Ok(f) && f.offset == offset && f.size == size && f.entry@ == e,
            None => r matches Err(KvError::DeserializeEntry { pos, .. }) && pos == offset,
        },
{
    if payload.len() != size as usize {
        return Err(KvError::Io(unexpected_eof()));
    }
    match LogEntry::decode(payload, offset) {
        Ok(entry) => Ok(LogFrame { entry, offset, size }),
        Err(e) => Err(e),
    }
}

/// Reads frames from a source, sequentially or at given positions.
pub struct LogReader<S: LogSource> {
    source: S,
    pos: u32,
    reads: Ghost<Seq<(u32, ReadTrace)>>,
}

impl<S: LogSource> LogReader<S> {
    pub fn new(source: S) -> (r: LogReader<S>)
        ensures
            r.position() == 0,
    {
        LogReader { source, pos: 0, reads: Ghost(Seq::empty()) }
    }

    /// Where the next sequential read starts.
    pub closed spec fn position(&self) -> u32 {
        self.pos
    }

    /// Every frame read so far: its offset, what it asked of the source
    /// and what came back.
    pub closed spec fn reads(&self) -> Seq<(u32, ReadTrace)> {
        self.reads@
    }

    /// What the last frame read asked of the source and got back.
    pub open spec fn last_trace(&self) -> ReadTrace {
        self.reads().last().1
    }

    pub fn pos(&self) -> (r: u32)
        ensures
            r == self.position(),
    {
        self.pos
    }

    /// Reads the frame at `offset`.
    fn read_frame(&mut self, offset: u32) -> (r: Result<Option<LogFrame>, KvError>)
        ensures
            final(self).reads().len() == old(self).reads().len() + 1,
            final(self).reads().drop_last() == old(self).reads(),
            final(self).reads().last().0 == offset,
            frame_read(final(self).last_trace(), offset, r),
            match r {
                Ok(Some(f)) => final(self).position() == offset + FRAME_HEADER_SIZE + f.size,
                _ => final(self).position() == old(self).position(),
            },
    {
        let ghost mut requests: Seq<(u64, usize)> = seq![(offset as u64, FRAME_HEADER_SIZE)];
        let header = match self.source.read_at(offset as u64, FRAME_HEADER_SIZE) {
            Ok(h) => h,
            Err(e) => {
                self.reads = Ghost(self.reads@.push((offset, ReadTrace { requests, answers: seq![None] })));
                return Err(KvError::Io(e));
            },
        };
        let size = match frame_size(header.as_slice(), offset) {
            Ok(Some(n)) => n,
            Ok(None) => {
                self.reads = Ghost(self.reads@.push((offset, ReadTrace { requests, answers: seq![Some(header@)] })));
                return Ok(None);
            },
            Err(e) => {
                self.reads = Ghost(self.reads@.push((offset, ReadTrace { requests, answers: seq![Some(header@)] })));
                return Err(e);
            },
        };
        let start = offset as u64 + FRAME_HEADER_SIZE as u64;
        proof {
            requests = requests.push((start, size as usize));
        }
        let payload = match self.source.read_at(start, size as usize) {
            Ok(p) => p,
            Err(e) => {
                self.reads = Ghost(self.reads@.push((offset, ReadTrace { requests, answers: seq![Some(header@), None] })));
                return Err(KvError::Io(e));
            },
        };
        self.reads = Ghost(self.reads@.push((offset, ReadTrace { requests, answers: seq![Some(header@), Some(payload@)] })));
        match parse_frame(payload.as_slice(), size, offset) {
            Ok(f) => {
                self.pos = (offset as u64 + FRAME_HEADER_SIZE as u64 + size as u64) as u32;
                Ok(Some(f))
            },
            Err(e) => Err(e),
        }
    }

    /// Reads the frame at `offset`; the sequential position then follows
    /// it. The end of the source there is an `UnexpectedEof` I/O error.
    pub fn read_pos(&mut self, offset: u32) -> (r: Result<LogFrame, KvError>)
        ensures
            final(self).reads().len() == old(self).reads().len() + 1,
            final(self).reads().drop_last() == old(self).reads(),
            final(self).reads().last().0 == offset,
            pos_read(final(self).last_trace(), offset, r),
            match r {
                Ok(f) => f.offset == offset && final(self).position() == offset + FRAME_HEADER_SIZE
                    + f.size,
                Err(_) => final(self).position() == old(self).position(),
            },
    {
        match self.read_frame(offset) {
            Ok(Some(f)) => Ok(f),
            Ok(None) => {
                assert(self.last_trace().requests =~= seq![(offset as u64, FRAME_HEADER_SIZE)]);
                Err(KvError::Io(unexpected_eof()))
            },
            Err(e) => Err(e),
        }
    }

    /// Reads the frame at the sequential position. `None` where the source
    /// ends at, or inside, the next header; a frame cut short inside its
    /// payload is an error.
    pub fn read_next(&mut self) -> (r: Result<Option<LogFrame>, KvError>)
        ensures
            final(self).reads().len() == old(self).reads().len() + 1,
            final(self).reads().drop_last() == old(self).reads(),
            final(self).reads().last().0 == old(self).position(),
            frame_read(final(self).last_trace(), old(self).position(), r),
            match r {
                Ok(Some(f)) => f.offset == old(self).position() && final(self).position()
                    == f.offset + FRAME_HEADER_SIZE + f.size,
                _ => final(self).position() == old(self).position(),
            },
    {
        let offset = self.pos;
        self.read_frame(offset)
    }
}

/// Appends frames of log entries to a sink.
pub struct LogWriter<W: LogSink> {
    sink: W,
    pos: u32,
    sent: Ghost<Seq<u8>>,
    calls: Ghost<Seq<(Option<Seq<u8>>, bool)>>,
}

/// The outcome of writing `e` at `pos`, where `handed` is what was given
/// to the sink and `failed` whether the sink failed: `SerializeEntry` when
/// the entry has no encoding, an I/O error without touching the sink when
/// the frame would end beyond the largest offset, else the frame handed to
/// the sink and success unless the sink failed.
pub open spec fn write_outcome(
    e: EntryModel,
    pos: u32,
    handed: Option<Seq<u8>>,
    failed: bool,
    r: Result<(), KvError>,
) -> bool {
    match entry_bytes(e) {
        None => handed is None && (r matches Err(KvError::SerializeEntry { entry, .. }) && entry@ == e),
        Some(b) => if pos + FRAME_HEADER_SIZE + b.len() > u32::MAX {
            handed is None && r matches Err(KvError::Io(_))
        } else {
            &&& handed == Some(frame_bytes(b))
            &&& (r is Ok <==> !failed)
            &&& r matches Err(err) ==> err is Io
        },
    }
}

impl<W: LogSink> LogWriter<W> {
    pub fn new(sink: W) -> (r: LogWriter<W>)
        ensures
            r.position() == 0,
            r.sent() == Seq::<u8>::empty(),
    {
        LogWriter { sink, pos: 0, sent: Ghost(Seq::empty()), calls: Ghost(Seq::empty()) }
    }

    /// A writer that continues a log whose frames end at `pos`.
    pub fn new_at(sink: W, pos: u32) -> (r: LogWriter<W>)
        ensures
            r.position() == pos,
            r.sent() == Seq::<u8>::empty(),
    {
        LogWriter { sink, pos, sent: Ghost(Seq::empty()), calls: Ghost(Seq::empty()) }
    }

    /// Where the next frame will start.
    pub closed spec fn position(&self) -> u32 {
        self.pos
    }

    /// The bytes this writer has handed to its sink and the sink took.
    pub closed spec fn sent(&self) -> Seq<u8> {
        self.sent@
    }

    /// Every write so far: the bytes it handed to the sink, if any, and
    /// whether the sink failed.
    pub closed spec fn calls(&self) -> Seq<(Option<Seq<u8>>, bool)> {
        self.calls@
    }

    /// The bytes handed to the sink by the last write, if any.
    pub open spec fn last_handed(&self) -> Option<Seq<u8>> {
        self.calls().last().0
    }

    /// Whether the sink failed in the last write.
    pub open spec fn last_sink_failed(&self) -> bool {
        self.calls().last().1
    }

    pub fn pos(&self) -> (r: u32)
        ensures
            r == self.position(),
    {
        self.pos
    }

    pub fn sink(&self) -> &W {
        &self.sink
    }

    pub fn into_sink(self) -> W {
        self.sink
    }

    /// Appends the frame of `entry` and flushes it. On success the position
    /// advances by the frame's length; on failure it stays.
    pub fn write(&mut self, entry: LogEntry) -> (r: Result<(), KvError>)
        ensures
            final(self).calls().len() == old(self).calls().len() + 1,
            final(self).calls().drop_last() == old(self).calls(),
            write_outcome(entry@, old(self).position(), final(self).last_handed(), final(self).last_sink_failed(), r),
            r is Ok ==> (entry_bytes(entry@) matches Some(b) && final(self).position()
                == old(self).position() + FRAME_HEADER_SIZE + b.len() && final(self).sent()
                == old(self).sent() + frame_bytes(b)),
            r is Err ==> final(self).position() == old(self).position() && final(self).sent()
                == old(self).sent(),
    {
        let ghost e = entry@;
        let payload = match entry.encode() {
            Ok(p) => p,
            Err(err) => {
                self.calls = Ghost(self.calls@.push((None, false)));
                return Err(err);
            },
        };
        if payload.len() > u32::MAX as usize || self.pos as u64 + FRAME_HEADER_SIZE as u64
            + payload.len() as u64 > u32::MAX as u64 {
            self.calls = Ghost(self.calls@.push((None, false)));
            return Err(KvError::Io(invalid_data("frame ends beyond the largest offset")));
        }
        let end: u64 = self.pos as u64 + FRAME_HEADER_SIZE as u64 + payload.len() as u64;
        let frame = encode_frame(payload.as_slice());
        if let Err(err) = self.sink.write_all(frame.as_slice()) {
            self.calls = Ghost(self.calls@.push((Some(frame@), true)));
            return Err(KvError::Io(err));
        }
        if let Err(err) = self.sink.flush() {
            self.calls = Ghost(self.calls@.push((Some(frame@), true)));
            return Err(KvError::Io(err));
        }
        self.calls = Ghost(self.calls@.push((Some(frame@), false)));
        self.sent = Ghost(self.sent@ + frame@);
        self.pos = end as u32;
        Ok(())
    }
}

} // verus!
