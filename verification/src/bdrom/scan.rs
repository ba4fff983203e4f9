//! The scan of one stream file: its chunks go through the demultiplexer, and each complete
//! access unit through the codecs.

use vstd::prelude::*;
use vstd::std_specs::btree::*;
use vstd::string::*;

use super::interleaved::{BdFile, TsInterleavedFile};
use super::m2ts::{
    all_initialized, analysed, blank_file, blank_parser, demux, finished, run, state_of, step,
    unit_rate, AccessUnitScan, ChunkStop, Demux, FileView, ParserView, TsPacketParser, TsStreamFile,
};
use super::mpls::{playlist_views, PlaylistView, TsPlaylistFile};
use super::passes::{advanced, heard, telling, Heard, Indifferent, Progress, ScanObserver};
use crate::error::{BdError, Failure};
use crate::maps::views;
use crate::stream::TsStream;

verus! {

// ---- what a scan reads ----

/// How many bytes of a stream file are read at once. The value affects nothing but that.
pub const DATA_SIZE: usize = 0x50_0000;

/// Where the bytes of a file come from, chunk by chunk.
pub trait ByteSource {
    /// The chunks that are still to come: by default none.
    open spec fn chunks(&self) -> Seq<Seq<u8>> {
        Seq::empty()
    }

    /// What the reading fails with after the last chunk; a file that is read to its end
    /// does not fail.
    open spec fn failure(&self) -> Option<Failure> {
        None
    }

    /// Whether the reading was asked to stop.
    fn is_stopped(&self) -> (r: bool)
        ensures
            r == (self.chunks().len() == 0 && self.failure() == Some(Failure::ScanCancelled)),
    ;

    /// Reads the next chunk; an empty one is the end of the file.
    fn read(&mut self) -> (r: Result<Vec<u8>, BdError>)
        ensures
            match r {
                Ok(chunk) => if chunk@.len() > 0 {
                    &&& old(self).chunks().len() > 0
                    &&& chunk@ == old(self).chunks()[0]
                    &&& final(self).chunks() == old(self).chunks().drop_first()
                    &&& final(self).failure() == old(self).failure()
                } else {
                    old(self).chunks().len() == 0 && old(self).failure() is None
                },
                Err(e) => old(self).chunks().len() == 0 && old(self).failure() == Some(e@),
            },
    ;
}

/// The bytes from `from` on in chunks of `size` bytes; the last one may be shorter.
pub open spec fn cut(bytes: Seq<u8>, from: int, size: int) -> Seq<Seq<u8>>
    decreases bytes.len() - from,
{
    if size <= 0 || from < 0 || from >= bytes.len() {
        Seq::empty()
    } else if bytes.len() - from <= size {
        seq![bytes.subrange(from, bytes.len() as int)]
    } else {
        seq![bytes.subrange(from, from + size)] + cut(bytes, from + size, size)
    }
}

/// How many bytes a chunk holds: at least one.
pub open spec fn step_of(chunk_size: usize) -> int {
    if chunk_size == 0 {
        1
    } else {
        chunk_size as int
    }
}

/// Bytes held in memory, read in chunks of one size. The reading can be made to fail at the
/// end of them.
#[derive(Debug)]
pub struct MemSource {
    bytes: Vec<u8>,
    at: usize,
    chunk_size: usize,
    failure: Option<BdError>,
}

impl MemSource {
    /// Reads `bytes` in chunks of `chunk_size` bytes, at least one, and fails after them
    /// where there is a `failure`.
    pub fn new(bytes: Vec<u8>, chunk_size: usize, failure: Option<BdError>) -> (r: Self)
        ensures
            r.chunks() == cut(bytes@, 0, step_of(chunk_size)),
            r.failure() == (match failure {
                Some(e) => Some(e@),
                None => None,
            }),
    {
        MemSource { bytes, at: 0, chunk_size, failure }
    }
}

impl ByteSource for MemSource {
    closed spec fn chunks(&self) -> Seq<Seq<u8>> {
        cut(self.bytes@, self.at as int, step_of(self.chunk_size))
    }

    closed spec fn failure(&self) -> Option<Failure> {
        match self.failure {
            Some(e) => Some(e@),
            None => None,
        }
    }

    fn is_stopped(&self) -> (r: bool) {
        self.at >= self.bytes.len() && match &self.failure {
            Some(e) => matches!(e, BdError::ScanCancelled),
            None => false,
        }
    }

    fn read(&mut self) -> (r: Result<Vec<u8>, BdError>) {
        let ghost was = *self;
        let mut chunk: Vec<u8> = Vec::new();
        let left: usize = if self.at < self.bytes.len() {
            self.bytes.len() - self.at
        } else {
            0
        };
        if left == 0 {
            return match &self.failure {
                Some(e) => Err(e.duplicate()),
                None => Ok(chunk),
            };
        }
        let step: usize = if self.chunk_size == 0 {
            1
        } else {
            self.chunk_size
        };
        let take: usize = if left < step {
            left
        } else {
            step
        };
        let end: usize = self.bytes.len();
        let mut i: usize = 0;
        while i < take
            invariant
                i <= take,
                was == *self,
                end == self.bytes@.len(),
                self.at + take <= self.bytes@.len(),
                chunk@ == self.bytes@.subrange(self.at as int, self.at + i),
            decreases take - i,
        {
            chunk.push(self.bytes[self.at + i]);
            i = i + 1;
            proof {
                assert(chunk@ =~= self.bytes@.subrange(self.at as int, self.at + i));
            }
        }
        self.at = self.at + take;
        proof {
            assert(was.chunks().drop_first() =~= self.chunks());
        }
        Ok(chunk)
    }
}

// ---- what makes something of an access unit ----

/// The codecs: what an analysis makes of an access unit.
pub trait AccessUnits {
    /// What the analysis makes of an access unit, in a quick or a full scan: of the stream
    /// that it belongs to, of its payload, and of its rate, which is `0` where it is not
    /// known. By default the stream stays as it is.
    open spec fn outcome(
        &self,
        stream: TsStream,
        payload: Seq<u8>,
        rate: i64,
        full: bool,
    ) -> AccessUnitScan {
        AccessUnitScan { stream, tag: None }
    }

    /// Analyses the access unit of a stream.
    fn analyse(&self, stream: &TsStream, payload: &Vec<u8>, rate: i64, full: bool) -> (r:
        AccessUnitScan)
        ensures
            r == self.outcome(*stream, payload@, rate, full),
    ;
}

/// Codecs that take no access unit apart: every stream stays as it was declared.
#[derive(Debug, Clone, Copy)]
pub struct NoCodecs {}

impl AccessUnits for NoCodecs {
    open spec fn outcome(
        &self,
        stream: TsStream,
        payload: Seq<u8>,
        rate: i64,
        full: bool,
    ) -> AccessUnitScan {
        AccessUnitScan { stream, tag: None }
    }

    fn analyse(&self, stream: &TsStream, payload: &Vec<u8>, rate: i64, full: bool) -> (r:
        AccessUnitScan) {
        AccessUnitScan { stream: stream.duplicate(), tag: None }
    }
}

/// What the codecs make of the access unit that a file has assembled on a PID; on one
/// without a stream there is nothing to analyse.
pub open spec fn unit_outcome<A: AccessUnits>(
    units: A,
    file: FileView,
    pid: u16,
    full: bool,
) -> Option<AccessUnitScan> {
    if file.streams.contains_key(pid) {
        Some(
            units.outcome(
                file.streams[pid],
                state_of(file.stream_states, pid).payload,
                unit_rate(file, pid),
                full,
            ),
        )
    } else {
        None
    }
}

/// The analysis of a pass.
pub open spec fn analysis<A: AccessUnits>(units: A, full: bool) -> spec_fn(
    FileView,
    u16,
) -> Option<AccessUnitScan> {
    |file: FileView, pid: u16| unit_outcome(units, file, pid, full)
}

// ---- scans ----

/// A scan with its analyses, and whether it has all that a quick scan needs.
pub struct Scan {
    pub demux: Demux,
    pub finished: bool,
}

/// A scan after one more byte: a complete access unit is analysed at once, and a quick scan
/// whose streams all have their detail takes no more. `analyse` is what the analysis makes
/// of the unit that a file has assembled on a PID.
pub open spec fn scan_step(
    s: Scan,
    b: u8,
    full: bool,
    analyse: spec_fn(FileView, u16) -> Option<AccessUnitScan>,
) -> Scan {
    if s.finished {
        s
    } else {
        let d = step(s.demux, b, full);
        match d.parser.pending {
            Some(pid) => {
                let file = analysed(d.file, pid, analyse(d.file, pid));
                Scan {
                    demux: Demux {
                        parser: ParserView { pending: None, ..d.parser },
                        file,
                        ..d
                    },
                    finished: !full && all_initialized(file.streams),
                }
            },
            None => Scan { demux: d, finished: false },
        }
    }
}

/// A scan after more bytes.
pub open spec fn scanned(
    s: Scan,
    bytes: Seq<u8>,
    full: bool,
    analyse: spec_fn(FileView, u16) -> Option<AccessUnitScan>,
) -> Scan
    decreases bytes.len(),
{
    if bytes.len() == 0 {
        s
    } else {
        scan_step(scanned(s, bytes.drop_last(), full, analyse), bytes.last(), full, analyse)
    }
}

/// Where the bytes of a file are cut into chunks makes no difference to its scan, the
/// analyses and the early end of a quick scan included.
pub proof fn lemma_chunks_make_no_difference(
    s: Scan,
    a: Seq<u8>,
    b: Seq<u8>,
    full: bool,
    analyse: spec_fn(FileView, u16) -> Option<AccessUnitScan>,
)
    ensures
        scanned(s, a + b, full, analyse) == scanned(scanned(s, a, full, analyse), b, full, analyse),
    decreases b.len(),
{
    if b.len() == 0 {
        assert(a + b =~= a);
    } else {
        lemma_chunks_make_no_difference(s, a, b.drop_last(), full, analyse);
        assert((a + b).drop_last() =~= a + b.drop_last());
        assert((a + b).last() == b.last());
    }
}

/// As long as no access unit is complete, a scan is the run of its bytes.
pub proof fn lemma_scan_is_run(
    s: Scan,
    bytes: Seq<u8>,
    full: bool,
    analyse: spec_fn(FileView, u16) -> Option<AccessUnitScan>,
)
    requires
        !s.finished,
        run(s.demux, bytes, full).parser.pending is None,
    ensures
        scanned(s, bytes, full, analyse) == (Scan {
            demux: run(s.demux, bytes, full),
            finished: false,
        }),
    decreases bytes.len(),
{
    if bytes.len() > 0 {
        let before = run(s.demux, bytes.drop_last(), full);
        if before.parser.pending is Some {
            reveal(step);
        }
        lemma_scan_is_run(s, bytes.drop_last(), full, analyse);
    }
}

/// A scan that stops at a complete access unit, has it analysed, and goes on, is the scan of
/// all the bytes: this is what a caller of the chunk parser does.
pub proof fn lemma_stopping_at_units_is_the_scan(
    s: Scan,
    bytes: Seq<u8>,
    n: int,
    pid: u16,
    full: bool,
    analyse: spec_fn(FileView, u16) -> Option<AccessUnitScan>,
)
    requires
        !s.finished,
        0 < n <= bytes.len(),
        run(s.demux, bytes.subrange(0, n - 1), full).parser.pending is None,
        run(s.demux, bytes.subrange(0, n), full).parser.pending == Some(pid),
    ensures
        ({
            let d = run(s.demux, bytes.subrange(0, n), full);
            let file = analysed(d.file, pid, analyse(d.file, pid));
            scanned(s, bytes, full, analyse) == scanned(
                Scan {
                    demux: Demux {
                        parser: ParserView { pending: None, ..d.parser },
                        file,
                        ..d
                    },
                    finished: !full && all_initialized(file.streams),
                },
                bytes.subrange(n, bytes.len() as int),
                full,
                analyse,
            )
        }),
{
    let head = bytes.subrange(0, n);
    let tail = bytes.subrange(n, bytes.len() as int);
    assert(bytes =~= head + tail);
    lemma_chunks_make_no_difference(s, head, tail, full, analyse);
    assert(head.drop_last() =~= bytes.subrange(0, n - 1));
    lemma_scan_is_run(s, head.drop_last(), full, analyse);
}

/// A finished quick scan takes no more bytes.
pub proof fn lemma_finished_scan_takes_no_more(
    s: Scan,
    bytes: Seq<u8>,
    full: bool,
    analyse: spec_fn(FileView, u16) -> Option<AccessUnitScan>,
)
    requires
        s.finished,
    ensures
        scanned(s, bytes, full, analyse) == s,
    decreases bytes.len(),
{
    if bytes.len() > 0 {
        lemma_finished_scan_takes_no_more(s, bytes.drop_last(), full, analyse);
    }
}

/// A full scan never ends early.
pub proof fn lemma_full_scan_never_finishes_early(
    s: Scan,
    bytes: Seq<u8>,
    analyse: spec_fn(FileView, u16) -> Option<AccessUnitScan>,
)
    requires
        !s.finished,
    ensures
        !scanned(s, bytes, true, analyse).finished,
    decreases bytes.len(),
{
    if bytes.len() > 0 {
        lemma_full_scan_never_finishes_early(s, bytes.drop_last(), analyse);
    }
}

/// A scan before the first byte.
pub open spec fn blank_scan(file: FileView, playlists: Seq<PlaylistView>) -> Scan {
    Scan {
        demux: Demux {
            parser: blank_parser(),
            file: blank_file(file.name, file.interleaved_file),
            playlists,
        },
        finished: false,
    }
}

/// The bytes of all chunks.
pub open spec fn joined(chunks: Seq<Seq<u8>>) -> Seq<u8>
    decreases chunks.len(),
{
    if chunks.len() == 0 {
        Seq::empty()
    } else {
        chunks[0] + joined(chunks.drop_first())
    }
}

/// The bytes of the chunks that a scan takes whole, on top of those `so_far`; the chunk in
/// which a quick scan ends does not count.
pub open spec fn counted(
    s: Scan,
    chunks: Seq<Seq<u8>>,
    so_far: u64,
    full: bool,
    analyse: spec_fn(FileView, u16) -> Option<AccessUnitScan>,
) -> u64
    decreases chunks.len(),
{
    if chunks.len() == 0 {
        so_far
    } else {
        let next = scanned(s, chunks[0], full, analyse);
        if next.finished {
            so_far
        } else {
            counted(
                next,
                chunks.drop_first(),
                so_far.wrapping_add(chunks[0].len() as u64),
                full,
                analyse,
            )
        }
    }
}

/// The outcome of a scan: the file, the playlists, and the failure that it ends with.
pub struct Outcome {
    pub file: FileView,
    pub playlists: Seq<PlaylistView>,
    pub failure: Option<Failure>,
}

/// The outcome of the scan of a file. A quick scan that has all it needs reads no further.
/// Any other scan that is read to its end closes the last windows; one whose reading fails
/// keeps what it has measured. Without a playlist nothing is read.
pub open spec fn outcome_of<A: AccessUnits>(
    units: A,
    file: FileView,
    playlists: Seq<PlaylistView>,
    chunks: Seq<Seq<u8>>,
    failure: Option<Failure>,
    full: bool,
) -> Outcome {
    if playlists.len() == 0 {
        Outcome { file, playlists, failure: None }
    } else {
        let start = blank_scan(file, playlists);
        let s = scanned(start, joined(chunks), full, analysis(units, full));
        let (f, p) = if s.finished || failure is Some {
            (s.demux.file, s.demux.playlists)
        } else {
            finished(s.demux.file, s.demux.playlists)
        };
        Outcome {
            file: FileView {
                size: counted(start, chunks, 0, full, analysis(units, full)),
                ..f
            },
            playlists: p,
            failure: if s.finished {
                None
            } else {
                failure
            },
        }
    }
}

/// Whether a scan has this outcome.
pub open spec fn scans_as(
    want: Outcome,
    file: FileView,
    playlists: Seq<PlaylistView>,
    r: Result<(), BdError>,
) -> bool {
    &&& file == want.file
    &&& playlists == want.playlists
    &&& match want.failure {
        Some(f) => r is Err && r->Err_0@ == f,
        None => r is Ok,
    }
}

proof fn lemma_counts_all(
    s: Scan,
    chunks: Seq<Seq<u8>>,
    so_far: u64,
    full: bool,
    analyse: spec_fn(FileView, u16) -> Option<AccessUnitScan>,
)
    requires
        !scanned(s, joined(chunks), full, analyse).finished,
        so_far + joined(chunks).len() <= u64::MAX,
    ensures
        counted(s, chunks, so_far, full, analyse) == so_far + joined(chunks).len(),
    decreases chunks.len(),
{
    if chunks.len() > 0 {
        let rest = chunks.drop_first();
        let next = scanned(s, chunks[0], full, analyse);
        lemma_chunks_make_no_difference(s, chunks[0], joined(rest), full, analyse);
        if next.finished {
            lemma_finished_scan_takes_no_more(next, joined(rest), full, analyse);
        }
        lemma_counts_all(
            next,
            rest,
            so_far.wrapping_add(chunks[0].len() as u64),
            full,
            analyse,
        );
    }
}

/// The outcome of a scan rests on the bytes of the file, not on the chunks in which they
/// come. Only the size that a quick scan counts, where it ends early, does.
pub proof fn lemma_outcome_rests_on_the_bytes<A: AccessUnits>(
    units: A,
    file: FileView,
    playlists: Seq<PlaylistView>,
    a: Seq<Seq<u8>>,
    b: Seq<Seq<u8>>,
    failure: Option<Failure>,
    full: bool,
)
    requires
        joined(a) == joined(b),
    ensures
        ({
            let x = outcome_of(units, file, playlists, a, failure, full);
            let y = outcome_of(units, file, playlists, b, failure, full);
            &&& x.file == (FileView { size: x.file.size, ..y.file })
            &&& x.playlists == y.playlists
            &&& x.failure == y.failure
        }),
{
}

/// A full scan of the same bytes counts them all, and has the same outcome, whatever the
/// chunks.
pub proof fn lemma_full_scan_counts_every_byte<A: AccessUnits>(
    units: A,
    file: FileView,
    playlists: Seq<PlaylistView>,
    chunks: Seq<Seq<u8>>,
    failure: Option<Failure>,
)
    requires
        playlists.len() > 0,
        joined(chunks).len() <= u64::MAX,
    ensures
        outcome_of(units, file, playlists, chunks, failure, true).file.size == joined(chunks).len(),
        outcome_of(units, file, playlists, chunks, failure, true).failure == failure,
{
    let start = blank_scan(file, playlists);
    lemma_full_scan_never_finishes_early(start, joined(chunks), analysis(units, true));
    lemma_counts_all(start, chunks, 0, true, analysis(units, true));
}

proof fn lemma_cut_joins(bytes: Seq<u8>, from: int, size: int)
    requires
        0 <= from <= bytes.len(),
        size > 0,
    ensures
        joined(cut(bytes, from, size)) == bytes.subrange(from, bytes.len() as int),
    decreases bytes.len() - from,
{
    reveal_with_fuel(joined, 2);
    let all = cut(bytes, from, size);
    let rest = bytes.subrange(from, bytes.len() as int);
    if from == bytes.len() {
        assert(joined(all) =~= rest);
    } else if bytes.len() - from <= size {
        assert(all.drop_first() =~= Seq::empty());
        assert(joined(all) =~= rest);
    } else {
        lemma_cut_joins(bytes, from + size, size);
        assert(all.drop_first() =~= cut(bytes, from + size, size));
        assert(joined(all) =~= rest);
    }
}

/// Bytes cut into chunks are the same bytes, whatever the chunk size.
pub proof fn lemma_chunks_hold_the_bytes(bytes: Seq<u8>, chunk_size: usize)
    ensures
        joined(cut(bytes, 0, step_of(chunk_size))) == bytes,
{
    lemma_cut_joins(bytes, 0, step_of(chunk_size));
    assert(bytes.subrange(0, bytes.len() as int) =~= bytes);
}

/// What is told while the chunks of a file are read: before each chunk and after it, and at
/// the end of the file. A reading that was asked to stop tells nothing.
pub open spec fn reading_told(
    s: Scan,
    chunks: Seq<Seq<u8>>,
    failure: Option<Failure>,
    h: Heard,
    name: Seq<char>,
    full: bool,
    analyse: spec_fn(FileView, u16) -> Option<AccessUnitScan>,
) -> Heard
    decreases chunks.len(),
{
    if chunks.len() == 0 {
        match failure {
            Some(f) => if f is ScanCancelled {
                h
            } else {
                telling(h, h.progress, name)
            },
            None => telling(telling(h, h.progress, name), advanced(h.progress, 0), name),
        }
    } else {
        let after = telling(
            telling(h, h.progress, name),
            advanced(h.progress, chunks[0].len() as int),
            name,
        );
        let next = scanned(s, chunks[0], full, analyse);
        if next.finished {
            after
        } else {
            reading_told(next, chunks.drop_first(), failure, after, name, full, analyse)
        }
    }
}

/// How far a pass is after the scan of a file, and what the observer has been told.
pub open spec fn scan_told<A: AccessUnits>(
    units: A,
    file: FileView,
    playlists: Seq<PlaylistView>,
    chunks: Seq<Seq<u8>>,
    failure: Option<Failure>,
    full: bool,
    h: Heard,
    name: Seq<char>,
) -> Heard {
    if playlists.len() == 0 {
        h
    } else {
        reading_told(
            blank_scan(file, playlists),
            chunks,
            failure,
            h,
            name,
            full,
            analysis(units, full),
        )
    }
}

/// The chunks that a scan leaves unread, where it has all that it needs before they come;
/// a scan that goes on to the end of its source leaves none to speak of.
pub open spec fn unread(
    s: Scan,
    chunks: Seq<Seq<u8>>,
    full: bool,
    analyse: spec_fn(FileView, u16) -> Option<AccessUnitScan>,
) -> Option<Seq<Seq<u8>>>
    decreases chunks.len(),
{
    if chunks.len() == 0 {
        None
    } else {
        let next = scanned(s, chunks[0], full, analyse);
        if next.finished {
            Some(chunks.drop_first())
        } else {
            unread(next, chunks.drop_first(), full, analyse)
        }
    }
}

/// Whether a scan has read no more of its source than it takes: without a playlist nothing,
/// and nothing behind the chunk in which it has all that it needs.
pub open spec fn reads_no_further<A: AccessUnits, R: ByteSource>(
    units: A,
    file: FileView,
    playlists: Seq<PlaylistView>,
    full: bool,
    before: R,
    after: R,
) -> bool {
    if playlists.len() == 0 {
        after == before
    } else {
        match unread(blank_scan(file, playlists), before.chunks(), full, analysis(units, full)) {
            Some(rest) => after.chunks() == rest && after.failure() == before.failure(),
            None => true,
        }
    }
}

impl TsStreamFile {
    /// Has the access unit that the file has assembled on `pid` analysed.
    fn analyse_unit<A: AccessUnits>(&self, units: &A, pid: u16, full: bool) -> (r: Option<
        AccessUnitScan,
    >)
        ensures
            r == unit_outcome(*units, self@, pid, full),
    {
        broadcast use group_btree_axioms;

        let rate: i64 = self.access_unit_rate(pid);
        match self.streams.get(&pid) {
            Some(stream) => match self.stream_states.get(&pid) {
                Some(state) => {
                    assert(views(self.stream_states@)[pid] == state@);
                    Some(units.analyse(stream, &state.payload, rate, full))
                },
                None => {
                    let none: Vec<u8> = Vec::new();
                    proof {
                        assert(none@ =~= Seq::empty());
                    }
                    Some(units.analyse(stream, &none, rate, full))
                },
            },
            None => None,
        }
    }

    /// Takes all the bytes of a chunk and has each complete access unit analysed. Returns
    /// whether a quick scan has all it needs; it then leaves the rest of the chunk.
    #[verifier::loop_isolation(false)]
    pub fn scan_chunk<A: AccessUnits>(
        &mut self,
        units: &A,
        parser: &mut TsPacketParser,
        buffer: &[u8],
        full: bool,
        playlists: &mut Vec<TsPlaylistFile>,
    ) -> (r: bool)
        requires
            old(parser)@.pending is None,
        ensures
            final(parser)@.pending is None,
            (Scan { demux: demux(*final(self), *final(parser), final(playlists)@), finished: r })
                == scanned(
                Scan {
                    demux: demux(*old(self), *old(parser), old(playlists)@),
                    finished: false,
                },
                buffer@,
                full,
                analysis(*units, full),
            ),
    {
        let ghost start = Scan { demux: demux(*self, *parser, playlists@), finished: false };
        let ghost analyse = analysis(*units, full);
        let ghost whole = scanned(start, buffer@, full, analyse);
        let mut from: usize = 0;
        proof {
            assert(buffer@.subrange(0, buffer@.len() as int) =~= buffer@);
        }
        loop
            invariant
                from <= buffer@.len(),
                parser@.pending is None,
                whole == scanned(
                    Scan { demux: demux(*self, *parser, playlists@), finished: false },
                    buffer@.subrange(from as int, buffer@.len() as int),
                    full,
                    analyse,
                ),
            decreases buffer@.len() - from,
        {
            let ghost here = Scan { demux: demux(*self, *parser, playlists@), finished: false };
            let ghost rest = buffer@.subrange(from as int, buffer@.len() as int);
            match self.parse_chunk(parser, buffer, from, full, playlists) {
                ChunkStop::Done => {
                    proof {
                        lemma_scan_is_run(here, rest, full, analyse);
                    }
                    return false;
                },
                ChunkStop::AccessUnit { pid, next } => {
                    let ghost n = next - from;
                    let ghost d = demux(*self, *parser, playlists@);
                    let found = self.analyse_unit(units, pid, full);
                    let done = self.scan_stream(pid, full, found);
                    parser.resume();
                    proof {
                        assert(rest.subrange(0, n) =~= buffer@.subrange(from as int, next as int));
                        assert(rest.subrange(0, n - 1) =~= buffer@.subrange(from as int, next - 1));
                        assert(rest.subrange(n, rest.len() as int) =~= buffer@.subrange(
                            next as int,
                            buffer@.len() as int,
                        ));
                        lemma_stopping_at_units_is_the_scan(here, rest, n, pid, full, analyse);
                    }
                    if done {
                        proof {
                            lemma_finished_scan_takes_no_more(
                                Scan {
                                    demux: demux(*self, *parser, playlists@),
                                    finished: true,
                                },
                                buffer@.subrange(next as int, buffer@.len() as int),
                                full,
                                analyse,
                            );
                        }
                        return true;
                    }
                    from = next;
                },
            }
        }
    }

    /// Scans the file that `reader` reads. Where the reading fails, what was measured up to
    /// there stays, and the failure is returned.
    pub fn scan<A: AccessUnits, R: ByteSource>(
        &mut self,
        units: &A,
        reader: &mut R,
        playlists: &mut Vec<TsPlaylistFile>,
        full: bool,
    ) -> (r: Result<(), BdError>)
        ensures
            scans_as(
                outcome_of(
                    *units,
                    old(self)@,
                    playlist_views(old(playlists)@),
                    old(reader).chunks(),
                    old(reader).failure(),
                    full,
                ),
                final(self)@,
                playlist_views(final(playlists)@),
                r,
            ),
            reads_no_further(
                *units,
                old(self)@,
                playlist_views(old(playlists)@),
                full,
                *old(reader),
                *final(reader),
            ),
    {
        let mut observer = Indifferent::new();
        let mut progress = Progress::silent();
        self.scan_counted(units, reader, playlists, full, "", &mut progress, &mut observer)
    }

    /// Scans the file that `reader` reads, and tells `observer` how far the pass is, before
    /// and after every chunk of the stream file `name`.
    #[verifier::loop_isolation(false)]
    pub fn scan_counted<A: AccessUnits, R: ByteSource, O: ScanObserver>(
        &mut self,
        units: &A,
        reader: &mut R,
        playlists: &mut Vec<TsPlaylistFile>,
        full: bool,
        name: &str,
        progress: &mut Progress,
        observer: &mut O,
    ) -> (r: Result<(), BdError>)
        ensures
            scans_as(
                outcome_of(
                    *units,
                    old(self)@,
                    playlist_views(old(playlists)@),
                    old(reader).chunks(),
                    old(reader).failure(),
                    full,
                ),
                final(self)@,
                playlist_views(final(playlists)@),
                r,
            ),
            heard(*final(progress), *final(observer)) == scan_told(
                *units,
                old(self)@,
                playlist_views(old(playlists)@),
                old(reader).chunks(),
                old(reader).failure(),
                full,
                heard(*old(progress), *old(observer)),
                name@,
            ),
            reads_no_further(
                *units,
                old(self)@,
                playlist_views(old(playlists)@),
                full,
                *old(reader),
                *final(reader),
            ),
    {
        let ghost analyse = analysis(*units, full);
        let ghost chunks = reader.chunks();
        let ghost start = blank_scan(self@, playlist_views(playlists@));
        let ghost whole = reading_told(
            start,
            chunks,
            reader.failure(),
            heard(*progress, *observer),
            name@,
            full,
            analyse,
        );
        let mut parser = match self.begin_scan(playlists) {
            Some(parser) => parser,
            None => {
                return Ok(());
            },
        };
        let mut read: u64 = 0;
        proof {
            assert(demux(*self, parser, playlists@) == start.demux);
        }
        loop
            invariant
                parser@.pending is None,
                counted(start, chunks, 0, full, analyse) == counted(
                    Scan { demux: demux(*self, parser, playlists@), finished: false },
                    reader.chunks(),
                    read,
                    full,
                    analyse,
                ),
                scanned(start, joined(chunks), full, analyse) == scanned(
                    Scan { demux: demux(*self, parser, playlists@), finished: false },
                    joined(reader.chunks()),
                    full,
                    analyse,
                ),
                reader.failure() == old(reader).failure(),
                unread(start, chunks, full, analyse) == unread(
                    Scan { demux: demux(*self, parser, playlists@), finished: false },
                    reader.chunks(),
                    full,
                    analyse,
                ),
                whole == reading_told(
                    Scan { demux: demux(*self, parser, playlists@), finished: false },
                    reader.chunks(),
                    reader.failure(),
                    heard(*progress, *observer),
                    name@,
                    full,
                    analyse,
                ),
            decreases reader.chunks().len(),
        {
            let ghost here = Scan { demux: demux(*self, parser, playlists@), finished: false };
            let ghost left = reader.chunks();
            if reader.is_stopped() {
                self.size = read;
                return Err(BdError::ScanCancelled);
            }
            progress.tell(observer, name);
            match reader.read() {
                Err(e) => {
                    self.size = read;
                    return Err(e);
                },
                Ok(chunk) => {
                    let _ = progress.advance(name, chunk.len() as u64);
                    progress.tell(observer, name);
                    if chunk.len() == 0 {
                        self.finish_scan(playlists);
                        self.size = read;
                        return Ok(());
                    }
                    let done = self.scan_chunk(units, &mut parser, chunk.as_slice(), full, playlists);
                    proof {
                        lemma_chunks_make_no_difference(
                            here,
                            left[0],
                            joined(left.drop_first()),
                            full,
                            analyse,
                        );
                    }
                    if done {
                        self.size = read;
                        proof {
                            lemma_finished_scan_takes_no_more(
                                scanned(here, left[0], full, analyse),
                                joined(left.drop_first()),
                                full,
                                analyse,
                            );
                        }
                        return Ok(());
                    }
                    read = read.wrapping_add(chunk.len() as u64);
                },
            }
        }
    }

    /// Scans the file through its interleaved source where it has one and such sources are
    /// read, else through `m2ts`, which is left alone where the interleaved source is read.
    /// Where the interleaved source does not open, the file stays as it was.
    pub fn scan_source<A: AccessUnits, R: ByteSource, F: BdFile<Reader = R>>(
        &mut self,
        units: &A,
        m2ts: &mut R,
        interleaved: Option<&TsInterleavedFile<F>>,
        playlists: &mut Vec<TsPlaylistFile>,
        full: bool,
        enable_ssif: bool,
    ) -> (r: Result<(), BdError>)
        ensures
            match (interleaved, enable_ssif) {
                (Some(file), true) => exists|opened: Result<R, BdError>|
                    {
                        &&& #[trigger] call_ensures(F::open_read, (&file.handle(),), opened)
                        &&& match opened {
                            Err(e) => r == Err::<(), BdError>(e) && *final(self) == *old(self)
                                && final(playlists)@ == old(playlists)@,
                            Ok(reader) => scans_as(
                                outcome_of(
                                    *units,
                                    old(self)@,
                                    playlist_views(old(playlists)@),
                                    reader.chunks(),
                                    reader.failure(),
                                    full,
                                ),
                                final(self)@,
                                playlist_views(final(playlists)@),
                                r,
                            ),
                        }
                    },
                _ => scans_as(
                    outcome_of(
                        *units,
                        old(self)@,
                        playlist_views(old(playlists)@),
                        old(m2ts).chunks(),
                        old(m2ts).failure(),
                        full,
                    ),
                    final(self)@,
                    playlist_views(final(playlists)@),
                    r,
                ),
            },
            match (interleaved, enable_ssif) {
                (Some(_), true) => *final(m2ts) == *old(m2ts),
                _ => reads_no_further(
                    *units,
                    old(self)@,
                    playlist_views(old(playlists)@),
                    full,
                    *old(m2ts),
                    *final(m2ts),
                ),
            },
    {
        match interleaved {
            Some(file) if enable_ssif => match file.open_read() {
                Ok(mut reader) => self.scan(units, &mut reader, playlists, full),
                Err(e) => Err(e),
            },
            _ => self.scan(units, m2ts, playlists, full),
        }
    }
}

} // verus!
