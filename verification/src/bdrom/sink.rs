//! Failures: a strict scan stops at the first, a resilient one notes it and goes on.

use vstd::prelude::*;
use vstd::string::*;

use super::m2ts::TsStreamFile;
use crate::error::{BdError, Failure, Note, ScanError, ScanStage};

verus! {

/// The notes of a scan with one more; a strict scan takes none.
pub open spec fn noted(
    notes: Option<Seq<Note>>,
    stage: ScanStage,
    file: Seq<char>,
    reason: Failure,
) -> Option<Seq<Note>> {
    match notes {
        Some(list) => Some(list.push(Note { file, stage, reason })),
        None => None,
    }
}

/// Where the failures of a scan go.
#[derive(Debug)]
pub struct Sink {
    errors: Option<Vec<ScanError>>,
}

impl View for Sink {
    type V = Option<Seq<Note>>;

    closed spec fn view(&self) -> Option<Seq<Note>> {
        match self.errors {
            Some(list) => Some(list@.map_values(|e: ScanError| e@)),
            None => None,
        }
    }
}

impl Sink {
    /// The sink of a strict scan, which takes no notes.
    pub fn strict() -> (r: Self)
        ensures
            r@ is None,
    {
        Sink { errors: None }
    }

    /// The sink of a resilient scan, without notes yet.
    pub fn resilient() -> (r: Self)
        ensures
            r@ == Some(Seq::<Note>::empty()),
    {
        let r = Sink { errors: Some(Vec::new()) };
        proof {
            assert(r@->Some_0 =~= Seq::<Note>::empty());
        }
        r
    }

    /// Whether the scan is a resilient one.
    pub fn is_resilient(&self) -> (r: bool)
        ensures
            r == (self@ is Some),
    {
        self.errors.is_some()
    }

    /// The notes, in the order in which they were taken.
    pub fn into_errors(self) -> (r: Vec<ScanError>)
        ensures
            r@.map_values(|e: ScanError| e@) == (match self@ {
                Some(list) => list,
                None => Seq::empty(),
            }),
    {
        match self.errors {
            Some(list) => list,
            None => {
                let list: Vec<ScanError> = Vec::new();
                proof {
                    assert(list@.map_values(|e: ScanError| e@) =~= Seq::empty());
                }
                list
            },
        }
    }

    /// Notes a failure; a strict scan does nothing.
    pub fn record(&mut self, stage: ScanStage, file: &str, reason: BdError)
        ensures
            final(self)@ == noted(old(self)@, stage, file@, reason@),
    {
        if let Some(list) = &mut self.errors {
            let ghost was = list@.map_values(|e: ScanError| e@);
            let note = ScanError { file: file.to_owned(), stage, reason };
            let ghost added = note@;
            list.push(note);
            proof {
                assert(list@.map_values(|e: ScanError| e@) =~= was.push(added));
            }
        }
    }

    /// Unwraps an outcome. A failure ends a strict scan; a resilient one notes it and
    /// takes `fallback` instead.
    pub fn absorb<T>(
        &mut self,
        stage: ScanStage,
        file: &str,
        fallback: T,
        result: Result<T, BdError>,
    ) -> (r: Result<T, BdError>)
        ensures
            match result {
                Ok(v) => r == Ok::<T, BdError>(v) && final(self)@ == old(self)@,
                Err(e) => {
                    &&& final(self)@ == noted(old(self)@, stage, file@, e@)
                    &&& old(self)@ is Some ==> r == Ok::<T, BdError>(fallback)
                    &&& old(self)@ is None ==> r == Err::<T, BdError>(e)
                },
            },
    {
        match result {
            Ok(value) => Ok(value),
            Err(reason) => if self.errors.is_some() {
                self.record(stage, file, reason);
                Ok(fallback)
            } else {
                Err(reason)
            },
        }
    }

    /// Unwraps an outcome like [`absorb`](Self::absorb), with the outcome of a backup copy
    /// at hand, where there is one. In a resilient scan a backup that worked stands in for
    /// the primary, whose failure is noted all the same.
    pub fn absorb_with_backup<T>(
        &mut self,
        stage: ScanStage,
        file: &str,
        fallback: T,
        primary: Result<T, BdError>,
        backup: Option<Result<T, BdError>>,
    ) -> (r: Result<T, BdError>)
        ensures
            match primary {
                Ok(v) => r == Ok::<T, BdError>(v) && final(self)@ == old(self)@,
                Err(e) => {
                    &&& final(self)@ == noted(old(self)@, stage, file@, e@)
                    &&& old(self)@ is None ==> r == Err::<T, BdError>(e)
                    &&& old(self)@ is Some ==> match backup {
                        Some(Ok(v)) => r == Ok::<T, BdError>(v),
                        _ => r == Ok::<T, BdError>(fallback),
                    }
                },
            },
    {
        let reason = match primary {
            Ok(value) => {
                return Ok(value);
            },
            Err(reason) => reason,
        };
        if self.errors.is_some() {
            if let Some(Ok(value)) = backup {
                self.record(stage, file, reason);
                return Ok(value);
            }
        }
        self.absorb(stage, file, fallback, Err(reason))
    }
}

/// What came of the scan of one stream file.
#[derive(Debug)]
pub enum StreamScan {
    /// The pass read all that it was to read.
    Complete(TsStreamFile),
    /// The reading failed partway; the file holds what was measured up to there.
    Partial(TsStreamFile, BdError),
    /// The source did not open, or the caller asked for the scan to stop: there is
    /// nothing to keep.
    Nothing(BdError),
}

/// What a failed scan of a stream file comes to: a scan that was asked to stop stops,
/// without a note; any other failure ends a strict scan, and in a resilient one is noted,
/// with `kept` in the file's place.
pub open spec fn settles(
    before: Option<Seq<Note>>,
    after: Option<Seq<Note>>,
    file: Seq<char>,
    reason: BdError,
    kept: Option<TsStreamFile>,
    r: Result<Option<TsStreamFile>, BdError>,
) -> bool {
    if reason is ScanCancelled {
        r == Err::<Option<TsStreamFile>, BdError>(BdError::ScanCancelled) && after == before
    } else {
        &&& after == noted(before, ScanStage::StreamFile, file, reason@)
        &&& before is None ==> r == Err::<Option<TsStreamFile>, BdError>(reason)
        &&& before is Some ==> r == Ok::<Option<TsStreamFile>, BdError>(kept)
    }
}

/// Settles what came of the scan of one stream file. A scan that was asked to stop stops,
/// without a note. Any other failure ends a strict scan; a resilient one notes it and keeps
/// the partial file where it is to.
pub fn settle_stream_scan(
    sink: &mut Sink,
    file: &str,
    keep_partial: bool,
    scan: StreamScan,
) -> (r: Result<Option<TsStreamFile>, BdError>)
    ensures
        match scan {
            StreamScan::Complete(f) => r == Ok::<Option<TsStreamFile>, BdError>(Some(f))
                && final(sink)@ == old(sink)@,
            StreamScan::Partial(f, e) => settles(
                old(sink)@,
                final(sink)@,
                file@,
                e,
                if keep_partial {
                    Some(f)
                } else {
                    None
                },
                r,
            ),
            StreamScan::Nothing(e) => settles(old(sink)@, final(sink)@, file@, e, None, r),
        },
{
    match scan {
        StreamScan::Complete(f) => Ok(Some(f)),
        StreamScan::Partial(f, e) => {
            if matches!(e, BdError::ScanCancelled) {
                return Err(BdError::ScanCancelled);
            }
            let fallback = if keep_partial {
                Some(f)
            } else {
                None
            };
            sink.absorb(ScanStage::StreamFile, file, fallback, Err(e))
        },
        StreamScan::Nothing(e) => {
            if matches!(e, BdError::ScanCancelled) {
                return Err(BdError::ScanCancelled);
            }
            sink.absorb(ScanStage::StreamFile, file, None, Err(e))
        },
    }
}

/// A resilient scan loses no failure and takes each note once; a strict one takes none.
pub proof fn lemma_every_failure_is_noted(
    notes: Option<Seq<Note>>,
    stage: ScanStage,
    file: Seq<char>,
    reason: Failure,
)
    ensures
        match notes {
            Some(list) => {
                let now = noted(notes, stage, file, reason)->Some_0;
                &&& now.len() == list.len() + 1
                &&& now.last() == (Note { file, stage, reason })
                &&& forall|i: int| 0 <= i < list.len() ==> now[i] == list[i]
            },
            None => noted(notes, stage, file, reason) is None,
        },
{
}

} // verus!
