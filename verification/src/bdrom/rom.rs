//! Opening a disc: its metadata, its packet scans, and the report built from both.

use vstd::prelude::*;
use vstd::string::*;

use super::catalog::{finish_disc, open_located, opened_at, summaries_from, DiscView};
use super::disc::{BdRom, ScanMode, ScanOptions, ScanReport};
use super::discovery::{first_scannable, walked_disc_root, DirEntry};
use super::m2ts::TsStreamFile;
use super::measure::{measured_by, run_measurement_scan, HeldFiles, MeasureView, StreamStore};
use super::open::{layout_of, locate};
use super::passes::{selection_view, Event, Indifferent, ScanObserver};
use super::present::StreamText;
use super::rom_laws::lemma_resilient_scan_always_reports;
use super::scan::{AccessUnits, DATA_SIZE};
use super::sink::Sink;
use crate::error::{BdError, Failure, Note, ScanError};
use crate::names::{table_views, NameTable};

verus! {

/// The root of the disc that a directory lies in: the first of `chain` is the directory, the
/// others are its ancestors. Where they do not tell, the directory is the root.
pub open spec fn root_of(chain: Seq<DirEntry>) -> DirEntry {
    match first_scannable(chain, 0) {
        Some(k) => if k + 1 < chain.len() {
            chain[k + 1]
        } else {
            chain[0]
        },
        None => chain[0],
    }
}

/// What comes of a scan: the report of the disc, or why there is none, the notes, and what
/// the observer has been told.
pub struct ScanOutcome {
    pub disc: Result<DiscView, Failure>,
    pub notes: Option<Seq<Note>>,
    pub told: Seq<Event>,
}

/// What comes of the scan of the disc at `root`.
pub open spec fn disc_of<T: StreamText, A: AccessUnits, S: StreamStore>(
    text: T,
    units: A,
    store: S,
    root: DirEntry,
    mode: ScanMode,
    keep_partial: bool,
    selection: Option<Seq<Seq<char>>>,
    notes: Option<Seq<Note>>,
    told: Seq<Event>,
) -> ScanOutcome {
    match layout_of(root, notes) {
        (Err(f), after) => ScanOutcome { disc: Err(f), notes: after, told },
        (Ok(l), located) => match opened_at(root, l, located) {
            (Err(f), after) => ScanOutcome { disc: Err(f), notes: after, told },
            (Ok(o), after) => {
                let m = if mode is Metadata {
                    MeasureView {
                        playlists: o.playlists,
                        notes: after,
                        quick: Seq::empty(),
                        full: Seq::empty(),
                        failure: None,
                        told,
                    }
                } else {
                    measured_by(
                        units,
                        store,
                        l.stream,
                        l.ssif,
                        selection,
                        o.maps,
                        o.playlists,
                        after,
                        mode is Full,
                        keep_partial,
                        told,
                    )
                };
                match m.failure {
                    Some(f) => ScanOutcome { disc: Err(f), notes: m.notes, told: m.told },
                    None => {
                        let (list, last) = summaries_from(
                            text,
                            m.playlists,
                            0,
                            o.maps.clip_files,
                            o.maps.stream_files,
                            o.maps.interleaved_files,
                            m.quick,
                            m.full,
                            (Seq::empty(), false),
                            m.notes,
                        );
                        ScanOutcome {
                            disc: match list {
                                Ok((playlists, is_50hz)) => Ok(
                                    DiscView { level: o.level, is_50hz, playlists },
                                ),
                                Err(f) => Err(f),
                            },
                            notes: last,
                            told: m.told,
                        }
                    },
                }
            },
        },
    }
}

/// Opens and scans the disc at `root`, as deep as `mode` says.
fn open_impl<T: StreamText, A: AccessUnits, S: StreamStore, O: ScanObserver>(
    text: &T,
    units: &A,
    store: &S,
    root: &DirEntry,
    mode: ScanMode,
    options: ScanOptions,
    selection: Option<&Vec<String>>,
    observer: &mut O,
    sink: &mut Sink,
) -> (r: Result<BdRom, BdError>)
    ensures
        ({
            let want = disc_of(
                *text,
                *units,
                *store,
                *root,
                mode,
                options.keep_partial,
                selection_view(selection),
                old(sink)@,
                old(observer).told(),
            );
            &&& final(sink)@ == want.notes
            &&& final(observer).told() == want.told
            &&& match want.disc {
                Ok(disc) => r is Ok && r->Ok_0@ == disc,
                Err(f) => r is Err && r->Err_0@ == f,
            }
        }),
{
    let layout = locate(root, sink)?;
    let mut disc = open_located(root, &layout, sink)?;
    let (quick, full) = if mode.scans_packets() {
        run_measurement_scan(
            units,
            store,
            layout.stream,
            layout.ssif,
            selection,
            &disc.maps,
            &mut disc.playlists,
            sink,
            mode.measures_bitrate(),
            options.keep_partial,
            observer,
        )?
    } else {
        let none: NameTable<TsStreamFile> = NameTable::new();
        let nothing: NameTable<TsStreamFile> = NameTable::new();
        proof {
            assert(table_views(none@) =~= Seq::empty());
            assert(table_views(nothing@) =~= Seq::empty());
        }
        (none, nothing)
    };
    finish_disc(text, disc, &quick, &full, sink)
}

/// The root of the disc that a directory lies in.
fn disc_root<'a>(chain: &'a Vec<DirEntry>) -> (r: &'a DirEntry)
    requires
        chain@.len() > 0,
    ensures
        *r == root_of(chain@),
{
    match walked_disc_root(chain) {
        Some(k) => &chain[k],
        None => &chain[0],
    }
}

impl BdRom {
    /// Opens and scans a disc whose files are held in memory, and ends with the first
    /// failure.
    ///
    /// `chain` is a directory followed by its ancestors. The directory is the root of the
    /// disc, or it lies in the `BDMV` directory or is that directory.
    ///
    /// Fails with [`BdError::StructureNotFound`] where a directory is missing that a scan
    /// needs, with [`BdError::MissingClipFile`] where a playlist plays a clip without clip
    /// information, and with what reading or parsing a file fails with.
    pub fn open<T: StreamText, A: AccessUnits>(
        text: &T,
        units: &A,
        chain: &Vec<DirEntry>,
        mode: ScanMode,
    ) -> (r: Result<BdRom, BdError>)
        requires
            chain@.len() > 0,
        ensures
            match disc_of(
                *text,
                *units,
                HeldFiles { chunk_size: DATA_SIZE },
                root_of(chain@),
                mode,
                true,
                None,
                None,
                Seq::empty(),
            ).disc {
                Ok(disc) => r is Ok && r->Ok_0@ == disc,
                Err(f) => r is Err && r->Err_0@ == f,
            },
    {
        BdRom::open_with(
            text,
            units,
            &HeldFiles { chunk_size: DATA_SIZE },
            chain,
            mode,
            ScanOptions::default(),
            None,
            &mut Indifferent::new(),
        )
    }

    /// Opens and scans a disc, and ends with the first failure.
    ///
    /// The stream files are read from `store`. With a `selection` only the stream files that
    /// it names are read, by upper-cased name. The `observer` is told how far the last pass
    /// that the scan makes is.
    pub fn open_with<T: StreamText, A: AccessUnits, S: StreamStore, O: ScanObserver>(
        text: &T,
        units: &A,
        store: &S,
        chain: &Vec<DirEntry>,
        mode: ScanMode,
        options: ScanOptions,
        selection: Option<&Vec<String>>,
        observer: &mut O,
    ) -> (r: Result<BdRom, BdError>)
        requires
            chain@.len() > 0,
        ensures
            ({
                let want = disc_of(
                    *text,
                    *units,
                    *store,
                    root_of(chain@),
                    mode,
                    options.keep_partial,
                    selection_view(selection),
                    None,
                    old(observer).told(),
                );
                &&& final(observer).told() == want.told
                &&& match want.disc {
                    Ok(disc) => r is Ok && r->Ok_0@ == disc,
                    Err(f) => r is Err && r->Err_0@ == f,
                }
            }),
    {
        let mut sink = Sink::strict();
        open_impl(
            text,
            units,
            store,
            disc_root(chain),
            mode,
            options,
            selection,
            observer,
            &mut sink,
        )
    }

    /// Opens and scans a disc whose files are held in memory. A failure is noted, and the
    /// scan goes on with what can be read.
    ///
    /// Fails only where a directory is missing, or cannot be looked for, that a scan needs.
    pub fn open_resilient<T: StreamText, A: AccessUnits>(
        text: &T,
        units: &A,
        chain: &Vec<DirEntry>,
        mode: ScanMode,
    ) -> (r: Result<ScanReport, BdError>)
        requires
            chain@.len() > 0,
        ensures
            ({
                let want = disc_of(
                    *text,
                    *units,
                    HeldFiles { chunk_size: DATA_SIZE },
                    root_of(chain@),
                    mode,
                    true,
                    None,
                    Some(Seq::empty()),
                    Seq::empty(),
                );
                match want.disc {
                    Ok(disc) => r is Ok && r->Ok_0.bdrom@ == disc && Some(
                        r->Ok_0.errors@.map_values(|e: ScanError| e@),
                    ) == want.notes,
                    Err(f) => r is Err && r->Err_0@ == f,
                }
            }),
    {
        BdRom::open_resilient_with(
            text,
            units,
            &HeldFiles { chunk_size: DATA_SIZE },
            chain,
            mode,
            ScanOptions::default(),
            None,
            &mut Indifferent::new(),
        )
    }

    /// Opens and scans a disc. A failure is noted, and the scan goes on with what can be
    /// read; a stream file whose reading failed partway is kept as the options say.
    ///
    /// Fails only where a directory is missing, or cannot be looked for, that a scan needs,
    /// and with [`BdError::ScanCancelled`] where the reading was asked to stop.
    pub fn open_resilient_with<T: StreamText, A: AccessUnits, S: StreamStore, O: ScanObserver>(
        text: &T,
        units: &A,
        store: &S,
        chain: &Vec<DirEntry>,
        mode: ScanMode,
        options: ScanOptions,
        selection: Option<&Vec<String>>,
        observer: &mut O,
    ) -> (r: Result<ScanReport, BdError>)
        requires
            chain@.len() > 0,
        ensures
            ({
                let want = disc_of(
                    *text,
                    *units,
                    *store,
                    root_of(chain@),
                    mode,
                    options.keep_partial,
                    selection_view(selection),
                    Some(Seq::empty()),
                    old(observer).told(),
                );
                &&& final(observer).told() == want.told
                &&& match want.disc {
                    Ok(disc) => r is Ok && r->Ok_0.bdrom@ == disc && Some(
                        r->Ok_0.errors@.map_values(|e: ScanError| e@),
                    ) == want.notes,
                    Err(f) => r is Err && r->Err_0@ == f,
                }
            }),
    {
        let mut sink = Sink::resilient();
        let bdrom = open_impl(
            text,
            units,
            store,
            disc_root(chain),
            mode,
            options,
            selection,
            observer,
            &mut sink,
        )?;
        proof {
            lemma_resilient_scan_always_reports(
                *text,
                *units,
                *store,
                root_of(chain@),
                mode,
                options.keep_partial,
                selection_view(selection),
                Seq::empty(),
                old(observer).told(),
            );
        }
        Ok(ScanReport { bdrom, errors: sink.into_errors() })
    }
}

} // verus!
