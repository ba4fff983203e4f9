# bdinfo-rs-core

A Blu-ray disc scanner core: it parses the clip-information (`*.clpi`) and playlist
(`*.mpls`) files, demultiplexes the stream files (`*.m2ts`, `*.ssif`) to measure them, and
builds the per-playlist summaries of a disc report. The library is written in
[Verus](https://github.com/verus-lang/verus): its functions state what they do in contracts
that are proved. What is taken on trust are the few calls into the standard library and the
XML parser, each marked and described where it stands.

* `src/` is the library. `bdrom` holds the disc: `clpi` and `mpls` the metadata parsers,
  `m2ts`, `psi`, `pes`, `credit` and `scan` the demultiplexer, `measure` and `passes` the two
  passes of a packet scan, `discovery`, `open`, `catalog` and `title` the disc's own facts,
  `resolve`, `merge`, `present`, `chapters`, `summarise` and `disc` the summaries, and `rom` the
  whole of it. The modules whose names end in `_laws` state what holds across functions.
* `tests/` runs the library on concrete inputs.
* `app/` reads discs from a file system.

Times are ticks of a 90 kHz clock and rates are exact quotients or rounded half to even, so
nothing depends on floating point. The codecs and the words of a report come in through the
traits `AccessUnits` and `StreamText`, the bytes of the stream files through `StreamStore`;
who follows a scan is a `ScanObserver`.
