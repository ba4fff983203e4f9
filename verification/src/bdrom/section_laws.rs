//! How the sections of the program tables are put together, byte by byte.

use vstd::prelude::*;

use super::m2ts::{pmt_byte, pmt_closed, pmt_walk, table_of, FileView};
use super::psi::{high_nibble, pat_byte, pat_walk, pmt_field, put, SectionState, SECTION_SIZE};

verus! {

// ---- the program association ----

/// The program association after bytes of its PID.
pub open spec fn pat_run(s: SectionState, table: Seq<u8>, pmt_pid: u16, bytes: Seq<u8>) -> (
    SectionState,
    Seq<u8>,
    u16,
)
    decreases bytes.len(),
{
    if bytes.len() == 0 {
        (s, table, pmt_pid)
    } else {
        let (t, filled, pid) = pat_run(s, table, pmt_pid, bytes.drop_last());
        pat_byte(t, filled, pid, bytes.last())
    }
}

proof fn lemma_pat_run_concat(s: SectionState, table: Seq<u8>, pid: u16, a: Seq<u8>, b: Seq<u8>)
    ensures
        pat_run(s, table, pid, a + b) == ({
            let (t, filled, p) = pat_run(s, table, pid, a);
            pat_run(t, filled, p, b)
        }),
    decreases b.len(),
{
    if b.len() == 0 {
        assert(a + b =~= a);
    } else {
        lemma_pat_run_concat(s, table, pid, a, b.drop_last());
        assert((a + b).drop_last() =~= a + b.drop_last());
    }
}

/// A buffer with bytes from `at` on.
pub open spec fn filled_from(table: Seq<u8>, at: int, bytes: Seq<u8>) -> Seq<u8> {
    Seq::new(
        table.len(),
        |i: int|
            if at <= i < at + bytes.len() {
                bytes[i - at]
            } else {
                table[i]
            },
    )
}

/// A section: the table that it is of, the number of it and of the last one, the bytes of its
/// header that say nothing, and its entries with the checksum behind them.
pub struct TableSection {
    pub table: u8,
    /// The high half of the byte with the top of the length.
    pub before_length: u8,
    pub id: Seq<u8>,
    pub version: u8,
    pub number: u8,
    pub last: u8,
    pub entries: Seq<u8>,
    pub checksum: Seq<u8>,
}

/// The bytes of a section's length.
pub open spec fn length_bytes(before: u8, length: int) -> Seq<u8> {
    seq![(before * 16 + length / 256) as u8, (length % 256) as u8]
}

/// A section of a program association as it stands in a packet, behind the pointer to it.
pub open spec fn association_bytes(t: TableSection) -> Seq<u8> {
    seq![t.table] + length_bytes(t.before_length, 5 + t.entries.len() as int + 4) + t.id + seq![
        t.version,
        t.number,
        t.last,
    ] + (t.entries + t.checksum)
}

/// Whether a section of a program association can be written down.
pub open spec fn association_writable(t: TableSection) -> bool {
    &&& t.before_length < 16
    &&& t.id.len() == 2
    &&& t.checksum.len() == 4
    &&& 5 + t.entries.len() + 4 <= 1021
}

#[verifier::rlimit(50)]
proof fn lemma_pat_body(s: SectionState, table: Seq<u8>, pid: u16, bytes: Seq<u8>, n: int)
    requires
        s.copying,
        table.len() == SECTION_SIZE,
        s.offset + bytes.len() <= SECTION_SIZE,
        0 <= n <= bytes.len(),
        n < s.length,
    ensures
        pat_run(s, table, pid, bytes.subrange(0, n)) == (
            SectionState { offset: (s.offset + n) as u32, length: (s.length - n) as u16, ..s },
            filled_from(table, s.offset as int, bytes.subrange(0, n)),
            pid,
        ),
    decreases n,
{
    let part = bytes.subrange(0, n);
    if n == 0 {
        assert(filled_from(table, s.offset as int, part) =~= table);
    } else {
        lemma_pat_body(s, table, pid, bytes, n - 1);
        assert(part.drop_last() =~= bytes.subrange(0, n - 1));
        let before = filled_from(table, s.offset as int, bytes.subrange(0, n - 1));
        assert(put(before, s.offset + n - 1, bytes[n - 1]) =~= filled_from(
            table,
            s.offset as int,
            part,
        ));
    }
}

/// A section of a program association goes into the buffer behind what is there, or at its
/// start where it is the first of its table. With the last section of the table, all the
/// entries in the buffer are walked, the checksum left out; with any other nothing comes of
/// it yet.
#[verifier::rlimit(50)]
pub proof fn lemma_an_association_section_is_assembled(
    s: SectionState,
    table: Seq<u8>,
    pid: u16,
    t: TableSection,
)
    requires
        association_writable(t),
        s.start,
        !s.copying,
        table.len() == SECTION_SIZE,
        s.offset + t.entries.len() + 4 <= SECTION_SIZE,
    ensures
        ({
            let (after, filled, named) = pat_run(
                s,
                table,
                pid,
                seq![0u8] + association_bytes(t),
            );
            let at = if t.number == 0 {
                0
            } else {
                s.offset as int
            };
            &&& !after.copying && !after.start && after.pointer_left == 0
            &&& after.prefix_left == 0 && after.header_left == 0
            &&& after.offset == at + t.entries.len() + 4
            &&& filled == filled_from(table, at, t.entries + t.checksum)
            &&& t.number == t.last ==> named == pat_walk(filled, at + t.entries.len(), 0, pid)
            &&& t.number != t.last ==> named == pid
        }),
{
    let length = 5 + t.entries.len() as int + 4;
    let head = seq![0u8, t.table] + length_bytes(t.before_length, length) + t.id + seq![
        t.version,
        t.number,
        t.last,
    ];
    let rest = t.entries + t.checksum;
    assert(seq![0u8] + association_bytes(t) =~= head + rest);
    lemma_pat_run_concat(s, table, pid, head, rest);
    assert((t.before_length * 16 + length / 256) % 16 == length / 256) by (nonlinear_arith)
        requires
            0 <= length < 4096,
    ;
    assert(length == length / 256 * 256 + length % 256);
    // The head, byte by byte.
    let h0 = head.subrange(0, 0);
    let h1 = head.subrange(0, 1);
    let h2 = head.subrange(0, 2);
    let h3 = head.subrange(0, 3);
    let h4 = head.subrange(0, 4);
    let h5 = head.subrange(0, 5);
    let h6 = head.subrange(0, 6);
    let h7 = head.subrange(0, 7);
    let h8 = head.subrange(0, 8);
    assert(h1.drop_last() =~= h0);
    assert(h2.drop_last() =~= h1);
    assert(h3.drop_last() =~= h2);
    assert(h4.drop_last() =~= h3);
    assert(h5.drop_last() =~= h4);
    assert(h6.drop_last() =~= h5);
    assert(h7.drop_last() =~= h6);
    assert(h8.drop_last() =~= h7);
    assert(head.drop_last() =~= h8);
    assert(pat_run(s, table, pid, h0) == (s, table, pid));
    let s1 = pat_run(s, table, pid, h1).0;
    assert(s1 == (SectionState { start: false, pointer_left: 0, prefix_left: 3, ..s }));
    let s2 = pat_run(s, table, pid, h2).0;
    assert(s2 == (SectionState { prefix_left: 2, ..s1 }));
    let s3 = pat_run(s, table, pid, h3).0;
    assert(s3 == (SectionState { prefix_left: 1, length: (length / 256 * 256) as u16, ..s2 }));
    let s4 = pat_run(s, table, pid, h4).0;
    assert(s4 == (SectionState { prefix_left: 0, length: length as u16, header_left: 5, ..s3 }));
    let s5 = pat_run(s, table, pid, h5).0;
    assert(s5 == (SectionState { length: (length - 1) as u16, header_left: 4, ..s4 }));
    let s6 = pat_run(s, table, pid, h6).0;
    assert(s6 == (SectionState { length: (length - 2) as u16, header_left: 3, ..s5 }));
    let s7 = pat_run(s, table, pid, h7).0;
    assert(s7 == (SectionState { length: (length - 3) as u16, header_left: 2, ..s6 }));
    let s8 = pat_run(s, table, pid, h8).0;
    let at = if t.number == 0 {
        0u32
    } else {
        s.offset
    };
    assert(s8 == (SectionState {
        length: (length - 4) as u16,
        header_left: 1,
        number: t.number,
        offset: at,
        ..s7
    }));
    let s9 = pat_run(s, table, pid, head).0;
    assert(s9 == (SectionState {
        length: (length - 5) as u16,
        header_left: 0,
        last: t.last,
        copying: true,
        ..s8
    }));
    assert(pat_run(s, table, pid, head) == (s9, table, pid));
    // The entries and the checksum.
    let n = rest.len() as int;
    lemma_pat_body(s9, table, pid, rest, n - 1);
    assert(rest.drop_last() =~= rest.subrange(0, n - 1));
    let before = filled_from(table, at as int, rest.subrange(0, n - 1));
    assert(put(before, at + n - 1, rest[n - 1]) =~= filled_from(table, at as int, rest));
}

// ---- the program map ----

/// The program map after bytes of its PID.
pub open spec fn pmt_run(
    s: SectionState,
    tables: Map<u16, Seq<u8>>,
    pid: u16,
    file: FileView,
    bytes: Seq<u8>,
    full: bool,
) -> (SectionState, Map<u16, Seq<u8>>, FileView)
    decreases bytes.len(),
{
    if bytes.len() == 0 {
        (s, tables, file)
    } else {
        let (t, filled, f) = pmt_run(s, tables, pid, file, bytes.drop_last(), full);
        pmt_byte(t, filled, pid, f, bytes.last(), full)
    }
}

proof fn lemma_pmt_run_concat(
    s: SectionState,
    tables: Map<u16, Seq<u8>>,
    pid: u16,
    file: FileView,
    a: Seq<u8>,
    b: Seq<u8>,
    full: bool,
)
    ensures
        pmt_run(s, tables, pid, file, a + b, full) == ({
            let (t, filled, f) = pmt_run(s, tables, pid, file, a, full);
            pmt_run(t, filled, pid, f, b, full)
        }),
    decreases b.len(),
{
    if b.len() == 0 {
        assert(a + b =~= a);
    } else {
        lemma_pmt_run_concat(s, tables, pid, file, a, b.drop_last(), full);
        assert((a + b).drop_last() =~= a + b.drop_last());
    }
}

/// A section of a program map, with its clock's PID and its program's descriptors.
pub struct MapSection {
    pub section: TableSection,
    pub clock: Seq<u8>,
    /// The high half of the byte with the top of the number of descriptor bytes.
    pub before_descriptors: u8,
    pub descriptors: Seq<u8>,
}

/// A section of a program map as it stands in a packet, behind the pointer to it.
pub open spec fn map_bytes(m: MapSection) -> Seq<u8> {
    let t = m.section;
    seq![t.table] + length_bytes(
        t.before_length,
        9 + m.descriptors.len() as int + t.entries.len() + 4,
    ) + t.id + seq![t.version, t.number, t.last] + m.clock + length_bytes(
        m.before_descriptors,
        m.descriptors.len() as int,
    ) + m.descriptors + (t.entries + t.checksum)
}

/// Whether a section of a program map can be written down.
pub open spec fn map_writable(m: MapSection) -> bool {
    &&& m.section.before_length < 16
    &&& m.before_descriptors < 16
    &&& m.section.id.len() == 2
    &&& m.clock.len() == 2
    &&& m.section.checksum.len() == 4
    &&& 9 + m.descriptors.len() + m.section.entries.len() + 4 <= 1021
}

#[verifier::rlimit(50)]
proof fn lemma_pmt_skip(
    s: SectionState,
    tables: Map<u16, Seq<u8>>,
    pid: u16,
    file: FileView,
    bytes: Seq<u8>,
    n: int,
    full: bool,
)
    requires
        !s.copying && !s.start && s.pointer_left == 0 && s.prefix_left == 0 && s.header_left == 0,
        s.info_left == bytes.len(),
        s.length >= bytes.len(),
        0 <= n <= bytes.len(),
    ensures
        pmt_run(s, tables, pid, file, bytes.subrange(0, n), full) == (
            SectionState {
                length: (s.length - n) as u16,
                info_left: (s.info_left - n) as u16,
                copying: n == bytes.len() && n > 0,
                ..s
            },
            tables,
            file,
        ),
    decreases n,
{
    if n > 0 {
        lemma_pmt_skip(s, tables, pid, file, bytes, n - 1, full);
        assert(bytes.subrange(0, n).drop_last() =~= bytes.subrange(0, n - 1));
    }
}

#[verifier::rlimit(50)]
proof fn lemma_pmt_body(
    s: SectionState,
    tables: Map<u16, Seq<u8>>,
    pid: u16,
    file: FileView,
    bytes: Seq<u8>,
    n: int,
    full: bool,
)
    requires
        s.copying,
        table_of(tables, pid).len() == SECTION_SIZE,
        s.offset + bytes.len() <= SECTION_SIZE,
        0 < n <= bytes.len(),
        n < s.length,
    ensures
        ({
            let (t, filled, f) = pmt_run(s, tables, pid, file, bytes.subrange(0, n), full);
            &&& t == (SectionState {
                offset: (s.offset + n) as u32,
                length: (s.length - n) as u16,
                ..s
            })
            &&& f == file
            &&& table_of(filled, pid) == filled_from(
                table_of(tables, pid),
                s.offset as int,
                bytes.subrange(0, n),
            )
        }),
    decreases n,
{
    let part = bytes.subrange(0, n);
    let table = table_of(tables, pid);
    assert(part.drop_last() =~= bytes.subrange(0, n - 1));
    if n == 1 {
        assert(part.drop_last() =~= Seq::<u8>::empty());
        assert(pmt_run(s, tables, pid, file, part.drop_last(), full) == (s, tables, file));
        assert(put(table, s.offset as int, bytes[0]) =~= filled_from(
            table,
            s.offset as int,
            part,
        ));
    } else {
        lemma_pmt_body(s, tables, pid, file, bytes, n - 1, full);
        let before = filled_from(table, s.offset as int, bytes.subrange(0, n - 1));
        assert(put(before, s.offset + n - 1, bytes[n - 1]) =~= filled_from(
            table,
            s.offset as int,
            part,
        ));
    }
}

#[verifier::rlimit(50)]
proof fn lemma_map_prefix(
    s: SectionState,
    tables: Map<u16, Seq<u8>>,
    pid: u16,
    file: FileView,
    before: u8,
    length: int,
    full: bool,
)
    requires
        s.start,
        !s.copying,
        before < 16,
        0 <= length <= 1021,
    ensures
        pmt_run(s, tables, pid, file, seq![0u8, 2u8] + length_bytes(before, length), full) == (
            SectionState {
                start: false,
                pointer_left: 0,
                prefix_left: 0,
                length: length as u16,
                header_left: 9,
                ..s
            },
            tables,
            file,
        ),
{
    assert((before * 16 + length / 256) % 16 == length / 256) by (nonlinear_arith)
        requires
            0 <= length < 4096,
    ;
    let b1 = (before * 16 + length / 256) as u8;
    let b2 = (length % 256) as u8;
    assert(high_nibble(b1) == length / 256 * 256);
    let h0 = Seq::<u8>::empty();
    let h1 = h0.push(0u8);
    let h2 = h1.push(2u8);
    let h3 = h2.push(b1);
    assert(seq![0u8, 2u8] + length_bytes(before, length) =~= h3.push(b2));
    assert(pmt_run(s, tables, pid, file, h0, full) == (s, tables, file));
    let s1 = SectionState { start: false, pointer_left: 0, prefix_left: 3, ..s };
    lemma_pmt_field_push(s, tables, pid, file, h0, s, 0u8, full);
    assert(pmt_field(s, 0u8) == s1);
    let s2 = SectionState { prefix_left: 2, ..s1 };
    lemma_pmt_field_push(s, tables, pid, file, h1, s1, 2u8, full);
    assert(pmt_field(s1, 2u8) == s2);
    let s3 = SectionState { prefix_left: 1, length: (length / 256 * 256) as u16, ..s2 };
    lemma_pmt_field_push(s, tables, pid, file, h2, s2, b1, full);
    assert(pmt_field(s2, b1) == s3);
    lemma_pmt_field_push(s, tables, pid, file, h3, s3, b2, full);
}

/// Whether a section is in its header, with nothing before it to come.
spec fn in_header(s: SectionState, left: int) -> bool {
    !s.start && s.pointer_left == 0 && s.prefix_left == 0 && !s.copying && s.header_left == left
        && s.length >= left
}

#[verifier::rlimit(50)]
proof fn lemma_map_header(
    s: SectionState,
    tables: Map<u16, Seq<u8>>,
    pid: u16,
    file: FileView,
    b: Seq<u8>,
    full: bool,
)
    requires
        in_header(s, 9),
        b.len() == 5,
    ensures
        pmt_run(s, tables, pid, file, b, full) == (
            SectionState {
                length: (s.length - 5) as u16,
                header_left: 4,
                number: b[3],
                last: b[4],
                offset: if b[3] == 0 {
                    0u32
                } else {
                    s.offset
                },
                ..s
            },
            tables,
            file,
        ),
{
    let h0 = Seq::<u8>::empty();
    let h1 = h0.push(b[0]);
    let h2 = h1.push(b[1]);
    let h3 = h2.push(b[2]);
    let h4 = h3.push(b[3]);
    assert(b =~= h4.push(b[4]));
    assert(pmt_run(s, tables, pid, file, h0, full) == (s, tables, file));
    let s1 = SectionState { length: (s.length - 1) as u16, header_left: 8, ..s };
    lemma_pmt_field_push(s, tables, pid, file, h0, s, b[0], full);
    assert(pmt_field(s, b[0]) == s1);
    let s2 = SectionState { length: (s.length - 2) as u16, header_left: 7, ..s };
    lemma_pmt_field_push(s, tables, pid, file, h1, s1, b[1], full);
    assert(pmt_field(s1, b[1]) == s2);
    let s3 = SectionState { length: (s.length - 3) as u16, header_left: 6, ..s };
    lemma_pmt_field_push(s, tables, pid, file, h2, s2, b[2], full);
    assert(pmt_field(s2, b[2]) == s3);
    let s4 = SectionState {
        length: (s.length - 4) as u16,
        header_left: 5,
        number: b[3],
        offset: if b[3] == 0 {
            0u32
        } else {
            s.offset
        },
        ..s
    };
    lemma_pmt_field_push(s, tables, pid, file, h3, s3, b[3], full);
    assert(pmt_field(s3, b[3]) == s4);
    lemma_pmt_field_push(s, tables, pid, file, h4, s4, b[4], full);
}

#[verifier::rlimit(50)]
proof fn lemma_map_info(
    s: SectionState,
    tables: Map<u16, Seq<u8>>,
    pid: u16,
    file: FileView,
    clock: Seq<u8>,
    before: u8,
    info: int,
    full: bool,
)
    requires
        in_header(s, 4),
        clock.len() == 2,
        before < 16,
        0 <= info <= 1021,
    ensures
        pmt_run(s, tables, pid, file, clock + length_bytes(before, info), full) == (
            SectionState {
                length: (s.length - 4) as u16,
                header_left: 0,
                info_left: info as u16,
                copying: info == 0,
                ..s
            },
            tables,
            file,
        ),
{
    assert((before * 16 + info / 256) % 16 == info / 256) by (nonlinear_arith)
        requires
            0 <= info < 4096,
    ;
    let b1 = (before * 16 + info / 256) as u8;
    let b2 = (info % 256) as u8;
    assert(high_nibble(b1) == info / 256 * 256);
    let h0 = Seq::<u8>::empty();
    let h1 = h0.push(clock[0]);
    let h2 = h1.push(clock[1]);
    let h3 = h2.push(b1);
    assert(clock + length_bytes(before, info) =~= h3.push(b2));
    assert(pmt_run(s, tables, pid, file, h0, full) == (s, tables, file));
    let s1 = SectionState { length: (s.length - 1) as u16, header_left: 3, ..s };
    lemma_pmt_field_push(s, tables, pid, file, h0, s, clock[0], full);
    assert(pmt_field(s, clock[0]) == s1);
    let s2 = SectionState { length: (s.length - 2) as u16, header_left: 2, ..s };
    lemma_pmt_field_push(s, tables, pid, file, h1, s1, clock[1], full);
    assert(pmt_field(s1, clock[1]) == s2);
    let s3 = SectionState {
        length: (s.length - 3) as u16,
        header_left: 1,
        info_left: (info / 256 * 256) as u16,
        ..s
    };
    lemma_pmt_field_push(s, tables, pid, file, h2, s2, b1, full);
    assert(pmt_field(s2, b1) == s3);
    lemma_pmt_field_push(s, tables, pid, file, h3, s3, b2, full);
}

/// What stands before the descriptors of a program.
spec fn map_head(m: MapSection) -> Seq<u8> {
    let t = m.section;
    (seq![0u8, t.table] + length_bytes(
        t.before_length,
        9 + m.descriptors.len() as int + t.entries.len() + 4,
    )) + ((t.id + seq![t.version, t.number, t.last]) + (m.clock + length_bytes(
        m.before_descriptors,
        m.descriptors.len() as int,
    )))
}

/// A section behind its header.
spec fn map_ready(s: SectionState, m: MapSection) -> SectionState {
    let t = m.section;
    SectionState {
        start: false,
        pointer_left: 0,
        prefix_left: 0,
        length: (m.descriptors.len() + t.entries.len() + 4) as u16,
        header_left: 0,
        info_left: m.descriptors.len() as u16,
        copying: m.descriptors.len() == 0,
        number: t.number,
        last: t.last,
        offset: if t.number == 0 {
            0u32
        } else {
            s.offset
        },
    }
}

#[verifier::rlimit(50)]
proof fn lemma_map_head(
    s: SectionState,
    tables: Map<u16, Seq<u8>>,
    pid: u16,
    file: FileView,
    m: MapSection,
    full: bool,
)
    requires
        map_writable(m),
        m.section.table == 2,
        s.start,
        !s.copying,
    ensures
        pmt_run(s, tables, pid, file, map_head(m), full) == (map_ready(s, m), tables, file),
{
    let t = m.section;
    let info = m.descriptors.len() as int;
    let length = 9 + info + t.entries.len() + 4;
    let a = seq![0u8, t.table] + length_bytes(t.before_length, length);
    let b = t.id + seq![t.version, t.number, t.last];
    let c = m.clock + length_bytes(m.before_descriptors, info);
    lemma_map_prefix(s, tables, pid, file, t.before_length, length, full);
    lemma_pmt_run_concat(s, tables, pid, file, a, b + c, full);
    let s4 = pmt_run(s, tables, pid, file, a, full).0;
    lemma_pmt_run_concat(s4, tables, pid, file, b, c, full);
    lemma_map_header(s4, tables, pid, file, b, full);
    assert(b[3] == t.number && b[4] == t.last);
    let s9 = pmt_run(s4, tables, pid, file, b, full).0;
    lemma_map_info(s9, tables, pid, file, m.clock, m.before_descriptors, info, full);
}

proof fn lemma_map_descriptors(
    ready: SectionState,
    tables: Map<u16, Seq<u8>>,
    pid: u16,
    file: FileView,
    descriptors: Seq<u8>,
    full: bool,
)
    requires
        in_header(SectionState { copying: false, ..ready }, 0),
        ready.copying == (descriptors.len() == 0),
        ready.info_left == descriptors.len(),
        ready.length >= descriptors.len(),
    ensures
        pmt_run(ready, tables, pid, file, descriptors, full) == (
            SectionState {
                length: (ready.length - descriptors.len()) as u16,
                info_left: 0,
                copying: true,
                ..ready
            },
            tables,
            file,
        ),
{
    let info = descriptors.len() as int;
    if info > 0 {
        lemma_pmt_skip(ready, tables, pid, file, descriptors, info, full);
        assert(descriptors.subrange(0, info) =~= descriptors);
    } else {
        assert(descriptors =~= Seq::<u8>::empty());
    }
}

/// What the body of a section leaves: the state, the buffer and the file.
spec fn is_filled(
    begun: SectionState,
    tables: Map<u16, Seq<u8>>,
    pid: u16,
    file: FileView,
    rest: Seq<u8>,
    full: bool,
    r: (SectionState, Map<u16, Seq<u8>>, FileView),
) -> bool {
    &&& r.0 == (SectionState {
        copying: false,
        length: 0,
        offset: (begun.offset + rest.len()) as u32,
        ..begun
    })
    &&& table_of(r.1, pid) == filled_from(table_of(tables, pid), begun.offset as int, rest)
    &&& r.2 == pmt_closed(
        SectionState { copying: true, ..r.0 },
        table_of(r.1, pid),
        file,
        full,
    )
}

#[verifier::rlimit(50)]
proof fn lemma_map_entries(
    begun: SectionState,
    tables: Map<u16, Seq<u8>>,
    pid: u16,
    file: FileView,
    rest: Seq<u8>,
    full: bool,
)
    requires
        begun.copying,
        begun.length == rest.len(),
        rest.len() >= 4,
        table_of(tables, pid).len() == SECTION_SIZE,
        begun.offset + rest.len() <= SECTION_SIZE,
    ensures
        is_filled(
            begun,
            tables,
            pid,
            file,
            rest,
            full,
            pmt_run(begun, tables, pid, file, rest, full),
        ),
{
    let n = rest.len() as int;
    let at = begun.offset as int;
    let part = rest.subrange(0, n - 1);
    lemma_pmt_body(begun, tables, pid, file, rest, n - 1, full);
    assert(rest =~= part.push(rest[n - 1]));
    lemma_pmt_push(begun, tables, pid, file, part, rest[n - 1], full);
    let (t, filled, f) = pmt_run(begun, tables, pid, file, part, full);
    lemma_last_body_byte(t, filled, pid, f, rest[n - 1], full);
    let table = table_of(tables, pid);
    assert(put(filled_from(table, at, part), at + n - 1, rest[n - 1]) =~= filled_from(
        table,
        at,
        rest,
    ));
}

#[verifier::rlimit(50)]
proof fn lemma_last_body_byte(
    s: SectionState,
    tables: Map<u16, Seq<u8>>,
    pid: u16,
    file: FileView,
    b: u8,
    full: bool,
)
    requires
        s.copying,
        s.length == 1,
        s.offset < SECTION_SIZE,
    ensures
        ({
            let (after, filled, f) = pmt_byte(s, tables, pid, file, b, full);
            &&& after == (SectionState {
                copying: false,
                length: 0,
                offset: (s.offset + 1) as u32,
                ..s
            })
            &&& table_of(filled, pid) == put(table_of(tables, pid), s.offset as int, b)
            &&& f == pmt_closed(
                SectionState { copying: true, ..after },
                table_of(filled, pid),
                file,
                full,
            )
        }),
{
}

/// A section of a program map goes into the buffer of its PID behind what is there, or at its
/// start where it is the first of its table, without the descriptors of the program. With the
/// last section of the table, all the entries in the buffer are walked, the checksum left
/// out; with any other nothing comes of it yet.
#[verifier::rlimit(50)]
pub proof fn lemma_a_map_section_is_assembled(
    s: SectionState,
    tables: Map<u16, Seq<u8>>,
    pid: u16,
    file: FileView,
    m: MapSection,
    full: bool,
)
    requires
        map_writable(m),
        m.section.table == 2,
        s.start,
        !s.copying,
        table_of(tables, pid).len() == SECTION_SIZE,
        s.offset + m.section.entries.len() + 4 <= SECTION_SIZE,
    ensures
        ({
            let t = m.section;
            let (after, filled, f) = pmt_run(
                s,
                tables,
                pid,
                file,
                seq![0u8] + map_bytes(m),
                full,
            );
            let at = if t.number == 0 {
                0
            } else {
                s.offset as int
            };
            &&& !after.copying && !after.start && after.pointer_left == 0
            &&& after.prefix_left == 0 && after.header_left == 0 && after.info_left == 0
            &&& after.offset == at + t.entries.len() + 4
            &&& table_of(filled, pid) == filled_from(
                table_of(tables, pid),
                at,
                t.entries + t.checksum,
            )
            &&& t.number == t.last ==> f == pmt_walk(
                file,
                table_of(filled, pid),
                at + t.entries.len(),
                0,
                full,
            )
            &&& t.number != t.last ==> f == file
        }),
{
    let t = m.section;
    let rest = t.entries + t.checksum;
    let head = map_head(m);
    assert(seq![0u8] + map_bytes(m) =~= head + (m.descriptors + rest));
    lemma_pmt_run_concat(s, tables, pid, file, head, m.descriptors + rest, full);
    lemma_map_head(s, tables, pid, file, m, full);
    let ready = map_ready(s, m);
    lemma_pmt_run_concat(ready, tables, pid, file, m.descriptors, rest, full);
    lemma_map_descriptors(ready, tables, pid, file, m.descriptors, full);
    let begun = SectionState {
        length: rest.len() as u16,
        info_left: 0,
        copying: true,
        ..ready
    };
    lemma_map_entries(begun, tables, pid, file, rest, full);
}

/// A byte before the body of a section changes its state alone.
proof fn lemma_pmt_field_push(
    s: SectionState,
    tables: Map<u16, Seq<u8>>,
    pid: u16,
    file: FileView,
    bytes: Seq<u8>,
    t: SectionState,
    b: u8,
    full: bool,
)
    requires
        pmt_run(s, tables, pid, file, bytes, full) == (t, tables, file),
        !t.copying,
    ensures
        pmt_run(s, tables, pid, file, bytes.push(b), full) == (pmt_field(t, b), tables, file),
{
    lemma_pmt_push(s, tables, pid, file, bytes, b, full);
}

proof fn lemma_pmt_push(
    s: SectionState,
    tables: Map<u16, Seq<u8>>,
    pid: u16,
    file: FileView,
    bytes: Seq<u8>,
    b: u8,
    full: bool,
)
    ensures
        pmt_run(s, tables, pid, file, bytes.push(b), full) == ({
            let (t, filled, f) = pmt_run(s, tables, pid, file, bytes, full);
            pmt_byte(t, filled, pid, f, b, full)
        }),
{
    assert(bytes.push(b).drop_last() =~= bytes);
    assert(bytes.push(b).last() == b);
}

} // verus!
