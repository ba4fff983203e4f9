//! What the program tables of a transport stream say: which PID the program map has, and
//! which streams it lists.

use vstd::prelude::*;

use super::m2ts::{pmt_walk, registered, FileView};
use super::psi::{byte_or_zero, high_nibble, pat_walk, pid_at};
use crate::stream::type_of_code;

verus! {

// ---- the program map ----

/// One entry of a program map: a coding type, a PID, and descriptors of any content.
pub struct MapEntry {
    /// The code of the coding type.
    pub code: u8,
    /// The PID, of thirteen bits.
    pub pid: u16,
    /// The three bits before the PID.
    pub before_pid: u8,
    /// The four bits before the number of the descriptor bytes.
    pub before_length: u8,
    /// The descriptor bytes.
    pub descriptors: Seq<u8>,
}

/// Whether an entry can be written down: its PID has thirteen bits, the number of its
/// descriptor bytes twelve.
pub open spec fn writable(e: MapEntry) -> bool {
    e.pid < 0x2000 && e.before_pid < 8 && e.before_length < 16 && e.descriptors.len() < 0x1000
}

/// An entry as it stands in a table: the type, the PID in two bytes, the number of the
/// descriptor bytes in two, and these.
pub open spec fn entry_bytes(e: MapEntry) -> Seq<u8> {
    seq![
        e.code,
        (e.before_pid * 32 + e.pid / 256) as u8,
        (e.pid % 256) as u8,
        (e.before_length * 16 + e.descriptors.len() as int / 256) as u8,
        (e.descriptors.len() as int % 256) as u8,
    ] + e.descriptors
}

/// The entries of a table, end to end.
pub open spec fn entries_bytes(entries: Seq<MapEntry>) -> Seq<u8>
    decreases entries.len(),
{
    if entries.len() == 0 {
        Seq::empty()
    } else {
        entry_bytes(entries[0]) + entries_bytes(entries.drop_first())
    }
}

/// Whether entries can be written down and have known coding types and PIDs of their own.
pub open spec fn listable(entries: Seq<MapEntry>) -> bool {
    &&& forall|i: int|
        #![trigger entries[i]]
        0 <= i < entries.len() ==> writable(entries[i]) && !(type_of_code(
            entries[i].code,
        ) is Unknown)
    &&& forall|i: int, j: int|
        #![trigger entries[i], entries[j]]
        0 <= i < j < entries.len() ==> entries[i].pid != entries[j].pid
}

/// Whether a file has become another by the registration of entries: each PID that it did
/// not have has a stream of the listed type, under the PID, with nothing measured; the
/// streams that it had are as they were; and there are no others. The new PIDs stand behind
/// the old ones in the order of the entries.
pub open spec fn registers(file: FileView, after: FileView, entries: Seq<MapEntry>, full: bool) -> bool {
    &&& after.name == file.name
    &&& after.size == file.size
    &&& after.length == file.length
    &&& after.interleaved_file == file.interleaved_file
    &&& forall|pid: u16| #[trigger]
        after.streams.contains_key(pid) <==> file.streams.contains_key(pid) || exists|i: int|
            0 <= i < entries.len() && (#[trigger] entries[i]).pid == pid
    &&& forall|pid: u16| #[trigger]
        file.streams.contains_key(pid) ==> after.streams[pid] == file.streams[pid]
    &&& forall|i: int|
        #![trigger entries[i]]
        0 <= i < entries.len() && !file.streams.contains_key(entries[i].pid) ==> {
            let s = after.streams[entries[i].pid].common();
            &&& s.pid.raw == entries[i].pid
            &&& s.stream_type == type_of_code(entries[i].code)
            &&& s.payload_bytes == 0
            &&& s.packet_count == 0
            &&& s.packet_ticks == 0
            &&& s.bit_rate == 0
            &&& s.active_bit_rate == 0
            &&& s.language_code is None
            &&& s.graphics() ==> s.is_initialized == !full
            &&& (s.video() || s.audio()) ==> !s.is_initialized
        }
    &&& after.stream_order == file.stream_order + new_pids(file, entries)
}

/// The PIDs of entries that a file does not have, in their order.
pub open spec fn new_pids(file: FileView, entries: Seq<MapEntry>) -> Seq<u16>
    decreases entries.len(),
{
    if entries.len() == 0 {
        Seq::empty()
    } else if file.streams.contains_key(entries[0].pid) {
        new_pids(file, entries.drop_first())
    } else {
        seq![entries[0].pid] + new_pids(file, entries.drop_first())
    }
}

proof fn lemma_entry_fields(table: Seq<u8>, k: int, e: MapEntry)
    requires
        writable(e),
        0 <= k,
        k + entry_bytes(e).len() <= table.len(),
        table.subrange(k, k + entry_bytes(e).len()) == entry_bytes(e),
    ensures
        byte_or_zero(table, k) == e.code,
        pid_at(table, k + 1) == e.pid,
        high_nibble(byte_or_zero(table, k + 3)) + byte_or_zero(table, k + 4)
            == e.descriptors.len(),
        entry_bytes(e).len() == 5 + e.descriptors.len(),
{
    let b = entry_bytes(e);
    let t = table.subrange(k, k + b.len());
    assert(t[0] == b[0] && t[1] == b[1] && t[2] == b[2] && t[3] == b[3] && t[4] == b[4]);
    assert(table[k] == b[0] && table[k + 1] == b[1] && table[k + 2] == b[2]);
    assert(table[k + 3] == b[3] && table[k + 4] == b[4]);
    let n = e.descriptors.len() as int;
    assert((e.before_length * 16 + n / 256) % 16 == n / 256) by (nonlinear_arith)
        requires
            0 <= n < 0x1000,
    ;
    assert((e.before_pid * 32 + e.pid / 256) % 32 == e.pid / 256) by (nonlinear_arith)
        requires
            e.pid < 0x2000,
    ;
}

proof fn lemma_new_pids_of_more(file: FileView, after: FileView, entries: Seq<MapEntry>, pid: u16)
    requires
        forall|p: u16| #[trigger]
            after.streams.contains_key(p) <==> file.streams.contains_key(p) || p == pid,
        forall|i: int| 0 <= i < entries.len() ==> (#[trigger] entries[i]).pid != pid,
    ensures
        new_pids(file, entries) == new_pids(after, entries),
    decreases entries.len(),
{
    if entries.len() > 0 {
        assert(entries[0].pid != pid);
        let rest = entries.drop_first();
        assert forall|i: int| 0 <= i < rest.len() implies (#[trigger] rest[i]).pid != pid by {
            assert(rest[i] == entries[i + 1]);
        }
        lemma_new_pids_of_more(file, after, rest, pid);
    }
}

#[verifier::rlimit(50)]
proof fn lemma_walk_of_entries(
    file: FileView,
    table: Seq<u8>,
    k: int,
    entries: Seq<MapEntry>,
    full: bool,
)
    requires
        0 <= k,
        listable(entries),
        k + entries_bytes(entries).len() <= table.len(),
        table.subrange(k, k + entries_bytes(entries).len()) == entries_bytes(entries),
    ensures
        registers(
            file,
            pmt_walk(file, table, k + entries_bytes(entries).len(), k, full),
            entries,
            full,
        ),
    decreases entries.len(),
{
    let all = entries_bytes(entries);
    let bound = k + all.len();
    let after = pmt_walk(file, table, bound, k, full);
    if entries.len() == 0 {
        assert(after.stream_order =~= file.stream_order + new_pids(file, entries));
    } else {
        let e = entries[0];
        let rest = entries.drop_first();
        let own = entry_bytes(e);
        let tail = entries_bytes(rest);
        assert(all == own + tail);
        let whole = table.subrange(k, bound);
        assert(table.subrange(k, k + own.len()) =~= own) by {
            assert(whole.subrange(0, own.len() as int) =~= own);
            assert(whole.subrange(0, own.len() as int) =~= table.subrange(k, k + own.len()));
        }
        lemma_entry_fields(table, k, e);
        let next = k + own.len();
        assert(table.subrange(next, bound) =~= tail) by {
            assert(whole.subrange(own.len() as int, whole.len() as int) =~= tail);
            assert(whole.subrange(own.len() as int, whole.len() as int) =~= table.subrange(
                next,
                bound,
            ));
        }
        assert(listable(rest)) by {
            assert forall|i: int| #![trigger rest[i]] 0 <= i < rest.len() implies writable(rest[i])
                && !(type_of_code(rest[i].code) is Unknown) by {
                assert(rest[i] == entries[i + 1]);
            }
            assert forall|i: int, j: int| #![trigger rest[i], rest[j]]
                0 <= i < j < rest.len() implies rest[i].pid != rest[j].pid by {
                assert(rest[i] == entries[i + 1] && rest[j] == entries[j + 1]);
            }
        }
        assert forall|i: int| 0 <= i < rest.len() implies (#[trigger] rest[i]).pid != e.pid by {
            assert(rest[i] == entries[i + 1]);
        }
        if file.streams.contains_key(e.pid) {
            lemma_walk_of_entries(file, table, next, rest, full);
            assert(after == pmt_walk(file, table, bound, next, full));
            assert forall|pid: u16| #[trigger] after.streams.contains_key(pid) <==> (
            file.streams.contains_key(pid) || exists|i: int|
                0 <= i < entries.len() && (#[trigger] entries[i]).pid == pid) by {
                lemma_some_entry(entries, pid);
            }
            assert forall|i: int| #![trigger entries[i]]
                0 <= i < entries.len() && !file.streams.contains_key(entries[i].pid) implies {
                let s = after.streams[entries[i].pid].common();
                &&& s.pid.raw == entries[i].pid
                &&& s.stream_type == type_of_code(entries[i].code)
                &&& s.payload_bytes == 0
                &&& s.packet_count == 0
                &&& s.packet_ticks == 0
                &&& s.bit_rate == 0
                &&& s.active_bit_rate == 0
                &&& s.language_code is None
                &&& s.graphics() ==> s.is_initialized == !full
                &&& (s.video() || s.audio()) ==> !s.is_initialized
            } by {
                assert(entries[i] == rest[i - 1]);
            }
        } else {
            let f = registered(file, e.pid, e.code, full);
            assert(f.streams.contains_key(e.pid));
            assert forall|p: u16| #[trigger] f.streams.contains_key(p) <==> (
            file.streams.contains_key(p) || p == e.pid) by {}
            lemma_walk_of_entries(f, table, next, rest, full);
            assert(after == pmt_walk(f, table, bound, next, full));
            lemma_new_pids_of_more(file, f, rest, e.pid);
            assert forall|pid: u16| #[trigger]
                file.streams.contains_key(pid) implies after.streams[pid] == file.streams[pid] by {
                assert(f.streams.contains_key(pid));
                assert(f.streams[pid] == file.streams[pid]);
            }
            assert(after.stream_order =~= file.stream_order + new_pids(file, entries));
            assert forall|pid: u16| #[trigger] after.streams.contains_key(pid) <==> (
            file.streams.contains_key(pid) || exists|i: int|
                0 <= i < entries.len() && (#[trigger] entries[i]).pid == pid) by {
                lemma_some_entry(entries, pid);
            }
            assert forall|i: int| #![trigger entries[i]]
                0 <= i < entries.len() && !file.streams.contains_key(entries[i].pid) implies {
                let s = after.streams[entries[i].pid].common();
                &&& s.pid.raw == entries[i].pid
                &&& s.stream_type == type_of_code(entries[i].code)
                &&& s.payload_bytes == 0
                &&& s.packet_count == 0
                &&& s.packet_ticks == 0
                &&& s.bit_rate == 0
                &&& s.active_bit_rate == 0
                &&& s.language_code is None
                &&& s.graphics() ==> s.is_initialized == !full
                &&& (s.video() || s.audio()) ==> !s.is_initialized
            } by {
                if i == 0 {
                    assert(after.streams[e.pid] == f.streams[e.pid]);
                } else {
                    assert(entries[i] == rest[i - 1]);
                    assert(!f.streams.contains_key(rest[i - 1].pid));
                }
            }
        }
    }
}

proof fn lemma_some_entry(entries: Seq<MapEntry>, pid: u16)
    requires
        entries.len() > 0,
    ensures
        (exists|i: int| 0 <= i < entries.len() && (#[trigger] entries[i]).pid == pid) <==> (
        entries[0].pid == pid || exists|i: int|
            0 <= i < entries.drop_first().len() && (#[trigger] entries.drop_first()[i]).pid == pid),
{
    let rest = entries.drop_first();
    if exists|i: int| 0 <= i < entries.len() && (#[trigger] entries[i]).pid == pid {
        let i = choose|i: int| 0 <= i < entries.len() && (#[trigger] entries[i]).pid == pid;
        if i > 0 {
            assert(rest[i - 1] == entries[i]);
        }
    }
    if exists|i: int| 0 <= i < rest.len() && (#[trigger] rest[i]).pid == pid {
        let i = choose|i: int| 0 <= i < rest.len() && (#[trigger] rest[i]).pid == pid;
        assert(entries[i + 1] == rest[i]);
    }
}

/// A program map registers exactly the streams that it lists, each under its PID and with
/// its coding type, whatever the descriptors between them hold and however many they are.
pub proof fn lemma_a_program_map_registers_what_it_lists(
    file: FileView,
    table: Seq<u8>,
    entries: Seq<MapEntry>,
    full: bool,
)
    requires
        listable(entries),
        entries_bytes(entries).len() <= table.len(),
        table.subrange(0, entries_bytes(entries).len() as int) == entries_bytes(entries),
    ensures
        registers(
            file,
            pmt_walk(file, table, entries_bytes(entries).len() as int, 0, full),
            entries,
            full,
        ),
{
    lemma_walk_of_entries(file, table, 0, entries, full);
}

/// The descriptors of a program map make no difference to the streams: two maps of the same
/// types and PIDs register the same.
pub proof fn lemma_descriptors_make_no_difference(
    file: FileView,
    a: Seq<MapEntry>,
    b: Seq<MapEntry>,
    full: bool,
)
    requires
        listable(a),
        listable(b),
        a.len() == b.len(),
        forall|i: int|
            #![trigger a[i]]
            0 <= i < a.len() ==> a[i].code == b[i].code && a[i].pid == b[i].pid,
    ensures
        ({
            let x = pmt_walk(file, entries_bytes(a), entries_bytes(a).len() as int, 0, full);
            let y = pmt_walk(file, entries_bytes(b), entries_bytes(b).len() as int, 0, full);
            x == y
        }),
{
    assert(entries_bytes(a).subrange(0, entries_bytes(a).len() as int) =~= entries_bytes(a));
    assert(entries_bytes(b).subrange(0, entries_bytes(b).len() as int) =~= entries_bytes(b));
    lemma_same_walk(file, entries_bytes(a), 0, a, entries_bytes(b), 0, b, full);
}

#[verifier::rlimit(50)]
proof fn lemma_same_walk(
    file: FileView,
    s: Seq<u8>,
    j: int,
    a: Seq<MapEntry>,
    t: Seq<u8>,
    k: int,
    b: Seq<MapEntry>,
    full: bool,
)
    requires
        0 <= j,
        0 <= k,
        listable(a),
        listable(b),
        a.len() == b.len(),
        forall|i: int|
            #![trigger a[i]]
            0 <= i < a.len() ==> a[i].code == b[i].code && a[i].pid == b[i].pid,
        j + entries_bytes(a).len() <= s.len(),
        s.subrange(j, j + entries_bytes(a).len()) == entries_bytes(a),
        k + entries_bytes(b).len() <= t.len(),
        t.subrange(k, k + entries_bytes(b).len()) == entries_bytes(b),
    ensures
        pmt_walk(file, s, j + entries_bytes(a).len(), j, full) == pmt_walk(
            file,
            t,
            k + entries_bytes(b).len(),
            k,
            full,
        ),
    decreases a.len(),
{
    if a.len() > 0 {
        assert(a[0].code == b[0].code && a[0].pid == b[0].pid);
        let file2 = if file.streams.contains_key(a[0].pid) {
            file
        } else {
            registered(file, a[0].pid, a[0].code, full)
        };
        lemma_split(s, j, a);
        lemma_split(t, k, b);
        let ra = a.drop_first();
        let rb = b.drop_first();
        assert forall|i: int| #![trigger ra[i]] 0 <= i < ra.len() implies ra[i].code == rb[i].code
            && ra[i].pid == rb[i].pid by {
            assert(ra[i] == a[i + 1] && rb[i] == b[i + 1]);
        }
        lemma_same_walk(
            file2,
            s,
            j + entry_bytes(a[0]).len(),
            ra,
            t,
            k + entry_bytes(b[0]).len(),
            rb,
            full,
        );
    }
}

/// The first entry of a table, and the rest of the table.
proof fn lemma_split(table: Seq<u8>, k: int, entries: Seq<MapEntry>)
    requires
        0 <= k,
        entries.len() > 0,
        listable(entries),
        k + entries_bytes(entries).len() <= table.len(),
        table.subrange(k, k + entries_bytes(entries).len()) == entries_bytes(entries),
    ensures
        byte_or_zero(table, k) == entries[0].code,
        pid_at(table, k + 1) == entries[0].pid,
        k + 5 + high_nibble(byte_or_zero(table, k + 3)) + byte_or_zero(table, k + 4) == k
            + entry_bytes(entries[0]).len(),
        listable(entries.drop_first()),
        entry_bytes(entries[0]).len() + entries_bytes(entries.drop_first()).len()
            == entries_bytes(entries).len(),
        table.subrange(k + entry_bytes(entries[0]).len(), k + entries_bytes(entries).len())
            == entries_bytes(entries.drop_first()),
        entry_bytes(entries[0]).len() >= 5,
{
    let all = entries_bytes(entries);
    let e = entries[0];
    let own = entry_bytes(e);
    let rest = entries.drop_first();
    let tail = entries_bytes(rest);
    assert(all == own + tail);
    let whole = table.subrange(k, k + all.len());
    assert(whole.subrange(0, own.len() as int) =~= own);
    assert(whole.subrange(0, own.len() as int) =~= table.subrange(k, k + own.len()));
    lemma_entry_fields(table, k, e);
    assert(whole.subrange(own.len() as int, whole.len() as int) =~= tail);
    assert(whole.subrange(own.len() as int, whole.len() as int) =~= table.subrange(
        k + own.len(),
        k + all.len(),
    ));
    assert forall|i: int| #![trigger rest[i]] 0 <= i < rest.len() implies writable(rest[i]) && !(
    type_of_code(rest[i].code) is Unknown) by {
        assert(rest[i] == entries[i + 1]);
    }
    assert forall|i: int, j: int| #![trigger rest[i], rest[j]]
        0 <= i < j < rest.len() implies rest[i].pid != rest[j].pid by {
        assert(rest[i] == entries[i + 1] && rest[j] == entries[j + 1]);
    }
}

/// An entry of an unknown coding type ends the walk: neither its PID nor any behind it is
/// registered, and all the streams stay as they were.
pub proof fn lemma_an_unknown_type_ends_the_program_map(
    file: FileView,
    table: Seq<u8>,
    bound: int,
    k: int,
    e: MapEntry,
    full: bool,
)
    requires
        0 <= k < bound,
        writable(e),
        type_of_code(e.code) is Unknown,
        !file.streams.contains_key(e.pid),
        k + entry_bytes(e).len() <= table.len(),
        table.subrange(k, k + entry_bytes(e).len()) == entry_bytes(e),
    ensures
        pmt_walk(file, table, bound, k, full).streams == file.streams,
        pmt_walk(file, table, bound, k, full).stream_order == file.stream_order,
        pmt_walk(file, table, bound, k, full).stream_states == file.stream_states,
{
    lemma_entry_fields(table, k, e);
}

// ---- the program association ----

/// One entry of a program association: a program number and the PID of its map.
pub struct ProgramEntry {
    /// The program's number.
    pub number: u16,
    /// The PID of the program's map, of thirteen bits.
    pub pid: u16,
    /// The three bits before the PID.
    pub before_pid: u8,
}

/// An entry as it stands in a table: the number in two bytes, the PID in two.
pub open spec fn program_bytes(e: ProgramEntry) -> Seq<u8> {
    seq![
        (e.number / 256) as u8,
        (e.number % 256) as u8,
        (e.before_pid * 32 + e.pid / 256) as u8,
        (e.pid % 256) as u8,
    ]
}

/// The entries of a table, end to end.
pub open spec fn programs_bytes(entries: Seq<ProgramEntry>) -> Seq<u8>
    decreases entries.len(),
{
    if entries.len() == 0 {
        Seq::empty()
    } else {
        program_bytes(entries[0]) + programs_bytes(entries.drop_first())
    }
}

/// Whether entries can be written down.
pub open spec fn programs_writable(entries: Seq<ProgramEntry>) -> bool {
    forall|i: int|
        #![trigger entries[i]]
        0 <= i < entries.len() ==> entries[i].pid < 0x2000 && entries[i].before_pid < 8
}

#[verifier::rlimit(50)]
proof fn lemma_walk_of_programs(table: Seq<u8>, k: int, entries: Seq<ProgramEntry>, was: u16)
    requires
        0 <= k,
        programs_writable(entries),
        k + programs_bytes(entries).len() <= table.len(),
        table.subrange(k, k + programs_bytes(entries).len()) == programs_bytes(entries),
    ensures
        programs_bytes(entries).len() == 4 * entries.len(),
        names_map(
            entries,
            was,
            pat_walk(table, k + programs_bytes(entries).len(), k, was),
        ),
    decreases entries.len(),
{
    if entries.len() > 0 {
        let all = programs_bytes(entries);
        let e = entries[0];
        let own = program_bytes(e);
        let rest = entries.drop_first();
        let whole = table.subrange(k, k + all.len());
        assert(all == own + programs_bytes(rest));
        assert(whole[0] == own[0] && whole[1] == own[1] && whole[2] == own[2] && whole[3]
            == own[3]);
        assert(table[k] == own[0] && table[k + 1] == own[1] && table[k + 2] == own[2]);
        assert(table[k + 3] == own[3]);
        assert((e.before_pid * 32 + e.pid / 256) % 32 == e.pid / 256) by (nonlinear_arith)
            requires
                e.pid < 0x2000,
        ;
        assert(pid_at(table, k + 2) == e.pid);
        assert((byte_or_zero(table, k) == 0 && byte_or_zero(table, k + 1) == 1) == (e.number
            == 1));
        assert(whole.subrange(4, whole.len() as int) =~= programs_bytes(rest));
        assert(whole.subrange(4, whole.len() as int) =~= table.subrange(k + 4, k + all.len()));
        assert forall|i: int| #![trigger rest[i]] 0 <= i < rest.len() implies rest[i].pid < 0x2000
            && rest[i].before_pid < 8 by {
            assert(rest[i] == entries[i + 1]);
        }
        let now = if e.number == 1 {
            e.pid
        } else {
            was
        };
        lemma_walk_of_programs(table, k + 4, rest, now);
        let found = pat_walk(table, k + all.len(), k, was);
        assert(found == pat_walk(table, k + all.len(), k + 4, now));
        if exists|i: int| #![trigger rest[i]]
            0 <= i < rest.len() && rest[i].number == 1 && rest[i].pid == found && forall|j: int|
                #![trigger rest[j]]
                i < j < rest.len() ==> rest[j].number != 1 {
            let i = choose|i: int| #![trigger rest[i]]
                0 <= i < rest.len() && rest[i].number == 1 && rest[i].pid == found && forall|j:
                    int|
                    #![trigger rest[j]]
                    i < j < rest.len() ==> rest[j].number != 1;
            assert(entries[i + 1] == rest[i]);
            assert forall|j: int| #![trigger entries[j]]
                i + 1 < j < entries.len() implies entries[j].number != 1 by {
                assert(rest[j - 1] == entries[j]);
            }
        } else {
            assert forall|j: int| #![trigger entries[j]]
                0 < j < entries.len() implies entries[j].number != 1 by {
                assert(rest[j - 1] == entries[j]);
            }
            if e.number == 1 {
                assert(entries[0].pid == found);
            }
        }
    }
}

/// Whether a PID is that of the map of program 1: the last entry of that number names it, and
/// it stays as it was where there is none.
pub open spec fn names_map(entries: Seq<ProgramEntry>, was: u16, found: u16) -> bool {
    ||| found == was && forall|i: int|
        #![trigger entries[i]]
        0 <= i < entries.len() ==> entries[i].number != 1
    ||| exists|i: int|
        #![trigger entries[i]]
        0 <= i < entries.len() && entries[i].number == 1 && entries[i].pid == found && forall|
            j: int,
        |
            #![trigger entries[j]]
            i < j < entries.len() ==> entries[j].number != 1
}

/// A program association names the PID of the map of program 1, wherever in it that entry
/// stands and whatever the others are.
pub proof fn lemma_a_program_association_names_the_map(
    table: Seq<u8>,
    entries: Seq<ProgramEntry>,
    was: u16,
)
    requires
        programs_writable(entries),
        programs_bytes(entries).len() <= table.len(),
        table.subrange(0, programs_bytes(entries).len() as int) == programs_bytes(entries),
    ensures
        names_map(
            entries,
            was,
            pat_walk(table, programs_bytes(entries).len() as int, 0, was),
        ),
{
    lemma_walk_of_programs(table, 0, entries, was);
}

} // verus!
