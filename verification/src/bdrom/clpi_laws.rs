//! What a clip-information file says: the streams that its programs list.

use vstd::prelude::*;

use super::clpi::{clip_entries, clip_programs, clip_stream, clip_streams, labelled, record};
use super::coding_laws::{describes, lemma_coding_info_describes_the_stream};
use super::layout::{
    four_bytes, lemma_four, lemma_stands_each, lemma_stands_parts, stands, two_bytes,
};
use super::{rd16, rd8};
use crate::bytes::ascii_text;
use crate::error::Failure;
use crate::stream::{type_of_code, TsStream};

verus! {

/// One stream entry: a PID, a coding type and its coding info.
pub struct StreamEntry {
    pub pid: u16,
    pub code: u8,
    pub body: Seq<u8>,
}

/// Whether an entry can be written down, with coding info that is all there.
pub open spec fn writable(e: StreamEntry) -> bool {
    4 <= e.body.len() < 255
}

/// An entry as it stands in a file: the PID, how many bytes follow, the type, the info.
pub open spec fn entry_bytes(e: StreamEntry) -> Seq<u8> {
    two_bytes(e.pid) + seq![(e.body.len() + 1) as u8, e.code] + e.body
}

/// Entries end to end.
pub open spec fn entries_bytes(entries: Seq<StreamEntry>) -> Seq<u8>
    decreases entries.len(),
{
    if entries.len() == 0 {
        Seq::empty()
    } else {
        entry_bytes(entries[0]) + entries_bytes(entries.drop_first())
    }
}

/// One program: six bytes that say nothing of the streams, the number of entries, the number
/// of groups, the entries.
pub struct ProgramEntry {
    pub head: Seq<u8>,
    pub groups: u8,
    pub entries: Seq<StreamEntry>,
}

/// A program as it stands in a file.
pub open spec fn program_bytes(p: ProgramEntry) -> Seq<u8> {
    p.head + seq![p.entries.len() as u8, p.groups] + entries_bytes(p.entries)
}

/// Programs end to end.
pub open spec fn programs_bytes(programs: Seq<ProgramEntry>) -> Seq<u8>
    decreases programs.len(),
{
    if programs.len() == 0 {
        Seq::empty()
    } else {
        program_bytes(programs[0]) + programs_bytes(programs.drop_first())
    }
}

/// Whether programs can be written down.
pub open spec fn programs_writable(programs: Seq<ProgramEntry>) -> bool {
    forall|k: int|
        #![trigger programs[k]]
        0 <= k < programs.len() ==> {
            &&& programs[k].head.len() == 6
            &&& programs[k].entries.len() < 256
            &&& forall|i: int|
                #![trigger programs[k].entries[i]]
                0 <= i < programs[k].entries.len() ==> writable(programs[k].entries[i])
        }
}

/// All the entries of programs, in their order.
pub open spec fn all_entries(programs: Seq<ProgramEntry>) -> Seq<StreamEntry>
    decreases programs.len(),
{
    if programs.len() == 0 {
        Seq::empty()
    } else {
        programs[0].entries + all_entries(programs.drop_first())
    }
}

/// Whether an entry declares a stream: its type is known, and is not that of the dependent
/// view of a 3D pair.
pub open spec fn declares(e: StreamEntry) -> bool {
    !(type_of_code(e.code) is Unknown) && !(type_of_code(e.code) is MvcVideo)
}

/// Whether a map is that of the streams that entries declare on top of those in `before`:
/// each PID has the stream of the last entry that declares one under it, with the type and
/// the coding info of that entry; and there are no others.
pub open spec fn declared_by(
    before: Map<u16, TsStream>,
    m: Map<u16, TsStream>,
    entries: Seq<StreamEntry>,
) -> bool {
    &&& forall|pid: u16| #[trigger]
        m.contains_key(pid) <==> before.contains_key(pid) || exists|i: int|
            0 <= i < entries.len() && (#[trigger] entries[i]).pid == pid && declares(entries[i])
    &&& forall|pid: u16|
        before.contains_key(pid) && (forall|i: int|
            0 <= i < entries.len() && declares(#[trigger] entries[i]) ==> entries[i].pid != pid)
            ==> #[trigger] m[pid] == before[pid]
    &&& forall|i: int|
        #![trigger entries[i]]
        0 <= i < entries.len() && declares(entries[i]) && (forall|j: int|
            #![trigger entries[j]]
            i < j < entries.len() && declares(entries[j]) ==> entries[j].pid != entries[i].pid)
            ==> is_stream_of(m[entries[i].pid], entries[i])
}

/// Whether a stream is the one that an entry declares.
pub open spec fn is_stream_of(s: TsStream, e: StreamEntry) -> bool {
    &&& s.common().pid.raw == e.pid
    &&& s.common().stream_type == type_of_code(e.code)
    &&& describes(s, type_of_code(e.code), e.body, true)
}

proof fn lemma_one_entry(d: Seq<u8>, k: int, e: StreamEntry)
    requires
        writable(e),
        stands(d, k, entry_bytes(e)),
    ensures
        rd16(d, k) == Some(e.pid),
        rd8(d, k + 2) == Some((e.body.len() + 1) as u8),
        rd8(d, k + 3) == Some(e.code),
        entry_bytes(e).len() == 4 + e.body.len(),
        clip_stream(d, k + 2, type_of_code(e.code)) is Some,
        declares(e) <==> clip_stream(d, k + 2, type_of_code(e.code))->Some_0 is Some,
        declares(e) ==> is_stream_of(
            labelled(
                clip_stream(d, k + 2, type_of_code(e.code))->Some_0->Some_0,
                e.pid,
                type_of_code(e.code),
            ),
            e,
        ),
{
    let b = entry_bytes(e);
    lemma_stands_each(d, k, b);
    let head = two_bytes(e.pid) + seq![(e.body.len() + 1) as u8, e.code];
    assert(b == head + e.body);
    lemma_stands_parts(d, k, head, e.body);
    assert(d[k + 0] == b[0] && d[k + 1] == b[1] && d[k + 2] == b[2] && d[k + 3] == b[3]);
    if declares(e) {
        lemma_coding_info_describes_the_stream(d, k + 4, e.body, type_of_code(e.code), true);
    }
}

#[verifier::rlimit(50)]
proof fn lemma_entries(d: Seq<u8>, k: int, entries: Seq<StreamEntry>, m: Map<u16, TsStream>)
    requires
        forall|i: int| #![trigger entries[i]] 0 <= i < entries.len() ==> writable(entries[i]),
        stands(d, k, entries_bytes(entries)),
    ensures
        clip_entries(d, k, entries.len(), m) is Some,
        clip_entries(d, k, entries.len(), m)->Some_0.1 == k + entries_bytes(entries).len(),
        declared_by(m, clip_entries(d, k, entries.len(), m)->Some_0.0, entries),
    decreases entries.len(),
{
    if entries.len() > 0 {
        let e = entries[0];
        let rest = entries.drop_first();
        lemma_stands_parts(d, k, entry_bytes(e), entries_bytes(rest));
        lemma_one_entry(d, k, e);
        let t = type_of_code(e.code);
        let stream = clip_stream(d, k + 2, t)->Some_0;
        let next = record(m, e.pid, stream, t);
        assert forall|i: int| #![trigger rest[i]] 0 <= i < rest.len() implies writable(
            rest[i],
        ) by {
            assert(rest[i] == entries[i + 1]);
        }
        lemma_entries(d, k + entry_bytes(e).len(), rest, next);
        let r = clip_entries(d, k, entries.len(), m)->Some_0.0;
        assert(clip_entries(d, k, entries.len(), m) == clip_entries(
            d,
            k + 3 + (e.body.len() + 1),
            rest.len(),
            next,
        ));
        assert forall|pid: u16| #[trigger] r.contains_key(pid) <==> (m.contains_key(pid) || exists|
            i: int,
        |
            0 <= i < entries.len() && (#[trigger] entries[i]).pid == pid && declares(
                entries[i],
            )) by {
            if exists|i: int|
                0 <= i < rest.len() && (#[trigger] rest[i]).pid == pid && declares(rest[i]) {
                let i = choose|i: int|
                    0 <= i < rest.len() && (#[trigger] rest[i]).pid == pid && declares(rest[i]);
                assert(entries[i + 1] == rest[i]);
            }
            if exists|i: int|
                0 <= i < entries.len() && (#[trigger] entries[i]).pid == pid && declares(
                    entries[i],
                ) {
                let i = choose|i: int|
                    0 <= i < entries.len() && (#[trigger] entries[i]).pid == pid && declares(
                        entries[i],
                    );
                if i > 0 {
                    assert(rest[i - 1] == entries[i]);
                }
            }
        }
        assert forall|pid: u16|
            m.contains_key(pid) && (forall|i: int|
                0 <= i < entries.len() && declares(#[trigger] entries[i]) ==> entries[i].pid
                    != pid) implies #[trigger] r[pid] == m[pid] by {
            assert(declares(entries[0]) ==> entries[0].pid != pid);
            assert forall|i: int| 0 <= i < rest.len() && declares(
                #[trigger] rest[i],
            ) implies rest[i].pid != pid by {
                assert(rest[i] == entries[i + 1]);
            }
            assert(next.contains_key(pid) && next[pid] == m[pid]);
        }
        assert forall|i: int| #![trigger entries[i]]
            0 <= i < entries.len() && declares(entries[i]) && (forall|j: int|
                #![trigger entries[j]]
                i < j < entries.len() && declares(entries[j]) ==> entries[j].pid
                    != entries[i].pid) implies is_stream_of(r[entries[i].pid], entries[i]) by {
            if i > 0 {
                assert(rest[i - 1] == entries[i]);
                assert forall|j: int| #![trigger rest[j]]
                    i - 1 < j < rest.len() && declares(rest[j]) implies rest[j].pid
                    != rest[i - 1].pid by {
                    assert(rest[j] == entries[j + 1]);
                }
            } else {
                assert forall|j: int| 0 <= j < rest.len() && declares(
                    #[trigger] rest[j],
                ) implies rest[j].pid != e.pid by {
                    assert(rest[j] == entries[j + 1]);
                }
                assert(r[e.pid] == next[e.pid]);
            }
        }
    }
}

#[verifier::rlimit(50)]
proof fn lemma_declared_in_turn(
    a: Map<u16, TsStream>,
    b: Map<u16, TsStream>,
    c: Map<u16, TsStream>,
    x: Seq<StreamEntry>,
    y: Seq<StreamEntry>,
)
    requires
        declared_by(a, b, x),
        declared_by(b, c, y),
    ensures
        declared_by(a, c, x + y),
{
    let z = x + y;
    assert forall|pid: u16| #[trigger] c.contains_key(pid) <==> (a.contains_key(pid) || exists|
        i: int,
    |
        0 <= i < z.len() && (#[trigger] z[i]).pid == pid && declares(z[i])) by {
        if exists|i: int| 0 <= i < y.len() && (#[trigger] y[i]).pid == pid && declares(y[i]) {
            let i = choose|i: int|
                0 <= i < y.len() && (#[trigger] y[i]).pid == pid && declares(y[i]);
            assert(z[x.len() + i] == y[i]);
        }
        if exists|i: int| 0 <= i < x.len() && (#[trigger] x[i]).pid == pid && declares(x[i]) {
            let i = choose|i: int|
                0 <= i < x.len() && (#[trigger] x[i]).pid == pid && declares(x[i]);
            assert(z[i] == x[i]);
        }
        assert(c.contains_key(pid) ==> b.contains_key(pid) || exists|i: int|
            0 <= i < y.len() && (#[trigger] y[i]).pid == pid && declares(y[i]));
        assert(b.contains_key(pid) <==> (a.contains_key(pid) || exists|i: int|
            0 <= i < x.len() && (#[trigger] x[i]).pid == pid && declares(x[i])));
        if exists|i: int| 0 <= i < z.len() && (#[trigger] z[i]).pid == pid && declares(z[i]) {
            let i = choose|i: int|
                0 <= i < z.len() && (#[trigger] z[i]).pid == pid && declares(z[i]);
            if i < x.len() {
                assert(x[i] == z[i]);
            } else {
                assert(y[i - x.len()] == z[i]);
            }
        }
    }
    assert forall|pid: u16|
        a.contains_key(pid) && (forall|i: int|
            0 <= i < z.len() && declares(#[trigger] z[i]) ==> z[i].pid
                != pid) implies #[trigger] c[pid] == a[pid] by {
        assert forall|i: int| 0 <= i < x.len() && declares(#[trigger] x[i]) implies x[i].pid
            != pid by {
            assert(z[i] == x[i]);
        }
        assert forall|i: int| 0 <= i < y.len() && declares(#[trigger] y[i]) implies y[i].pid
            != pid by {
            assert(z[x.len() + i] == y[i]);
        }
        assert(b[pid] == a[pid]);
        assert(b.contains_key(pid));
    }
    assert forall|i: int| #![trigger z[i]]
        0 <= i < z.len() && declares(z[i]) && (forall|j: int|
            #![trigger z[j]]
            i < j < z.len() && declares(z[j]) ==> z[j].pid != z[i].pid) implies is_stream_of(
        c[z[i].pid],
        z[i],
    ) by {
        if i < x.len() {
            assert(x[i] == z[i]);
            assert forall|j: int| #![trigger x[j]]
                i < j < x.len() && declares(x[j]) implies x[j].pid != x[i].pid by {
                assert(z[j] == x[j]);
            }
            assert forall|j: int| 0 <= j < y.len() && declares(#[trigger] y[j]) implies y[j].pid
                != x[i].pid by {
                assert(z[x.len() + j] == y[j]);
            }
            assert(b.contains_key(x[i].pid));
            assert(c[x[i].pid] == b[x[i].pid]);
        } else {
            let k = i - x.len();
            assert(y[k] == z[i]);
            assert forall|j: int| #![trigger y[j]]
                k < j < y.len() && declares(y[j]) implies y[j].pid != y[k].pid by {
                assert(z[x.len() + j] == y[j]);
            }
        }
    }
}

#[verifier::rlimit(50)]
proof fn lemma_programs(d: Seq<u8>, k: int, programs: Seq<ProgramEntry>, m: Map<u16, TsStream>)
    requires
        programs_writable(programs),
        stands(d, k, programs_bytes(programs)),
    ensures
        clip_programs(d, k, programs.len(), m) is Some,
        declared_by(m, clip_programs(d, k, programs.len(), m)->Some_0, all_entries(programs)),
    decreases programs.len(),
{
    if programs.len() > 0 {
        let p = programs[0];
        let rest = programs.drop_first();
        lemma_stands_parts(d, k, program_bytes(p), programs_bytes(rest));
        let counts = seq![p.entries.len() as u8, p.groups];
        let head = p.head + counts;
        assert(program_bytes(p) == head + entries_bytes(p.entries));
        lemma_stands_parts(d, k, head, entries_bytes(p.entries));
        lemma_stands_each(d, k, head);
        assert(d[k + 6] == head[6]);
        lemma_entries(d, k + 8, p.entries, m);
        let after = clip_entries(d, k + 8, p.entries.len(), m)->Some_0.0;
        assert forall|j: int| #![trigger rest[j]] 0 <= j < rest.len() implies {
            &&& rest[j].head.len() == 6
            &&& rest[j].entries.len() < 256
            &&& forall|i: int|
                #![trigger rest[j].entries[i]]
                0 <= i < rest[j].entries.len() ==> writable(rest[j].entries[i])
        } by {
            assert(rest[j] == programs[j + 1]);
        }
        lemma_programs(d, k + program_bytes(p).len(), rest, after);
        let last = clip_programs(d, k, programs.len(), m)->Some_0;
        lemma_declared_in_turn(m, after, last, p.entries, all_entries(rest));
    }
}

/// A clip-information file declares exactly the streams that its programs list, each under
/// its PID and with its coding type and its coding info; of several entries for a PID the
/// last one stands. Nothing else of the file makes a difference.
pub proof fn lemma_a_clip_file_declares_what_it_lists(
    d: Seq<u8>,
    at: u32,
    reserved: u8,
    programs: Seq<ProgramEntry>,
)
    requires
        d.len() >= 16,
        ascii_text(d.subrange(0, 8)) == "HDMV0100"@ || ascii_text(d.subrange(0, 8)) == "HDMV0200"@
            || ascii_text(d.subrange(0, 8)) == "HDMV0240"@ || ascii_text(d.subrange(0, 8))
            == "HDMV0300"@,
        stands(d, 12, four_bytes(at)),
        programs.len() < 256,
        programs_writable(programs),
        programs_bytes(programs).len() + 2 <= u32::MAX,
        stands(
            d,
            at as int,
            four_bytes((programs_bytes(programs).len() + 2) as u32) + (seq![
                reserved,
                programs.len() as u8,
            ] + programs_bytes(programs)),
        ),
    ensures
        clip_streams(d) is Ok,
        declared_by(Map::empty(), clip_streams(d)->Ok_0, all_entries(programs)),
{
    let body = seq![reserved, programs.len() as u8] + programs_bytes(programs);
    let len = four_bytes((programs_bytes(programs).len() + 2) as u32);
    lemma_stands_parts(d, at as int, len, body);
    lemma_stands_each(d, 12, four_bytes(at));
    lemma_stands_each(d, at as int, len);
    lemma_four(d, 12, at);
    lemma_four(d, at as int, (programs_bytes(programs).len() + 2) as u32);
    let block = d.subrange(at + 4, at + 4 + body.len());
    assert(block == body);
    assert(body[1] == programs.len() as u8);
    assert(body.subrange(2, body.len() as int) =~= programs_bytes(programs));
    lemma_programs(block, 2, programs, Map::empty());
}

/// A file with another magic says nothing, and is told apart by it.
pub proof fn lemma_another_magic_is_no_clip_file(d: Seq<u8>)
    ensures
        d.len() < 8 ==> clip_streams(d) == Err::<Map<u16, TsStream>, Failure>(
            Failure::UnexpectedEof,
        ),
        d.len() >= 8 && ascii_text(d.subrange(0, 8)) != "HDMV0100"@ && ascii_text(
            d.subrange(0, 8),
        ) != "HDMV0200"@ && ascii_text(d.subrange(0, 8)) != "HDMV0240"@ && ascii_text(
            d.subrange(0, 8),
        ) != "HDMV0300"@ ==> clip_streams(d) == Err::<Map<u16, TsStream>, Failure>(
            Failure::UnknownFileType(ascii_text(d.subrange(0, 8))),
        ),
{
}

} // verus!
