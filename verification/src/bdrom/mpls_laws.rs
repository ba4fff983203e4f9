//! What a playlist says: the clips that its play items play, the streams that their tables
//! declare, and the chapters that its marks set.

use vstd::prelude::*;

use super::clpi::{blank_clip, ClipView, Ratio};
use super::coding_laws::{describes, lemma_coding_info_describes_the_stream};
use super::layout::{
    four_bytes, lemma_four, lemma_stands_each, lemma_stands_parts, lemma_two, stands, two_bytes,
};
use super::mpls::{
    after_comb, after_combs, angle_clips, declare, extension, item, item_angles, items, main_clip,
    mark, marks, no_items, playlist, playlist_entry, rd_time, section, sections_from, stream_table,
    table_sections, total, Items, Marks, Section,
};
use super::{rd16, rd8, rd_text};
use crate::bytes::ascii_text;
use crate::error::Failure;
use crate::stream::{type_of_code, TsStream};

verus! {

// ---- stream entries ----

/// One stream entry of a table: a header, whose first byte says where the PID stands in it, a
/// coding type and its coding info.
pub struct ListedStream {
    pub header: Seq<u8>,
    pub code: u8,
    pub body: Seq<u8>,
}

/// Whether an entry can be written down, with a header and coding info that are all there.
pub open spec fn writable(e: ListedStream) -> bool {
    5 <= e.header.len() < 256 && 4 <= e.body.len() < 255
}

/// An entry as it stands in a file: the header behind its length, and the type and the
/// coding info behind theirs.
pub open spec fn entry_bytes(e: ListedStream) -> Seq<u8> {
    seq![e.header.len() as u8] + e.header + seq![(e.body.len() + 1) as u8, e.code] + e.body
}

/// The PID of an entry: behind the first byte of a header of the first kind, behind two more
/// in one of the second, behind one more in the other two, and none in any other.
pub open spec fn pid_of(e: ListedStream) -> u16 {
    let at = |k: int| (e.header[k] * 0x100 + e.header[k + 1]) as u16;
    if e.header[0] == 1 {
        at(1)
    } else if e.header[0] == 2 {
        at(3)
    } else if e.header[0] == 3 || e.header[0] == 4 {
        at(2)
    } else {
        0
    }
}

/// Whether an entry describes a stream: its type is known, and is not that of the dependent
/// view of a 3D pair.
pub open spec fn is_decoded(e: ListedStream) -> bool {
    !(type_of_code(e.code) is Unknown) && !(type_of_code(e.code) is MvcVideo)
}

/// Whether a stream is the one that an entry describes.
pub open spec fn is_stream_of(s: TsStream, e: ListedStream) -> bool {
    &&& s.common().pid.raw == pid_of(e)
    &&& s.common().stream_type == type_of_code(e.code)
    &&& describes(s, type_of_code(e.code), e.body, false)
}

/// An entry that is looked at, and whether its play item is long enough to have the last word.
pub struct Declaration {
    pub entry: ListedStream,
    pub lasting: bool,
}

/// Whether a declaration is for a PID.
pub open spec fn is_for(d: Declaration, pid: u16) -> bool {
    is_decoded(d.entry) && pid_of(d.entry) == pid
}

/// Whether streams are those of declarations. Every PID that is declared has a stream, and no
/// other. It is the one of the last declaration that has the last word, and where there is
/// none, of the first.
pub open spec fn settles(list: Seq<Declaration>, m: Map<u16, TsStream>) -> bool {
    &&& forall|pid: u16| #[trigger]
        m.contains_key(pid) <==> exists|i: int|
            0 <= i < list.len() && is_for(#[trigger] list[i], pid)
    &&& forall|i: int, pid: u16|
        #![trigger is_for(list[i], pid)]
        0 <= i < list.len() && is_for(list[i], pid) && has_word(list, i, pid) ==> is_stream_of(
            m[pid],
            list[i].entry,
        )
}

/// Whether a declaration settles what its PID has.
pub open spec fn has_word(list: Seq<Declaration>, i: int, pid: u16) -> bool {
    &&& list[i].lasting || forall|j: int|
        #![trigger list[j]]
        0 <= j < i ==> !is_for(list[j], pid)
    &&& forall|j: int|
        #![trigger list[j]]
        i < j < list.len() ==> !(list[j].lasting && is_for(list[j], pid))
}

#[verifier::rlimit(50)]
proof fn lemma_declare(list: Seq<Declaration>, m: Map<u16, TsStream>, d: Declaration, s: Option<
    TsStream,
>)
    requires
        settles(list, m),
        is_decoded(d.entry) <==> s is Some,
        s is Some ==> is_stream_of(s->Some_0, d.entry),
    ensures
        settles(list.push(d), declare(m, s, d.lasting)),
{
    let more = list.push(d);
    let n = list.len() as int;
    let r = declare(m, s, d.lasting);
    let own = pid_of(d.entry);
    assert forall|pid: u16| #[trigger] r.contains_key(pid) <==> (exists|i: int|
        0 <= i < more.len() && is_for(#[trigger] more[i], pid)) by {
        if exists|i: int| 0 <= i < list.len() && is_for(#[trigger] list[i], pid) {
            let i = choose|i: int| 0 <= i < list.len() && is_for(#[trigger] list[i], pid);
            assert(more[i] == list[i]);
        }
        if is_for(d, pid) {
            assert(more[n] == d);
        }
        if exists|i: int| 0 <= i < more.len() && is_for(#[trigger] more[i], pid) {
            let i = choose|i: int| 0 <= i < more.len() && is_for(#[trigger] more[i], pid);
            if i < n {
                assert(list[i] == more[i]);
            }
        }
        assert(m.contains_key(pid) <==> exists|i: int|
            0 <= i < list.len() && is_for(#[trigger] list[i], pid));
    }
    assert forall|i: int, pid: u16| #![trigger is_for(more[i], pid)]
        0 <= i < more.len() && is_for(more[i], pid) && has_word(more, i, pid) implies is_stream_of(
        r[pid],
        more[i].entry,
    ) by {
        if i < n {
            assert(list[i] == more[i]);
            assert(more[n] == d);
            assert(!(d.lasting && is_for(d, pid)));
            assert(m.contains_key(pid));
            assert(r[pid] == m[pid]);
            assert(has_word(list, i, pid)) by {
                assert forall|j: int| #![trigger list[j]] i < j < list.len() implies !(
                list[j].lasting && is_for(list[j], pid)) by {
                    assert(more[j] == list[j]);
                }
                if !list[i].lasting {
                    assert forall|j: int| #![trigger list[j]] 0 <= j < i implies !is_for(
                        list[j],
                        pid,
                    ) by {
                        assert(more[j] == list[j]);
                    }
                }
            }
        } else {
            assert(more[i] == d);
            if !d.lasting {
                assert(!m.contains_key(pid)) by {
                    if m.contains_key(pid) {
                        let j = choose|j: int| 0 <= j < list.len() && is_for(
                            #[trigger] list[j],
                            pid,
                        );
                        assert(more[j] == list[j]);
                    }
                }
            }
        }
    }
}

#[verifier::rlimit(50)]
proof fn lemma_entry(d: Seq<u8>, k: int, e: ListedStream)
    requires
        writable(e),
        stands(d, k, entry_bytes(e)),
    ensures
        playlist_entry(d, k) is Some,
        playlist_entry(d, k)->Some_0.1 == k + entry_bytes(e).len(),
        is_decoded(e) <==> playlist_entry(d, k)->Some_0.0 is Some,
        is_decoded(e) ==> is_stream_of(playlist_entry(d, k)->Some_0.0->Some_0, e),
{
    let b = entry_bytes(e);
    let h = e.header.len() as int;
    let first = seq![e.header.len() as u8];
    let next = seq![(e.body.len() + 1) as u8, e.code];
    let head = first + e.header + next;
    assert(b == head + e.body);
    lemma_stands_parts(d, k, head, e.body);
    lemma_stands_each(d, k, head);
    assert(d[k + 0] == head[0]);
    assert forall|i: int| 0 <= i < h implies d[k + 1 + i] == #[trigger] e.header[i] by {
        assert(head[1 + i] == e.header[i]);
    }
    assert(d[k + (1 + h)] == head[1 + h] && head[1 + h] == next[0]);
    assert(d[k + (2 + h)] == head[2 + h] && head[2 + h] == next[1]);
    assert(d[k + 1 + 0] == e.header[0] && d[k + 1 + 1] == e.header[1] && d[k + 1 + 2] == e.header[2]
        && d[k + 1 + 3] == e.header[3] && d[k + 1 + 4] == e.header[4]);
    if is_decoded(e) {
        lemma_coding_info_describes_the_stream(
            d,
            k + 3 + h,
            e.body,
            type_of_code(e.code),
            false,
        );
    }
}

// ---- tables ----

/// One comb-info block: references, and a pad byte where their number is odd.
pub struct Comb {
    pub reserved: u8,
    pub references: Seq<u8>,
    pub pad: u8,
}

/// A block as it stands in a file.
pub open spec fn comb_bytes(c: Comb) -> Seq<u8> {
    seq![c.references.len() as u8, c.reserved] + c.references + (if c.references.len() % 2 == 1 {
        seq![c.pad]
    } else {
        Seq::empty()
    })
}

/// Blocks end to end.
pub open spec fn combs_bytes(combs: Seq<Comb>) -> Seq<u8>
    decreases combs.len(),
{
    if combs.len() == 0 {
        Seq::empty()
    } else {
        comb_bytes(combs[0]) + combs_bytes(combs.drop_first())
    }
}

/// One entry of a section, with the comb-info blocks that follow it.
pub struct SectionEntry {
    pub entry: ListedStream,
    pub combs: Seq<Comb>,
}

/// Whether the entries of a section can be written down, each with `combs` blocks.
pub open spec fn section_writable(list: Seq<SectionEntry>, combs: nat) -> bool {
    &&& list.len() < 256
    &&& forall|i: int|
        #![trigger list[i]]
        0 <= i < list.len() ==> {
            &&& writable(list[i].entry)
            &&& list[i].combs.len() == combs
            &&& forall|k: int|
                #![trigger list[i].combs[k]]
                0 <= k < combs ==> list[i].combs[k].references.len() < 256
        }
}

/// The entries of a section end to end.
pub open spec fn section_bytes(list: Seq<SectionEntry>) -> Seq<u8>
    decreases list.len(),
{
    if list.len() == 0 {
        Seq::empty()
    } else {
        entry_bytes(list[0].entry) + combs_bytes(list[0].combs) + section_bytes(list.drop_first())
    }
}

/// The table of a play item: its head, the entries of its seven sections, and what stands
/// between the counts of these and the entries.
pub struct StreamTable {
    pub head: Seq<u8>,
    pub reserved: Seq<u8>,
    pub video: Seq<SectionEntry>,
    pub audio: Seq<SectionEntry>,
    pub graphics: Seq<SectionEntry>,
    pub inset_graphics: Seq<SectionEntry>,
    pub menus: Seq<SectionEntry>,
    pub second_audio: Seq<SectionEntry>,
    pub second_video: Seq<SectionEntry>,
}

/// Whether a table can be written down.
pub open spec fn table_writable(t: StreamTable) -> bool {
    &&& t.head.len() == 4
    &&& t.reserved.len() == 5
    &&& section_writable(t.video, 0)
    &&& section_writable(t.audio, 0)
    &&& section_writable(t.graphics, 0)
    &&& section_writable(t.inset_graphics, 0)
    &&& section_writable(t.menus, 0)
    &&& section_writable(t.second_audio, 1)
    &&& section_writable(t.second_video, 2)
}

/// The counts of a table's sections, in the order they stand in.
pub open spec fn count_bytes(t: StreamTable) -> Seq<u8> {
    seq![
        t.video.len() as u8,
        t.audio.len() as u8,
        t.graphics.len() as u8,
        t.menus.len() as u8,
        t.second_audio.len() as u8,
        t.second_video.len() as u8,
        t.inset_graphics.len() as u8,
    ]
}

/// A table as it stands in a file.
pub open spec fn table_bytes(t: StreamTable) -> Seq<u8> {
    (t.head + count_bytes(t) + t.reserved) + (section_bytes(t.video) + (section_bytes(t.audio) + (
    section_bytes(t.graphics) + (section_bytes(t.inset_graphics) + (section_bytes(t.menus) + (
    section_bytes(t.second_audio) + section_bytes(t.second_video)))))))
}

/// The declarations of a section.
pub open spec fn section_declares(list: Seq<SectionEntry>, lasting: bool) -> Seq<Declaration> {
    list.map_values(|e: SectionEntry| Declaration { entry: e.entry, lasting })
}

/// The declarations of a table: of all its sections, but for the graphics of the inset
/// picture.
pub open spec fn table_declares(t: StreamTable, lasting: bool) -> Seq<Declaration> {
    section_declares(t.video, lasting) + section_declares(t.audio, lasting) + section_declares(
        t.graphics,
        lasting,
    ) + section_declares(t.menus, lasting) + section_declares(t.second_audio, lasting)
        + section_declares(t.second_video, lasting)
}

proof fn lemma_combs(d: Seq<u8>, k: int, combs: Seq<Comb>)
    requires
        forall|i: int|
            #![trigger combs[i]]
            0 <= i < combs.len() ==> combs[i].references.len() < 256,
        stands(d, k, combs_bytes(combs)),
    ensures
        after_combs(d, k, combs.len()) == Some(k + combs_bytes(combs).len()),
    decreases combs.len(),
{
    if combs.len() > 0 {
        let c = combs[0];
        let rest = combs.drop_first();
        lemma_stands_parts(d, k, comb_bytes(c), combs_bytes(rest));
        lemma_stands_each(d, k, comb_bytes(c));
        assert(d[k + 0] == comb_bytes(c)[0]);
        assert forall|i: int| #![trigger rest[i]]
            0 <= i < rest.len() implies rest[i].references.len() < 256 by {
            assert(rest[i] == combs[i + 1]);
        }
        lemma_combs(d, k + comb_bytes(c).len(), rest);
        assert(after_comb(d, k) == Some(k + comb_bytes(c).len()));
    }
}

#[verifier::rlimit(50)]
proof fn lemma_section(
    d: Seq<u8>,
    k: int,
    list: Seq<SectionEntry>,
    s: Section,
    lasting: bool,
    before: Seq<Declaration>,
    m: Map<u16, TsStream>,
)
    requires
        section_writable(list, s.combs),
        stands(d, k, section_bytes(list)),
        settles(before, m),
    ensures
        section(d, k, list.len(), s, lasting, m) is Some,
        section(d, k, list.len(), s, lasting, m)->Some_0.1 == k + section_bytes(list).len(),
        settles(
            before + (if s.declares {
                section_declares(list, lasting)
            } else {
                Seq::empty()
            }),
            section(d, k, list.len(), s, lasting, m)->Some_0.0,
        ),
    decreases list.len(),
{
    let own = if s.declares {
        section_declares(list, lasting)
    } else {
        Seq::empty()
    };
    if list.len() == 0 {
        assert(before + own =~= before);
    } else {
        let e = list[0];
        let rest = list.drop_first();
        let both = entry_bytes(e.entry) + combs_bytes(e.combs);
        lemma_stands_parts(d, k, both, section_bytes(rest));
        lemma_stands_parts(d, k, entry_bytes(e.entry), combs_bytes(e.combs));
        lemma_entry(d, k, e.entry);
        let next = k + entry_bytes(e.entry).len();
        lemma_combs(d, next, e.combs);
        assert forall|i: int| #![trigger rest[i]] 0 <= i < rest.len() implies {
            &&& writable(rest[i].entry)
            &&& rest[i].combs.len() == s.combs
            &&& forall|j: int|
                #![trigger rest[i].combs[j]]
                0 <= j < s.combs ==> rest[i].combs[j].references.len() < 256
        } by {
            assert(rest[i] == list[i + 1]);
        }
        let stream = playlist_entry(d, k)->Some_0.0;
        let declaration = Declaration { entry: e.entry, lasting };
        if s.declares {
            lemma_declare(before, m, declaration, stream);
            lemma_section(
                d,
                k + both.len(),
                rest,
                s,
                lasting,
                before.push(declaration),
                declare(m, stream, lasting),
            );
            assert(before + own =~= before.push(declaration) + section_declares(rest, lasting));
        } else {
            lemma_section(d, k + both.len(), rest, s, lasting, before, m);
        }
    }
}

/// The entries of the `i`th section, in the order of the entries.
spec fn nth_list(t: StreamTable, i: int) -> Seq<SectionEntry> {
    if i == 0 {
        t.video
    } else if i == 1 {
        t.audio
    } else if i == 2 {
        t.graphics
    } else if i == 3 {
        t.inset_graphics
    } else if i == 4 {
        t.menus
    } else if i == 5 {
        t.second_audio
    } else {
        t.second_video
    }
}

/// The sections from the `i`th on, end to end.
spec fn lists_bytes(t: StreamTable, i: int) -> Seq<u8>
    decreases 7 - i,
{
    if i >= 7 {
        Seq::empty()
    } else {
        section_bytes(nth_list(t, i)) + lists_bytes(t, i + 1)
    }
}

/// The declarations of the sections from the `i`th on.
spec fn lists_declare(t: StreamTable, i: int, lasting: bool) -> Seq<Declaration>
    decreases 7 - i,
{
    if i >= 7 {
        Seq::empty()
    } else {
        (if i == 3 {
            Seq::empty()
        } else {
            section_declares(nth_list(t, i), lasting)
        }) + lists_declare(t, i + 1, lasting)
    }
}

#[verifier::rlimit(50)]
proof fn lemma_sections(
    d: Seq<u8>,
    at: int,
    t: StreamTable,
    i: int,
    pos: int,
    lasting: bool,
    before: Seq<Declaration>,
    m: Map<u16, TsStream>,
)
    requires
        table_writable(t),
        0 <= i <= 7,
        stands(d, at, t.head + count_bytes(t) + t.reserved),
        stands(d, pos, lists_bytes(t, i)),
        settles(before, m),
    ensures
        sections_from(d, at, i, pos, lasting, m) is Some,
        settles(
            before + lists_declare(t, i, lasting),
            sections_from(d, at, i, pos, lasting, m)->Some_0,
        ),
    decreases 7 - i,
{
    if i == 7 {
        assert(before + lists_declare(t, i, lasting) =~= before);
    } else {
        let list = nth_list(t, i);
        let front = t.head + count_bytes(t) + t.reserved;
        lemma_stands_each(d, at, front);
        let place = table_sections()[i].0;
        let s = table_sections()[i].1;
        assert(d[at + place] == front[place]);
        assert(front[place] == count_bytes(t)[place - 4]);
        assert(front[place] == list.len() as u8);
        lemma_stands_parts(d, pos, section_bytes(list), lists_bytes(t, i + 1));
        lemma_section(d, pos, list, s, lasting, before, m);
        let own = if s.declares {
            section_declares(list, lasting)
        } else {
            Seq::empty()
        };
        let after = section(d, pos, list.len(), s, lasting, m)->Some_0.0;
        lemma_sections(
            d,
            at,
            t,
            i + 1,
            pos + section_bytes(list).len(),
            lasting,
            before + own,
            after,
        );
        assert(before + lists_declare(t, i, lasting) =~= (before + own) + lists_declare(
            t,
            i + 1,
            lasting,
        ));
    }
}

#[verifier::rlimit(50)]
proof fn lemma_table(
    d: Seq<u8>,
    at: int,
    t: StreamTable,
    lasting: bool,
    before: Seq<Declaration>,
    m: Map<u16, TsStream>,
)
    requires
        table_writable(t),
        stands(d, at, table_bytes(t)),
        settles(before, m),
    ensures
        stream_table(d, at, lasting, m) is Some,
        settles(
            before + table_declares(t, lasting),
            stream_table(d, at, lasting, m)->Some_0,
        ),
{
    let front = t.head + count_bytes(t) + t.reserved;
    reveal_with_fuel(lists_bytes, 8);
    reveal_with_fuel(lists_declare, 8);
    assert(section_bytes(t.second_video) =~= section_bytes(t.second_video) + lists_bytes(t, 7));
    assert(table_bytes(t) =~= front + lists_bytes(t, 0));
    lemma_stands_parts(d, at, front, lists_bytes(t, 0));
    lemma_sections(d, at, t, 0, at + 16, lasting, before, m);
    assert(lists_declare(t, 0, lasting) =~= table_declares(t, lasting));
}

// ---- play items ----

/// One extra angle of a play item: its clip.
pub struct ExtraAngle {
    pub name: Seq<u8>,
    pub codec: Seq<u8>,
    pub reserved: u8,
}

/// One play item: the clip that it plays, from when to when on a clock of 45 kHz, its extra
/// angles, its table, and what stands between and behind them.
pub struct PlayItem {
    pub name: Seq<u8>,
    pub codec: Seq<u8>,
    pub first: u8,
    pub flags: u8,
    pub second: u8,
    pub time_in: u32,
    pub time_out: u32,
    pub gap: Seq<u8>,
    pub third: u8,
    pub angles: Seq<ExtraAngle>,
    pub table: StreamTable,
    pub tail: Seq<u8>,
}

/// The extra angles of a play item end to end.
pub open spec fn angles_bytes(angles: Seq<ExtraAngle>) -> Seq<u8>
    decreases angles.len(),
{
    if angles.len() == 0 {
        Seq::empty()
    } else {
        angles[0].name + angles[0].codec + seq![angles[0].reserved] + angles_bytes(
            angles.drop_first(),
        )
    }
}

/// Whether a play item has extra angles, which one of its flags says.
pub open spec fn has_angles(p: PlayItem) -> bool {
    p.flags / 16 % 2 != 0
}

/// What stands in a play item before its table.
pub open spec fn item_front(p: PlayItem) -> Seq<u8> {
    p.name + p.codec + seq![p.first, p.flags, p.second] + four_bytes(p.time_in) + four_bytes(
        p.time_out,
    ) + p.gap
}

/// What stands in a play item behind its length.
pub open spec fn item_body(p: PlayItem) -> Seq<u8> {
    if has_angles(p) {
        item_front(p) + (seq![(p.angles.len() + 1) as u8, p.third] + (angles_bytes(p.angles) + (
        table_bytes(p.table) + p.tail)))
    } else {
        item_front(p) + (table_bytes(p.table) + p.tail)
    }
}

/// A play item as it stands in a file.
pub open spec fn item_bytes(p: PlayItem) -> Seq<u8> {
    two_bytes(item_body(p).len() as u16) + item_body(p)
}

/// Whether a play item can be written down.
pub open spec fn item_writable(p: PlayItem) -> bool {
    &&& p.name.len() == 5
    &&& p.codec.len() == 4
    &&& p.gap.len() == 12
    &&& p.angles.len() < 255
    &&& !has_angles(p) ==> p.angles.len() == 0
    &&& forall|i: int|
        #![trigger p.angles[i]]
        0 <= i < p.angles.len() ==> p.angles[i].name.len() == 5 && p.angles[i].codec.len() == 4
    &&& table_writable(p.table)
    &&& item_body(p).len() <= u16::MAX
}

/// The name of the stream file of a clip.
pub open spec fn file_name(name: Seq<u8>, codec: Seq<u8>) -> Seq<char> {
    ascii_text(name) + (if ascii_text(codec) == "FMTS"@ {
        ".FMTS"@
    } else {
        ".M2TS"@
    })
}

/// A time of a play item in ticks: two for each of its clock, of which it has 31 bits.
pub open spec fn ticks(time: u32) -> int {
    2 * (time as int % 0x8000_0000)
}

/// How long a play item is.
pub open spec fn item_length(p: PlayItem) -> int {
    ticks(p.time_out) - ticks(p.time_in)
}

/// How long play items are.
pub open spec fn items_length(list: Seq<PlayItem>) -> int
    decreases list.len(),
{
    if list.len() == 0 {
        0
    } else {
        items_length(list.drop_last()) + item_length(list.last())
    }
}

/// Whether a clip is that of a play item that starts at `start` on the playlist's timeline,
/// for an angle: the main one, or the extra angle of that number. It lies where the play item
/// does, whatever its own file is.
pub open spec fn is_clip_of(c: ClipView, p: PlayItem, start: int, angle: int) -> bool {
    &&& c.angle_index == angle
    &&& angle == 0 ==> c.name == file_name(p.name, p.codec)
    &&& angle > 0 ==> c.name == file_name(p.angles[angle - 1].name, p.angles[angle - 1].codec)
    &&& c.time_in == ticks(p.time_in)
    &&& c.time_out == ticks(p.time_out)
    &&& c.length == item_length(p)
    &&& c.relative_time_in == start
    &&& c.relative_time_out == start + item_length(p)
    &&& angle == 0 ==> c.relative_length == (Ratio {
        num: item_length(p) as i64,
        den: start as i64,
    })
    &&& c.payload_bytes == 0 && c.packet_count == 0 && c.packet_ticks == 0
}

/// How many clips play items have: one, and one for each extra angle.
pub open spec fn clip_count(list: Seq<PlayItem>) -> int
    decreases list.len(),
{
    if list.len() == 0 {
        0
    } else {
        clip_count(list.drop_last()) + 1 + list.last().angles.len()
    }
}

/// Whether clips are those of play items, one after the other, each main clip followed by
/// those of its extra angles.
pub open spec fn are_clips_of(clips: Seq<ClipView>, list: Seq<PlayItem>) -> bool {
    &&& clips.len() == clip_count(list)
    &&& forall|k: int, a: int|
        #![trigger clips[clip_count(list.subrange(0, k)) + a]]
        0 <= k < list.len() && 0 <= a <= list[k].angles.len() ==> is_clip_of(
            clips[clip_count(list.subrange(0, k)) + a],
            list[k],
            items_length(list.subrange(0, k)),
            a,
        )
}

/// Whether a play item is long enough to have the last word on the streams: it is longer than
/// the hundredth part of what is played before it.
pub open spec fn is_lasting(list: Seq<PlayItem>, k: int) -> bool {
    let before = items_length(list.subrange(0, k));
    if before > 0 {
        100 * item_length(list[k]) > before
    } else if before < 0 {
        100 * item_length(list[k]) < before
    } else {
        item_length(list[k]) > 0
    }
}

/// The declarations of the first `n` play items.
pub open spec fn items_declare(list: Seq<PlayItem>, n: int) -> Seq<Declaration>
    decreases n,
{
    if n <= 0 {
        Seq::empty()
    } else {
        items_declare(list, n - 1) + table_declares(list[n - 1].table, is_lasting(list, n - 1))
    }
}

/// Whether a number is that of the extra angles of the play item that has the most.
pub open spec fn is_most_angles(list: Seq<PlayItem>, n: int) -> bool {
    &&& forall|k: int| 0 <= k < list.len() ==> (#[trigger] list[k]).angles.len() <= n
    &&& n == 0 || exists|k: int| 0 <= k < list.len() && (#[trigger] list[k]).angles.len() == n
}

/// Whether what was found is what the first `n` play items say.
spec fn found_in(list: Seq<PlayItem>, n: int, found: Items) -> bool {
    let so_far = list.subrange(0, n);
    &&& are_clips_of(found.clips, so_far)
    &&& total(found.clips) == items_length(so_far)
    &&& found.mains.len() == n
    &&& forall|k: int|
        0 <= k < n ==> #[trigger] found.mains[k] == clip_count(list.subrange(0, k))
    &&& settles(items_declare(list, n), found.streams)
    &&& is_most_angles(so_far, found.angle_count)
    &&& found.angle_count >= 0
}

/// Play items end to end.
pub open spec fn items_bytes(list: Seq<PlayItem>) -> Seq<u8>
    decreases list.len(),
{
    if list.len() == 0 {
        Seq::empty()
    } else {
        item_bytes(list[0]) + items_bytes(list.drop_first())
    }
}

proof fn lemma_text(d: Seq<u8>, k: int, bytes: Seq<u8>)
    requires
        stands(d, k, bytes),
    ensures
        rd_text(d, k, bytes.len() as int) == Some(ascii_text(bytes)),
{
}

#[verifier::rlimit(50)]
proof fn lemma_angles(
    d: Seq<u8>,
    at: int,
    k: int,
    p: PlayItem,
    proto: ClipView,
    clips: Seq<ClipView>,
    start: int,
    base: int,
)
    requires
        item_writable(p),
        0 <= k <= p.angles.len(),
        stands(
            d,
            at + 10 * k,
            angles_bytes(p.angles.subrange(k, p.angles.len() as int)),
        ),
        is_clip_of(proto, p, start, 0),
        clips.len() == base + 1 + k,
        base >= 0,
        forall|a: int| 0 <= a <= k ==> is_clip_of(#[trigger] clips[base + a], p, start, a),
    ensures
        ({
            let r = angle_clips(d, at, k, p.angles.len() as int, proto, clips);
            &&& r is Some
            &&& r->Some_0.len() == base + 1 + p.angles.len()
            &&& forall|i: int| 0 <= i < clips.len() ==> r->Some_0[i] == clips[i]
            &&& forall|a: int|
                0 <= a <= p.angles.len() ==> is_clip_of(
                    #[trigger] r->Some_0[base + a],
                    p,
                    start,
                    a,
                )
            &&& total(r->Some_0) == total(clips)
        }),
    decreases p.angles.len() - k,
{
    let n = p.angles.len() as int;
    if k < n {
        let left = p.angles.subrange(k, n);
        let a = p.angles[k];
        assert(left[0] == a);
        assert(left.drop_first() =~= p.angles.subrange(k + 1, n));
        let rest = angles_bytes(left.drop_first());
        let own = a.name + a.codec + seq![a.reserved];
        let here = at + 10 * k;
        lemma_stands_parts(d, here, own, rest);
        lemma_stands_parts(d, here, a.name + a.codec, seq![a.reserved]);
        lemma_stands_parts(d, here, a.name, a.codec);
        lemma_text(d, here, a.name);
        lemma_text(d, here + 5, a.codec);
        let clip = ClipView {
            angle_index: (k + 1) as i32,
            name: ascii_text(a.name) + extension(ascii_text(a.codec)),
            relative_length: blank_clip().relative_length,
            ..proto
        };
        let more = clips.push(clip);
        assert(more.drop_last() =~= clips);
        assert forall|b: int| 0 <= b <= k + 1 implies is_clip_of(
            #[trigger] more[base + b],
            p,
            start,
            b,
        ) by {
            if b <= k {
                assert(more[base + b] == clips[base + b]);
            }
        }
        lemma_angles(d, at, k + 1, p, proto, more, start, base);
        let r = angle_clips(d, at, k, n, proto, clips);
        assert forall|i: int| 0 <= i < clips.len() implies r->Some_0[i] == clips[i] by {
            assert(r->Some_0[i] == more[i]);
        }
    }
}

proof fn lemma_lengths(list: Seq<PlayItem>, n: int)
    requires
        0 <= n <= list.len(),
    ensures
        -(n * 0x1_0000_0000) <= items_length(list.subrange(0, n)) <= n * 0x1_0000_0000,
        clip_count(list.subrange(0, n)) >= n,
        n < list.len() ==> items_length(list.subrange(0, n + 1)) == items_length(
            list.subrange(0, n),
        ) + item_length(list[n]),
        n < list.len() ==> clip_count(list.subrange(0, n + 1)) == clip_count(list.subrange(0, n))
            + 1 + list[n].angles.len(),
    decreases n,
{
    let part = list.subrange(0, n);
    if n > 0 {
        lemma_lengths(list, n - 1);
        assert(part.drop_last() =~= list.subrange(0, n - 1));
    }
    if n < list.len() {
        let more = list.subrange(0, n + 1);
        assert(more.drop_last() =~= part);
        assert(more.last() == list[n]);
    }
}

proof fn lemma_clip_counts(list: Seq<PlayItem>, k: int, n: int)
    requires
        0 <= k < n <= list.len(),
    ensures
        clip_count(list.subrange(0, k)) + 1 + list[k].angles.len() <= clip_count(
            list.subrange(0, n),
        ),
    decreases n - k,
{
    lemma_lengths(list, n - 1);
    if k < n - 1 {
        lemma_clip_counts(list, k, n - 1);
    }
}

/// Where the table of a play item starts that stands at `at`.
spec fn table_at(p: PlayItem, at: int) -> int {
    if has_angles(p) {
        at + 36 + 10 * p.angles.len()
    } else {
        at + 34
    }
}

proof fn lemma_item_front(d: Seq<u8>, at: int, p: PlayItem)
    requires
        item_writable(p),
        stands(d, at + 2, item_front(p)),
    ensures
        rd_text(d, at + 2, 5) == Some(ascii_text(p.name)),
        rd_text(d, at + 7, 4) == Some(ascii_text(p.codec)),
        rd8(d, at + 12) == Some(p.flags),
        rd_time(d, at + 14) == Some(ticks(p.time_in) as i64),
        rd_time(d, at + 18) == Some(ticks(p.time_out) as i64),
{
    let b = at + 2;
    let three = seq![p.first, p.flags, p.second];
    let f3 = p.name + p.codec + three;
    let f4 = f3 + four_bytes(p.time_in);
    let f5 = f4 + four_bytes(p.time_out);
    lemma_stands_parts(d, b, f5, p.gap);
    lemma_stands_parts(d, b, f4, four_bytes(p.time_out));
    lemma_stands_parts(d, b, f3, four_bytes(p.time_in));
    lemma_stands_parts(d, b, p.name + p.codec, three);
    lemma_stands_parts(d, b, p.name, p.codec);
    lemma_stands_each(d, b + 9, three);
    assert(d[b + 9 + 1] == three[1]);
    lemma_text(d, b, p.name);
    lemma_text(d, b + 5, p.codec);
    lemma_four(d, b + 12, p.time_in);
    lemma_four(d, b + 16, p.time_out);
}

#[verifier::rlimit(50)]
proof fn lemma_item_parts(d: Seq<u8>, at: int, p: PlayItem)
    requires
        item_writable(p),
        stands(d, at, item_bytes(p)),
    ensures
        rd16(d, at) == Some(item_body(p).len() as u16),
        stands(d, at + 2, item_front(p)),
        item_angles(d, at, p.flags) == Some((p.angles.len() as int, table_at(p, at))),
        stands(d, at + 36, angles_bytes(p.angles)),
        stands(d, table_at(p, at), table_bytes(p.table)),
{
    let body = item_body(p);
    lemma_stands_parts(d, at, two_bytes(body.len() as u16), body);
    lemma_two(d, at, body.len() as u16);
    let front = item_front(p);
    let b = at + 2;
    let behind = table_bytes(p.table) + p.tail;
    let angles = seq![(p.angles.len() + 1) as u8, p.third];
    assert(front.len() == 32);
    lemma_angles_len(p.angles);
    if has_angles(p) {
        lemma_stands_parts(d, b, front, angles + (angles_bytes(p.angles) + behind));
        lemma_stands_parts(d, b + 32, angles, angles_bytes(p.angles) + behind);
        lemma_stands_each(d, b + 32, angles);
        assert(d[b + 32 + 0] == angles[0]);
        lemma_stands_parts(d, b + 34, angles_bytes(p.angles), behind);
        lemma_stands_parts(
            d,
            b + 34 + angles_bytes(p.angles).len(),
            table_bytes(p.table),
            p.tail,
        );
    } else {
        lemma_stands_parts(d, b, front, behind);
        lemma_stands_parts(d, b + 32, table_bytes(p.table), p.tail);
        assert(table_bytes(p.table).len() >= 16);
        assert(d.subrange(at + 36, at + 36) =~= angles_bytes(p.angles));
    }
}

#[verifier::rlimit(50)]
proof fn lemma_item_clips(
    list: Seq<PlayItem>,
    n: int,
    so_far: Seq<ClipView>,
    clips: Seq<ClipView>,
)
    requires
        0 <= n < list.len(),
        are_clips_of(so_far, list.subrange(0, n)),
        clips.len() == so_far.len() + 1 + list[n].angles.len(),
        forall|i: int| 0 <= i < so_far.len() ==> clips[i] == so_far[i],
        forall|a: int|
            0 <= a <= list[n].angles.len() ==> is_clip_of(
                #[trigger] clips[so_far.len() + a],
                list[n],
                items_length(list.subrange(0, n)),
                a,
            ),
    ensures
        are_clips_of(clips, list.subrange(0, n + 1)),
{
    let before = list.subrange(0, n);
    let now = list.subrange(0, n + 1);
    lemma_lengths(list, n);
    assert forall|k: int, a: int| #![trigger clips[clip_count(now.subrange(0, k)) + a]]
        0 <= k < now.len() && 0 <= a <= now[k].angles.len() implies is_clip_of(
        clips[clip_count(now.subrange(0, k)) + a],
        now[k],
        items_length(now.subrange(0, k)),
        a,
    ) by {
        assert(now.subrange(0, k) =~= list.subrange(0, k));
        assert(now[k] == list[k]);
        if k < n {
            assert(before.subrange(0, k) =~= list.subrange(0, k));
            assert(before[k] == list[k]);
            lemma_clip_counts(list, k, n);
            lemma_lengths(list, k);
            let i = clip_count(list.subrange(0, k)) + a;
            assert(is_clip_of(
                so_far[clip_count(before.subrange(0, k)) + a],
                before[k],
                items_length(before.subrange(0, k)),
                a,
            ));
            assert(clips[i] == so_far[i]);
        } else {
            assert(list.subrange(0, k) =~= before);
            assert(is_clip_of(clips[so_far.len() + a], list[n], items_length(before), a));
        }
    }
}

proof fn lemma_more_angles(list: Seq<PlayItem>, n: int, most: int)
    requires
        0 <= n < list.len(),
        is_most_angles(list.subrange(0, n), most),
        most >= 0,
    ensures
        is_most_angles(
            list.subrange(0, n + 1),
            if list[n].angles.len() > most {
                list[n].angles.len() as int
            } else {
                most
            },
        ),
{
    let before = list.subrange(0, n);
    let now = list.subrange(0, n + 1);
    assert forall|k: int| 0 <= k < now.len() && k < n implies (#[trigger] now[k]).angles.len()
        <= most by {
        assert(before[k] == now[k]);
    }
    assert(now[n] == list[n]);
    if list[n].angles.len() <= most && most != 0 {
        let k = choose|k: int| 0 <= k < before.len() && (#[trigger] before[k]).angles.len() == most;
        assert(now[k] == before[k]);
    }
}

#[verifier::rlimit(50)]
proof fn lemma_item(d: Seq<u8>, at: int, list: Seq<PlayItem>, n: int, so_far: Items)
    requires
        0 <= n < list.len() <= u16::MAX,
        item_writable(list[n]),
        stands(d, at, item_bytes(list[n])),
        found_in(list, n, so_far),
    ensures
        item(d, at, so_far) is Some,
        item(d, at, so_far)->Some_0.1 == at + item_bytes(list[n]).len(),
        found_in(list, n + 1, item(d, at, so_far)->Some_0.0),
{
    let p = list[n];
    let start = items_length(list.subrange(0, n));
    lemma_lengths(list, n);
    lemma_item_parts(d, at, p);
    lemma_item_front(d, at, p);
    let main = main_clip(
        ascii_text(p.name),
        ascii_text(p.codec),
        ticks(p.time_in) as i64,
        ticks(p.time_out) as i64,
        so_far.clips,
    );
    assert(is_clip_of(main, p, start, 0));
    let base = so_far.clips.len() as int;
    let with_main = so_far.clips.push(main);
    assert(with_main.drop_last() =~= so_far.clips);
    assert(p.angles.subrange(0, p.angles.len() as int) =~= p.angles);
    lemma_angles(d, at + 36, 0, p, main, with_main, start, base);
    let clips = angle_clips(d, at + 36, 0, p.angles.len() as int, main, with_main)->Some_0;
    let lasting = main.relative_length.above_hundredth();
    assert(lasting == is_lasting(list, n));
    lemma_table(
        d,
        table_at(p, at),
        p.table,
        lasting,
        items_declare(list, n),
        so_far.streams,
    );
    let found = item(d, at, so_far)->Some_0.0;
    assert(found.clips == clips);
    assert forall|i: int| 0 <= i < so_far.clips.len() implies clips[i] == so_far.clips[i] by {
        assert(clips[i] == with_main[i]);
    }
    lemma_item_clips(list, n, so_far.clips, clips);
    lemma_more_angles(list, n, so_far.angle_count);
    assert forall|k: int| 0 <= k < n + 1 implies #[trigger] found.mains[k] == clip_count(
        list.subrange(0, k),
    ) by {
        if k < n {
            assert(found.mains[k] == so_far.mains[k]);
        }
    }
    assert(items_declare(list, n + 1) == items_declare(list, n) + table_declares(
        p.table,
        is_lasting(list, n),
    ));
}

proof fn lemma_angles_len(angles: Seq<ExtraAngle>)
    requires
        forall|i: int|
            #![trigger angles[i]]
            0 <= i < angles.len() ==> angles[i].name.len() == 5 && angles[i].codec.len() == 4,
    ensures
        angles_bytes(angles).len() == 10 * angles.len(),
    decreases angles.len(),
{
    if angles.len() > 0 {
        let rest = angles.drop_first();
        assert forall|i: int| #![trigger rest[i]] 0 <= i < rest.len() implies rest[i].name.len()
            == 5 && rest[i].codec.len() == 4 by {
            assert(rest[i] == angles[i + 1]);
        }
        lemma_angles_len(rest);
    }
}

proof fn lemma_items(d: Seq<u8>, at: int, list: Seq<PlayItem>, n: int, so_far: Items)
    requires
        0 <= n <= list.len() <= u16::MAX,
        forall|k: int| 0 <= k < list.len() ==> item_writable(#[trigger] list[k]),
        stands(d, at, items_bytes(list.subrange(n, list.len() as int))),
        found_in(list, n, so_far),
    ensures
        items(d, at, (list.len() - n) as nat, so_far) is Some,
        found_in(
            list,
            list.len() as int,
            items(d, at, (list.len() - n) as nat, so_far)->Some_0,
        ),
    decreases list.len() - n,
{
    if n < list.len() {
        let left = list.subrange(n, list.len() as int);
        assert(left[0] == list[n]);
        assert(left.drop_first() =~= list.subrange(n + 1, list.len() as int));
        lemma_stands_parts(d, at, item_bytes(list[n]), items_bytes(left.drop_first()));
        lemma_item(d, at, list, n, so_far);
        let (more, next) = item(d, at, so_far)->Some_0;
        lemma_items(d, next, list, n + 1, more);
    }
}

// ---- marks ----

/// One mark: its kind, the play item that it is in, and its time on a clock of 45 kHz.
pub struct PlayMark {
    pub first: u8,
    pub kind: u8,
    pub index: u16,
    pub time: u32,
    pub rest: Seq<u8>,
}

/// A mark as it stands in a file.
pub open spec fn mark_bytes(m: PlayMark) -> Seq<u8> {
    seq![m.first, m.kind] + two_bytes(m.index) + four_bytes(m.time) + m.rest
}

/// Marks end to end.
pub open spec fn marks_bytes(list: Seq<PlayMark>) -> Seq<u8>
    decreases list.len(),
{
    if list.len() == 0 {
        Seq::empty()
    } else {
        mark_bytes(list[0]) + marks_bytes(list.drop_first())
    }
}

/// Where a mark lies on the playlist's timeline, given the play item that it is in.
pub open spec fn place_of(list: Seq<PlayItem>, m: PlayMark) -> int {
    2 * m.time - ticks(list[m.index as int].time_in) + items_length(
        list.subrange(0, m.index as int),
    )
}

/// Whether a mark sets a chapter: it is of that kind, in a play item that there is, and more
/// than a second of the playlist is left behind it.
pub open spec fn sets_chapter(list: Seq<PlayItem>, m: PlayMark) -> bool {
    &&& m.kind == 1
    &&& m.index < list.len()
    &&& items_length(list) - place_of(list, m) > 90_000
}

/// The chapters that the first `n` marks set, in their order.
pub open spec fn chapters_set(list: Seq<PlayItem>, marks: Seq<PlayMark>, n: int) -> Seq<int>
    decreases n,
{
    if n <= 0 {
        Seq::empty()
    } else if sets_chapter(list, marks[n - 1]) {
        chapters_set(list, marks, n - 1).push(place_of(list, marks[n - 1]))
    } else {
        chapters_set(list, marks, n - 1)
    }
}

/// Whether marked clips are the clips of play items, with marks of their own.
spec fn marked_in(list: Seq<PlayItem>, marks: Seq<PlayMark>, n: int, m: Marks) -> bool {
    &&& are_clips_of(m.clips, list)
    &&& m.chapters.len() == chapters_set(list, marks, n).len()
    &&& forall|i: int|
        0 <= i < m.chapters.len() ==> #[trigger] m.chapters[i] == chapters_set(list, marks, n)[i]
}

#[verifier::rlimit(50)]
proof fn lemma_marks(
    d: Seq<u8>,
    at: int,
    list: Seq<PlayItem>,
    all: Seq<PlayMark>,
    n: int,
    mains: Seq<int>,
    so_far: Marks,
)
    requires
        list.len() <= u16::MAX,
        0 <= n <= all.len(),
        forall|k: int| 0 <= k < all.len() ==> (#[trigger] all[k]).rest.len() == 6,
        stands(d, at, marks_bytes(all.subrange(n, all.len() as int))),
        mains.len() == list.len(),
        forall|k: int|
            0 <= k < list.len() ==> #[trigger] mains[k] == clip_count(list.subrange(0, k)),
        marked_in(list, all, n, so_far),
    ensures
        ({
            let r = marks(
                d,
                at,
                (all.len() - n) as nat,
                mains,
                items_length(list),
                so_far,
            );
            r is Some && marked_in(list, all, all.len() as int, r->Some_0)
        }),
    decreases all.len() - n,
{
    let length = items_length(list);
    if n < all.len() {
        let left = all.subrange(n, all.len() as int);
        let m = all[n];
        assert(left[0] == m);
        assert(left.drop_first() =~= all.subrange(n + 1, all.len() as int));
        let own = mark_bytes(m);
        lemma_stands_parts(d, at, own, marks_bytes(left.drop_first()));
        lemma_stands_each(d, at, own);
        assert(d[at + 1] == own[1]);
        let head = seq![m.first, m.kind] + two_bytes(m.index) + four_bytes(m.time);
        lemma_stands_parts(d, at, head, m.rest);
        lemma_stands_parts(
            d,
            at,
            seq![m.first, m.kind] + two_bytes(m.index),
            four_bytes(m.time),
        );
        lemma_stands_parts(d, at, seq![m.first, m.kind], two_bytes(m.index));
        lemma_two(d, at + 2, m.index);
        lemma_four(d, at + 4, m.time);
        let next = if m.kind == 1 {
            mark(so_far, mains, length, m.index as int, 2 * m.time as int)
        } else {
            so_far
        };
        assert(marked_in(list, all, n + 1, next)) by {
            if m.kind == 1 && m.index < list.len() {
                let k = m.index as int;
                let i = mains[k];
                let clip = so_far.clips[i];
                lemma_lengths(list, k);
                lemma_clip_counts(list, k, list.len() as int);
                assert(list.subrange(0, list.len() as int) =~= list);
                assert(is_clip_of(
                    so_far.clips[clip_count(list.subrange(0, k)) + 0],
                    list[k],
                    items_length(list.subrange(0, k)),
                    0,
                ));
                lemma_lengths(list, list.len() as int);
                if sets_chapter(list, m) {
                    assert(next.chapters == so_far.chapters.push(place_of(list, m) as i64));
                    let set = chapters_set(list, all, n + 1);
                    assert(set == chapters_set(list, all, n).push(place_of(list, m)));
                    assert forall|j: int| 0 <= j < next.chapters.len() implies
                        #[trigger] next.chapters[j] == set[j] by {
                        if j < so_far.chapters.len() {
                            assert(next.chapters[j] == so_far.chapters[j]);
                        }
                    }
                    assert forall|q: int, a: int|
                        #![trigger next.clips[clip_count(list.subrange(0, q)) + a]]
                        0 <= q < list.len() && 0 <= a <= list[q].angles.len() implies is_clip_of(
                        next.clips[clip_count(list.subrange(0, q)) + a],
                        list[q],
                        items_length(list.subrange(0, q)),
                        a,
                    ) by {
                        let j = clip_count(list.subrange(0, q)) + a;
                        assert(is_clip_of(
                            so_far.clips[clip_count(list.subrange(0, q)) + a],
                            list[q],
                            items_length(list.subrange(0, q)),
                            a,
                        ));
                        lemma_clip_counts(list, q, list.len() as int);
                        lemma_lengths(list, q);
                        if j != i {
                            assert(next.clips[j] == so_far.clips[j]);
                        }
                    }
                }
            }
        }
        lemma_marks(d, at + 14, list, all, n + 1, mains, next);
    }
}

/// A playlist says what its play items and its marks say. It has one clip for each play item
/// and each extra angle of it, one after the other on its timeline; its streams are those that
/// the play items declare; it has as many extra angles as the play item that has the most; and
/// its chapters are those that its marks set. Nothing else of the file makes a difference.
#[verifier::rlimit(50)]
pub proof fn lemma_a_playlist_says_what_its_items_say(
    d: Seq<u8>,
    items_at: u32,
    before_items: Seq<u8>,
    behind_count: Seq<u8>,
    list: Seq<PlayItem>,
    marks_at: u32,
    before_marks: Seq<u8>,
    set: Seq<PlayMark>,
)
    requires
        d.len() > 0x38,
        ascii_text(d.subrange(0, 8)) == "MPLS0100"@ || ascii_text(d.subrange(0, 8)) == "MPLS0200"@
            || ascii_text(d.subrange(0, 8)) == "MPLS0240"@ || ascii_text(d.subrange(0, 8))
            == "MPLS0300"@,
        stands(d, 8, four_bytes(items_at)),
        stands(d, 12, four_bytes(marks_at)),
        list.len() <= u16::MAX,
        set.len() <= u16::MAX,
        forall|k: int| 0 <= k < list.len() ==> item_writable(#[trigger] list[k]),
        forall|k: int| 0 <= k < set.len() ==> (#[trigger] set[k]).rest.len() == 6,
        before_items.len() == 6,
        behind_count.len() == 2,
        before_marks.len() == 4,
        stands(
            d,
            items_at as int,
            before_items + (two_bytes(list.len() as u16) + (behind_count + items_bytes(list))),
        ),
        stands(
            d,
            marks_at as int,
            before_marks + (two_bytes(set.len() as u16) + marks_bytes(set)),
        ),
    ensures
        playlist(d) is Ok,
        ({
            let p = playlist(d)->Ok_0;
            &&& are_clips_of(p.clips, list)
            &&& settles(items_declare(list, list.len() as int), p.playlist_streams)
            &&& is_most_angles(list, p.angle_count)
            &&& p.chapters.map_values(|c: i64| c as int) == chapters_set(
                list,
                set,
                set.len() as int,
            )
            &&& p.mvc_base_view_r == (d[0x38] / 16 % 2 != 0)
        }),
{
    lemma_four(d, 8, items_at);
    lemma_four(d, 12, marks_at);
    let at = items_at as int;
    let count = two_bytes(list.len() as u16);
    lemma_stands_parts(d, at, before_items, count + (behind_count + items_bytes(list)));
    lemma_stands_parts(d, at + 6, count, behind_count + items_bytes(list));
    lemma_stands_parts(d, at + 8, behind_count, items_bytes(list));
    lemma_two(d, at + 6, list.len() as u16);
    let here = marks_at as int;
    let marked = two_bytes(set.len() as u16);
    lemma_stands_parts(d, here, before_marks, marked + marks_bytes(set));
    lemma_stands_parts(d, here + 4, marked, marks_bytes(set));
    lemma_two(d, here + 4, set.len() as u16);
    assert(list.subrange(0, list.len() as int) =~= list);
    assert(set.subrange(0, set.len() as int) =~= set);
    assert(list.subrange(0, 0) =~= Seq::<PlayItem>::empty());
    assert(found_in(list, 0, no_items()));
    lemma_items(d, at + 10, list, 0, no_items());
    let found = items(d, at + 10, list.len(), no_items())->Some_0;
    lemma_marks(
        d,
        here + 6,
        list,
        set,
        0,
        found.mains,
        Marks { clips: found.clips, chapters: Seq::empty() },
    );
    let p = playlist(d)->Ok_0;
    assert(p.chapters.map_values(|c: i64| c as int) =~= chapters_set(list, set, set.len() as int));
}

/// A file with another magic says nothing, and is told apart by it.
pub proof fn lemma_another_magic_is_no_playlist(d: Seq<u8>)
    ensures
        d.len() < 8 ==> playlist(d) is Err && playlist(d)->Err_0 is UnexpectedEof,
        d.len() >= 8 && ascii_text(d.subrange(0, 8)) != "MPLS0100"@ && ascii_text(
            d.subrange(0, 8),
        ) != "MPLS0200"@ && ascii_text(d.subrange(0, 8)) != "MPLS0240"@ && ascii_text(
            d.subrange(0, 8),
        ) != "MPLS0300"@ ==> playlist(d) is Err && playlist(d)->Err_0 == Failure::UnknownFileType(
            ascii_text(d.subrange(0, 8)),
        ),
{
}

} // verus!
