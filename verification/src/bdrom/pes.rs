//! One PID's packetized elementary stream, byte by byte: the start-code hunt, the packet
//! header with its timestamps, and the payload transfer.

use vstd::prelude::*;
use vstd::string::*;

verus! {

/// What a PID's stream is, as far as the start-code hunt is concerned.
#[derive(Debug, Clone, Copy, PartialEq, Eq, Structural)]
pub enum PayloadKind {
    /// No registered stream, or one that is neither video, audio nor graphics.
    Other,
    /// A video stream.
    Video,
    /// An audio stream.
    Audio,
    /// A graphics stream.
    Graphics,
}

/// Where one PID's stream stands, its assembled payload aside.
#[derive(Debug, Clone, Copy, PartialEq, Eq, Structural)]
pub struct PesState {
    /// Transport packets seen.
    pub total_packets: u64,
    /// Transport packets in the current window.
    pub window_packets: u64,
    /// Payload bytes seen.
    pub total_bytes: u64,
    /// Payload bytes in the current window.
    pub window_bytes: u64,
    /// Access units completed.
    pub transfer_count: u64,
    /// The largest access unit, bytes.
    pub peak_transfer_length: i64,
    /// The largest rate of an audio access unit, bits per second.
    pub peak_transfer_rate: i64,
    /// The last four bytes of the hunt.
    pub parse: u32,
    /// Whether the payload is being transferred.
    pub transfer_state: bool,
    /// Whether this packet's share of the payload has begun.
    pub copying: bool,
    /// The bytes of the current access unit so far, the ones not kept included.
    pub transfer_length: u64,
    /// What the packet still owes, bytes.
    pub packet_length: i32,
    /// Whether the packet's length is unbounded.
    pub packet_length_variable: bool,
    /// Countdown over the two bytes of the packet length.
    pub packet_length_parse: u8,
    /// Countdown over the three bytes before the timestamps.
    pub packet_parse: u8,
    /// Countdown over the five bytes of a lone presentation timestamp.
    pub pts_parse: u8,
    /// The presentation timestamp.
    pub pts: i64,
    /// The presentation timestamp under assembly.
    pub pts_temp: i64,
    /// The last presentation timestamp, or the largest.
    pub pts_last: i64,
    /// The distance from the previous access unit's decode timestamp.
    pub pts_diff: i64,
    /// How many timestamps were seen.
    pub pts_count: u64,
    /// The distance between the last two presentation timestamps.
    pub pts_transfer: i64,
    /// Countdown over the ten bytes of both timestamps.
    pub dts_parse: u8,
    /// The decode timestamp.
    pub dts_temp: i64,
    /// The previous access unit's decode timestamp.
    pub dts_prev: i64,
    /// What is left of the packet header, bytes.
    pub pes_header_length: u8,
    /// The packet header's flags.
    pub pes_header_flags: u8,
    /// Whether the stream's codec detail was complete when it was last analysed.
    pub stream_initialized: bool,
    /// What the stream is.
    pub stream_kind: PayloadKind,
}

/// Before the first byte.
pub open spec fn blank_pes() -> PesState {
    PesState {
        total_packets: 0,
        window_packets: 0,
        total_bytes: 0,
        window_bytes: 0,
        transfer_count: 0,
        peak_transfer_length: 0,
        peak_transfer_rate: 0,
        parse: 0,
        transfer_state: false,
        copying: false,
        transfer_length: 0,
        packet_length: 0,
        packet_length_variable: false,
        packet_length_parse: 0,
        packet_parse: 0,
        pts_parse: 0,
        pts: 0,
        pts_temp: 0,
        pts_last: 0,
        pts_diff: 0,
        pts_count: 0,
        pts_transfer: 0,
        dts_parse: 0,
        dts_temp: 0,
        dts_prev: 0,
        pes_header_length: 0,
        pes_header_flags: 0,
        stream_initialized: false,
        stream_kind: PayloadKind::Other,
    }
}

impl Default for PesState {
    fn default() -> (r: Self)
        ensures
            r == blank_pes(),
    {
        PesState {
            total_packets: 0,
            window_packets: 0,
            total_bytes: 0,
            window_bytes: 0,
            transfer_count: 0,
            peak_transfer_length: 0,
            peak_transfer_rate: 0,
            parse: 0,
            transfer_state: false,
            copying: false,
            transfer_length: 0,
            packet_length: 0,
            packet_length_variable: false,
            packet_length_parse: 0,
            packet_parse: 0,
            pts_parse: 0,
            pts: 0,
            pts_temp: 0,
            pts_last: 0,
            pts_diff: 0,
            pts_count: 0,
            pts_transfer: 0,
            dts_parse: 0,
            dts_temp: 0,
            dts_prev: 0,
            pes_header_length: 0,
            pes_header_flags: 0,
            stream_initialized: false,
            stream_kind: PayloadKind::Other,
        }
    }
}

/// A video timestamp that closes the window before it.
#[derive(Debug, Clone, Copy, PartialEq, Eq, Structural)]
pub struct WindowMark {
    /// The timestamp.
    pub marker: i64,
    /// Its distance from the previous one.
    pub interval: i64,
    /// The decode timestamp that the clip's length is taken over.
    pub dts: i64,
}

/// The last four bytes after one more.
pub open spec fn shifted(parse: u32, b: u8) -> u32 {
    (parse as int % 0x100_0000 * 0x100 + b) as u32
}

/// Whether the last four bytes start a packet of a stream of this kind.
pub open spec fn starts_packet(kind: PayloadKind, parse: u32) -> bool {
    let video_range = 0x1E0 <= parse <= 0x1EF;
    match kind {
        PayloadKind::Video => parse == 0x1FD || video_range,
        PayloadKind::Audio => parse == 0x1BD || 0x1C0 <= parse <= 0x1DF || parse == 0x1FA || parse
            == 0x1FD,
        _ => parse == 0x1FA || parse == 0x1FD || parse == 0x1BD || video_range,
    }
}

/// What the byte with `left` bytes behind it adds to a five-byte timestamp: three bits,
/// eight, seven, eight, seven, around the marker bits.
pub open spec fn stamp_part(left: u8, low: int) -> int {
    match left {
        4 => low / 2 % 8 * 0x4000_0000,
        3 => low * 0x40_0000,
        2 => low / 2 % 128 * 0x8000,
        1 => low * 0x80,
        _ => low / 2 % 128,
    }
}

/// The 33-bit timestamp that five bytes hold.
pub open spec fn timestamp(b: Seq<u8>) -> int {
    stamp_part(4, b[0] as int) + stamp_part(3, b[1] as int) + stamp_part(2, b[2] as int)
        + stamp_part(1, b[3] as int) + stamp_part(0, b[4] as int)
}

/// The low byte of the last four.
pub open spec fn low_byte(parse: u32) -> int {
    parse as int % 0x100
}

/// The timestamp under assembly after the byte with `left` bytes behind it.
pub open spec fn assembled(temp: i64, left: u8, parse: u32) -> i64 {
    let part = stamp_part(left, low_byte(parse)) as i64;
    if left == 4 {
        part
    } else {
        temp.wrapping_add(part)
    }
}

/// One byte of the header consumed.
pub open spec fn header_consumed(c: PesState) -> PesState {
    PesState {
        packet_length: c.packet_length.wrapping_sub(1),
        pes_header_length: c.pes_header_length.wrapping_sub(1),
        ..c
    }
}

/// The payload begins once the header is consumed.
pub open spec fn payload_begun(c: PesState) -> PesState {
    PesState { transfer_state: c.transfer_state || c.pes_header_length == 0, ..c }
}

/// A lone presentation timestamp that is complete.
pub open spec fn pts_complete(c: PesState) -> (PesState, Option<WindowMark>) {
    let pts = c.pts_temp;
    let diff = pts.wrapping_sub(c.dts_prev);
    (
        payload_begun(
            PesState {
                pts,
                pts_transfer: if pts != c.pts_last && c.pts_last > 0 {
                    pts.wrapping_sub(c.pts_last)
                } else {
                    c.pts_transfer
                },
                pts_last: pts,
                pts_diff: diff,
                dts_prev: pts,
                pts_count: c.pts_count.wrapping_add(1),
                ..c
            },
        ),
        if c.pts_count > 0 && c.stream_kind is Video {
            Some(WindowMark { marker: pts, interval: diff, dts: c.dts_temp })
        } else {
            None
        },
    )
}

/// A decode timestamp, behind its presentation timestamp, that is complete.
pub open spec fn dts_complete(c: PesState) -> (PesState, Option<WindowMark>) {
    let diff = c.dts_temp.wrapping_sub(c.dts_prev);
    (
        payload_begun(
            PesState {
                pts_diff: diff,
                dts_prev: c.dts_temp,
                pts_count: c.pts_count.wrapping_add(1),
                ..c
            },
        ),
        if c.pts_count > 0 && c.stream_kind is Video {
            Some(WindowMark { marker: c.dts_temp, interval: diff, dts: c.dts_temp })
        } else {
            None
        },
    )
}

/// One byte of a lone presentation timestamp.
pub open spec fn pts_byte(c: PesState) -> (PesState, Option<WindowMark>) {
    let left = (c.pts_parse - 1) as u8;
    let d = PesState {
        pts_parse: left,
        pts_temp: assembled(c.pts_temp, left, c.parse),
        ..header_consumed(c)
    };
    if left == 0 {
        pts_complete(d)
    } else {
        (d, None)
    }
}

/// One byte of the two timestamps: the first five are the presentation timestamp's.
pub open spec fn dts_byte(c: PesState) -> (PesState, Option<WindowMark>) {
    let left = (c.dts_parse - 1) as u8;
    let d = PesState { dts_parse: left, ..header_consumed(c) };
    if left >= 5 {
        let temp = assembled(c.pts_temp, (left - 5) as u8, c.parse);
        if left == 5 {
            (
                PesState {
                    pts_temp: temp,
                    pts: temp,
                    pts_last: if temp > c.pts_last {
                        temp
                    } else {
                        c.pts_last
                    },
                    ..d
                },
                None,
            )
        } else {
            (PesState { pts_temp: temp, ..d }, None)
        }
    } else {
        let e = PesState { dts_temp: assembled(c.dts_temp, left, c.parse), ..d };
        if left == 0 {
            dts_complete(e)
        } else {
            (e, None)
        }
    }
}

/// One byte of the three before the timestamps: the second holds the flags, the third
/// the header length. The flags say which timestamps follow.
pub open spec fn prefix_byte(c: PesState) -> PesState {
    let left = (c.packet_parse - 1) as u8;
    let d = PesState { packet_length: c.packet_length.wrapping_sub(1), packet_parse: left, ..c };
    if left == 1 {
        PesState { pes_header_flags: low_byte(c.parse) as u8, ..d }
    } else if left == 0 {
        payload_begun(
            PesState {
                pes_header_length: low_byte(c.parse) as u8,
                pts_parse: if c.pes_header_flags / 64 == 2 {
                    5
                } else {
                    c.pts_parse
                },
                dts_parse: if c.pes_header_flags / 64 == 3 {
                    10
                } else {
                    c.dts_parse
                },
                ..d
            },
        )
    } else {
        d
    }
}

/// One byte outside the payload, already among the last four; with it, whether a
/// variable-length packet is about to be closed, and the window that a timestamp
/// closes.
pub open spec fn hunt_byte(c: PesState, closing: bool) -> (PesState, bool, Option<WindowMark>) {
    if starts_packet(c.stream_kind, c.parse) {
        (PesState { packet_length_parse: 2, ..c }, closing, None)
    } else if c.packet_length_parse > 0 {
        let left = (c.packet_length_parse - 1) as u8;
        if left == 0 {
            let length = (c.parse % 0x1_0000) as i32;
            (
                PesState {
                    packet_length_parse: 0,
                    packet_length: length,
                    packet_length_variable: c.packet_length_variable || length == 0,
                    packet_parse: 3,
                    ..c
                },
                closing && length != 0,
                None,
            )
        } else {
            (PesState { packet_length_parse: left, ..c }, closing, None)
        }
    } else if c.packet_parse > 0 {
        (prefix_byte(c), closing, None)
    } else if c.pts_parse > 0 {
        let (d, w) = pts_byte(c);
        (d, closing, w)
    } else if c.dts_parse > 0 {
        let (d, w) = dts_byte(c);
        (d, closing, w)
    } else if c.pes_header_length > 0 {
        (payload_begun(header_consumed(c)), closing, None)
    } else {
        (c, closing, None)
    }
}

/// Whether the payload is kept: it is, until the codec detail of the stream is
/// complete, and always for video and graphics.
pub open spec fn keeps_payload(c: PesState) -> bool {
    !c.stream_initialized || c.stream_kind is Video || c.stream_kind is Graphics
}

/// One byte of payload, with `left` bytes behind it in the transport packet: the state
/// after it, whether a variable-length packet is about to be closed, and whether the
/// access unit is complete.
///
/// A bounded packet is over with the last byte that it owes. A variable-length one is
/// looked at only where the transport packet ends.
pub open spec fn transfer_byte(c: PesState, closing: bool, left: u8, b: u8) -> (PesState, bool, bool) {
    let d = PesState {
        parse: if c.copying {
            c.parse
        } else {
            shifted(c.parse, b)
        },
        copying: true,
        packet_length: c.packet_length.wrapping_sub(1),
        total_bytes: c.total_bytes.wrapping_add(1),
        window_bytes: c.window_bytes.wrapping_add(1),
        transfer_length: c.transfer_length.wrapping_add(1),
        ..c
    };
    if left == 0 || (!d.packet_length_variable && d.packet_length == 0) {
        let ended = closing && d.packet_length_variable;
        (
            PesState {
                copying: false,
                packet_length_variable: d.packet_length_variable && !ended,
                transfer_state: d.packet_length != 0,
                transfer_count: if d.packet_length == 0 {
                    d.transfer_count.wrapping_add(1)
                } else {
                    d.transfer_count
                },
                ..d
            },
            closing && !ended,
            d.packet_length == 0,
        )
    } else {
        (d, closing, false)
    }
}

/// One PID's stream with the payload that has been assembled and the frame tag of its
/// last access unit.
#[derive(Debug)]
pub struct TsStreamState {
    /// Where the stream stands.
    pub core: PesState,
    /// The payload of the current access unit.
    pub payload: Vec<u8>,
    /// The frame tag of the last complete access unit, where it had a frame.
    pub stream_tag: Option<String>,
}

/// What a [`TsStreamState`] holds, with the payload as a sequence.
pub struct StateView {
    pub core: PesState,
    pub payload: Seq<u8>,
    pub stream_tag: Option<String>,
}

impl View for TsStreamState {
    type V = StateView;

    open spec fn view(&self) -> StateView {
        StateView { core: self.core, payload: self.payload@, stream_tag: self.stream_tag }
    }
}

/// A PID of which nothing was seen.
pub open spec fn blank_state() -> StateView {
    StateView { core: blank_pes(), payload: Seq::empty(), stream_tag: None }
}

impl Default for TsStreamState {
    fn default() -> (r: Self)
        ensures
            r@ == blank_state(),
    {
        TsStreamState { core: PesState::default(), payload: Vec::new(), stream_tag: None }
    }
}

/// One byte of a registered, clear stream, with `left` bytes behind it in the transport
/// packet: the state after it, whether a variable-length packet is about to be closed,
/// whether an access unit is complete, and the window that a timestamp closes.
pub open spec fn stream_byte(s: StateView, closing: bool, left: u8, b: u8) -> (
    StateView,
    bool,
    bool,
    Option<WindowMark>,
) {
    if s.core.transfer_state {
        let (core, closing2, complete) = transfer_byte(s.core, closing, left, b);
        (
            StateView {
                core,
                payload: if keeps_payload(s.core) {
                    s.payload.push(b)
                } else {
                    s.payload
                },
                ..s
            },
            closing2,
            complete,
            None,
        )
    } else {
        let (core, closing2, mark) = hunt_byte(
            PesState { parse: shifted(s.core.parse, b), ..s.core },
            closing,
        );
        (StateView { core, ..s }, closing2, false, mark)
    }
}

/// What a timestamp byte adds.
fn part_of_stamp(left: u8, low: u8) -> (r: i64)
    ensures
        r as int == stamp_part(left, low as int),
{
    match left {
        4 => (low / 2 % 8) as i64 * 0x4000_0000,
        3 => low as i64 * 0x40_0000,
        2 => (low / 2 % 128) as i64 * 0x8000,
        1 => low as i64 * 0x80,
        _ => (low / 2 % 128) as i64,
    }
}

impl PesState {
    /// The low byte of the last four.
    fn low(&self) -> (r: u8)
        ensures
            r as int == low_byte(self.parse),
    {
        (self.parse % 0x100) as u8
    }

    /// Takes `b` among the last four bytes.
    fn shift(&mut self, b: u8)
        ensures
            *final(self) == (PesState { parse: shifted(old(self).parse, b), ..*old(self) }),
    {
        self.parse = self.parse % 0x100_0000 * 0x100 + b as u32;
    }

    /// The timestamp under assembly after one more byte.
    fn assemble(&self, temp: i64, left: u8) -> (r: i64)
        ensures
            r == assembled(temp, left, self.parse),
    {
        let part: i64 = part_of_stamp(left, self.low());
        if left == 4 {
            part
        } else {
            temp.wrapping_add(part)
        }
    }

    /// Whether the last four bytes start a packet.
    fn at_start_code(&self) -> (r: bool)
        ensures
            r == starts_packet(self.stream_kind, self.parse),
    {
        let parse: u32 = self.parse;
        let video_range = 0x1E0 <= parse && parse <= 0x1EF;
        match self.stream_kind {
            PayloadKind::Video => parse == 0x1FD || video_range,
            PayloadKind::Audio => parse == 0x1BD || (0x1C0 <= parse && parse <= 0x1DF) || parse
                == 0x1FA || parse == 0x1FD,
            _ => parse == 0x1FA || parse == 0x1FD || parse == 0x1BD || video_range,
        }
    }

    /// One byte of the header consumed.
    fn consume_header(&mut self)
        ensures
            *final(self) == header_consumed(*old(self)),
    {
        self.packet_length = self.packet_length.wrapping_sub(1);
        self.pes_header_length = self.pes_header_length.wrapping_sub(1);
    }

    /// Lets the payload begin once the header is consumed.
    fn begin_payload(&mut self)
        ensures
            *final(self) == payload_begun(*old(self)),
    {
        if self.pes_header_length == 0 {
            self.transfer_state = true;
        }
    }

    /// Takes one byte of a lone presentation timestamp.
    fn take_pts_byte(&mut self) -> (r: Option<WindowMark>)
        requires
            old(self).pts_parse > 0,
        ensures
            (*final(self), r) == pts_byte(*old(self)),
    {
        self.consume_header();
        let left: u8 = self.pts_parse - 1;
        self.pts_parse = left;
        self.pts_temp = self.assemble(self.pts_temp, left);
        if left != 0 {
            return None;
        }
        self.pts = self.pts_temp;
        if self.pts != self.pts_last {
            if self.pts_last > 0 {
                self.pts_transfer = self.pts.wrapping_sub(self.pts_last);
            }
            self.pts_last = self.pts;
        }
        self.pts_diff = self.pts.wrapping_sub(self.dts_prev);
        let mark = if self.pts_count > 0 && matches!(self.stream_kind, PayloadKind::Video) {
            Some(WindowMark { marker: self.pts, interval: self.pts_diff, dts: self.dts_temp })
        } else {
            None
        };
        self.dts_prev = self.pts;
        self.pts_count = self.pts_count.wrapping_add(1);
        self.begin_payload();
        mark
    }

    /// Takes one byte of the two timestamps.
    fn take_dts_byte(&mut self) -> (r: Option<WindowMark>)
        requires
            old(self).dts_parse > 0,
        ensures
            (*final(self), r) == dts_byte(*old(self)),
    {
        self.consume_header();
        let left: u8 = self.dts_parse - 1;
        self.dts_parse = left;
        if left >= 5 {
            self.pts_temp = self.assemble(self.pts_temp, left - 5);
            if left == 5 {
                self.pts = self.pts_temp;
                if self.pts > self.pts_last {
                    self.pts_last = self.pts;
                }
            }
            return None;
        }
        self.dts_temp = self.assemble(self.dts_temp, left);
        if left != 0 {
            return None;
        }
        self.pts_diff = self.dts_temp.wrapping_sub(self.dts_prev);
        let mark = if self.pts_count > 0 && matches!(self.stream_kind, PayloadKind::Video) {
            Some(WindowMark { marker: self.dts_temp, interval: self.pts_diff, dts: self.dts_temp })
        } else {
            None
        };
        self.dts_prev = self.dts_temp;
        self.pts_count = self.pts_count.wrapping_add(1);
        self.begin_payload();
        mark
    }

    /// Takes one byte of the three before the timestamps.
    fn take_prefix_byte(&mut self)
        requires
            old(self).packet_parse > 0,
        ensures
            *final(self) == prefix_byte(*old(self)),
    {
        self.packet_length = self.packet_length.wrapping_sub(1);
        self.packet_parse = self.packet_parse - 1;
        if self.packet_parse == 1 {
            self.pes_header_flags = self.low();
        } else if self.packet_parse == 0 {
            self.pes_header_length = self.low();
            if self.pes_header_flags / 64 == 2 {
                self.pts_parse = 5;
            } else if self.pes_header_flags / 64 == 3 {
                self.dts_parse = 10;
            }
            self.begin_payload();
        }
    }

    /// Takes one byte outside the payload.
    fn hunt(&mut self, closing: &mut bool) -> (r: Option<WindowMark>)
        ensures
            (*final(self), *final(closing), r) == hunt_byte(*old(self), *old(closing)),
    {
        if self.at_start_code() {
            self.packet_length_parse = 2;
            None
        } else if self.packet_length_parse > 0 {
            self.packet_length_parse = self.packet_length_parse - 1;
            if self.packet_length_parse == 0 {
                self.packet_length = (self.parse % 0x1_0000) as i32;
                if self.packet_length == 0 {
                    *closing = false;
                    self.packet_length_variable = true;
                }
                self.packet_parse = 3;
            }
            None
        } else if self.packet_parse > 0 {
            self.take_prefix_byte();
            None
        } else if self.pts_parse > 0 {
            self.take_pts_byte()
        } else if self.dts_parse > 0 {
            self.take_dts_byte()
        } else {
            if self.pes_header_length > 0 {
                self.consume_header();
                self.begin_payload();
            }
            None
        }
    }

    /// Takes one byte of payload, and returns whether the access unit is complete.
    fn transfer(&mut self, closing: &mut bool, left: u8, b: u8) -> (r: bool)
        requires
            old(self).transfer_state,
        ensures
            (*final(self), *final(closing), r) == transfer_byte(*old(self), *old(closing), left, b),
    {
        if !self.copying {
            self.shift(b);
            self.copying = true;
        }
        self.packet_length = self.packet_length.wrapping_sub(1);
        self.total_bytes = self.total_bytes.wrapping_add(1);
        self.window_bytes = self.window_bytes.wrapping_add(1);
        self.transfer_length = self.transfer_length.wrapping_add(1);
        if left == 0 || (!self.packet_length_variable && self.packet_length == 0) {
            self.copying = false;
            if *closing && self.packet_length_variable {
                *closing = false;
                self.packet_length_variable = false;
            }
            if self.packet_length == 0 {
                self.transfer_state = false;
                self.transfer_count = self.transfer_count.wrapping_add(1);
                return true;
            }
        }
        false
    }
}

impl TsStreamState {
    /// Takes one byte of the stream, and returns whether an access unit is complete and
    /// the window that a timestamp closes.
    pub fn take_byte(&mut self, closing: &mut bool, left: u8, b: u8) -> (r: (
        bool,
        Option<WindowMark>,
    ))
        ensures
            (final(self)@, *final(closing), r.0, r.1) == stream_byte(
                old(self)@,
                *old(closing),
                left,
                b,
            ),
    {
        if self.core.transfer_state {
            let keep = !self.core.stream_initialized || matches!(
                self.core.stream_kind,
                PayloadKind::Video | PayloadKind::Graphics
            );
            if keep {
                self.payload.push(b);
            }
            let complete = self.core.transfer(closing, left, b);
            (complete, None)
        } else {
            self.core.shift(b);
            let mark = self.core.hunt(closing);
            (false, mark)
        }
    }
}

/// The five bytes of a timestamp, with the marker bits that go between its parts.
pub open spec fn stamp_bytes(t: int) -> Seq<u8> {
    seq![
        (0x21 + t / 0x4000_0000 * 2) as u8,
        (t / 0x40_0000 % 0x100) as u8,
        (t / 0x8000 % 0x80 * 2 + 1) as u8,
        (t / 0x80 % 0x100) as u8,
        (t % 0x80 * 2 + 1) as u8,
    ]
}

/// Every 33-bit timestamp survives the way into its five bytes and back, bit 32
/// included.
pub proof fn lemma_timestamp_round_trip(t: int)
    requires
        0 <= t < 0x2_0000_0000,
    ensures
        timestamp(stamp_bytes(t)) == t,
{
    let a = t / 0x4000_0000;
    assert(0 <= a < 8);
    assert((0x21 + a * 2) / 2 == 16 + a);
    assert((16 + a) % 8 == a);
    let c = t / 0x8000 % 0x80;
    assert((c * 2 + 1) / 2 == c);
    let e = t % 0x80;
    assert((e * 2 + 1) / 2 == e);
    assert(t / 0x40_0000 == a * 0x100 + t / 0x40_0000 % 0x100);
    assert(t / 0x8000 == t / 0x40_0000 * 0x80 + c);
    assert(t / 0x80 == t / 0x8000 * 0x100 + t / 0x80 % 0x100);
    assert(t == t / 0x80 * 0x80 + e);
}

/// A state after the bytes of a lone presentation timestamp.
pub open spec fn after_pts_bytes(c: PesState, b: Seq<u8>) -> PesState
    decreases b.len(),
{
    if b.len() == 0 {
        c
    } else {
        let d = after_pts_bytes(c, b.drop_last());
        pts_byte(PesState { parse: shifted(d.parse, b.last()), ..d }).0
    }
}

proof fn lemma_pts_step(d: PesState, b: u8)
    requires
        0 < d.pts_parse <= 5,
    ensures
        ({
            let left = (d.pts_parse - 1) as u8;
            let e = pts_byte(PesState { parse: shifted(d.parse, b), ..d }).0;
            &&& e.pts_parse == left
            &&& left == 4 ==> e.pts_temp == stamp_part(4, b as int)
            &&& left < 4 ==> e.pts_temp == d.pts_temp.wrapping_add(
                stamp_part(left, b as int) as i64,
            )
            &&& left == 0 ==> e.pts == e.pts_temp && e.pts_last == e.pts_temp
        }),
{
    assert(low_byte(shifted(d.parse, b)) == b);
}

/// The presentation timestamp that a header's five bytes leave behind is the one they
/// hold.
pub proof fn lemma_pts_bytes_decode(c: PesState, b: Seq<u8>)
    requires
        c.pts_parse == 5,
        b.len() == 5,
    ensures
        after_pts_bytes(c, b).pts == timestamp(b),
        after_pts_bytes(c, b).pts_last == timestamp(b),
{
    let b4 = b.drop_last();
    let b3 = b4.drop_last();
    let b2 = b3.drop_last();
    let b1 = b2.drop_last();
    let b0 = b1.drop_last();
    assert(after_pts_bytes(c, b0) == c);
    lemma_pts_step(c, b[0]);
    let c1 = after_pts_bytes(c, b1);
    lemma_pts_step(c1, b[1]);
    let c2 = after_pts_bytes(c, b2);
    lemma_pts_step(c2, b[2]);
    let c3 = after_pts_bytes(c, b3);
    lemma_pts_step(c3, b[3]);
    let c4 = after_pts_bytes(c, b4);
    lemma_pts_step(c4, b[4]);
    assert(c1.pts_temp == stamp_part(4, b[0] as int));
    assert(c2.pts_temp == c1.pts_temp + stamp_part(3, b[1] as int));
    assert(c3.pts_temp == c2.pts_temp + stamp_part(2, b[2] as int));
    assert(c4.pts_temp == c3.pts_temp + stamp_part(1, b[3] as int));
}

} // verus!
