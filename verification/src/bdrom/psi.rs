//! The program tables of a transport stream, byte by byte: the program association
//! table (PAT), which names the program map's PID, and the program map table (PMT),
//! which lists the elementary streams.
//!
//! A section is assembled in a buffer of fixed size; what a malformed section holds
//! beyond it is dropped.

use vstd::prelude::*;

verus! {

/// The size of a section-assembly buffer.
pub const SECTION_SIZE: usize = 1024;

/// The longest section there is.
pub const MAX_SECTION_LENGTH: u16 = 1021;

/// Where the assembly of a section stands, its bytes aside.
#[derive(Debug, Clone, Copy, PartialEq, Eq, Structural)]
pub struct SectionState {
    /// Whether the next byte is the pointer field.
    pub start: bool,
    /// What is left to skip of the bytes the pointer field counts.
    pub pointer_left: u8,
    /// Where in the buffer the next byte of the body goes.
    pub offset: u32,
    /// Countdown over the three bytes of table id and section length.
    pub prefix_left: u8,
    /// What is left of the section, bytes.
    pub length: u16,
    /// Countdown over the section header.
    pub header_left: u8,
    /// What is left of the program descriptors, bytes.
    pub info_left: u16,
    /// Whether the section body is being copied.
    pub copying: bool,
    /// The section's number.
    pub number: u8,
    /// The number of the table's last section.
    pub last: u8,
}

/// Before the first section.
pub open spec fn blank_section() -> SectionState {
    SectionState {
        start: false,
        pointer_left: 0,
        offset: 0,
        prefix_left: 0,
        length: 0,
        header_left: 0,
        info_left: 0,
        copying: false,
        number: 0,
        last: 0,
    }
}

impl Default for SectionState {
    fn default() -> (r: Self)
        ensures
            r == blank_section(),
    {
        SectionState {
            start: false,
            pointer_left: 0,
            offset: 0,
            prefix_left: 0,
            length: 0,
            header_left: 0,
            info_left: 0,
            copying: false,
            number: 0,
            last: 0,
        }
    }
}

/// The byte at `i`; `0` outside.
pub open spec fn byte_or_zero(s: Seq<u8>, i: int) -> u8 {
    if 0 <= i < s.len() {
        s[i]
    } else {
        0
    }
}

/// A buffer with `b` at `at`; a place outside takes nothing.
pub open spec fn put(s: Seq<u8>, at: int, b: u8) -> Seq<u8> {
    if 0 <= at < s.len() {
        s.update(at, b)
    } else {
        s
    }
}

/// A 12-bit number's high nibble, in the low half of a byte.
pub open spec fn high_nibble(b: u8) -> u16 {
    (b as int % 16 * 0x100) as u16
}

/// A PID from the low five bits of one byte and the next byte.
pub open spec fn pid_at(s: Seq<u8>, i: int) -> u16 {
    (byte_or_zero(s, i) as int % 32 * 0x100 + byte_or_zero(s, i + 1)) as u16
}

/// The pointer field, and the bytes it skips: behind the last of them the section
/// starts.
pub open spec fn pointer_byte(s: SectionState, b: u8) -> SectionState {
    let left = if s.start {
        b
    } else {
        (s.pointer_left - 1) as u8
    };
    SectionState {
        start: false,
        pointer_left: left,
        prefix_left: if left == 0 {
            3
        } else {
            s.prefix_left
        },
        ..s
    }
}

/// The section length once its last byte is there: a longer section than there can be
/// is dropped, any other has a header of `header` bytes next.
pub open spec fn length_known(s: SectionState, b: u8, header: u8) -> SectionState {
    let length = s.length.wrapping_add(b as u16);
    if length > MAX_SECTION_LENGTH {
        SectionState { length: 0, ..s }
    } else {
        SectionState { length, header_left: header, ..s }
    }
}

/// The section number: the first section of a table starts the buffer over.
pub open spec fn numbered(s: SectionState, b: u8) -> SectionState {
    SectionState {
        number: b,
        offset: if b == 0 {
            0
        } else {
            s.offset
        },
        ..s
    }
}

/// One byte of a PAT section before its body.
pub open spec fn pat_field(s: SectionState, b: u8) -> SectionState {
    if s.start || s.pointer_left > 0 {
        pointer_byte(s, b)
    } else if s.prefix_left > 0 {
        let d = SectionState { prefix_left: (s.prefix_left - 1) as u8, ..s };
        if d.prefix_left == 1 {
            SectionState { length: high_nibble(b), ..d }
        } else if d.prefix_left == 0 {
            length_known(d, b, 5)
        } else {
            d
        }
    } else if s.header_left > 0 {
        let d = SectionState {
            length: s.length.wrapping_sub(1),
            header_left: (s.header_left - 1) as u8,
            ..s
        };
        if d.header_left == 1 {
            numbered(d, b)
        } else if d.header_left == 0 {
            SectionState { last: b, copying: true, ..d }
        } else {
            d
        }
    } else {
        s
    }
}

/// One byte of a PMT section before its body: another table id than the PMT's drops the
/// section, and the program descriptors are skipped.
pub open spec fn pmt_field(s: SectionState, b: u8) -> SectionState {
    if s.start || s.pointer_left > 0 {
        pointer_byte(s, b)
    } else if s.prefix_left > 0 {
        let d = SectionState { prefix_left: (s.prefix_left - 1) as u8, ..s };
        if d.prefix_left == 2 {
            if b != 2 {
                SectionState { prefix_left: 0, ..d }
            } else {
                d
            }
        } else if d.prefix_left == 1 {
            SectionState { length: high_nibble(b), ..d }
        } else {
            length_known(d, b, 9)
        }
    } else if s.header_left > 0 {
        let d = SectionState {
            length: s.length.wrapping_sub(1),
            header_left: (s.header_left - 1) as u8,
            ..s
        };
        if d.header_left == 5 {
            numbered(d, b)
        } else if d.header_left == 4 {
            SectionState { last: b, ..d }
        } else if d.header_left == 1 {
            SectionState { info_left: high_nibble(b), ..d }
        } else if d.header_left == 0 {
            let info = d.info_left.wrapping_add(b as u16);
            SectionState { info_left: info, copying: d.copying || info == 0, ..d }
        } else {
            d
        }
    } else if s.info_left > 0 {
        SectionState {
            length: s.length.wrapping_sub(1),
            info_left: (s.info_left - 1) as u16,
            copying: s.copying || s.info_left == 1,
            ..s
        }
    } else {
        s
    }
}

/// One byte of a section's body taken.
pub open spec fn body_byte(s: SectionState) -> SectionState {
    SectionState { offset: s.offset.wrapping_add(1), length: s.length.wrapping_sub(1), ..s }
}

/// Whether the table is complete with a section that is.
pub open spec fn table_complete(s: SectionState) -> bool {
    s.number == s.last
}

/// The PMT's PID after the PAT entries from `k` on, of a table of `bound` bytes: the last
/// entry of program 1 names it.
pub open spec fn pat_walk(table: Seq<u8>, bound: int, k: int, pmt_pid: u16) -> u16
    decreases
            if bound > k {
                bound - k
            } else {
                0
            },
{
    if k >= bound {
        pmt_pid
    } else {
        pat_walk(
            table,
            bound,
            k + 4,
            if byte_or_zero(table, k) == 0 && byte_or_zero(table, k + 1) == 1 {
                pid_at(table, k + 2)
            } else {
                pmt_pid
            },
        )
    }
}

/// A PAT section that is complete: the table's end names the PMT's PID. The last four
/// bytes are a checksum.
pub open spec fn pat_closed(s: SectionState, table: Seq<u8>, pmt_pid: u16) -> (SectionState, u16) {
    (
        SectionState { copying: false, ..s },
        if table_complete(s) {
            pat_walk(table, s.offset - 4, 0, pmt_pid)
        } else {
            pmt_pid
        },
    )
}

/// One byte of the PAT's PID: the state, the buffer and the PMT's PID after it. A
/// section without a body is complete before the byte that comes next.
pub open spec fn pat_byte(s: SectionState, table: Seq<u8>, pmt_pid: u16, b: u8) -> (
    SectionState,
    Seq<u8>,
    u16,
) {
    if s.copying && s.length == 0 {
        let (closed, pid) = pat_closed(s, table, pmt_pid);
        (pat_field(closed, b), table, pid)
    } else if s.copying {
        let d = body_byte(s);
        let filled = put(table, s.offset as int, b);
        if d.length == 0 {
            let (closed, pid) = pat_closed(d, filled, pmt_pid);
            (closed, filled, pid)
        } else {
            (d, filled, pmt_pid)
        }
    } else {
        (pat_field(s, b), table, pmt_pid)
    }
}

/// The byte at `i`, or `0` outside.
pub fn byte_at(buf: &Vec<u8>, i: u64) -> (r: u8)
    ensures
        r == byte_or_zero(buf@, i as int),
{
    if i < buf.len() as u64 {
        buf[i as usize]
    } else {
        0
    }
}

/// A PID from the low five bits of the byte at `i` and the next byte.
pub fn read_pid(buf: &Vec<u8>, i: u64) -> (r: u16)
    requires
        i < u64::MAX,
    ensures
        r == pid_at(buf@, i as int),
{
    (byte_at(buf, i) % 32) as u16 * 0x100 + byte_at(buf, i + 1) as u16
}

/// Puts `b` at `at`, where that lies inside.
pub fn put_byte(buf: &mut Vec<u8>, at: u32, b: u8)
    ensures
        final(buf)@ == put(old(buf)@, at as int, b),
{
    if (at as u64) < buf.len() as u64 {
        buf[at as usize] = b;
    }
}

impl SectionState {
    fn take_pointer_byte(&mut self, b: u8)
        requires
            old(self).start || old(self).pointer_left > 0,
        ensures
            *final(self) == pointer_byte(*old(self), b),
    {
        self.pointer_left = if self.start {
            b
        } else {
            self.pointer_left - 1
        };
        if self.pointer_left == 0 {
            self.prefix_left = 3;
        }
        self.start = false;
    }

    fn know_length(&mut self, b: u8, header: u8)
        ensures
            *final(self) == length_known(*old(self), b, header),
    {
        self.length = self.length.wrapping_add(b as u16);
        if self.length > MAX_SECTION_LENGTH {
            self.length = 0;
        } else {
            self.header_left = header;
        }
    }

    fn take_number(&mut self, b: u8)
        ensures
            *final(self) == numbered(*old(self), b),
    {
        self.number = b;
        if b == 0 {
            self.offset = 0;
        }
    }

    /// Takes one byte of a PAT section before its body.
    fn take_pat_field(&mut self, b: u8)
        ensures
            *final(self) == pat_field(*old(self), b),
    {
        if self.start || self.pointer_left > 0 {
            self.take_pointer_byte(b);
        } else if self.prefix_left > 0 {
            self.prefix_left = self.prefix_left - 1;
            if self.prefix_left == 1 {
                self.length = (b % 16) as u16 * 0x100;
            } else if self.prefix_left == 0 {
                self.know_length(b, 5);
            }
        } else if self.header_left > 0 {
            self.length = self.length.wrapping_sub(1);
            self.header_left = self.header_left - 1;
            if self.header_left == 1 {
                self.take_number(b);
            } else if self.header_left == 0 {
                self.last = b;
                self.copying = true;
            }
        }
    }

    /// Takes one byte of a PMT section before its body.
    pub fn take_pmt_field(&mut self, b: u8)
        ensures
            *final(self) == pmt_field(*old(self), b),
    {
        if self.start || self.pointer_left > 0 {
            self.take_pointer_byte(b);
        } else if self.prefix_left > 0 {
            self.prefix_left = self.prefix_left - 1;
            if self.prefix_left == 2 {
                if b != 2 {
                    self.prefix_left = 0;
                }
            } else if self.prefix_left == 1 {
                self.length = (b % 16) as u16 * 0x100;
            } else {
                self.know_length(b, 9);
            }
        } else if self.header_left > 0 {
            self.length = self.length.wrapping_sub(1);
            self.header_left = self.header_left - 1;
            if self.header_left == 5 {
                self.take_number(b);
            } else if self.header_left == 4 {
                self.last = b;
            } else if self.header_left == 1 {
                self.info_left = (b % 16) as u16 * 0x100;
            } else if self.header_left == 0 {
                self.info_left = self.info_left.wrapping_add(b as u16);
                if self.info_left == 0 {
                    self.copying = true;
                }
            }
        } else if self.info_left > 0 {
            self.length = self.length.wrapping_sub(1);
            self.info_left = self.info_left - 1;
            if self.info_left == 0 {
                self.copying = true;
            }
        }
    }

    /// Takes one byte of a section's body.
    pub fn take_body_byte(&mut self)
        ensures
            *final(self) == body_byte(*old(self)),
    {
        self.offset = self.offset.wrapping_add(1);
        self.length = self.length.wrapping_sub(1);
    }

    /// Closes a PAT section, and returns the PMT's PID.
    fn close_pat(&mut self, table: &Vec<u8>, pmt_pid: u16) -> (r: u16)
        ensures
            (*final(self), r) == pat_closed(*old(self), table@, pmt_pid),
    {
        self.copying = false;
        let mut found: u16 = pmt_pid;
        if self.number == self.last && self.offset >= 4 {
            let bound: u64 = self.offset as u64 - 4;
            let mut k: u64 = 0;
            while k < bound
                invariant
                    k <= bound + 4,
                    bound <= u32::MAX,
                    pat_walk(table@, bound as int, k as int, found) == pat_walk(
                        table@,
                        bound as int,
                        0,
                        pmt_pid,
                    ),
                decreases bound + 4 - k,
            {
                if byte_at(table, k) == 0 && byte_at(table, k + 1) == 1 {
                    found = read_pid(table, k + 2);
                }
                k = k + 4;
            }
        }
        found
    }
}

/// Takes one byte of the PAT's PID, and returns the PMT's PID.
pub fn parse_pat(s: &mut SectionState, table: &mut Vec<u8>, pmt_pid: u16, b: u8) -> (r: u16)
    ensures
        (*final(s), final(table)@, r) == pat_byte(*old(s), old(table)@, pmt_pid, b),
{
    if s.copying && s.length == 0 {
        let found: u16 = s.close_pat(table, pmt_pid);
        s.take_pat_field(b);
        found
    } else if s.copying {
        put_byte(table, s.offset, b);
        s.take_body_byte();
        if s.length == 0 {
            s.close_pat(table, pmt_pid)
        } else {
            pmt_pid
        }
    } else {
        s.take_pat_field(b);
        pmt_pid
    }
}

/// A PAT without an entry of program 1 leaves the PMT's PID as it was, and one whose
/// last entry is that of program 1 names it.
pub proof fn lemma_pat_walk_names_program_one(table: Seq<u8>, bound: int, k: int, pmt_pid: u16)
    requires
        0 <= k,
    ensures
        (forall|i: int|
            0 <= i && k + 4 * i < bound ==> !(byte_or_zero(table, #[trigger] (k + 4 * i)) == 0
                && byte_or_zero(table, k + 4 * i + 1) == 1)) ==> pat_walk(
            table,
            bound,
            k,
            pmt_pid,
        ) == pmt_pid,
        k < bound <= k + 4 && byte_or_zero(table, k) == 0 && byte_or_zero(table, k + 1) == 1
            ==> pat_walk(table, bound, k, pmt_pid) == pid_at(table, k + 2),
    decreases
            if bound > k {
                bound - k
            } else {
                0
            },
{
    if k < bound {
        if forall|i: int|
            0 <= i && k + 4 * i < bound ==> !(byte_or_zero(table, #[trigger] (k + 4 * i)) == 0
                && byte_or_zero(table, k + 4 * i + 1) == 1) {
            assert(!(byte_or_zero(table, k + 4 * 0) == 0 && byte_or_zero(table, k + 4 * 0 + 1)
                == 1));
            assert forall|i: int|
                0 <= i && (k + 4) + 4 * i < bound implies !(byte_or_zero(
                table,
                #[trigger] ((k + 4) + 4 * i),
            ) == 0 && byte_or_zero(table, (k + 4) + 4 * i + 1) == 1) by {
                assert(!(byte_or_zero(table, k + 4 * (i + 1)) == 0 && byte_or_zero(
                    table,
                    k + 4 * (i + 1) + 1,
                ) == 1));
            }
        }
        lemma_pat_walk_names_program_one(table, bound, k + 4, pmt_pid);
        assert(k + 4 >= bound ==> pat_walk(table, bound, k + 4, pid_at(table, k + 2)) == pid_at(
            table,
            k + 2,
        ));
    }
}

} // verus!
