//! Commands understood by the controller and their byte encodings.
//!
//! Every command is a stateless value with exactly one encoding, given by
//! [`Command::spec_encode`] and computed by [`Command::encode`]. Sending a
//! command frames each encoded byte as its own command transfer.

use vstd::prelude::*;

use crate::transport::{cmd_transfers, sent, Write};
use crate::RangeError;

verus! {

/// Commands accepted by the controller.
#[derive(Clone, Copy, Debug)]
pub enum Command {
    /// Set contrast. Higher number is higher contrast. Default = 0x7F.
    Contrast(u8),
    /// Turn the entire display on. If set, all pixels are lit; if not, the
    /// value in memory is shown.
    AllOn(bool),
    /// Invert the display.
    Invert(bool),
    /// Turn the display on or off.
    DisplayOn(bool),
    /// Set up horizontal scrolling: direction, start page, end page, and
    /// frame interval per step.
    HScrollSetup(HScrollDir, Page, Page, NFrames),
    /// Set up combined vertical and horizontal scrolling: direction, start
    /// page, end page, frame interval per step, and vertical offset (0-63).
    VHScrollSetup(VHScrollDir, Page, Page, NFrames, u8),
    /// Enable or disable scrolling.
    EnableScroll(bool),
    /// Set up the vertical scroll area: rows above the area (0-63) and rows
    /// of scrolling (0-64).
    VScrollArea(u8, u8),
    /// Set the lower nibble of the column start address register, for page
    /// addressing mode only. Uses the lower 4 bits given.
    LowerColStart(u8),
    /// Set the upper nibble of the column start address register, for page
    /// addressing mode only. Uses the lower bits given.
    UpperColStart(u8),
    /// Set the memory addressing mode.
    AddressMode(AddrMode),
    /// Set the column start and end address (0-127), for horizontal or
    /// vertical addressing mode only.
    ColumnAddress(u8, u8),
    /// Set the page start and end address, for horizontal or vertical
    /// addressing mode only.
    PageAddress(Page, Page),
    /// Set the GDDRAM page start address, for page addressing mode only.
    PageStart(Page),
    /// Set the display start line (0-63).
    StartLine(u8),
    /// Map column address 127 to segment 0 instead of column address 0.
    SegmentRemap(bool),
    /// Set the multiplex ratio (MUX - 1, from 15 to 63).
    Multiplex(u8),
    /// Scan from COM[N-1] to COM0 (where N is the multiplex ratio).
    ReverseComDir(bool),
    /// Set the vertical shift.
    DisplayOffset(u8),
    /// Set the COM hardware configuration: sequential (false) or alternative
    /// (true) pin configuration, and left/right remap off (false) or on
    /// (true).
    ComPinConfig(bool, bool),
    /// Set up the display clock: oscillator frequency (higher value is
    /// faster) and divide ratio minus one.
    DisplayClockDiv(u8, u8),
    /// Set phases 1 and 2 of the precharge period, each 0-15.
    PreChargePeriod(u8, u8),
    /// Set the Vcomh deselect level.
    VcomhDeselect(VcomhLevel),
    /// No operation.
    Noop,
    /// Enable or disable the charge pump.
    ChargePump(bool),
}

/// Horizontal scroll direction.
#[derive(Clone, Copy, Debug, PartialEq, Eq, Structural)]
pub enum HScrollDir {
    /// Left to right.
    LeftToRight,
    /// Right to left.
    RightToLeft,
}

/// Combined vertical and horizontal scroll direction.
#[derive(Clone, Copy, Debug, PartialEq, Eq, Structural)]
pub enum VHScrollDir {
    /// Vertical and right horizontal.
    VerticalRight,
    /// Vertical and left horizontal.
    VerticalLeft,
}

/// One 8-row horizontal band of the display's memory.
#[derive(Clone, Copy, Debug, PartialEq, Eq, Structural)]
pub enum Page {
    /// Page 0.
    Page0,
    /// Page 1.
    Page1,
    /// Page 2.
    Page2,
    /// Page 3.
    Page3,
    /// Page 4.
    Page4,
    /// Page 5.
    Page5,
    /// Page 6.
    Page6,
    /// Page 7.
    Page7,
}

/// Scroll step frame interval.
#[derive(Clone, Copy, Debug, PartialEq, Eq, Structural)]
pub enum NFrames {
    /// 2 frames.
    F2,
    /// 3 frames.
    F3,
    /// 4 frames.
    F4,
    /// 5 frames.
    F5,
    /// 25 frames.
    F25,
    /// 64 frames.
    F64,
    /// 128 frames.
    F128,
    /// 256 frames.
    F256,
}

/// Memory addressing mode.
#[derive(Clone, Copy, Debug, PartialEq, Eq, Structural)]
pub enum AddrMode {
    /// Horizontal mode.
    Horizontal,
    /// Vertical mode.
    Vertical,
    /// Page mode (the controller's default).
    Page,
}

/// Vcomh deselect level.
#[derive(Clone, Copy, Debug, PartialEq, Eq, Structural)]
pub enum VcomhLevel {
    /// 0.65 * Vcc.
    V065,
    /// 0.77 * Vcc.
    V077,
    /// 0.83 * Vcc.
    V083,
    /// Auto.
    Auto,
}

/// The bit a boolean contributes to a command byte.
pub open spec fn flag_bit(on: bool) -> u8 {
    if on {
        1
    } else {
        0
    }
}

fn flag(on: bool) -> (r: u8)
    ensures
        r == flag_bit(on),
{
    if on {
        1
    } else {
        0
    }
}

impl HScrollDir {
    /// The ordinal this direction encodes as.
    pub open spec fn spec_value(self) -> u8 {
        match self {
            HScrollDir::LeftToRight => 0,
            HScrollDir::RightToLeft => 1,
        }
    }

    /// The ordinal this direction encodes as.
    pub fn value(self) -> (r: u8)
        ensures
            r == self.spec_value(),
            r <= 1,
    {
        match self {
            HScrollDir::LeftToRight => 0,
            HScrollDir::RightToLeft => 1,
        }
    }
}

impl VHScrollDir {
    /// The ordinal this direction encodes as.
    pub open spec fn spec_value(self) -> u8 {
        match self {
            VHScrollDir::VerticalRight => 1,
            VHScrollDir::VerticalLeft => 2,
        }
    }

    /// The ordinal this direction encodes as.
    pub fn value(self) -> (r: u8)
        ensures
            r == self.spec_value(),
            r <= 2,
    {
        match self {
            VHScrollDir::VerticalRight => 1,
            VHScrollDir::VerticalLeft => 2,
        }
    }
}

impl Page {
    /// The ordinal of this page, 0 through 7.
    pub open spec fn spec_value(self) -> u8 {
        match self {
            Page::Page0 => 0,
            Page::Page1 => 1,
            Page::Page2 => 2,
            Page::Page3 => 3,
            Page::Page4 => 4,
            Page::Page5 => 5,
            Page::Page6 => 6,
            Page::Page7 => 7,
        }
    }

    /// The ordinal of this page, 0 through 7.
    pub fn value(self) -> (r: u8)
        ensures
            r == self.spec_value(),
            r <= 7,
    {
        match self {
            Page::Page0 => 0,
            Page::Page1 => 1,
            Page::Page2 => 2,
            Page::Page3 => 3,
            Page::Page4 => 4,
            Page::Page5 => 5,
            Page::Page6 => 6,
            Page::Page7 => 7,
        }
    }

    /// The page that owns row `row`, for rows below 64.
    pub open spec fn spec_of_row(row: u8) -> Page {
        if row < 8 {
            Page::Page0
        } else if row < 16 {
            Page::Page1
        } else if row < 24 {
            Page::Page2
        } else if row < 32 {
            Page::Page3
        } else if row < 40 {
            Page::Page4
        } else if row < 48 {
            Page::Page5
        } else if row < 56 {
            Page::Page6
        } else {
            Page::Page7
        }
    }

    /// The page that owns row `row`: `row / 8`, or a range error for rows
    /// beyond the last page.
    pub fn from_row(row: u8) -> (r: Result<Page, RangeError>)
        ensures
            r == (if row < 64 {
                Ok::<Page, RangeError>(Page::spec_of_row(row))
            } else {
                Err::<Page, RangeError>(RangeError::PageOutOfRange)
            }),
            row < 64 ==> Page::spec_of_row(row).spec_value() == row / 8,
    {
        match row / 8 {
            0 => Ok(Page::Page0),
            1 => Ok(Page::Page1),
            2 => Ok(Page::Page2),
            3 => Ok(Page::Page3),
            4 => Ok(Page::Page4),
            5 => Ok(Page::Page5),
            6 => Ok(Page::Page6),
            7 => Ok(Page::Page7),
            _ => Err(RangeError::PageOutOfRange),
        }
    }
}

impl NFrames {
    /// The ordinal this frame interval encodes as.
    pub open spec fn spec_value(self) -> u8 {
        match self {
            NFrames::F2 => 7,
            NFrames::F3 => 4,
            NFrames::F4 => 5,
            NFrames::F5 => 0,
            NFrames::F25 => 6,
            NFrames::F64 => 1,
            NFrames::F128 => 2,
            NFrames::F256 => 3,
        }
    }

    /// The ordinal this frame interval encodes as.
    pub fn value(self) -> (r: u8)
        ensures
            r == self.spec_value(),
            r <= 7,
    {
        match self {
            NFrames::F2 => 7,
            NFrames::F3 => 4,
            NFrames::F4 => 5,
            NFrames::F5 => 0,
            NFrames::F25 => 6,
            NFrames::F64 => 1,
            NFrames::F128 => 2,
            NFrames::F256 => 3,
        }
    }
}

impl AddrMode {
    /// The ordinal this mode encodes as.
    pub open spec fn spec_value(self) -> u8 {
        match self {
            AddrMode::Horizontal => 0,
            AddrMode::Vertical => 1,
            AddrMode::Page => 2,
        }
    }

    /// The ordinal this mode encodes as.
    pub fn value(self) -> (r: u8)
        ensures
            r == self.spec_value(),
            r <= 2,
    {
        match self {
            AddrMode::Horizontal => 0,
            AddrMode::Vertical => 1,
            AddrMode::Page => 2,
        }
    }
}

impl VcomhLevel {
    /// The ordinal this level encodes as.
    pub open spec fn spec_value(self) -> u8 {
        match self {
            VcomhLevel::V065 => 1,
            VcomhLevel::V077 => 2,
            VcomhLevel::V083 => 3,
            VcomhLevel::Auto => 4,
        }
    }

    /// The ordinal this level encodes as.
    pub fn value(self) -> (r: u8)
        ensures
            r == self.spec_value(),
            r <= 4,
    {
        match self {
            VcomhLevel::V065 => 1,
            VcomhLevel::V077 => 2,
            VcomhLevel::V083 => 3,
            VcomhLevel::Auto => 4,
        }
    }
}

impl Command {
    /// The exact command bytes this command encodes to: always at least one
    /// byte. Boolean fields contribute the bits shown in the controller's
    /// documentation; enumeration fields contribute their ordinals.
    pub open spec fn spec_encode(self) -> Seq<u8> {
        match self {
            Command::Contrast(v) => seq![0x81u8, v],
            Command::AllOn(on) => seq![(0xA4 + flag_bit(on)) as u8],
            Command::Invert(inv) => seq![(0xA6 + flag_bit(inv)) as u8],
            Command::DisplayOn(on) => seq![(0xAE + flag_bit(on)) as u8],
            Command::HScrollSetup(dir, start, end, rate) => seq![
                (0x26 + dir.spec_value()) as u8,
                0u8,
                start.spec_value(),
                rate.spec_value(),
                end.spec_value(),
                0u8,
                0xFFu8,
            ],
            Command::VHScrollSetup(dir, start, end, rate, offset) => seq![
                (0x28 + dir.spec_value()) as u8,
                0u8,
                start.spec_value(),
                rate.spec_value(),
                end.spec_value(),
                offset,
            ],
            Command::EnableScroll(en) => seq![(0x2E + flag_bit(en)) as u8],
            Command::VScrollArea(above, lines) => seq![0xA3u8, above, lines],
            Command::LowerColStart(v) => seq![(v % 16) as u8],
            Command::UpperColStart(v) => seq![(v % 32) as u8],
            Command::AddressMode(mode) => seq![0x20u8, mode.spec_value()],
            Command::ColumnAddress(start, end) => seq![0x21u8, start, end],
            Command::PageAddress(start, end) => seq![
                0x22u8,
                start.spec_value(),
                end.spec_value(),
            ],
            Command::PageStart(page) => seq![(0xB0 + page.spec_value()) as u8],
            Command::StartLine(line) => seq![(0x40 + line % 64) as u8],
            Command::SegmentRemap(remap) => seq![(0xA0 + flag_bit(remap)) as u8],
            Command::Multiplex(ratio) => seq![0xA8u8, ratio],
            Command::ReverseComDir(rev) => seq![(0xC0 + flag_bit(rev) * 8) as u8],
            Command::DisplayOffset(offset) => seq![0xD3u8, offset],
            Command::ComPinConfig(alt, lr) => seq![
                0xDAu8,
                (0x02 + flag_bit(alt) * 16 + flag_bit(lr) * 32) as u8,
            ],
            Command::DisplayClockDiv(fosc, div) => seq![
                0xD5u8,
                ((fosc % 16) * 16 + div % 16) as u8,
            ],
            Command::PreChargePeriod(phase1, phase2) => seq![
                0xD9u8,
                ((phase2 % 16) * 16 + phase1 % 16) as u8,
            ],
            Command::VcomhDeselect(level) => seq![0xDBu8, (level.spec_value() * 16) as u8],
            Command::Noop => seq![0xE3u8],
            Command::ChargePump(en) => seq![0x8Du8, (0x10 + flag_bit(en) * 4) as u8],
        }
    }

    /// Compute the command bytes. Accepts the full input domain and always
    /// yields at least one byte.
    pub fn encode(&self) -> (r: Vec<u8>)
        ensures
            r@ == self.spec_encode(),
            r@.len() >= 1,
    {
        let mut out: Vec<u8> = Vec::new();
        match *self {
            Command::Contrast(v) => {
                out.push(0x81);
                out.push(v);
                assert(out@ =~= self.spec_encode());
            },
            Command::AllOn(on) => {
                out.push(0xA4 + flag(on));
                assert(out@ =~= self.spec_encode());
            },
            Command::Invert(inv) => {
                out.push(0xA6 + flag(inv));
                assert(out@ =~= self.spec_encode());
            },
            Command::DisplayOn(on) => {
                out.push(0xAE + flag(on));
                assert(out@ =~= self.spec_encode());
            },
            Command::HScrollSetup(dir, start, end, rate) => {
                out.push(0x26 + dir.value());
                out.push(0);
                out.push(start.value());
                out.push(rate.value());
                out.push(end.value());
                out.push(0);
                out.push(0xFF);
                assert(out@ =~= self.spec_encode());
            },
            Command::VHScrollSetup(dir, start, end, rate, offset) => {
                out.push(0x28 + dir.value());
                out.push(0);
                out.push(start.value());
                out.push(rate.value());
                out.push(end.value());
                out.push(offset);
                assert(out@ =~= self.spec_encode());
            },
            Command::EnableScroll(en) => {
                out.push(0x2E + flag(en));
                assert(out@ =~= self.spec_encode());
            },
            Command::VScrollArea(above, lines) => {
                out.push(0xA3);
                out.push(above);
                out.push(lines);
                assert(out@ =~= self.spec_encode());
            },
            Command::LowerColStart(v) => {
                out.push(v % 16);
                assert(out@ =~= self.spec_encode());
            },
            Command::UpperColStart(v) => {
                out.push(v % 32);
                assert(out@ =~= self.spec_encode());
            },
            Command::AddressMode(mode) => {
                out.push(0x20);
                out.push(mode.value());
                assert(out@ =~= self.spec_encode());
            },
            Command::ColumnAddress(start, end) => {
                out.push(0x21);
                out.push(start);
                out.push(end);
                assert(out@ =~= self.spec_encode());
            },
            Command::PageAddress(start, end) => {
                out.push(0x22);
                out.push(start.value());
                out.push(end.value());
                assert(out@ =~= self.spec_encode());
            },
            Command::PageStart(page) => {
                out.push(0xB0 + page.value());
                assert(out@ =~= self.spec_encode());
            },
            Command::StartLine(line) => {
                out.push(0x40 + line % 64);
                assert(out@ =~= self.spec_encode());
            },
            Command::SegmentRemap(remap) => {
                out.push(0xA0 + flag(remap));
                assert(out@ =~= self.spec_encode());
            },
            Command::Multiplex(ratio) => {
                out.push(0xA8);
                out.push(ratio);
                assert(out@ =~= self.spec_encode());
            },
            Command::ReverseComDir(rev) => {
                out.push(0xC0 + flag(rev) * 8);
                assert(out@ =~= self.spec_encode());
            },
            Command::DisplayOffset(offset) => {
                out.push(0xD3);
                out.push(offset);
                assert(out@ =~= self.spec_encode());
            },
            Command::ComPinConfig(alt, lr) => {
                out.push(0xDA);
                out.push(0x02 + flag(alt) * 16 + flag(lr) * 32);
                assert(out@ =~= self.spec_encode());
            },
            Command::DisplayClockDiv(fosc, div) => {
                out.push(0xD5);
                out.push((fosc % 16) * 16 + div % 16);
                assert(out@ =~= self.spec_encode());
            },
            Command::PreChargePeriod(phase1, phase2) => {
                out.push(0xD9);
                out.push((phase2 % 16) * 16 + phase1 % 16);
                assert(out@ =~= self.spec_encode());
            },
            Command::VcomhDeselect(level) => {
                out.push(0xDB);
                out.push(level.value() * 16);
                assert(out@ =~= self.spec_encode());
            },
            Command::Noop => {
                out.push(0xE3);
                assert(out@ =~= self.spec_encode());
            },
            Command::ChargePump(en) => {
                out.push(0x8D);
                out.push(0x10 + flag(en) * 4);
                assert(out@ =~= self.spec_encode());
            },
        }
        out
    }

    /// Send this command: every encoded byte goes out as one command-framed
    /// transfer, in encoding order, and a bus error aborts at the failing
    /// byte.
    #[verifier::loop_isolation(false)]
    pub fn send<I2C: Write>(&self, i2c: &mut I2C, addr: u8) -> (r: Result<(), I2C::Error>)
        ensures
            sent(
                old(i2c).transfers(),
                final(i2c).transfers(),
                cmd_transfers(addr, self.spec_encode()),
                r is Ok,
            ),
    {
        let bytes = self.encode();
        let ghost pre = i2c.transfers();
        let ghost enc = self.spec_encode();
        proof {
            assert(pre + cmd_transfers(addr, enc.take(0)) =~~= pre);
        }
        let mut k: usize = 0;
        while k < bytes.len()
            invariant
                bytes@ == enc,
                k <= enc.len(),
                i2c.transfers() == pre + cmd_transfers(addr, enc.take(k as int)),
            decreases enc.len() - k,
        {
            match i2c.write_cmd(addr, bytes[k]) {
                Ok(()) => {
                    proof {
                        assert(cmd_transfers(addr, enc.take(k as int + 1)) =~~= cmd_transfers(
                            addr,
                            enc.take(k as int),
                        ).push((addr, seq![0x00u8, enc[k as int]])));
                        assert(i2c.transfers() =~~= pre + cmd_transfers(
                            addr,
                            enc.take(k as int + 1),
                        ));
                    }
                },
                Err(e) => {
                    proof {
                        assert(i2c.transfers() =~~= pre + cmd_transfers(addr, enc.take(k as int)));
                        assert(cmd_transfers(addr, enc).take(k as int) =~~= cmd_transfers(
                            addr,
                            enc.take(k as int),
                        ));
                    }
                    return Err(e);
                },
            }
            k += 1;
        }
        proof {
            assert(enc.take(enc.len() as int) =~= enc);
            assert(cmd_transfers(addr, enc).take(cmd_transfers(addr, enc).len() as int)
                =~~= cmd_transfers(addr, enc));
        }
        Ok(())
    }
}

} // verus!
