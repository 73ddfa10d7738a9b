//! Driver core for the SSD1306 monochrome display controller.
//!
//! The crate translates high-level display operations (clear, set or invert a
//! pixel, push a frame) into the controller's documented command and data byte
//! sequences, and manages the chunked bus transfers the underlying transport
//! requires. Platform capabilities (the bus write primitive, a reset pin, a
//! millisecond delay) are abstracted as traits so the driver logic itself is
//! verified against their contracts.

pub mod cmd;
pub mod framebuffer;
pub mod platform;
pub mod transport;

use vstd::prelude::*;

use crate::cmd::{AddrMode, Command, Page, VcomhLevel};
use crate::framebuffer::{
    bit_of, byte_index, frame_with_pixel_off, frame_with_pixel_on, frame_with_pixel_toggled,
    lemma_bit_cleared, lemma_bit_set, lemma_bit_toggled, lemma_byte_index_bounds,
    lemma_byte_index_small, lemma_pixel_update_localized, spec_pixel, with_bit_cleared,
    with_bit_set, with_bit_toggled,
};
use crate::platform::{DelayMs, OutputPin};
use crate::transport::{
    cmd_transfers, data_transfers, lemma_sent_abort, lemma_sent_extend, sent, Transfer, Write,
};

verus! {

/// Default bus address of the controller.
pub const ADDRESS: u8 = 0x3C;

/// A range or precondition violation reported by the driver instead of a panic.
#[derive(Clone, Copy, Debug, PartialEq, Eq, Structural)]
pub enum RangeError {
    /// A pixel coordinate lies outside the display dimensions.
    PixelOutOfBounds,
    /// A row coordinate maps beyond the last memory page.
    PageOutOfRange,
}

/// The fixed configuration sequence `init` issues, in order.
pub open spec fn init_commands(height: u8) -> Seq<Command> {
    seq![
        Command::DisplayOn(false),
        Command::DisplayClockDiv(0x8, 0x0),
        Command::Multiplex((height - 1) as u8),
        Command::DisplayOffset(0),
        Command::StartLine(0),
        Command::ChargePump(true),
        Command::AddressMode(AddrMode::Horizontal),
        Command::SegmentRemap(true),
        Command::ReverseComDir(true),
        Command::ComPinConfig(false, false),
        Command::Contrast(0x8F),
        Command::PreChargePeriod(0x1, 0xF),
        Command::VcomhDeselect(VcomhLevel::Auto),
        Command::AllOn(false),
        Command::Invert(false),
        Command::EnableScroll(false),
        Command::DisplayOn(true),
    ]
}

/// The concatenated encodings of a sequence of commands.
pub open spec fn encode_all(cmds: Seq<Command>) -> Seq<u8>
    decreases cmds.len(),
{
    if cmds.len() == 0 {
        Seq::empty()
    } else {
        cmds[0].spec_encode() + encode_all(cmds.skip(1))
    }
}

/// The command bytes of the whole configuration sequence.
pub open spec fn init_bytes(height: u8) -> Seq<u8> {
    encode_all(init_commands(height))
}

/// The concatenated encodings split at every command boundary.
proof fn lemma_encode_all_split(cmds: Seq<Command>, j: int)
    requires
        0 <= j <= cmds.len(),
    ensures
        encode_all(cmds) == encode_all(cmds.take(j)) + encode_all(cmds.skip(j)),
    decreases j,
{
    if j == 0 {
        assert(cmds.take(0) =~= Seq::<Command>::empty());
        assert(cmds.skip(0) =~= cmds);
        assert(encode_all(cmds.take(0)) + encode_all(cmds) =~= encode_all(cmds));
    } else {
        let rest = cmds.skip(1);
        lemma_encode_all_split(rest, j - 1);
        assert(cmds.take(j).skip(1) =~= rest.take(j - 1));
        assert(rest.skip(j - 1) =~= cmds.skip(j));
        assert(cmds.take(j)[0] == cmds[0]);
        assert(encode_all(cmds.take(j)) + encode_all(cmds.skip(j)) =~= cmds[0].spec_encode() + (
        encode_all(rest.take(j - 1)) + encode_all(rest.skip(j - 1))));
    }
}

/// Appending one command appends its encoding.
proof fn lemma_encode_all_snoc(cmds: Seq<Command>, j: int)
    requires
        0 <= j < cmds.len(),
    ensures
        encode_all(cmds.take(j + 1)) == encode_all(cmds.take(j)) + cmds[j].spec_encode(),
{
    lemma_encode_all_split(cmds.take(j + 1), j);
    assert(cmds.take(j + 1).take(j) =~= cmds.take(j));
    assert(cmds.take(j + 1).skip(j) =~= seq![cmds[j]]);
    assert(seq![cmds[j]].skip(1) =~= Seq::<Command>::empty());
    assert(cmds[j].spec_encode() + encode_all(Seq::<Command>::empty()) =~= cmds[j].spec_encode());
}

/// A frame of at most 8 pages of at most 128 bytes fits comfortably in
/// memory.
proof fn lemma_frame_len_small(pages: int, width: int)
    by (nonlinear_arith)
    requires
        0 <= pages <= 8,
        0 <= width <= 128,
    ensures
        pages * width <= 1024,
{
}

/// The transfers a draw of the whole frame produces: the column-address
/// command, the page-address command, then the frame as chunked display data.
pub open spec fn draw_transfers(addr: u8, width: u8, height: u8, frame: Seq<u8>) -> Seq<Transfer> {
    cmd_transfers(addr, seq![0x21u8, 0u8, (width - 1) as u8]) + cmd_transfers(
        addr,
        seq![0x22u8, 0u8, ((height - 1) as int / 8) as u8],
    ) + data_transfers(addr, frame)
}

/// A session with one SSD1306 controller: its bus address, its dimensions,
/// the owned transport, and the in-memory frame pushed to the device by
/// `draw`.
pub struct Ssd1306<I2C> {
    addr: u8,
    width: u8,
    height: u8,
    i2c: I2C,
    buf: Vec<u8>,
}

impl<I2C: Write> Ssd1306<I2C> {
    /// The bus address the controller is written at.
    pub closed spec fn spec_addr(&self) -> u8 {
        self.addr
    }

    /// The display width in pixels.
    pub closed spec fn spec_width(&self) -> u8 {
        self.width
    }

    /// The display height in pixels.
    pub closed spec fn spec_height(&self) -> u8 {
        self.height
    }

    /// The packed frame held in memory.
    pub closed spec fn frame(&self) -> Seq<u8> {
        self.buf@
    }

    /// The transfers the owned transport has received.
    pub closed spec fn transfers(&self) -> Seq<Transfer> {
        self.i2c.transfers()
    }

    /// Well-formed: dimensions the controller supports, and a frame of
    /// exactly one byte per column per page.
    pub closed spec fn wf(&self) -> bool {
        &&& 1 <= self.width <= 128
        &&& 8 <= self.height <= 64
        &&& self.height % 8 == 0
        &&& self.buf@.len() == (self.height as int / 8) * (self.width as int)
    }

    /// Create a session: take ownership of the transport and start from an
    /// all-zero frame. The dimensions must fit the controller's paged memory:
    /// at most 128 columns, and a height that is a multiple of 8 rows up to
    /// 64.
    #[verifier::loop_isolation(false)]
    pub fn new(i2c: I2C, addr: u8, width: u8, height: u8) -> (r: Ssd1306<I2C>)
        requires
            1 <= width <= 128,
            8 <= height <= 64,
            height % 8 == 0,
        ensures
            r.wf(),
            r.spec_addr() == addr,
            r.spec_width() == width,
            r.spec_height() == height,
            r.transfers() == i2c.transfers(),
            r.frame().len() == (height as int / 8) * (width as int),
            forall|k: int| 0 <= k < r.frame().len() ==> r.frame()[k] == 0u8,
    {
        let pages = (height / 8) as usize;
        proof {
            lemma_frame_len_small(pages as int, width as int);
        }
        let n = pages * (width as usize);
        let mut buf: Vec<u8> = Vec::new();
        while buf.len() < n
            invariant
                buf@.len() <= n,
                forall|k: int| 0 <= k < buf@.len() ==> buf@[k] == 0u8,
            decreases n - buf@.len(),
        {
            buf.push(0);
        }
        Ssd1306 { addr, width, height, i2c, buf }
    }

    /// The packed frame as `draw` streams it: page-major, column fastest.
    pub fn as_bytes(&self) -> (r: &Vec<u8>)
        ensures
            r@ == self.frame(),
    {
        &self.buf
    }

    /// End the session and hand the transport back.
    pub fn free(self) -> (r: I2C)
        ensures
            r.transfers() == self.transfers(),
    {
        self.i2c
    }

    /// Reset the controller through its reset line: drive it high, pause
    /// 1 ms, drive it low, pause 10 ms, then drive it high again. Both
    /// resources are handed back when the procedure is done.
    pub fn reset<RST: OutputPin, DELAY: DelayMs>(&mut self, rst: RST, delay: DELAY) -> (r: (
        RST,
        DELAY,
    ))
        ensures
            r.0.levels() == rst.levels() + seq![true, false, true],
            r.1.pauses() == delay.pauses() + seq![1u8, 10u8],
            *final(self) == *old(self),
    {
        let mut pin = rst;
        let mut wait = delay;
        let ghost pin0 = pin.levels();
        let ghost wait0 = wait.pauses();
        pin.set_high();
        wait.delay_ms(1);
        pin.set_low();
        wait.delay_ms(10);
        pin.set_high();
        proof {
            assert(pin.levels() =~= pin0 + seq![true, false, true]);
            assert(wait.pauses() =~= wait0 + seq![1u8, 10u8]);
        }
        (pin, wait)
    }

    /// Send one command to the controller at this session's address.
    fn send_command(&mut self, cmd: Command) -> (r: Result<(), I2C::Error>)
        ensures
            sent(
                old(self).transfers(),
                final(self).transfers(),
                cmd_transfers(old(self).spec_addr(), cmd.spec_encode()),
                r is Ok,
            ),
            final(self).spec_addr() == old(self).spec_addr(),
            final(self).spec_width() == old(self).spec_width(),
            final(self).spec_height() == old(self).spec_height(),
            final(self).frame() == old(self).frame(),
            final(self).wf() <==> old(self).wf(),
    {
        cmd.send(&mut self.i2c, self.addr)
    }

    /// Initialize the display: issue the fixed 17-command configuration
    /// sequence, as command-framed transfers in the documented order. A bus
    /// error aborts the sequence at the failing byte and surfaces verbatim.
    #[verifier::loop_isolation(false)]
    pub fn init(&mut self) -> (r: Result<(), I2C::Error>)
        requires
            old(self).wf(),
        ensures
            final(self).wf(),
            final(self).spec_addr() == old(self).spec_addr(),
            final(self).spec_width() == old(self).spec_width(),
            final(self).spec_height() == old(self).spec_height(),
            final(self).frame() == old(self).frame(),
            sent(
                old(self).transfers(),
                final(self).transfers(),
                cmd_transfers(old(self).spec_addr(), init_bytes(old(self).spec_height())),
                r is Ok,
            ),
    {
        let mpx = self.height - 1;
        let mut cmds: Vec<Command> = Vec::new();
        cmds.push(Command::DisplayOn(false));
        cmds.push(Command::DisplayClockDiv(0x8, 0x0));
        cmds.push(Command::Multiplex(mpx));
        cmds.push(Command::DisplayOffset(0));
        cmds.push(Command::StartLine(0));
        cmds.push(Command::ChargePump(true));
        cmds.push(Command::AddressMode(AddrMode::Horizontal));
        cmds.push(Command::SegmentRemap(true));
        cmds.push(Command::ReverseComDir(true));
        cmds.push(Command::ComPinConfig(false, false));
        cmds.push(Command::Contrast(0x8F));
        cmds.push(Command::PreChargePeriod(0x1, 0xF));
        cmds.push(Command::VcomhDeselect(VcomhLevel::Auto));
        cmds.push(Command::AllOn(false));
        cmds.push(Command::Invert(false));
        cmds.push(Command::EnableScroll(false));
        cmds.push(Command::DisplayOn(true));
        let ghost plan = init_commands(old(self).spec_height());
        proof {
            assert(cmds@ =~= plan);
        }
        let ghost pre = self.transfers();
        let ghost a = self.addr;
        proof {
            assert(pre + cmd_transfers(a, encode_all(plan.take(0))) =~~= pre);
        }
        let mut j: usize = 0;
        while j < cmds.len()
            invariant
                cmds@ == plan,
                j <= plan.len(),
                self.addr == old(self).spec_addr(),
                self.width == old(self).spec_width(),
                self.height == old(self).spec_height(),
                self.buf@ == old(self).frame(),
                self.wf(),
                self.transfers() == pre + cmd_transfers(a, encode_all(plan.take(j as int))),
            decreases plan.len() - j,
        {
            let c = cmds[j];
            let ghost done = cmd_transfers(a, encode_all(plan.take(j as int)));
            let ghost ej = cmd_transfers(a, c.spec_encode());
            match self.send_command(c) {
                Ok(()) => {
                    proof {
                        lemma_encode_all_snoc(plan, j as int);
                        assert(ej.take(ej.len() as int) =~= ej);
                        assert(self.transfers() =~~= pre + cmd_transfers(
                            a,
                            encode_all(plan.take(j as int + 1)),
                        ));
                    }
                },
                Err(e) => {
                    proof {
                        lemma_sent_extend(pre, self.transfers(), done, ej, false);
                        lemma_encode_all_snoc(plan, j as int);
                        assert(done + ej =~~= cmd_transfers(a, encode_all(plan.take(j as int + 1))));
                        lemma_encode_all_split(plan, j as int + 1);
                        assert(cmd_transfers(a, init_bytes(old(self).spec_height())) =~~= cmd_transfers(
                            a,
                            encode_all(plan.take(j as int + 1)),
                        ) + cmd_transfers(a, encode_all(plan.skip(j as int + 1))));
                        lemma_sent_abort(
                            pre,
                            self.transfers(),
                            cmd_transfers(a, encode_all(plan.take(j as int + 1))),
                            cmd_transfers(a, encode_all(plan.skip(j as int + 1))),
                        );
                    }
                    return Err(e);
                },
            }
            j += 1;
        }
        proof {
            assert(plan.take(plan.len() as int) =~= plan);
            let full = cmd_transfers(a, init_bytes(old(self).spec_height()));
            assert(full.take(full.len() as int) =~= full);
        }
        Ok(())
    }

    /// Clear the in-memory frame: every byte becomes zero. Nothing is sent;
    /// the device shows the cleared frame after the next `draw`.
    #[verifier::loop_isolation(false)]
    pub fn clear(&mut self)
        ensures
            final(self).spec_addr() == old(self).spec_addr(),
            final(self).spec_width() == old(self).spec_width(),
            final(self).spec_height() == old(self).spec_height(),
            final(self).transfers() == old(self).transfers(),
            final(self).frame().len() == old(self).frame().len(),
            forall|k: int| 0 <= k < final(self).frame().len() ==> final(self).frame()[k] == 0u8,
            final(self).wf() <==> old(self).wf(),
    {
        let n = self.buf.len();
        let mut i: usize = 0;
        while i < n
            invariant
                i <= n,
                self.buf@.len() == n,
                self.addr == old(self).spec_addr(),
                self.width == old(self).spec_width(),
                self.height == old(self).spec_height(),
                self.i2c == old(self).i2c,
                forall|k: int| 0 <= k < i ==> self.buf@[k] == 0u8,
            decreases n - i,
        {
            self.buf[i] = 0;
            i += 1;
        }
    }

    /// Turn pixel `(x, y)` on in the in-memory frame. Out-of-range
    /// coordinates are reported as an error and change nothing; in range, the
    /// pixel's bit is raised and every other pixel is untouched.
    pub fn pixel_on(&mut self, x: u8, y: u8) -> (r: Result<(), RangeError>)
        requires
            old(self).wf(),
        ensures
            final(self).wf(),
            final(self).spec_addr() == old(self).spec_addr(),
            final(self).spec_width() == old(self).spec_width(),
            final(self).spec_height() == old(self).spec_height(),
            final(self).transfers() == old(self).transfers(),
            r == (if x < old(self).spec_width() && y < old(self).spec_height() {
                Ok::<(), RangeError>(())
            } else {
                Err::<(), RangeError>(RangeError::PixelOutOfBounds)
            }),
            r is Err ==> final(self).frame() == old(self).frame(),
            r is Ok ==> final(self).frame() == frame_with_pixel_on(
                old(self).frame(),
                old(self).spec_width(),
                x,
                y,
            ),
            r is Ok ==> spec_pixel(final(self).frame(), final(self).spec_width(), x, y),
            r is Ok ==> forall|i: u8, j: u8|
                i < old(self).spec_width() && j < old(self).spec_height() && !(i == x && j == y)
                    ==> #[trigger] spec_pixel(final(self).frame(), old(self).spec_width(), i, j)
                    == spec_pixel(old(self).frame(), old(self).spec_width(), i, j),
    {
        if !(x < self.width && y < self.height) {
            return Err(RangeError::PixelOutOfBounds);
        }
        proof {
            lemma_byte_index_bounds(self.width, self.height, x, y);
            lemma_byte_index_small(self.width, self.height, x, y);
        }
        let idx = (y as usize / 8) * (self.width as usize) + (x as usize);
        let b = self.buf[idx];
        let mask: u8 = 1u8 << (y % 8);
        self.buf[idx] = b | mask;
        proof {
            let ghost k = (y as int % 8) as u8;
            assert(k == y % 8);
            let ghost nb = with_bit_set(b, k);
            assert(self.buf@ =~= frame_with_pixel_on(old(self).frame(), self.width, x, y));
            lemma_bit_set(b, k, k);
            assert forall|kk: u8| kk < 8 && kk != k implies #[trigger] bit_of(nb, kk)
                == bit_of(old(self).frame()[byte_index(self.width, x, y)], kk) by {
                lemma_bit_set(b, k, kk);
            }
            lemma_pixel_update_localized(old(self).frame(), self.width, self.height, x, y, nb);
        }
        Ok(())
    }

    /// Turn pixel `(x, y)` off in the in-memory frame. Out-of-range
    /// coordinates are reported as an error and change nothing; in range, the
    /// pixel's bit is lowered and every other pixel is untouched.
    pub fn pixel_off(&mut self, x: u8, y: u8) -> (r: Result<(), RangeError>)
        requires
            old(self).wf(),
        ensures
            final(self).wf(),
            final(self).spec_addr() == old(self).spec_addr(),
            final(self).spec_width() == old(self).spec_width(),
            final(self).spec_height() == old(self).spec_height(),
            final(self).transfers() == old(self).transfers(),
            r == (if x < old(self).spec_width() && y < old(self).spec_height() {
                Ok::<(), RangeError>(())
            } else {
                Err::<(), RangeError>(RangeError::PixelOutOfBounds)
            }),
            r is Err ==> final(self).frame() == old(self).frame(),
            r is Ok ==> final(self).frame() == frame_with_pixel_off(
                old(self).frame(),
                old(self).spec_width(),
                x,
                y,
            ),
            r is Ok ==> !spec_pixel(final(self).frame(), final(self).spec_width(), x, y),
            r is Ok ==> forall|i: u8, j: u8|
                i < old(self).spec_width() && j < old(self).spec_height() && !(i == x && j == y)
                    ==> #[trigger] spec_pixel(final(self).frame(), old(self).spec_width(), i, j)
                    == spec_pixel(old(self).frame(), old(self).spec_width(), i, j),
    {
        if !(x < self.width && y < self.height) {
            return Err(RangeError::PixelOutOfBounds);
        }
        proof {
            lemma_byte_index_bounds(self.width, self.height, x, y);
            lemma_byte_index_small(self.width, self.height, x, y);
        }
        let idx = (y as usize / 8) * (self.width as usize) + (x as usize);
        let b = self.buf[idx];
        let mask: u8 = 1u8 << (y % 8);
        self.buf[idx] = b & !mask;
        proof {
            let ghost k = (y as int % 8) as u8;
            assert(k == y % 8);
            let ghost nb = with_bit_cleared(b, k);
            assert(self.buf@ =~= frame_with_pixel_off(old(self).frame(), self.width, x, y));
            lemma_bit_cleared(b, k, k);
            assert forall|kk: u8| kk < 8 && kk != k implies #[trigger] bit_of(nb, kk)
                == bit_of(old(self).frame()[byte_index(self.width, x, y)], kk) by {
                lemma_bit_cleared(b, k, kk);
            }
            lemma_pixel_update_localized(old(self).frame(), self.width, self.height, x, y, nb);
        }
        Ok(())
    }

    /// Invert pixel `(x, y)` in the in-memory frame. Out-of-range
    /// coordinates are reported as an error and change nothing; in range, the
    /// pixel's bit is flipped and every other pixel is untouched.
    pub fn invert_pixel(&mut self, x: u8, y: u8) -> (r: Result<(), RangeError>)
        requires
            old(self).wf(),
        ensures
            final(self).wf(),
            final(self).spec_addr() == old(self).spec_addr(),
            final(self).spec_width() == old(self).spec_width(),
            final(self).spec_height() == old(self).spec_height(),
            final(self).transfers() == old(self).transfers(),
            r == (if x < old(self).spec_width() && y < old(self).spec_height() {
                Ok::<(), RangeError>(())
            } else {
                Err::<(), RangeError>(RangeError::PixelOutOfBounds)
            }),
            r is Err ==> final(self).frame() == old(self).frame(),
            r is Ok ==> final(self).frame() == frame_with_pixel_toggled(
                old(self).frame(),
                old(self).spec_width(),
                x,
                y,
            ),
            r is Ok ==> spec_pixel(final(self).frame(), final(self).spec_width(), x, y)
                == !spec_pixel(old(self).frame(), old(self).spec_width(), x, y),
            r is Ok ==> forall|i: u8, j: u8|
                i < old(self).spec_width() && j < old(self).spec_height() && !(i == x && j == y)
                    ==> #[trigger] spec_pixel(final(self).frame(), old(self).spec_width(), i, j)
                    == spec_pixel(old(self).frame(), old(self).spec_width(), i, j),
    {
        if !(x < self.width && y < self.height) {
            return Err(RangeError::PixelOutOfBounds);
        }
        proof {
            lemma_byte_index_bounds(self.width, self.height, x, y);
            lemma_byte_index_small(self.width, self.height, x, y);
        }
        let idx = (y as usize / 8) * (self.width as usize) + (x as usize);
        let b = self.buf[idx];
        let mask: u8 = 1u8 << (y % 8);
        if b & mask == 0 {
            self.buf[idx] = b | mask;
        } else {
            self.buf[idx] = b & !mask;
        }
        proof {
            let ghost k = (y as int % 8) as u8;
            assert(k == y % 8);
            let ghost nb = with_bit_toggled(b, k);
            assert(self.buf@ =~= frame_with_pixel_toggled(old(self).frame(), self.width, x, y));
            lemma_bit_toggled(b, k, k);
            assert forall|kk: u8| kk < 8 && kk != k implies #[trigger] bit_of(nb, kk)
                == bit_of(old(self).frame()[byte_index(self.width, x, y)], kk) by {
                lemma_bit_toggled(b, k, kk);
            }
            lemma_pixel_update_localized(old(self).frame(), self.width, self.height, x, y, nb);
        }
        Ok(())
    }

    /// Push the in-memory frame to the device: set the column address range
    /// to the full width and the page address range to the full height, then
    /// stream the frame as chunked display data. A bus error aborts at the
    /// failing transfer and surfaces verbatim.
    pub fn draw(&mut self) -> (r: Result<(), I2C::Error>)
        requires
            old(self).wf(),
        ensures
            final(self).wf(),
            final(self).spec_addr() == old(self).spec_addr(),
            final(self).spec_width() == old(self).spec_width(),
            final(self).spec_height() == old(self).spec_height(),
            final(self).frame() == old(self).frame(),
            sent(
                old(self).transfers(),
                final(self).transfers(),
                draw_transfers(
                    old(self).spec_addr(),
                    old(self).spec_width(),
                    old(self).spec_height(),
                    old(self).frame(),
                ),
                r is Ok,
            ),
    {
        let ghost pre = self.transfers();
        let ghost a = self.addr;
        let ghost e1 = cmd_transfers(a, seq![0x21u8, 0u8, (self.width - 1) as u8]);
        let ghost e2 = cmd_transfers(a, seq![0x22u8, 0u8, ((self.height - 1) as int / 8) as u8]);
        let ghost e3 = data_transfers(a, self.buf@);
        let ghost full = draw_transfers(a, self.width, self.height, self.buf@);
        let ecol = self.width - 1;
        let c1 = Command::ColumnAddress(0, ecol);
        proof {
            assert(c1.spec_encode() =~= seq![0x21u8, 0u8, (self.width - 1) as u8]);
        }
        match self.send_command(c1) {
            Ok(()) => {
                proof {
                    assert(e1.take(e1.len() as int) =~= e1);
                }
            },
            Err(e) => {
                proof {
                    lemma_sent_abort(pre, self.transfers(), e1, e2 + e3);
                    assert(e1 + (e2 + e3) =~~= full);
                }
                return Err(e);
            },
        }
        let last_row = self.height - 1;
        let pend = match Page::from_row(last_row) {
            Ok(p) => p,
            Err(_) => {
                proof {
                    assert(false);
                }
                Page::Page0
            },
        };
        let c2 = Command::PageAddress(Page::Page0, pend);
        proof {
            assert(c2.spec_encode() =~= seq![0x22u8, 0u8, ((self.height - 1) as int / 8) as u8]);
        }
        match self.send_command(c2) {
            Ok(()) => {
                proof {
                    assert(e2.take(e2.len() as int) =~= e2);
                }
            },
            Err(e) => {
                proof {
                    lemma_sent_extend(pre, self.transfers(), e1, e2, false);
                    lemma_sent_abort(pre, self.transfers(), e1 + e2, e3);
                    assert((e1 + e2) + e3 =~~= full);
                }
                return Err(e);
            },
        }
        let r = self.i2c.write_data(self.addr, self.buf.as_slice());
        proof {
            assert(pre + e1 + e2 =~~= pre + (e1 + e2));
            lemma_sent_extend(pre, self.transfers(), e1 + e2, e3, r is Ok);
            assert((e1 + e2) + e3 =~~= full);
        }
        r
    }
}

} // verus!
