//! The RM67162 driver that streams pixel data in DMA-sized transfers.
//!
//! Every operation returns the bus steps that carry it out. A command is
//! framed as: select the chip, pull data/command low, write the command byte,
//! pull data/command high, write the parameter bytes (if any), deselect.
use vstd::prelude::*;

use crate::bus::{append_ops, push_op, steps, BusOp, BusStep, Level};
use crate::color::{be_bytes, high_byte, low_byte, pixel_bytes, rgb565_to_be_bytes};
use crate::rm67162::{is_landscape, madctr_of, Orientation};

verus! {

/// Width of the panel in its native (portrait) orientation, in pixels.
pub const SCREEN_WIDTH: u32 = 240;

/// Height of the panel in its native (portrait) orientation, in pixels.
pub const SCREEN_HEIGHT: u32 = 536;

/// Pixels that one DMA transfer carries.
pub const BUFFER_PIXELS: usize = 8184;

/// Bytes that one DMA transfer carries (two per pixel).
pub const BUFFER_SIZE: usize = 16368;

/// Command 0x2C, "memory write": the bytes that follow are pixel data.
pub const MEMORY_WRITE: u8 = 0x2C;

// ---------------------------------------------------------------------------
// What goes over the wire
// ---------------------------------------------------------------------------

/// The steps of one command with its parameter bytes.
pub open spec fn cmd_steps(cmd: u8, data: Seq<u8>) -> Seq<BusStep> {
    seq![
        BusStep::ChipSelect(Level::Low),
        BusStep::DataCommand(Level::Low),
        BusStep::Write(seq![cmd]),
        BusStep::DataCommand(Level::High),
    ] + (if data.len() > 0 {
        seq![BusStep::Write(data)]
    } else {
        Seq::empty()
    }) + seq![BusStep::ChipSelect(Level::High)]
}

/// A start and an end coordinate as the panel reads them: each big-endian.
pub open spec fn span_bytes(start: u16, end: u16) -> Seq<u8> {
    seq![high_byte(start), low_byte(start), high_byte(end), low_byte(end)]
}

/// The steps that select the window from column `x1` to `x2` and row `y1`
/// to `y2` (both ends included) and start a memory write into it.
pub open spec fn address_steps(x1: u16, y1: u16, x2: u16, y2: u16) -> Seq<BusStep> {
    cmd_steps(0x2a, span_bytes(x1, x2)) + cmd_steps(0x2b, span_bytes(y1, y2)) + cmd_steps(
        0x2c,
        Seq::empty(),
    )
}

/// The steps that select the panel's orientation.
pub open spec fn orientation_steps(o: Orientation) -> Seq<BusStep> {
    cmd_steps(0x36, seq![madctr_of(o)])
}

/// One round of the power-up sequence: leave sleep, 16-bit colour, display
/// on, brightness up.
pub open spec fn init_round_steps() -> Seq<BusStep> {
    cmd_steps(0xFE, seq![0x00u8]) + cmd_steps(0x11, Seq::empty()) + seq![BusStep::DelayMs(120)]
        + cmd_steps(0x3A, seq![0x75u8]) + cmd_steps(0x51, seq![0x00u8]) + cmd_steps(
        0x29,
        Seq::empty(),
    ) + seq![BusStep::DelayMs(120)] + cmd_steps(0x51, seq![0xD0u8])
}

/// The whole power-up sequence: three rounds, then the orientation.
pub open spec fn init_steps(o: Orientation) -> Seq<BusStep> {
    init_round_steps() + init_round_steps() + init_round_steps() + orientation_steps(o)
}

/// The hardware reset pulse.
pub open spec fn reset_steps() -> Seq<BusStep> {
    seq![
        BusStep::Reset(Level::Low),
        BusStep::DelayMs(300),
        BusStep::Reset(Level::High),
        BusStep::DelayMs(200),
    ]
}

/// The memory-write command that opens the first transfer of pixel data
/// while the chip is selected; later transfers continue it.
pub open spec fn memory_write_steps(first: bool) -> Seq<BusStep> {
    if first {
        seq![
            BusStep::DataCommand(Level::Low),
            BusStep::Write(seq![MEMORY_WRITE]),
            BusStep::DataCommand(Level::High),
        ]
    } else {
        Seq::empty()
    }
}

/// One DMA transfer of pixel bytes.
pub open spec fn dma_steps(chunk: Seq<u8>, first: bool) -> Seq<BusStep> {
    memory_write_steps(first) + seq![BusStep::Write(chunk)]
}

/// Pixel bytes cut into transfers of `BUFFER_SIZE` bytes, the last one
/// shorter if need be; no transfer at all for no bytes.
pub open spec fn chunked_steps(data: Seq<u8>, first: bool) -> Seq<BusStep>
    decreases data.len(),
{
    if data.len() == 0 {
        Seq::empty()
    } else if data.len() <= BUFFER_SIZE {
        dma_steps(data, first)
    } else {
        dma_steps(data.take(BUFFER_SIZE as int), first) + chunked_steps(
            data.skip(BUFFER_SIZE as int),
            false,
        )
    }
}

/// The last column (or row) of a window that starts at `start` and spans
/// `len` pixels.
pub open spec fn window_end(start: u16, len: u16) -> u16 {
    (start + len - 1) as u16
}

/// A window whose end (`x + w`, `y + h`) fits in `u16` and is not zero, so
/// that its last column and row can be computed.
pub open spec fn window_fits(x: u16, y: u16, w: u16, h: u16) -> bool {
    &&& 1 <= x + w <= 0xFFFF
    &&& 1 <= y + h <= 0xFFFF
}

/// The steps that fill the window at (`x`, `y`) of `w` by `h` pixels with
/// the given pixel bytes, in DMA-sized transfers.
pub open spec fn window_steps(x: u16, y: u16, w: u16, h: u16, data: Seq<u8>) -> Seq<BusStep> {
    address_steps(x, y, window_end(x, w), window_end(y, h)) + seq![
        BusStep::ChipSelect(Level::Low),
    ] + chunked_steps(data, true) + seq![BusStep::ChipSelect(Level::High)]
}

/// The size of the drawing area in an orientation: the long side is
/// horizontal in landscape.
pub open spec fn size_of(o: Orientation) -> (u32, u32) {
    if is_landscape(o) {
        (SCREEN_HEIGHT, SCREEN_WIDTH)
    } else {
        (SCREEN_WIDTH, SCREEN_HEIGHT)
    }
}

// ---------------------------------------------------------------------------
// Building the steps
// ---------------------------------------------------------------------------

proof fn lemma_span_bytes(a: u16, b: u16)
    ensures
        (a >> 8u16) as u8 == high_byte(a),
        (a & 0xFFu16) as u8 == low_byte(a),
        (b >> 8u16) as u8 == high_byte(b),
        (b & 0xFFu16) as u8 == low_byte(b),
{
    assert(a >> 8u16 == a / 256) by (bit_vector);
    assert(a & 0xFFu16 == a % 256) by (bit_vector);
    assert(b >> 8u16 == b / 256) by (bit_vector);
    assert(b & 0xFFu16 == b % 256) by (bit_vector);
}

/// Appends the steps of one command; only the low byte of `cmd` is sent.
fn push_cmd(ops: &mut Vec<BusOp>, cmd: u32, data: &[u8])
    ensures
        steps(final(ops)@) == steps(old(ops)@) + cmd_steps(cmd as u8, data@),
{
    let ghost start = steps(ops@);
    push_op(ops, BusOp::ChipSelect(Level::Low));
    push_op(ops, BusOp::DataCommand(Level::Low));
    let mut cmd_buf: Vec<u8> = Vec::new();
    cmd_buf.push(cmd as u8);
    push_op(ops, BusOp::Write(cmd_buf));
    push_op(ops, BusOp::DataCommand(Level::High));
    if !data.is_empty() {
        push_op(ops, BusOp::Write(vstd::slice::slice_to_vec(data)));
    }
    push_op(ops, BusOp::ChipSelect(Level::High));
    assert(steps(ops@) =~= start + cmd_steps(cmd as u8, data@));
}

/// Appends the steps of one DMA transfer.
fn push_dma(ops: &mut Vec<BusOp>, chunk: Vec<u8>, first: bool)
    ensures
        steps(final(ops)@) == steps(old(ops)@) + dma_steps(chunk@, first),
{
    let ghost start = steps(ops@);
    let ghost bytes = chunk@;
    if first {
        push_op(ops, BusOp::DataCommand(Level::Low));
        let mut cmd_buf: Vec<u8> = Vec::new();
        cmd_buf.push(MEMORY_WRITE);
        push_op(ops, BusOp::Write(cmd_buf));
        push_op(ops, BusOp::DataCommand(Level::High));
    }
    push_op(ops, BusOp::Write(chunk));
    assert(steps(ops@) =~= start + dma_steps(bytes, first));
}

/// Appends the steps that select a window.
fn push_address(ops: &mut Vec<BusOp>, x1: u16, y1: u16, x2: u16, y2: u16)
    ensures
        steps(final(ops)@) == steps(old(ops)@) + address_steps(x1, y1, x2, y2),
{
    let ghost start = steps(ops@);
    proof {
        lemma_span_bytes(x1, x2);
        lemma_span_bytes(y1, y2);
    }
    let xs: [u8; 4] = [(x1 >> 8) as u8, (x1 & 0xFF) as u8, (x2 >> 8) as u8, (x2 & 0xFF) as u8];
    let ys: [u8; 4] = [(y1 >> 8) as u8, (y1 & 0xFF) as u8, (y2 >> 8) as u8, (y2 & 0xFF) as u8];
    assert(xs@ =~= span_bytes(x1, x2));
    assert(ys@ =~= span_bytes(y1, y2));
    push_cmd(ops, 0x2a, &xs);
    push_cmd(ops, 0x2b, &ys);
    let none: [u8; 0] = [];
    assert(none@ =~= Seq::<u8>::empty());
    push_cmd(ops, 0x2c, &none);
    assert(steps(ops@) =~= start + address_steps(x1, y1, x2, y2));
}

/// `chunked_steps` cut after whole transfers: the transfers of `a` (whole
/// transfers only) followed by one more transfer of at most `BUFFER_SIZE`
/// bytes give the transfers of `a + b`.
pub proof fn lemma_chunked_append(a: Seq<u8>, b: Seq<u8>, first: bool)
    requires
        a.len() % (BUFFER_SIZE as nat) == 0,
        0 < b.len() <= BUFFER_SIZE,
    ensures
        chunked_steps(a + b, first) == chunked_steps(a, first) + dma_steps(b, first && a.len() == 0),
    decreases a.len(),
{
    let bs = BUFFER_SIZE as int;
    if a.len() == 0 {
        assert(a + b =~= b);
        assert(chunked_steps(a, first) =~= Seq::<BusStep>::empty());
        assert(chunked_steps(a + b, first) =~= chunked_steps(a, first) + dma_steps(b, first));
    } else {
        assert(a.len() >= bs);
        assert((a.len() - bs) % bs == 0) by (nonlinear_arith)
            requires
                a.len() % (bs as nat) == 0,
                a.len() >= bs,
                bs > 0,
        ;
        let rest = a.skip(bs);
        assert((a + b).take(bs) =~= a.take(bs));
        assert((a + b).skip(bs) =~= rest + b);
        lemma_chunked_append(rest, b, false);
        if a.len() == bs {
            assert(a.take(bs) =~= a);
            assert(rest.len() == 0);
            assert(chunked_steps(rest, false) =~= Seq::<BusStep>::empty());
        }
        assert(chunked_steps(a, first) == dma_steps(a.take(bs), first) + chunked_steps(rest, false));
        assert(chunked_steps(a + b, first) =~= chunked_steps(a, first) + dma_steps(b, false));
    }
}

/// Two bytes more per pixel.
pub proof fn lemma_pixel_bytes_push(pixels: Seq<u16>, c: u16)
    ensures
        pixel_bytes(pixels.push(c)) == pixel_bytes(pixels) + be_bytes(c),
{
    let l = pixels.push(c);
    let lhs = pixel_bytes(l);
    let rhs = pixel_bytes(pixels) + be_bytes(c);
    assert forall|k: int| 0 <= k < lhs.len() implies lhs[k] == rhs[k] by {
        if k < 2 * pixels.len() {
            assert(k / 2 < pixels.len());
            assert(l[k / 2] == pixels[k / 2]);
        } else {
            assert(k / 2 == pixels.len());
        }
    }
    assert(lhs =~= rhs);
}

// ---------------------------------------------------------------------------
// Streaming pixels into DMA transfers
// ---------------------------------------------------------------------------

/// Collects pixels into a DMA buffer and hands out a transfer each time the
/// buffer is full and another pixel arrives. It takes at most the number of
/// pixels it was started with and ignores the rest.
pub struct PixelStream {
    buf: Vec<u8>,
    filled: usize,
    first_send: bool,
    remaining: usize,
    sent: Ghost<Seq<u8>>,
}

impl PixelStream {
    /// The bytes already handed out in transfers.
    pub closed spec fn sent(&self) -> Seq<u8> {
        self.sent@
    }

    /// The bytes waiting in the buffer for the next transfer.
    pub closed spec fn pending(&self) -> Seq<u8> {
        self.buf@.take(2 * self.filled)
    }

    /// How many more pixels the stream takes.
    pub closed spec fn remaining(&self) -> nat {
        self.remaining as nat
    }

    /// The buffer holds `BUFFER_SIZE` bytes, of which the first
    /// `2 * filled` are pending; what was sent is whole transfers, and the
    /// memory-write command is still owed exactly when nothing was sent.
    pub closed spec fn wf(&self) -> bool {
        &&& self.buf@.len() == BUFFER_SIZE
        &&& self.filled <= BUFFER_PIXELS
        &&& self.sent@.len() % (BUFFER_SIZE as nat) == 0
        &&& self.first_send == (self.sent@.len() == 0)
    }

    /// A stream that takes up to `budget` pixels.
    pub fn new(budget: usize) -> (s: Self)
        ensures
            s.wf(),
            s.sent() == Seq::<u8>::empty(),
            s.pending() == Seq::<u8>::empty(),
            s.remaining() == budget,
    {
        let mut buf: Vec<u8> = Vec::new();
        while buf.len() < BUFFER_SIZE
            invariant
                buf@.len() <= BUFFER_SIZE,
            decreases BUFFER_SIZE - buf@.len(),
        {
            buf.push(0);
        }
        let s = PixelStream {
            buf,
            filled: 0,
            first_send: true,
            remaining: budget,
            sent: Ghost(Seq::empty()),
        };
        assert(s.pending() =~= Seq::<u8>::empty());
        s
    }

    /// How many more pixels the stream takes.
    pub fn remaining_pixels(&self) -> (r: usize)
        ensures
            r == self.remaining(),
    {
        self.remaining
    }

    /// Offers one pixel. When the stream takes no more pixels nothing
    /// changes. Otherwise, when the buffer is full, its bytes go out as a
    /// transfer first; then the pixel's two bytes join the buffer.
    pub fn push(&mut self, color: u16) -> (ops: Vec<BusOp>)
        requires
            old(self).wf(),
        ensures
            final(self).wf(),
            old(self).remaining() == 0 ==> {
                &&& final(self).remaining() == 0
                &&& final(self).sent() == old(self).sent()
                &&& final(self).pending() == old(self).pending()
                &&& ops@.len() == 0
            },
            old(self).remaining() > 0 ==> {
                &&& final(self).remaining() == old(self).remaining() - 1
                &&& if old(self).pending().len() == BUFFER_SIZE {
                    &&& final(self).sent() == old(self).sent() + old(self).pending()
                    &&& final(self).pending() == be_bytes(color)
                    &&& steps(ops@) == dma_steps(old(self).pending(), old(self).sent().len() == 0)
                } else {
                    &&& final(self).sent() == old(self).sent()
                    &&& final(self).pending() == old(self).pending() + be_bytes(color)
                    &&& ops@.len() == 0
                }
            },
    {
        let mut ops: Vec<BusOp> = Vec::new();
        if self.remaining == 0 {
            return ops;
        }
        let ghost old_pending = self.pending();
        let ghost old_sent = self.sent@;
        if self.filled == BUFFER_PIXELS {
            assert(self.buf@.take(2 * BUFFER_PIXELS) =~= self.buf@);
            push_dma(&mut ops, self.buf.clone(), self.first_send);
            assert(self.buf@ == old_pending);
            proof {
                assert((old_sent + old_pending).len() % (BUFFER_SIZE as nat) == 0) by (nonlinear_arith)
                    requires
                        old_sent.len() % (BUFFER_SIZE as nat) == 0,
                        old_pending.len() == BUFFER_SIZE,
                        (old_sent + old_pending).len() == old_sent.len() + old_pending.len(),
                ;
                self.sent = Ghost(old_sent + old_pending);
            }
            self.filled = 0;
            self.first_send = false;
        }
        let bytes = rgb565_to_be_bytes(color);
        let i = 2 * self.filled;
        let ghost before = self.pending();
        self.buf.set(i, bytes[0]);
        self.buf.set(i + 1, bytes[1]);
        self.filled = self.filled + 1;
        self.remaining = self.remaining - 1;
        assert(self.pending() =~= before + be_bytes(color));
        ops
    }

    /// Ends the stream: the pending bytes, if any, go out as the last
    /// transfer, then the chip is deselected.
    pub fn finish(self) -> (ops: Vec<BusOp>)
        requires
            self.wf(),
        ensures
            steps(ops@) == (if self.pending().len() > 0 {
                dma_steps(self.pending(), self.sent().len() == 0)
            } else {
                Seq::empty()
            }) + seq![BusStep::ChipSelect(Level::High)],
    {
        let mut ops: Vec<BusOp> = Vec::new();
        if self.filled > 0 {
            let n = 2 * self.filled;
            let mut chunk: Vec<u8> = Vec::new();
            let mut k: usize = 0;
            while k < n
                invariant
                    n == 2 * self.filled,
                    n <= self.buf@.len(),
                    k <= n,
                    chunk@ == self.buf@.take(k as int),
                decreases n - k,
            {
                chunk.push(self.buf[k]);
                assert(self.buf@.take(k + 1) =~= self.buf@.take(k as int).push(self.buf@[k as int]));
                k = k + 1;
            }
            push_dma(&mut ops, chunk, self.first_send);
        }
        push_op(&mut ops, BusOp::ChipSelect(Level::High));
        ops
    }
}

/// A stream's transfers so far and its closing steps give the transfers of
/// everything that was pushed into it.
pub proof fn lemma_stream_total(sent: Seq<u8>, pending: Seq<u8>)
    requires
        sent.len() % (BUFFER_SIZE as nat) == 0,
        pending.len() <= BUFFER_SIZE,
    ensures
        chunked_steps(sent, true) + (if pending.len() > 0 {
            dma_steps(pending, sent.len() == 0)
        } else {
            Seq::empty()
        }) == chunked_steps(sent + pending, true),
{
    if pending.len() > 0 {
        lemma_chunked_append(sent, pending, true);
    } else {
        assert(sent + pending =~= sent);
        assert(chunked_steps(sent, true) + Seq::<BusStep>::empty() =~= chunked_steps(sent, true));
    }
}

// ---------------------------------------------------------------------------
// The driver
// ---------------------------------------------------------------------------

/// The steps that draw one pixel.
pub open spec fn draw_point_steps(x: u16, y: u16, color: u16) -> Seq<BusStep> {
    address_steps(x, y, x, y) + cmd_steps(MEMORY_WRITE, be_bytes(color))
}

/// The steps that fill a window with raw pixel bytes in a single transfer.
pub open spec fn raw_window_steps(x: u16, y: u16, w: u16, h: u16, raw: Seq<u8>) -> Seq<BusStep> {
    address_steps(x, y, window_end(x, w), window_end(y, h)) + seq![
        BusStep::ChipSelect(Level::Low),
    ] + dma_steps(raw, true) + seq![BusStep::ChipSelect(Level::High)]
}

/// The steps that fill the whole drawing area with raw pixel bytes.
pub open spec fn framebuffer_steps(o: Orientation, raw: Seq<u8>) -> Seq<BusStep> {
    address_steps(
        0,
        0,
        (size_of(o).0 - 1) as u16,
        (size_of(o).1 - 1) as u16,
    ) + seq![BusStep::ChipSelect(Level::Low)] + chunked_steps(raw, true) + seq![
        BusStep::ChipSelect(Level::High),
    ]
}

/// The pixels that a window of `w` by `h` takes from `colors`: the first
/// `w * h` of them, or all of them if there are fewer.
pub open spec fn taken_pixels(colors: Seq<u16>, w: u16, h: u16) -> Seq<u16> {
    if colors.len() <= w * h {
        colors
    } else {
        colors.take(w * h)
    }
}

/// `n` pixels of one colour.
pub open spec fn solid(color: u16, n: nat) -> Seq<u16> {
    Seq::new(n, |_i: int| color)
}

/// A pixel to draw: its position (which may lie off the panel) and colour.
#[derive(Clone, Copy, Debug, PartialEq, Eq)]
pub struct Pixel {
    pub x: i32,
    pub y: i32,
    pub color: u16,
}

/// A rectangle: its top-left corner and its size.
#[derive(Clone, Copy, Debug, PartialEq, Eq)]
pub struct Area {
    pub x: i32,
    pub y: i32,
    pub width: u32,
    pub height: u32,
}

/// An area whose window (each value cut to its low 16 bits) fits.
pub open spec fn area_fits(a: Area) -> bool {
    window_fits(a.x as u16, a.y as u16, a.width as u16, a.height as u16)
}

impl Area {
    /// The corner and size of the area, each cut to its low 16 bits.
    pub fn window(&self) -> (r: (u16, u16, u16, u16))
        ensures
            r == (self.x as u16, self.y as u16, self.width as u16, self.height as u16),
    {
        (self.x as u16, self.y as u16, self.width as u16, self.height as u16)
    }
}

/// The steps for one pixel: none when it lies left of or above the panel.
pub open spec fn pixel_steps(p: Pixel) -> Seq<BusStep> {
    if p.x < 0 || p.y < 0 {
        Seq::empty()
    } else {
        draw_point_steps(p.x as u16, p.y as u16, p.color)
    }
}

/// The steps for pixels drawn one after another.
pub open spec fn draw_steps(pixels: Seq<Pixel>) -> Seq<BusStep>
    decreases pixels.len(),
{
    if pixels.len() == 0 {
        Seq::empty()
    } else {
        draw_steps(pixels.drop_last()) + pixel_steps(pixels.last())
    }
}

/// The state that the panel driver keeps: the orientation it last set.
/// The SPI bus and the pins belong to the program that performs the steps.
pub struct RM67162Dma {
    orientation: Orientation,
}

impl View for RM67162Dma {
    type V = Orientation;

    closed spec fn view(&self) -> Orientation {
        self.orientation
    }
}

impl RM67162Dma {
    /// A driver for a panel in portrait orientation.
    pub fn new() -> (d: Self)
        ensures
            d@ == Orientation::Portrait,
    {
        RM67162Dma { orientation: Orientation::Portrait }
    }

    /// The orientation the driver last set.
    pub fn orientation(&self) -> (o: Orientation)
        ensures
            o == self@,
    {
        self.orientation
    }

    /// Selects an orientation: remembers it and writes its MADCTL value
    /// with command 0x36.
    pub fn set_orientation(&mut self, orientation: Orientation) -> (ops: Vec<BusOp>)
        ensures
            final(self)@ == orientation,
            steps(ops@) == orientation_steps(orientation),
    {
        self.orientation = orientation;
        let mut ops: Vec<BusOp> = Vec::new();
        let madctr: [u8; 1] = [self.orientation.to_madctr()];
        assert(madctr@ =~= seq![madctr_of(orientation)]);
        push_cmd(&mut ops, 0x36, &madctr);
        assert(steps(ops@) =~= orientation_steps(orientation));
        ops
    }

    /// The reset pulse: reset low for 300 ms, then high, then 200 ms for
    /// the panel to come up.
    pub fn reset(&self) -> (ops: Vec<BusOp>)
        ensures
            steps(ops@) == reset_steps(),
    {
        let mut ops: Vec<BusOp> = Vec::new();
        push_op(&mut ops, BusOp::Reset(Level::Low));
        push_op(&mut ops, BusOp::DelayMs(300));
        push_op(&mut ops, BusOp::Reset(Level::High));
        push_op(&mut ops, BusOp::DelayMs(200));
        assert(steps(ops@) =~= reset_steps());
        ops
    }

    /// One command with its parameter bytes; only the low byte of `cmd`
    /// goes out.
    pub fn send_cmd(&self, cmd: u32, data: &[u8]) -> (ops: Vec<BusOp>)
        ensures
            steps(ops@) == cmd_steps(cmd as u8, data@),
    {
        let mut ops: Vec<BusOp> = Vec::new();
        proof {
            assert(steps(ops@) =~= Seq::<BusStep>::empty());
        }
        push_cmd(&mut ops, cmd, data);
        assert(steps(ops@) =~= cmd_steps(cmd as u8, data@));
        ops
    }

    /// The power-up sequence, three times over, then the orientation the
    /// driver holds.
    pub fn init(&mut self) -> (ops: Vec<BusOp>)
        ensures
            final(self)@ == old(self)@,
            steps(ops@) == init_steps(old(self)@),
    {
        let mut ops: Vec<BusOp> = Vec::new();
        let mut round: usize = 0;
        while round < 3
            invariant
                round <= 3,
                round == 0 ==> steps(ops@) == Seq::<BusStep>::empty(),
                round == 1 ==> steps(ops@) == init_round_steps(),
                round == 2 ==> steps(ops@) == init_round_steps() + init_round_steps(),
                round == 3 ==> steps(ops@) == init_round_steps() + init_round_steps()
                    + init_round_steps(),
            decreases 3 - round,
        {
            let ghost start = steps(ops@);
            let zero: [u8; 1] = [0x00];
            let none: [u8; 0] = [];
            let colmod: [u8; 1] = [0x75];
            let bright: [u8; 1] = [0xD0];
            assert(zero@ =~= seq![0x00u8]);
            assert(none@ =~= Seq::<u8>::empty());
            assert(colmod@ =~= seq![0x75u8]);
            assert(bright@ =~= seq![0xD0u8]);
            push_cmd(&mut ops, 0xFE, &zero);
            push_cmd(&mut ops, 0x11, &none);
            push_op(&mut ops, BusOp::DelayMs(120));
            push_cmd(&mut ops, 0x3A, &colmod);
            push_cmd(&mut ops, 0x51, &zero);
            push_cmd(&mut ops, 0x29, &none);
            push_op(&mut ops, BusOp::DelayMs(120));
            push_cmd(&mut ops, 0x51, &bright);
            assert(steps(ops@) =~= start + init_round_steps());
            round = round + 1;
        }
        let orientation = self.orientation;
        let more = self.set_orientation(orientation);
        append_ops(&mut ops, more);
        ops
    }

    /// Selects the window from column `x1` to `x2` and row `y1` to `y2`
    /// (both ends included) and starts a memory write.
    pub fn set_address(&self, x1: u16, y1: u16, x2: u16, y2: u16) -> (ops: Vec<BusOp>)
        ensures
            steps(ops@) == address_steps(x1, y1, x2, y2),
    {
        let mut ops: Vec<BusOp> = Vec::new();
        proof {
            assert(steps(ops@) =~= Seq::<BusStep>::empty());
        }
        push_address(&mut ops, x1, y1, x2, y2);
        assert(steps(ops@) =~= address_steps(x1, y1, x2, y2));
        ops
    }

    /// Draws one pixel: a one-pixel window, then its two bytes.
    pub fn draw_point(&self, x: u16, y: u16, color: u16) -> (ops: Vec<BusOp>)
        ensures
            steps(ops@) == draw_point_steps(x, y, color),
    {
        let mut ops = self.set_address(x, y, x, y);
        let bytes = rgb565_to_be_bytes(color);
        push_cmd(&mut ops, MEMORY_WRITE as u32, &bytes);
        ops
    }

    /// The width and height of the drawing area in the current orientation.
    pub fn size(&self) -> (wh: (u32, u32))
        ensures
            wh == size_of(self@),
    {
        if self.orientation.is_landscape() {
            (SCREEN_HEIGHT, SCREEN_WIDTH)
        } else {
            (SCREEN_WIDTH, SCREEN_HEIGHT)
        }
    }

    /// Fills a window with raw big-endian RGB565 bytes in one transfer.
    pub fn fill_raw_colors(&self, x: u16, y: u16, w: u16, h: u16, raw_colors: &[u8]) -> (ops:
        Vec<BusOp>)
        requires
            window_fits(x, y, w, h),
        ensures
            steps(ops@) == raw_window_steps(x, y, w, h, raw_colors@),
    {
        let mut ops = self.set_address(x, y, x + w - 1, y + h - 1);
        push_op(&mut ops, BusOp::ChipSelect(Level::Low));
        push_dma(&mut ops, vstd::slice::slice_to_vec(raw_colors), true);
        push_op(&mut ops, BusOp::ChipSelect(Level::High));
        assert(steps(ops@) =~= raw_window_steps(x, y, w, h, raw_colors@));
        ops
    }

    /// Fills the whole drawing area with raw big-endian RGB565 bytes, in
    /// transfers of `BUFFER_SIZE` bytes.
    pub fn fill_with_framebuffer(&self, raw_framebuffer: &[u8]) -> (ops: Vec<BusOp>)
        ensures
            steps(ops@) == framebuffer_steps(self@, raw_framebuffer@),
    {
        let (width, height) = self.size();
        let mut ops = self.set_address(0, 0, width as u16 - 1, height as u16 - 1);
        push_op(&mut ops, BusOp::ChipSelect(Level::Low));
        let ghost prefix = steps(ops@);
        let len = raw_framebuffer.len();
        let mut off: usize = 0;
        assert(raw_framebuffer@.take(0) =~= Seq::<u8>::empty());
        while off < len
            invariant
                len == raw_framebuffer@.len(),
                off <= len,
                off == len || off as nat % (BUFFER_SIZE as nat) == 0,
                steps(ops@) == prefix + chunked_steps(raw_framebuffer@.take(off as int), true),
            decreases len - off,
        {
            let end = if len - off > BUFFER_SIZE { off + BUFFER_SIZE } else { len };
            let chunk = vstd::slice::slice_subrange(raw_framebuffer, off, end);
            let ghost done = raw_framebuffer@.take(off as int);
            proof {
                lemma_chunked_append(done, chunk@, true);
                assert(done + chunk@ =~= raw_framebuffer@.take(end as int));
                if end < len {
                    assert(end as nat % (BUFFER_SIZE as nat) == 0) by (nonlinear_arith)
                        requires
                            off as nat % (BUFFER_SIZE as nat) == 0,
                            end == off + BUFFER_SIZE,
                    ;
                }
            }
            push_dma(&mut ops, vstd::slice::slice_to_vec(chunk), off == 0);
            assert(steps(ops@) =~= prefix + chunked_steps(raw_framebuffer@.take(end as int), true));
            off = end;
        }
        assert(raw_framebuffer@.take(len as int) =~= raw_framebuffer@);
        push_op(&mut ops, BusOp::ChipSelect(Level::High));
        assert(steps(ops@) =~= framebuffer_steps(self@, raw_framebuffer@));
        ops
    }

    /// Opens a window for streamed pixels: selects it, selects the chip, and
    /// returns a stream that takes `w * h` pixels.
    pub fn start_fill(&self, x: u16, y: u16, w: u16, h: u16) -> (r: (Vec<BusOp>, PixelStream))
        requires
            window_fits(x, y, w, h),
        ensures
            steps(r.0@) == address_steps(x, y, window_end(x, w), window_end(y, h)) + seq![
                BusStep::ChipSelect(Level::Low),
            ],
            r.1.wf(),
            r.1.sent() == Seq::<u8>::empty(),
            r.1.pending() == Seq::<u8>::empty(),
            r.1.remaining() == w * h,
    {
        let mut ops = self.set_address(x, y, x + w - 1, y + h - 1);
        push_op(&mut ops, BusOp::ChipSelect(Level::Low));
        assert(w as usize * h as usize <= 0xFFFF * 0xFFFF) by (nonlinear_arith)
            requires
                w <= 0xFFFF,
                h <= 0xFFFF,
        ;
        let stream = PixelStream::new(w as usize * h as usize);
        (ops, stream)
    }

    /// Fills a window with pixels: the first `w * h` of `colors` (all of
    /// them if there are fewer), in transfers of `BUFFER_SIZE` bytes.
    pub fn fill_colors(&self, x: u16, y: u16, w: u16, h: u16, colors: &[u16]) -> (ops: Vec<BusOp>)
        requires
            window_fits(x, y, w, h),
        ensures
            steps(ops@) == window_steps(x, y, w, h, pixel_bytes(taken_pixels(colors@, w, h))),
    {
        let (mut ops, mut stream) = self.start_fill(x, y, w, h);
        let ghost prefix = steps(ops@);
        let ghost budget = w * h;
        let n = colors.len();
        let mut i: usize = 0;
        assert(colors@.take(0) =~= Seq::<u16>::empty());
        assert(pixel_bytes(Seq::<u16>::empty()) =~= Seq::<u8>::empty());
        while i < n && stream.remaining_pixels() > 0
            invariant
                n == colors@.len(),
                i <= n,
                stream.wf(),
                i <= budget,
                stream.remaining() == budget - i,
                stream.sent() + stream.pending() == pixel_bytes(colors@.take(i as int)),
                steps(ops@) == prefix + chunked_steps(stream.sent(), true),
            decreases n - i,
        {
            let ghost old_sent = stream.sent();
            let ghost old_pending = stream.pending();
            let more = stream.push(colors[i]);
            proof {
                lemma_pixel_bytes_push(colors@.take(i as int), colors@[i as int]);
                assert(colors@.take(i + 1) =~= colors@.take(i as int).push(colors@[i as int]));
                if old_pending.len() == BUFFER_SIZE {
                    lemma_chunked_append(old_sent, old_pending, true);
                }
            }
            append_ops(&mut ops, more);
            i = i + 1;
        }
        proof {
            assert(taken_pixels(colors@, w, h) =~= colors@.take(i as int));
            lemma_stream_total(stream.sent(), stream.pending());
        }
        let tail = stream.finish();
        append_ops(&mut ops, tail);
        assert(steps(ops@) =~= window_steps(x, y, w, h, pixel_bytes(taken_pixels(colors@, w, h))));
        ops
    }

    /// Fills a window with one colour.
    pub fn fill_color(&self, x: u16, y: u16, w: u16, h: u16, color: u16) -> (ops: Vec<BusOp>)
        requires
            window_fits(x, y, w, h),
        ensures
            steps(ops@) == window_steps(x, y, w, h, pixel_bytes(solid(color, (w * h) as nat))),
    {
        let (mut ops, mut stream) = self.start_fill(x, y, w, h);
        let ghost prefix = steps(ops@);
        let ghost budget = w * h;
        let ghost count: nat = 0;
        assert(pixel_bytes(solid(color, 0)) =~= Seq::<u8>::empty());
        while stream.remaining_pixels() > 0
            invariant
                stream.wf(),
                count <= budget,
                stream.remaining() == budget - count,
                stream.sent() + stream.pending() == pixel_bytes(solid(color, count)),
                steps(ops@) == prefix + chunked_steps(stream.sent(), true),
            decreases stream.remaining(),
        {
            let ghost old_sent = stream.sent();
            let ghost old_pending = stream.pending();
            let more = stream.push(color);
            proof {
                lemma_pixel_bytes_push(solid(color, count), color);
                assert(solid(color, count + 1) =~= solid(color, count).push(color));
                if old_pending.len() == BUFFER_SIZE {
                    lemma_chunked_append(old_sent, old_pending, true);
                }
                count = count + 1;
            }
            append_ops(&mut ops, more);
        }
        proof {
            lemma_stream_total(stream.sent(), stream.pending());
        }
        let tail = stream.finish();
        append_ops(&mut ops, tail);
        assert(steps(ops@) =~= window_steps(x, y, w, h, pixel_bytes(solid(color, (w * h) as nat))));
        ops
    }

    /// Draws pixels one by one, skipping those left of or above the panel.
    pub fn draw_iter(&self, pixels: &[Pixel]) -> (ops: Vec<BusOp>)
        ensures
            steps(ops@) == draw_steps(pixels@),
    {
        let mut ops: Vec<BusOp> = Vec::new();
        let n = pixels.len();
        let mut i: usize = 0;
        assert(pixels@.take(0) =~= Seq::<Pixel>::empty());
        assert(steps(ops@) =~= Seq::<BusStep>::empty());
        while i < n
            invariant
                n == pixels@.len(),
                i <= n,
                steps(ops@) == draw_steps(pixels@.take(i as int)),
            decreases n - i,
        {
            let p = pixels[i];
            assert(pixels@.take(i + 1).drop_last() =~= pixels@.take(i as int));
            if p.x >= 0 && p.y >= 0 {
                let more = self.draw_point(p.x as u16, p.y as u16, p.color);
                append_ops(&mut ops, more);
            }
            i = i + 1;
        }
        assert(pixels@.take(n as int) =~= pixels@);
        ops
    }

    /// Fills an area with one colour; the area's corner and size are cut to
    /// their low 16 bits.
    pub fn fill_solid(&self, area: &Area, color: u16) -> (ops: Vec<BusOp>)
        requires
            area_fits(*area),
        ensures
            steps(ops@) == window_steps(
                area.x as u16,
                area.y as u16,
                area.width as u16,
                area.height as u16,
                pixel_bytes(solid(color, (area.width as u16 * area.height as u16) as nat)),
            ),
    {
        let (x, y, w, h) = area.window();
        self.fill_color(x, y, w, h, color)
    }

    /// Fills an area with pixels in row order; the area's corner and size
    /// are cut to their low 16 bits.
    pub fn fill_contiguous(&self, area: &Area, colors: &[u16]) -> (ops: Vec<BusOp>)
        requires
            area_fits(*area),
        ensures
            steps(ops@) == window_steps(
                area.x as u16,
                area.y as u16,
                area.width as u16,
                area.height as u16,
                pixel_bytes(taken_pixels(colors@, area.width as u16, area.height as u16)),
            ),
    {
        let (x, y, w, h) = area.window();
        self.fill_colors(x, y, w, h, colors)
    }
}

} // verus!
