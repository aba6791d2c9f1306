//! Properties that hold across the driver's operations.
use vstd::prelude::*;

use crate::bus::{BusStep, Level};
use crate::color::{be_bytes, high_byte, low_byte, pixel_bytes};
use crate::rm67162::dma::{
    address_steps, chunked_steps, cmd_steps, dma_steps, draw_point_steps, draw_steps,
    framebuffer_steps, init_round_steps, init_steps, memory_write_steps, orientation_steps,
    pixel_steps, reset_steps, span_bytes,
    raw_window_steps, size_of, solid, taken_pixels, window_end, window_fits, window_steps, Pixel,
    BUFFER_PIXELS, BUFFER_SIZE, MEMORY_WRITE, SCREEN_HEIGHT, SCREEN_WIDTH,
};
use crate::rm67162::{madctr_of, Orientation};

verus! {

/// The DMA transfers that carry a run of bytes: whole buffers of
/// `BUFFER_SIZE` bytes, then the rest.
pub open spec fn transfers(data: Seq<u8>) -> Seq<Seq<u8>>
    decreases data.len(),
{
    if data.len() == 0 {
        Seq::empty()
    } else if data.len() <= BUFFER_SIZE {
        seq![data]
    } else {
        seq![data.take(BUFFER_SIZE as int)] + transfers(data.skip(BUFFER_SIZE as int))
    }
}

/// A sequence of byte runs written one after another.
pub open spec fn concat(runs: Seq<Seq<u8>>) -> Seq<u8>
    decreases runs.len(),
{
    if runs.len() == 0 {
        Seq::empty()
    } else {
        runs[0] + concat(runs.drop_first())
    }
}

/// A write step for each run, in order.
pub open spec fn write_steps(runs: Seq<Seq<u8>>) -> Seq<BusStep> {
    runs.map_values(|r: Seq<u8>| BusStep::Write(r))
}

/// Pixel data goes out as one memory-write command (when there is any data
/// and the command is owed) followed by transfers that, written one after
/// another, are exactly the data, each holding between 1 and `BUFFER_SIZE`
/// bytes.
pub proof fn law_chunked_transfers(data: Seq<u8>, first: bool)
    ensures
        chunked_steps(data, first) == memory_write_steps(first && data.len() > 0) + write_steps(
            transfers(data),
        ),
        concat(transfers(data)) == data,
        forall|i: int|
            0 <= i < transfers(data).len() ==> 0 < #[trigger] transfers(data)[i].len()
                <= BUFFER_SIZE,
    decreases data.len(),
{
    let bs = BUFFER_SIZE as int;
    if data.len() == 0 {
        assert(write_steps(transfers(data)) =~= Seq::<BusStep>::empty());
        assert(chunked_steps(data, first) =~= memory_write_steps(false) + write_steps(
            transfers(data),
        ));
    } else if data.len() <= BUFFER_SIZE {
        assert(write_steps(transfers(data)) =~= seq![BusStep::Write(data)]);
        assert(transfers(data).drop_first() =~= Seq::<Seq<u8>>::empty());
        assert(concat(transfers(data).drop_first()) =~= Seq::<u8>::empty());
        assert(transfers(data)[0] == data);
        assert(concat(transfers(data)) =~= data);
    } else {
        let rest = data.skip(bs);
        law_chunked_transfers(rest, false);
        let ts = transfers(data);
        assert(ts.drop_first() =~= transfers(rest));
        assert(write_steps(ts) =~= seq![BusStep::Write(data.take(bs))] + write_steps(
            transfers(rest),
        ));
        assert(memory_write_steps(false) =~= Seq::<BusStep>::empty());
        assert(chunked_steps(data, first) =~= memory_write_steps(first) + write_steps(ts));
        assert(data.take(bs) + rest =~= data);
        assert forall|i: int| 0 <= i < ts.len() implies 0 < #[trigger] ts[i].len()
            <= BUFFER_SIZE by {
            if i > 0 {
                assert(ts[i] == transfers(rest)[i - 1]);
            }
        }
    }
}

/// Filling the whole drawing area pixel by pixel, with exactly as many
/// pixels as it holds, puts on the wire exactly what writing those pixels'
/// bytes as a framebuffer does.
pub proof fn law_full_screen_fill_is_framebuffer(o: Orientation, colors: Seq<u16>)
    requires
        colors.len() == size_of(o).0 * size_of(o).1,
    ensures
        ({
            let (w, h) = size_of(o);
            &&& window_fits(0, 0, w as u16, h as u16)
            &&& window_steps(
                0,
                0,
                w as u16,
                h as u16,
                pixel_bytes(taken_pixels(colors, w as u16, h as u16)),
            ) == framebuffer_steps(o, pixel_bytes(colors))
        }),
{
}

/// Drawing a single pixel sends the same steps as filling a one-pixel window
/// with it.
pub proof fn law_point_is_unit_fill(x: u16, y: u16, color: u16)
    requires
        x < 0xFFFF,
        y < 0xFFFF,
    ensures
        window_fits(x, y, 1, 1),
        draw_point_steps(x, y, color) == window_steps(
            x,
            y,
            1,
            1,
            pixel_bytes(taken_pixels(seq![color], 1, 1)),
        ),
{
    assert(pixel_bytes(taken_pixels(seq![color], 1, 1)) =~= be_bytes(color));
    assert(chunked_steps(be_bytes(color), true) == dma_steps(be_bytes(color), true));
    assert(draw_point_steps(x, y, color) =~= window_steps(
        x,
        y,
        1,
        1,
        pixel_bytes(taken_pixels(seq![color], 1, 1)),
    ));
}

/// Filling a window with one colour sends the same steps as filling it with
/// a run of that colour exactly as long as the window.
pub proof fn law_fill_color_is_fill_colors(x: u16, y: u16, w: u16, h: u16, color: u16)
    ensures
        window_steps(x, y, w, h, pixel_bytes(solid(color, (w * h) as nat))) == window_steps(
            x,
            y,
            w,
            h,
            pixel_bytes(taken_pixels(solid(color, (w * h) as nat), w, h)),
        ),
{
}

/// A window filled with raw bytes that fit in one DMA transfer gets the
/// same steps as when it is filled with the pixels those bytes encode.
pub proof fn law_raw_fill_matches_pixel_fill(x: u16, y: u16, w: u16, h: u16, colors: Seq<u16>)
    requires
        0 < colors.len() <= w * h,
        colors.len() <= BUFFER_PIXELS,
    ensures
        raw_window_steps(x, y, w, h, pixel_bytes(colors)) == window_steps(
            x,
            y,
            w,
            h,
            pixel_bytes(taken_pixels(colors, w, h)),
        ),
{
    assert(chunked_steps(pixel_bytes(colors), true) == dma_steps(pixel_bytes(colors), true));
    assert(raw_window_steps(x, y, w, h, pixel_bytes(colors)) =~= window_steps(
        x,
        y,
        w,
        h,
        pixel_bytes(taken_pixels(colors, w, h)),
    ));
}

/// Drawing two runs of pixels one after the other sends the same steps as
/// drawing them as one run.
pub proof fn law_draw_concat(a: Seq<Pixel>, b: Seq<Pixel>)
    ensures
        draw_steps(a + b) == draw_steps(a) + draw_steps(b),
    decreases b.len(),
{
    if b.len() == 0 {
        assert(a + b =~= a);
        assert(draw_steps(a) + draw_steps(b) =~= draw_steps(a));
    } else {
        law_draw_concat(a, b.drop_last());
        assert((a + b).drop_last() =~= a + b.drop_last());
        assert((a + b).last() == b.last());
        assert(draw_steps(a + b) =~= draw_steps(a) + draw_steps(b));
    }
}

/// Every orientation covers the whole panel, 240 by 536 pixels, and only
/// the landscape ones put its long side horizontal.
pub proof fn law_size_covers_panel(o: Orientation)
    ensures
        size_of(o).0 * size_of(o).1 == SCREEN_WIDTH * SCREEN_HEIGHT,
        size_of(o).0 == SCREEN_WIDTH || size_of(o).0 == SCREEN_HEIGHT,
        (size_of(o).0 > size_of(o).1) <==> crate::rm67162::is_landscape(o),
{
}

/// Different orientations write different MADCTL values, so the panel can
/// tell every orientation apart.
pub proof fn law_madctr_distinct(a: Orientation, b: Orientation)
    ensures
        madctr_of(a) == madctr_of(b) <==> a == b,
{
}

/// The panel reads a 16-bit value back from its two bytes: the first is
/// the more significant one. So coordinates and pixels arrive unchanged:
/// pixel `i` of a run is bytes `2 * i` and `2 * i + 1` of its encoding.
pub proof fn law_pixel_bytes_decode(pixels: Seq<u16>, i: int)
    requires
        0 <= i < pixels.len(),
    ensures
        high_byte(pixels[i]) * 256 + low_byte(pixels[i]) == pixels[i],
        pixel_bytes(pixels)[2 * i] == high_byte(pixels[i]),
        pixel_bytes(pixels)[2 * i + 1] == low_byte(pixels[i]),
        pixel_bytes(pixels).len() == 2 * pixels.len(),
{
    assert((2 * i) / 2 == i);
    assert((2 * i + 1) / 2 == i);
    assert((2 * i) % 2 == 0);
    assert((2 * i + 1) % 2 == 1);
}

// ---------------------------------------------------------------------------
// Chip-select discipline
// ---------------------------------------------------------------------------

/// Whether the panel is selected after one more step, starting from
/// `selected` (`None`: the discipline was already broken). Selecting a
/// selected panel, deselecting a deselected one, or writing while it is
/// deselected breaks the discipline; other steps leave the state alone.
pub open spec fn cs_step(selected: Option<bool>, step: BusStep) -> Option<bool> {
    match selected {
        None => None,
        Some(sel) => match step {
            BusStep::ChipSelect(Level::Low) => if sel { None } else { Some(true) },
            BusStep::ChipSelect(Level::High) => if sel { Some(false) } else { None },
            BusStep::Write(_) => if sel { Some(true) } else { None },
            _ => Some(sel),
        },
    }
}

/// The chip-select state after a run of steps.
pub open spec fn cs_after(steps: Seq<BusStep>, start: Option<bool>) -> Option<bool>
    decreases steps.len(),
{
    if steps.len() == 0 {
        start
    } else {
        cs_step(cs_after(steps.drop_last(), start), steps.last())
    }
}

/// A run of steps that starts and ends with the panel deselected, selects
/// and deselects it in turn (selecting first), and writes only while it is
/// selected.
pub open spec fn cs_bracketed(steps: Seq<BusStep>) -> bool {
    cs_after(steps, Some(false)) == Some(false)
}

/// A run of steps that never drives the chip-select line.
pub open spec fn touches_no_chip_select(steps: Seq<BusStep>) -> bool {
    forall|i: int| 0 <= i < steps.len() ==> !(#[trigger] steps[i] is ChipSelect)
}

pub proof fn lemma_cs_concat(a: Seq<BusStep>, b: Seq<BusStep>, start: Option<bool>)
    ensures
        cs_after(a + b, start) == cs_after(b, cs_after(a, start)),
    decreases b.len(),
{
    if b.len() == 0 {
        assert(a + b =~= a);
    } else {
        lemma_cs_concat(a, b.drop_last(), start);
        assert((a + b).drop_last() =~= a + b.drop_last());
        assert((a + b).last() == b.last());
    }
}

proof fn lemma_cs_push(s: Seq<BusStep>, x: BusStep, start: Option<bool>)
    ensures
        cs_after(s.push(x), start) == cs_step(cs_after(s, start), x),
{
    assert(s.push(x).drop_last() =~= s);
}

proof fn lemma_cs_cmd(cmd: u8, data: Seq<u8>)
    ensures
        cs_bracketed(cmd_steps(cmd, data)),
{
    let e = Seq::<BusStep>::empty();
    let head = e.push(BusStep::ChipSelect(Level::Low)).push(BusStep::DataCommand(Level::Low)).push(
        BusStep::Write(seq![cmd]),
    ).push(BusStep::DataCommand(Level::High));
    lemma_cs_push(e, BusStep::ChipSelect(Level::Low), Some(false));
    lemma_cs_push(e.push(BusStep::ChipSelect(Level::Low)), BusStep::DataCommand(Level::Low), Some(false));
    lemma_cs_push(
        e.push(BusStep::ChipSelect(Level::Low)).push(BusStep::DataCommand(Level::Low)),
        BusStep::Write(seq![cmd]),
        Some(false),
    );
    lemma_cs_push(
        e.push(BusStep::ChipSelect(Level::Low)).push(BusStep::DataCommand(Level::Low)).push(
            BusStep::Write(seq![cmd]),
        ),
        BusStep::DataCommand(Level::High),
        Some(false),
    );
    assert(cs_after(head, Some(false)) == Some(true));
    let mid: Seq<BusStep> = if data.len() > 0 {
        seq![BusStep::Write(data)]
    } else {
        Seq::empty()
    };
    if data.len() > 0 {
        lemma_cs_push(e, BusStep::Write(data), Some(true));
    }
    assert(cs_after(mid, Some(true)) == Some(true));
    let tail = seq![BusStep::ChipSelect(Level::High)];
    lemma_cs_push(e, BusStep::ChipSelect(Level::High), Some(true));
    assert(cs_after(tail, Some(true)) == Some(false));
    assert(cmd_steps(cmd, data) == head + mid + tail);
    lemma_cs_concat(head, mid, Some(false));
    lemma_cs_concat(head + mid, tail, Some(false));
}

proof fn lemma_cs_address(x1: u16, y1: u16, x2: u16, y2: u16)
    ensures
        cs_bracketed(address_steps(x1, y1, x2, y2)),
{
    let a = cmd_steps(0x2a, span_bytes(x1, x2));
    let b = cmd_steps(0x2b, span_bytes(y1, y2));
    let c = cmd_steps(0x2c, Seq::empty());
    lemma_cs_cmd(0x2a, span_bytes(x1, x2));
    lemma_cs_cmd(0x2b, span_bytes(y1, y2));
    lemma_cs_cmd(0x2c, Seq::empty());
    lemma_cs_concat(a, b, Some(false));
    lemma_cs_concat(a + b, c, Some(false));
}

proof fn lemma_cs_delay(ms: u32, start: Option<bool>)
    ensures
        cs_after(seq![BusStep::DelayMs(ms)], start) == start,
{
    lemma_cs_push(Seq::empty(), BusStep::DelayMs(ms), start);
    match start {
        None => {},
        Some(_) => {},
    }
}

proof fn lemma_cs_memory_write(first: bool)
    ensures
        cs_after(memory_write_steps(first), Some(true)) == Some(true),
{
    let e = Seq::<BusStep>::empty();
    if first {
        let a = e.push(BusStep::DataCommand(Level::Low));
        let b = a.push(BusStep::Write(seq![MEMORY_WRITE]));
        let c = b.push(BusStep::DataCommand(Level::High));
        lemma_cs_push(e, BusStep::DataCommand(Level::Low), Some(true));
        lemma_cs_push(a, BusStep::Write(seq![MEMORY_WRITE]), Some(true));
        lemma_cs_push(b, BusStep::DataCommand(Level::High), Some(true));
        assert(cs_after(e, Some(true)) == Some(true));
        assert(memory_write_steps(first) == c);
    } else {
        assert(memory_write_steps(first) =~= e);
    }
}

/// Transfers of pixel data keep the panel selected and write only while it
/// is selected.
proof fn lemma_cs_chunked(data: Seq<u8>, first: bool)
    ensures
        cs_after(chunked_steps(data, first), Some(true)) == Some(true),
    decreases data.len(),
{
    let e = Seq::<BusStep>::empty();
    lemma_cs_memory_write(first);
    if data.len() > 0 {
        let chunk = if data.len() <= BUFFER_SIZE {
            data
        } else {
            data.take(BUFFER_SIZE as int)
        };
        lemma_cs_push(e, BusStep::Write(chunk), Some(true));
        lemma_cs_concat(memory_write_steps(first), seq![BusStep::Write(chunk)], Some(true));
        assert(cs_after(dma_steps(chunk, first), Some(true)) == Some(true));
        if data.len() > BUFFER_SIZE {
            lemma_cs_chunked(data.skip(BUFFER_SIZE as int), false);
            lemma_cs_concat(
                dma_steps(chunk, first),
                chunked_steps(data.skip(BUFFER_SIZE as int), false),
                Some(true),
            );
        }
    }
}

proof fn lemma_cs_select_data_deselect(
    head: Seq<BusStep>,
    data: Seq<u8>,
    first: bool,
)
    requires
        cs_bracketed(head),
    ensures
        cs_bracketed(head + seq![BusStep::ChipSelect(Level::Low)] + chunked_steps(data, first)
            + seq![BusStep::ChipSelect(Level::High)]),
        cs_bracketed(head + seq![BusStep::ChipSelect(Level::Low)] + dma_steps(data, first)
            + seq![BusStep::ChipSelect(Level::High)]),
{
    let e = Seq::<BusStep>::empty();
    let lo = seq![BusStep::ChipSelect(Level::Low)];
    let hi = seq![BusStep::ChipSelect(Level::High)];
    lemma_cs_push(e, BusStep::ChipSelect(Level::Low), Some(false));
    lemma_cs_push(e, BusStep::ChipSelect(Level::High), Some(true));
    lemma_cs_chunked(data, first);
    lemma_cs_concat(head, lo, Some(false));
    lemma_cs_concat(head + lo, chunked_steps(data, first), Some(false));
    lemma_cs_concat(head + lo + chunked_steps(data, first), hi, Some(false));
    // one transfer
    lemma_cs_push(e, BusStep::Write(data), Some(true));
    lemma_cs_memory_write(first);
    lemma_cs_concat(memory_write_steps(first), seq![BusStep::Write(data)], Some(true));
    lemma_cs_concat(head + lo, dma_steps(data, first), Some(false));
    lemma_cs_concat(head + lo + dma_steps(data, first), hi, Some(false));
}

proof fn lemma_cs_init_round()
    ensures
        cs_bracketed(init_round_steps()),
{
    let c1 = cmd_steps(0xFE, seq![0x00u8]);
    let c2 = cmd_steps(0x11, Seq::empty());
    let d = seq![BusStep::DelayMs(120)];
    let c3 = cmd_steps(0x3A, seq![0x75u8]);
    let c4 = cmd_steps(0x51, seq![0x00u8]);
    let c5 = cmd_steps(0x29, Seq::empty());
    let c6 = cmd_steps(0x51, seq![0xD0u8]);
    lemma_cs_cmd(0xFE, seq![0x00u8]);
    lemma_cs_cmd(0x11, Seq::empty());
    lemma_cs_cmd(0x3A, seq![0x75u8]);
    lemma_cs_cmd(0x51, seq![0x00u8]);
    lemma_cs_cmd(0x29, Seq::empty());
    lemma_cs_cmd(0x51, seq![0xD0u8]);
    lemma_cs_delay(120, Some(false));
    lemma_cs_concat(c1, c2, Some(false));
    lemma_cs_concat(c1 + c2, d, Some(false));
    lemma_cs_concat(c1 + c2 + d, c3, Some(false));
    lemma_cs_concat(c1 + c2 + d + c3, c4, Some(false));
    lemma_cs_concat(c1 + c2 + d + c3 + c4, c5, Some(false));
    lemma_cs_concat(c1 + c2 + d + c3 + c4 + c5, d, Some(false));
    lemma_cs_concat(c1 + c2 + d + c3 + c4 + c5 + d, c6, Some(false));
}

proof fn lemma_cs_draw(pixels: Seq<Pixel>)
    ensures
        cs_bracketed(draw_steps(pixels)),
    decreases pixels.len(),
{
    if pixels.len() > 0 {
        lemma_cs_draw(pixels.drop_last());
        let p = pixels.last();
        if !(p.x < 0 || p.y < 0) {
            let x = p.x as u16;
            let y = p.y as u16;
            lemma_cs_address(x, y, x, y);
            lemma_cs_cmd(MEMORY_WRITE, be_bytes(p.color));
            lemma_cs_concat(address_steps(x, y, x, y), cmd_steps(MEMORY_WRITE, be_bytes(p.color)), Some(false));
        } else {
            assert(pixel_steps(p) =~= Seq::<BusStep>::empty());
        }
        lemma_cs_concat(draw_steps(pixels.drop_last()), pixel_steps(p), Some(false));
    }
}

/// Every operation of the driver but the reset pulse selects the panel
/// before it writes and deselects it when done: starting deselected, the
/// chip-select line goes low and high in turn, every write happens while it
/// is low, and it is high at the end. The reset pulse never drives it.
pub proof fn law_chip_select_discipline(
    o: Orientation,
    cmd: u8,
    data: Seq<u8>,
    x: u16,
    y: u16,
    w: u16,
    h: u16,
    color: u16,
    pixels: Seq<Pixel>,
)
    ensures
        cs_bracketed(cmd_steps(cmd, data)),
        cs_bracketed(orientation_steps(o)),
        cs_bracketed(init_steps(o)),
        cs_bracketed(address_steps(x, y, w, h)),
        cs_bracketed(draw_point_steps(x, y, color)),
        cs_bracketed(raw_window_steps(x, y, w, h, data)),
        cs_bracketed(window_steps(x, y, w, h, data)),
        cs_bracketed(framebuffer_steps(o, data)),
        cs_bracketed(draw_steps(pixels)),
        touches_no_chip_select(reset_steps()),
{
    lemma_cs_cmd(cmd, data);
    lemma_cs_cmd(0x36, seq![madctr_of(o)]);
    lemma_cs_init_round();
    let r = init_round_steps();
    lemma_cs_concat(r, r, Some(false));
    lemma_cs_concat(r + r, r, Some(false));
    lemma_cs_concat(r + r + r, orientation_steps(o), Some(false));
    lemma_cs_address(x, y, w, h);
    lemma_cs_address(x, y, x, y);
    lemma_cs_cmd(MEMORY_WRITE, be_bytes(color));
    lemma_cs_concat(address_steps(x, y, x, y), cmd_steps(MEMORY_WRITE, be_bytes(color)), Some(false));
    let win = address_steps(x, y, window_end(x, w), window_end(y, h));
    lemma_cs_address(x, y, window_end(x, w), window_end(y, h));
    lemma_cs_select_data_deselect(win, data, true);
    let fb = address_steps(0, 0, (size_of(o).0 - 1) as u16, (size_of(o).1 - 1) as u16);
    lemma_cs_address(0, 0, (size_of(o).0 - 1) as u16, (size_of(o).1 - 1) as u16);
    lemma_cs_select_data_deselect(fb, data, true);
    lemma_cs_draw(pixels);
    assert forall|i: int| 0 <= i < reset_steps().len() implies !(#[trigger] reset_steps()[i] is ChipSelect) by {
        assert(i == 0 || i == 1 || i == 2 || i == 3);
    }
}

// ---------------------------------------------------------------------------
// Shape of the transfers
// ---------------------------------------------------------------------------

/// Pixel data of `n` bytes goes out in `ceil(n / BUFFER_SIZE)` transfers,
/// all of them full but the last.
pub proof fn law_transfer_shape(data: Seq<u8>)
    ensures
        transfers(data).len() == (data.len() + BUFFER_SIZE - 1) / (BUFFER_SIZE as int),
        forall|i: int|
            0 <= i < transfers(data).len() - 1 ==> #[trigger] transfers(data)[i].len()
                == BUFFER_SIZE,
    decreases data.len(),
{
    let bs = BUFFER_SIZE as int;
    if data.len() == 0 {
    } else if data.len() <= BUFFER_SIZE {
        assert((data.len() + bs - 1) / bs == 1);
    } else {
        let rest = data.skip(bs);
        law_transfer_shape(rest);
        let ts = transfers(data);
        assert(ts.drop_first() =~= transfers(rest));
        assert((data.len() + bs - 1) / bs == (rest.len() + bs - 1) / bs + 1);
        assert forall|i: int| 0 <= i < ts.len() - 1 implies #[trigger] ts[i].len() == BUFFER_SIZE by {
            if i > 0 {
                assert(ts[i] == transfers(rest)[i - 1]);
            }
        }
    }
}

// ---------------------------------------------------------------------------
// Orientation: register value, drawing size, pixel drawing
// ---------------------------------------------------------------------------

/// The MADCTL byte of each orientation, bit by bit: bit 7 mirrors rows,
/// bit 6 mirrors columns, bit 5 exchanges rows and columns. Portrait is the
/// panel's native scan; landscape exchanges rows and columns with columns
/// mirrored; each flipped orientation is its base turned half a circle,
/// which toggles both mirror bits.
pub proof fn law_madctr_values()
    ensures
        madctr_of(Orientation::Portrait) == 0x00u8,
        madctr_of(Orientation::Landscape) == 0x20u8 | 0x40u8,
        madctr_of(Orientation::PortraitFlipped) == madctr_of(Orientation::Portrait) ^ 0xC0u8,
        madctr_of(Orientation::LandscapeFlipped) == madctr_of(Orientation::Landscape) ^ 0xC0u8,
{
    assert(0x20u8 | 0x40u8 == 0x60u8) by (bit_vector);
    assert(0x00u8 ^ 0xC0u8 == 0xC0u8) by (bit_vector);
    assert(0x60u8 ^ 0xC0u8 == 0xA0u8) by (bit_vector);
}

/// The drawing area is 240 wide and 536 high in both portrait orientations
/// and 536 wide and 240 high in both landscape ones; it is the wide one
/// exactly when the orientation's MADCTL byte exchanges rows and columns
/// (bit 5).
pub proof fn law_size_by_orientation(o: Orientation)
    ensures
        size_of(Orientation::Portrait) == (240u32, 536u32),
        size_of(Orientation::PortraitFlipped) == (240u32, 536u32),
        size_of(Orientation::Landscape) == (536u32, 240u32),
        size_of(Orientation::LandscapeFlipped) == (536u32, 240u32),
        (madctr_of(o) & 0x20u8 == 0x20u8) ==> size_of(o) == (SCREEN_HEIGHT, SCREEN_WIDTH),
        (madctr_of(o) & 0x20u8 == 0x00u8) ==> size_of(o) == (SCREEN_WIDTH, SCREEN_HEIGHT),
{
    assert(0x00u8 & 0x20u8 == 0x00u8) by (bit_vector);
    assert(0xC0u8 & 0x20u8 == 0x00u8) by (bit_vector);
    assert(0x60u8 & 0x20u8 == 0x20u8) by (bit_vector);
    assert(0xA0u8 & 0x20u8 == 0x20u8) by (bit_vector);
}

/// Selecting an orientation is one command, 0x36, whose single parameter
/// byte is that orientation's MADCTL value.
pub proof fn law_orientation_command(o: Orientation)
    ensures
        orientation_steps(o) == seq![
            BusStep::ChipSelect(Level::Low),
            BusStep::DataCommand(Level::Low),
            BusStep::Write(seq![0x36u8]),
            BusStep::DataCommand(Level::High),
            BusStep::Write(seq![madctr_of(o)]),
            BusStep::ChipSelect(Level::High),
        ],
{
    assert(orientation_steps(o) =~= seq![
        BusStep::ChipSelect(Level::Low),
        BusStep::DataCommand(Level::Low),
        BusStep::Write(seq![0x36u8]),
        BusStep::DataCommand(Level::High),
        BusStep::Write(seq![madctr_of(o)]),
        BusStep::ChipSelect(Level::High),
    ]);
}

/// Drawing a single pixel draws it at its place in its colour, whatever the
/// colour, whenever it lies neither left of nor above the panel; only such
/// pixels are skipped.
pub proof fn law_draw_single_pixel(p: Pixel)
    ensures
        p.x >= 0 && p.y >= 0 ==> draw_steps(seq![p]) == draw_point_steps(
            p.x as u16,
            p.y as u16,
            p.color,
        ),
        p.x < 0 || p.y < 0 ==> draw_steps(seq![p]) == Seq::<BusStep>::empty(),
{
    assert(seq![p].drop_last() =~= Seq::<Pixel>::empty());
    assert(seq![p].last() == p);
    assert(draw_steps(Seq::<Pixel>::empty()) =~= Seq::<BusStep>::empty());
    if p.x >= 0 && p.y >= 0 {
        assert(draw_steps(seq![p]) =~= draw_point_steps(p.x as u16, p.y as u16, p.color));
    } else {
        assert(draw_steps(seq![p]) =~= Seq::<BusStep>::empty());
    }
}

/// One pixel's steps: the window of that single pixel, then the
/// memory-write command with the colour's two bytes, most significant first.
pub proof fn law_draw_point_steps(x: u16, y: u16, color: u16)
    ensures
        draw_point_steps(x, y, color) == address_steps(x, y, x, y) + seq![
            BusStep::ChipSelect(Level::Low),
            BusStep::DataCommand(Level::Low),
            BusStep::Write(seq![0x2Cu8]),
            BusStep::DataCommand(Level::High),
            BusStep::Write(seq![(color / 256) as u8, (color % 256) as u8]),
            BusStep::ChipSelect(Level::High),
        ],
{
    assert(draw_point_steps(x, y, color) =~= address_steps(x, y, x, y) + seq![
        BusStep::ChipSelect(Level::Low),
        BusStep::DataCommand(Level::Low),
        BusStep::Write(seq![0x2Cu8]),
        BusStep::DataCommand(Level::High),
        BusStep::Write(seq![(color / 256) as u8, (color % 256) as u8]),
        BusStep::ChipSelect(Level::High),
    ]);
}

// ---------------------------------------------------------------------------
// Commands, windows and the pixels a window takes
// ---------------------------------------------------------------------------

/// A command is sent with the chip selected and data/command low for its one
/// command byte, then data/command high for the parameter bytes (written in
/// one go, and only when there are any), then the chip is deselected.
pub proof fn law_command_framing(cmd: u8, data: Seq<u8>)
    ensures
        cmd_steps(cmd, data).len() == if data.len() > 0 { 6int } else { 5int },
        cmd_steps(cmd, data)[0] == BusStep::ChipSelect(Level::Low),
        cmd_steps(cmd, data)[1] == BusStep::DataCommand(Level::Low),
        cmd_steps(cmd, data)[2] == BusStep::Write(seq![cmd]),
        cmd_steps(cmd, data)[3] == BusStep::DataCommand(Level::High),
        data.len() > 0 ==> cmd_steps(cmd, data)[4] == BusStep::Write(data),
        cmd_steps(cmd, data).last() == BusStep::ChipSelect(Level::High),
{
}

/// Selecting a window writes command 0x2A with the first and last column and
/// command 0x2B with the first and last row, each value as two bytes that
/// read back as the value (most significant first), then command 0x2C.
pub proof fn law_address_bytes(x1: u16, y1: u16, x2: u16, y2: u16)
    ensures
        address_steps(x1, y1, x2, y2).len() == 17,
        address_steps(x1, y1, x2, y2)[2] == BusStep::Write(seq![0x2au8]),
        address_steps(x1, y1, x2, y2)[8] == BusStep::Write(seq![0x2bu8]),
        address_steps(x1, y1, x2, y2)[14] == BusStep::Write(seq![0x2cu8]),
        ({
            let xs = span_bytes(x1, x2);
            let ys = span_bytes(y1, y2);
            &&& address_steps(x1, y1, x2, y2)[4] == BusStep::Write(xs)
            &&& address_steps(x1, y1, x2, y2)[10] == BusStep::Write(ys)
            &&& xs.len() == 4 && ys.len() == 4
            &&& xs[0] * 256 + xs[1] == x1 && xs[2] * 256 + xs[3] == x2
            &&& ys[0] * 256 + ys[1] == y1 && ys[2] * 256 + ys[3] == y2
        }),
{
    let a = cmd_steps(0x2a, span_bytes(x1, x2));
    let b = cmd_steps(0x2b, span_bytes(y1, y2));
    let c = cmd_steps(0x2c, Seq::empty());
    assert(address_steps(x1, y1, x2, y2) == a + b + c);
    assert((a + b + c)[8] == b[2]);
    assert((a + b + c)[10] == b[4]);
    assert((a + b + c)[14] == c[2]);
}

/// A window starting at `x` that is `w` wide ends at column `x + w - 1`
/// (likewise for rows).
pub proof fn law_window_end(x: u16, y: u16, w: u16, h: u16)
    requires
        window_fits(x, y, w, h),
    ensures
        window_end(x, w) == x + w - 1,
        window_end(y, h) == y + h - 1,
{
}

/// The pixels a `w` by `h` window takes are the first ones of the run, as
/// many as the window holds or as the run has, whichever is fewer.
pub proof fn law_taken_pixels(colors: Seq<u16>, w: u16, h: u16)
    ensures
        taken_pixels(colors, w, h).len() == if colors.len() <= w * h {
            colors.len() as int
        } else {
            w * h
        },
        forall|i: int|
            0 <= i < taken_pixels(colors, w, h).len() ==> #[trigger] taken_pixels(colors, w, h)[i]
                == colors[i],
{
    assert(0 <= w * h) by (nonlinear_arith);
}

} // verus!
