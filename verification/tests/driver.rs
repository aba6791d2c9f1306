use embedded_graphics::pixelcolor::{IntoStorage, Rgb565, RgbColor};
use t_display_s3_amoled::bus::{BusOp, Level};
use t_display_s3_amoled::image::put_pixel_be;
use t_display_s3_amoled::rm67162::dma::{
    Area, PixelStream, Pixel, RM67162Dma, BUFFER_PIXELS, BUFFER_SIZE, SCREEN_HEIGHT, SCREEN_WIDTH,
};
use t_display_s3_amoled::rm67162::Orientation;

fn cmd(c: u8, data: &[u8]) -> Vec<BusOp> {
    let mut v = vec![
        BusOp::ChipSelect(Level::Low),
        BusOp::DataCommand(Level::Low),
        BusOp::Write(vec![c]),
        BusOp::DataCommand(Level::High),
    ];
    if !data.is_empty() {
        v.push(BusOp::Write(data.to_vec()));
    }
    v.push(BusOp::ChipSelect(Level::High));
    v
}

fn address(x1: u16, y1: u16, x2: u16, y2: u16) -> Vec<BusOp> {
    let mut v = cmd(0x2a, &[(x1 >> 8) as u8, x1 as u8, (x2 >> 8) as u8, x2 as u8]);
    v.extend(cmd(0x2b, &[(y1 >> 8) as u8, y1 as u8, (y2 >> 8) as u8, y2 as u8]));
    v.extend(cmd(0x2c, &[]));
    v
}

fn memory_write() -> Vec<BusOp> {
    vec![
        BusOp::DataCommand(Level::Low),
        BusOp::Write(vec![0x2C]),
        BusOp::DataCommand(Level::High),
    ]
}

/// The payloads of the pixel transfers that follow the window selection.
fn transfers(ops: &[BusOp], skip: usize) -> Vec<Vec<u8>> {
    ops[skip..]
        .iter()
        .filter_map(|op| match op {
            BusOp::Write(b) if b != &vec![0x2C] => Some(b.clone()),
            _ => None,
        })
        .collect()
}

fn be(colors: &[u16]) -> Vec<u8> {
    colors.iter().flat_map(|c| c.to_be_bytes()).collect()
}

#[test]
fn new_driver_is_portrait() {
    let d = RM67162Dma::new();
    assert_eq!(d.orientation(), Orientation::Portrait);
    assert_eq!(d.size(), (240, 536));
}

#[test]
fn madctr_values() {
    assert_eq!(Orientation::Portrait.to_madctr(), 0x00);
    assert_eq!(Orientation::Landscape.to_madctr(), 0x60);
    assert_eq!(Orientation::PortraitFlipped.to_madctr(), 0xC0);
    assert_eq!(Orientation::LandscapeFlipped.to_madctr(), 0xA0);
}

#[test]
fn madctr_tells_orientations_apart() {
    let all = [
        Orientation::Portrait,
        Orientation::Landscape,
        Orientation::PortraitFlipped,
        Orientation::LandscapeFlipped,
    ];
    for a in all {
        for b in all {
            assert_eq!(a.to_madctr() == b.to_madctr(), a == b);
        }
    }
}

#[test]
fn set_orientation_writes_madctl() {
    let mut d = RM67162Dma::new();
    let ops = d.set_orientation(Orientation::LandscapeFlipped);
    assert_eq!(ops, cmd(0x36, &[0xA0]));
    assert_eq!(d.orientation(), Orientation::LandscapeFlipped);
    assert_eq!(d.size(), (536, 240));
}

#[test]
fn size_covers_panel_in_every_orientation() {
    let mut d = RM67162Dma::new();
    for o in [
        Orientation::Portrait,
        Orientation::Landscape,
        Orientation::PortraitFlipped,
        Orientation::LandscapeFlipped,
    ] {
        d.set_orientation(o);
        let (w, h) = d.size();
        assert_eq!(w * h, SCREEN_WIDTH * SCREEN_HEIGHT);
        assert_eq!(w > h, o.is_landscape());
    }
}

#[test]
fn reset_pulse() {
    let d = RM67162Dma::new();
    assert_eq!(
        d.reset(),
        vec![
            BusOp::Reset(Level::Low),
            BusOp::DelayMs(300),
            BusOp::Reset(Level::High),
            BusOp::DelayMs(200),
        ]
    );
}

#[test]
fn send_cmd_without_data_writes_only_the_command() {
    let d = RM67162Dma::new();
    assert_eq!(d.send_cmd(0x29, &[]), cmd(0x29, &[]));
    assert_eq!(d.send_cmd(0x29, &[]).len(), 5);
}

#[test]
fn send_cmd_keeps_low_byte() {
    let d = RM67162Dma::new();
    assert_eq!(d.send_cmd(0x1_2A, &[7]), cmd(0x2A, &[7]));
}

#[test]
fn init_sequence() {
    let mut d = RM67162Dma::new();
    d.set_orientation(Orientation::Landscape);
    let ops = d.init();
    let mut round = Vec::new();
    round.extend(cmd(0xFE, &[0x00]));
    round.extend(cmd(0x11, &[]));
    round.push(BusOp::DelayMs(120));
    round.extend(cmd(0x3A, &[0x75]));
    round.extend(cmd(0x51, &[0x00]));
    round.extend(cmd(0x29, &[]));
    round.push(BusOp::DelayMs(120));
    round.extend(cmd(0x51, &[0xD0]));
    let mut expected = Vec::new();
    for _ in 0..3 {
        expected.extend(round.clone());
    }
    expected.extend(cmd(0x36, &[0x60]));
    assert_eq!(ops, expected);
    assert_eq!(d.orientation(), Orientation::Landscape);
}

#[test]
fn set_address_big_endian_coordinates() {
    let d = RM67162Dma::new();
    let ops = d.set_address(0x0102, 0x0304, 0x01FF, 0x0217);
    assert_eq!(ops[4], BusOp::Write(vec![0x01, 0x02, 0x01, 0xFF]));
    assert_eq!(ops[10], BusOp::Write(vec![0x03, 0x04, 0x02, 0x17]));
    assert_eq!(ops, address(0x0102, 0x0304, 0x01FF, 0x0217));
}

#[test]
fn draw_point_sends_color_big_endian() {
    let d = RM67162Dma::new();
    let red = Rgb565::RED.into_storage();
    let ops = d.draw_point(3, 4, red);
    let mut expected = address(3, 4, 3, 4);
    expected.extend(cmd(0x2C, &[0xF8, 0x00]));
    assert_eq!(ops, expected);
}

#[test]
fn draw_point_is_unit_fill() {
    let d = RM67162Dma::new();
    let c = Rgb565::new(1, 2, 3).into_storage();
    assert_eq!(d.draw_point(10, 20, c), d.fill_colors(10, 20, 1, 1, &[c]));
}

#[test]
fn fill_colors_small_window() {
    let d = RM67162Dma::new();
    let colors = [0x1234u16, 0xABCD, 0x00FF, 0xFF00];
    let ops = d.fill_colors(5, 6, 2, 2, &colors);
    let mut expected = address(5, 6, 6, 7);
    expected.push(BusOp::ChipSelect(Level::Low));
    expected.extend(memory_write());
    expected.push(BusOp::Write(vec![0x12, 0x34, 0xAB, 0xCD, 0x00, 0xFF, 0xFF, 0x00]));
    expected.push(BusOp::ChipSelect(Level::High));
    assert_eq!(ops, expected);
}

#[test]
fn fill_colors_takes_at_most_window_pixels() {
    let d = RM67162Dma::new();
    let ops = d.fill_colors(0, 0, 1, 2, &[1, 2, 3, 4]);
    assert_eq!(transfers(&ops, 18), vec![vec![0, 1, 0, 2]]);
}

#[test]
fn fill_colors_with_fewer_pixels_sends_what_there_is() {
    let d = RM67162Dma::new();
    let ops = d.fill_colors(0, 0, 4, 4, &[0xFFFF]);
    assert_eq!(transfers(&ops, 18), vec![vec![0xFF, 0xFF]]);
}

#[test]
fn fill_colors_with_no_pixels_sends_no_transfer() {
    let d = RM67162Dma::new();
    let ops = d.fill_colors(0, 0, 4, 4, &[]);
    let mut expected = address(0, 0, 3, 3);
    expected.push(BusOp::ChipSelect(Level::Low));
    expected.push(BusOp::ChipSelect(Level::High));
    assert_eq!(ops, expected);
}

#[test]
fn exactly_one_buffer_is_one_transfer() {
    let d = RM67162Dma::new();
    let colors: Vec<u16> = (0..BUFFER_PIXELS as u16).collect();
    let ops = d.fill_colors(0, 0, 200, 200, &colors);
    let t = transfers(&ops, 18);
    assert_eq!(t.len(), 1);
    assert_eq!(t[0].len(), BUFFER_SIZE);
    assert_eq!(t[0], be(&colors));
}

#[test]
fn one_pixel_over_a_buffer_is_two_transfers() {
    let d = RM67162Dma::new();
    let colors: Vec<u16> = (0..(BUFFER_PIXELS as u16 + 1)).collect();
    let ops = d.fill_colors(0, 0, 200, 200, &colors);
    let t = transfers(&ops, 18);
    assert_eq!(t.len(), 2);
    assert_eq!(t[0].len(), BUFFER_SIZE);
    assert_eq!(t[1], be(&colors[BUFFER_PIXELS..]));
    // only the first transfer is preceded by the memory-write command
    let mw = ops.iter().filter(|o| **o == BusOp::Write(vec![0x2C])).count();
    assert_eq!(mw, 2); // one from the window selection, one for the data
}

#[test]
fn full_screen_fill_matches_framebuffer() {
    let mut d = RM67162Dma::new();
    d.set_orientation(Orientation::Landscape);
    let n = (536 * 240) as usize;
    let colors: Vec<u16> = (0..n).map(|i| (i * 7) as u16).collect();
    let a = d.fill_colors(0, 0, 536, 240, &colors);
    let b = d.fill_with_framebuffer(&be(&colors));
    assert_eq!(a, b);
    let t = transfers(&a, 18);
    assert_eq!(t.len(), 16);
    assert!(t.iter().all(|c| !c.is_empty() && c.len() <= BUFFER_SIZE));
    assert_eq!(t.concat(), be(&colors));
}

#[test]
fn framebuffer_uses_current_size() {
    let d = RM67162Dma::new();
    let ops = d.fill_with_framebuffer(&[1, 2]);
    let mut expected = address(0, 0, 239, 535);
    expected.push(BusOp::ChipSelect(Level::Low));
    expected.extend(memory_write());
    expected.push(BusOp::Write(vec![1, 2]));
    expected.push(BusOp::ChipSelect(Level::High));
    assert_eq!(ops, expected);
}

#[test]
fn empty_framebuffer_sends_no_transfer() {
    let d = RM67162Dma::new();
    let ops = d.fill_with_framebuffer(&[]);
    let mut expected = address(0, 0, 239, 535);
    expected.push(BusOp::ChipSelect(Level::Low));
    expected.push(BusOp::ChipSelect(Level::High));
    assert_eq!(ops, expected);
}

#[test]
fn raw_fill_is_one_transfer_even_when_large() {
    let d = RM67162Dma::new();
    let raw = vec![0xAAu8; BUFFER_SIZE * 2];
    let ops = d.fill_raw_colors(1, 2, 3, 4, &raw);
    let mut expected = address(1, 2, 3, 5);
    expected.push(BusOp::ChipSelect(Level::Low));
    expected.extend(memory_write());
    expected.push(BusOp::Write(raw.clone()));
    expected.push(BusOp::ChipSelect(Level::High));
    assert_eq!(ops, expected);
}

#[test]
fn raw_fill_matches_pixel_fill_within_one_buffer() {
    let d = RM67162Dma::new();
    let colors = [0x0102u16, 0x0304, 0x0506];
    assert_eq!(d.fill_raw_colors(7, 8, 3, 1, &be(&colors)), d.fill_colors(7, 8, 3, 1, &colors));
}

#[test]
fn raw_fill_with_no_bytes_still_writes() {
    let d = RM67162Dma::new();
    let ops = d.fill_raw_colors(0, 0, 1, 1, &[]);
    assert!(ops.contains(&BusOp::Write(vec![])));
}

#[test]
fn fill_color_repeats_color() {
    let d = RM67162Dma::new();
    let c = Rgb565::GREEN.into_storage();
    let ops = d.fill_color(0, 0, 3, 2, c);
    assert_eq!(ops, d.fill_colors(0, 0, 3, 2, &[c; 6]));
    assert_eq!(transfers(&ops, 18), vec![vec![0x07, 0xE0].repeat(6)]);
}

#[test]
fn fill_color_large_area_chunks() {
    let d = RM67162Dma::new();
    let ops = d.fill_color(0, 0, 240, 536, 0xFFFF);
    let t = transfers(&ops, 18);
    assert_eq!(t.len(), 16);
    assert_eq!(t.concat().len(), 240 * 536 * 2);
    assert_eq!(t[15].len(), 240 * 536 * 2 - 15 * BUFFER_SIZE);
}

#[test]
fn draw_iter_skips_negative_coordinates() {
    let d = RM67162Dma::new();
    let pixels = [
        Pixel { x: -1, y: 0, color: 1 },
        Pixel { x: 2, y: 3, color: 0xF800 },
        Pixel { x: 0, y: -5, color: 1 },
    ];
    assert_eq!(d.draw_iter(&pixels), d.draw_point(2, 3, 0xF800));
}

#[test]
fn draw_iter_concatenates() {
    let d = RM67162Dma::new();
    let a = [Pixel { x: 1, y: 1, color: 5 }];
    let b = [Pixel { x: 2, y: 2, color: 6 }, Pixel { x: 3, y: 3, color: 7 }];
    let mut ab = a.to_vec();
    ab.extend_from_slice(&b);
    let mut expected = d.draw_iter(&a);
    expected.extend(d.draw_iter(&b));
    assert_eq!(d.draw_iter(&ab), expected);
}

#[test]
fn draw_iter_truncates_large_coordinates() {
    let d = RM67162Dma::new();
    let pixels = [Pixel { x: 0x1_0005, y: 7, color: 1 }];
    assert_eq!(d.draw_iter(&pixels), d.draw_point(5, 7, 1));
}

#[test]
fn fill_solid_cuts_area_to_16_bits() {
    let d = RM67162Dma::new();
    let area = Area { x: 0x1_0002, y: 3, width: 0x1_0002, height: 2 };
    assert_eq!(area.window(), (2, 3, 2, 2));
    assert_eq!(d.fill_solid(&area, 9), d.fill_color(2, 3, 2, 2, 9));
}

#[test]
fn fill_contiguous_uses_window() {
    let d = RM67162Dma::new();
    let area = Area { x: 4, y: 5, width: 2, height: 1 };
    assert_eq!(d.fill_contiguous(&area, &[1, 2, 3]), d.fill_colors(4, 5, 2, 1, &[1, 2]));
}

#[test]
fn stream_ignores_pixels_past_budget() {
    let mut s = PixelStream::new(2);
    assert!(s.push(1).is_empty());
    assert!(s.push(2).is_empty());
    assert_eq!(s.remaining_pixels(), 0);
    assert!(s.push(3).is_empty());
    let mut expected = memory_write();
    expected.push(BusOp::Write(vec![0, 1, 0, 2]));
    expected.push(BusOp::ChipSelect(Level::High));
    assert_eq!(s.finish(), expected);
}

#[test]
fn stream_flushes_full_buffer_when_next_pixel_arrives() {
    let mut s = PixelStream::new(BUFFER_PIXELS + 1);
    for _ in 0..BUFFER_PIXELS {
        assert!(s.push(0x0101).is_empty());
    }
    let flushed = s.push(0x0202);
    let mut expected = memory_write();
    expected.push(BusOp::Write(vec![1u8; BUFFER_SIZE]));
    assert_eq!(flushed, expected);
    assert_eq!(
        s.finish(),
        vec![BusOp::Write(vec![2, 2]), BusOp::ChipSelect(Level::High)]
    );
}

#[test]
fn stream_without_pixels_only_deselects() {
    let s = PixelStream::new(10);
    assert_eq!(s.finish(), vec![BusOp::ChipSelect(Level::High)]);
}

#[test]
fn start_fill_selects_window_and_chip() {
    let d = RM67162Dma::new();
    let (ops, s) = d.start_fill(10, 20, 3, 4);
    let mut expected = address(10, 20, 12, 23);
    expected.push(BusOp::ChipSelect(Level::Low));
    assert_eq!(ops, expected);
    assert_eq!(s.remaining_pixels(), 12);
}

#[test]
fn pixel_bytes_read_back_as_the_colors() {
    let d = RM67162Dma::new();
    let colors = [0x0000u16, 0x00FF, 0xFF00, 0xBEEF, 0xFFFF];
    let ops = d.fill_colors(0, 0, 5, 1, &colors);
    let bytes = transfers(&ops, 18).concat();
    assert_eq!(bytes.len(), 2 * colors.len());
    for (i, c) in colors.iter().enumerate() {
        assert_eq!(u16::from(bytes[2 * i]) * 256 + u16::from(bytes[2 * i + 1]), *c);
    }
}

#[test]
fn put_pixel_writes_big_endian_at_offset() {
    let mut image = vec![0u8; 3 * 2 * 2];
    put_pixel_be(&mut image, 3, 1, 1, Rgb565::BLUE.into_storage());
    assert_eq!(image, vec![0, 0, 0, 0, 0, 0, 0, 0, 0x00, 0x1F, 0, 0]);
    put_pixel_be(&mut image, 3, 2, 0, 0xABCD);
    assert_eq!(&image[4..6], &[0xAB, 0xCD]);
}

/// Checks the chip-select discipline: select and deselect in turn, starting
/// deselected, writes only while selected, deselected at the end.
fn chip_select_bracketed(ops: &[BusOp]) -> bool {
    let mut selected = false;
    for op in ops {
        match op {
            BusOp::ChipSelect(Level::Low) if !selected => selected = true,
            BusOp::ChipSelect(Level::High) if selected => selected = false,
            BusOp::ChipSelect(_) => return false,
            BusOp::Write(_) if !selected => return false,
            _ => {}
        }
    }
    !selected
}

#[test]
fn every_operation_brackets_chip_select() {
    let mut d = RM67162Dma::new();
    assert!(chip_select_bracketed(&d.init()));
    assert!(chip_select_bracketed(&d.set_orientation(Orientation::Landscape)));
    assert!(chip_select_bracketed(&d.send_cmd(0x29, &[])));
    assert!(chip_select_bracketed(&d.set_address(1, 2, 3, 4)));
    assert!(chip_select_bracketed(&d.draw_point(1, 2, 3)));
    assert!(chip_select_bracketed(&d.fill_raw_colors(0, 0, 2, 2, &[1, 2, 3])));
    assert!(chip_select_bracketed(&d.fill_with_framebuffer(&vec![7u8; 3 * BUFFER_SIZE + 5])));
    assert!(chip_select_bracketed(&d.fill_colors(0, 0, 10, 10, &[5u16; 100])));
    assert!(chip_select_bracketed(&d.fill_color(0, 0, 200, 100, 9)));
    let pixels = [Pixel { x: 1, y: 1, color: 1 }, Pixel { x: -1, y: 1, color: 1 }];
    assert!(chip_select_bracketed(&d.draw_iter(&pixels)));
    assert!(d.reset().iter().all(|op| !matches!(op, BusOp::ChipSelect(_))));
}

#[test]
fn transfers_are_full_but_the_last() {
    let d = RM67162Dma::new();
    let n = 2 * BUFFER_SIZE + 10;
    let ops = d.fill_with_framebuffer(&vec![1u8; n]);
    let t = transfers(&ops, 18);
    assert_eq!(t.len(), (n + BUFFER_SIZE - 1) / BUFFER_SIZE);
    assert_eq!(t[0].len(), BUFFER_SIZE);
    assert_eq!(t[1].len(), BUFFER_SIZE);
    assert_eq!(t[2].len(), 10);
    let ops = d.fill_with_framebuffer(&vec![1u8; 2 * BUFFER_SIZE]);
    assert_eq!(transfers(&ops, 18).len(), 2);
}
