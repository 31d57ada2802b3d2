use apple2_core::graphics::{to_pixel_map, GraphicsHandler};

const WHITE: u32 = 0xFFFFFF;
const BLACK: u32 = 0x000000;

#[test]
fn adjacent_dots_coalesce_into_white() {
    // 0x7F lights dots 0..6; every dot has a lit neighbour, so all seven
    // are white.
    let buffer: Vec<u8> = vec![0x00, 0x7F, 0x00];
    let map = to_pixel_map(&buffer, 1, 1);
    for i in 0..7 {
        assert_eq!(map[i], WHITE);
    }
}

#[test]
fn lone_dot_is_coloured_not_white() {
    // A single lit dot with dark neighbours takes a palette colour.
    let buffer: Vec<u8> = vec![0x00, 0x08, 0x00];
    let map = to_pixel_map(&buffer, 1, 1);
    assert_ne!(map[3], WHITE);
    assert_ne!(map[3], BLACK);
    // The dark dot to its left picks up the fringe, the one to its right
    // stays black.
    assert_ne!(map[2], BLACK);
    assert_eq!(map[4], BLACK);
}

#[test]
fn palette_follows_high_bit_and_parity() {
    let violet_even = to_pixel_map(&vec![0x00, 0x01, 0x00], 1, 0)[0];
    let green_odd = to_pixel_map(&vec![0x00, 0x02, 0x00], 1, 0)[1];
    let blue_even = to_pixel_map(&vec![0x00, 0x81, 0x00], 1, 0)[0];
    let orange_odd = to_pixel_map(&vec![0x00, 0x82, 0x00], 1, 0)[1];
    assert_eq!(violet_even, 0xD660EF);
    assert_eq!(green_odd, 0x68E043);
    assert_eq!(blue_even, 0x4BB8F1);
    assert_eq!(orange_odd, 0xE6792E);
}

#[test]
fn white_spills_across_byte_boundary() {
    // Dot 6 of one byte and dot 0 of the next are screen neighbours.
    let buffer: Vec<u8> = vec![0x40, 0x01, 0x00];
    let map = to_pixel_map(&buffer, 1, 1);
    assert_eq!(map[0], WHITE);
}

fn hgr_machine() -> apple2_core::apple2::Apple2 {
    let char_rom: Vec<u8> = vec![0u8; 0x800];
    let mut a2 = apple2_core::apple2::Apple2::new(char_rom).expect("rom size fits");
    // Graphics mode, HGR, full screen, page 1.
    a2.mem_manager.mem_read(0xC050);
    a2.mem_manager.mem_read(0xC057);
    a2.step_instruction(2);
    a2
}

#[test]
fn hgr_white_pixel_scenario() {
    // Write 0x7F to HGR row 0 byte 0 and 0x01 to byte 1: the rightmost
    // dot of byte 0 has bit 0 of byte 1 as a lit neighbour, so the pixel
    // at (x = 6, y = 0) is white.
    let mut a2 = hgr_machine();
    a2.mem_manager.mem_write(0x2000, 0x7F);
    a2.mem_manager.mem_write(0x2001, 0x01);
    a2.step_instruction(2);
    a2.draw_frame(60);
    let pix = &a2.gfx_handler.pixel_buf;
    let n = 6 * 3; // x = 6, y = 0
    assert_eq!(&pix[n..n + 3], &[0xFF, 0xFF, 0xFF]);
}

#[test]
fn text_mode_renders_glyph_dots() {
    // A character ROM whose glyph rows are 0x55 paints alternating dots
    // for inverse-mode character 0 (value 0x00 inverts the bits).
    let mut char_rom: Vec<u8> = vec![0u8; 0x800];
    for j in 0..8 {
        char_rom[j] = 0x55;
    }
    let mut a2 = apple2_core::apple2::Apple2::new(char_rom).expect("rom size fits");
    // Text page 1 cell (0, 0) holds 0x00: inverse video of glyph 0.
    a2.mem_manager.mem_write(0x400, 0x00);
    a2.step_instruction(1);
    a2.draw_frame(60);
    let pix = &a2.gfx_handler.pixel_buf;
    // Inverted 0x55 is 0xAA: bits 6..0 = 0101010, so dots alternate
    // starting dark.
    for i in 0..7 {
        let expect_white = [false, true, false, true, false, true, false][i];
        let n = i * 3;
        let white = pix[n] == 0xFF && pix[n + 1] == 0xFF && pix[n + 2] == 0xFF;
        assert_eq!(white, expect_white);
    }
}

#[test]
fn lores_cell_colours_halves() {
    let char_rom: Vec<u8> = vec![0u8; 0x800];
    let mut a2 = apple2_core::apple2::Apple2::new(char_rom).expect("rom size fits");
    // Graphics, LORES, full screen.
    a2.mem_manager.mem_read(0xC050);
    a2.mem_manager.mem_read(0xC056);
    a2.step_instruction(2);
    // Low nibble 1 (magenta) on top, high nibble 15 (white) below.
    a2.mem_manager.mem_write(0x400, 0xF1);
    a2.step_instruction(1);
    a2.draw_frame(60);
    let pix = &a2.gfx_handler.pixel_buf;
    // Top scan line of cell (0, 0): magenta 0x901740.
    assert_eq!(&pix[0..3], &[0x90, 0x17, 0x40]);
    // Scan line 4 of the cell: white.
    let n = 4 * 840;
    assert_eq!(&pix[n..n + 3], &[0xFF, 0xFF, 0xFF]);
}

#[test]
fn mixed_mode_keeps_bottom_rows_text() {
    let char_rom: Vec<u8> = vec![0u8; 0x800]; // all-zero glyphs
    let mut a2 = apple2_core::apple2::Apple2::new(char_rom).expect("rom size fits");
    // Graphics, LORES, mixed.
    a2.mem_manager.mem_read(0xC050);
    a2.mem_manager.mem_read(0xC056);
    a2.mem_manager.mem_read(0xC053);
    a2.step_instruction(3);
    // A LORES white cell in the bottom four rows (row 20, cell 0): its
    // text address is 0x650 under the interleaved layout.
    a2.mem_manager.mem_write(0x650, 0xFF);
    a2.step_instruction(1);
    a2.draw_frame(60);
    let pix = &a2.gfx_handler.pixel_buf;
    // Row 20 renders as text: normal-video character 0xFF with an
    // all-zero glyph paints black, not the LORES white.
    let n = 20 * 8 * 840;
    assert_eq!(&pix[n..n + 3], &[0x00, 0x00, 0x00]);
}

#[test]
fn video_soft_switches_set_modes() {
    let char_rom: Vec<u8> = vec![0u8; 0x800];
    let mut g = GraphicsHandler::new(char_rom);
    assert!(g.txt_mode);
    g.handle_soft_sw(0xC050);
    assert!(!g.txt_mode);
    g.handle_soft_sw(0xC057);
    assert!(g.hires_mode);
    // The text switch sets only the text flag: hires stays as it was.
    g.handle_soft_sw(0xC051);
    assert!(g.txt_mode && g.hires_mode);
    g.handle_soft_sw(0xC056);
    assert!(!g.hires_mode);
    g.handle_soft_sw(0xC053);
    assert!(g.mixed_mode);
    g.handle_soft_sw(0xC052);
    assert!(!g.mixed_mode);
    g.handle_soft_sw(0xC055);
    assert!(g.use_pg2);
    g.handle_soft_sw(0xC054);
    assert!(!g.use_pg2);
}
