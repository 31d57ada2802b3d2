//! Video compositor: renders the text / LORES / HGR pages of main memory
//! into an RGB pixel buffer, including the NTSC colour parity rule and the
//! coalescing of adjacent HGR dots into white.

use vstd::prelude::*;

verus! {

/// Display width in pixels.
pub const DISP_WIDTH: usize = 280;
/// Display height in pixels.
pub const DISP_HEIGHT: usize = 192;
/// Scale factor a host window applies.
pub const DISP_SCALE: usize = 3;

/// Bytes per pixel in the buffer.
pub const PIXEL_SIZE: usize = 3;
/// Character block rows on screen.
pub const BLOCK_ROWS: usize = 24;
/// Character block columns on screen.
pub const BLOCK_COLS: usize = 40;
/// Dots per block row.
pub const BLOCK_WIDTH: usize = 7;
/// Scan lines per block.
pub const BLOCK_HEIGHT: usize = 8;
/// Size of the character generator ROM.
pub const CHAR_ROM_SIZE: usize = 0x800;
/// The flash phase toggles `FLASH_RATE` times per second.
pub const FLASH_RATE: u32 = 4;
/// Bytes per scan line of the pixel buffer.
pub const BYTES_PER_BLOCK_ROW: usize = BLOCK_COLS * BLOCK_WIDTH * PIXEL_SIZE;
/// Size of the whole pixel buffer.
pub const PIXEL_BUF_SIZE: usize = DISP_WIDTH * DISP_HEIGHT * PIXEL_SIZE;

/// Video soft switches.
pub const GFX_MODE: usize = 0xC050;
pub const TXT_MODE: usize = 0xC051;
pub const SINGLE_MODE: usize = 0xC052;
pub const MIXED_MODE: usize = 0xC053;
pub const PG1_MODE: usize = 0xC054;
pub const PG2_MODE: usize = 0xC055;
pub const LORES_MODE: usize = 0xC056;
pub const HIRES_MODE: usize = 0xC057;

/// Colours, packed 0xRRGGBB.
pub const COLOR_BLACK: u32 = 0x000000;
pub const COLOR_WHITE: u32 = 0xFFFFFF;
pub const COLOR_MAGENTA: u32 = 0x901740;
pub const COLOR_DARK_BLUE: u32 = 0x402CA5;
pub const COLOR_PURPLE: u32 = 0xD043E5;
pub const COLOR_DARK_GREEN: u32 = 0x006940;
pub const COLOR_GREY: u32 = 0x808080;
pub const COLOR_BLUE: u32 = 0x2F95E5;
pub const COLOR_LIGHT_BLUE: u32 = 0xBFABFF;
pub const COLOR_BROWN: u32 = 0x405400;
pub const COLOR_ORANGE: u32 = 0xD06A1A;
pub const COLOR_PINK: u32 = 0xFF96BF;
pub const COLOR_LIGHT_GREEN: u32 = 0x2FBC1A;
pub const COLOR_YELLOW: u32 = 0xBFD35A;
pub const COLOR_AQUA: u32 = 0x6FE8BF;
pub const COLOR_HIRES_BLUE: u32 = 0x4BB8F1;
pub const COLOR_HIRES_ORANGE: u32 = 0xE6792E;
pub const COLOR_HIRES_VIOLET: u32 = 0xD660EF;
pub const COLOR_HIRES_GREEN: u32 = 0x68E043;

/// The dot `i` (0 = leftmost of the block) of the HGR byte at `buf_idx`.
pub open spec fn hgr_dot(buffer: Seq<u8>, buf_idx: int, i: int) -> u8 {
    (buffer[buf_idx] >> (i as u8)) & 1
}

/// The dot to the left of dot `i`, reaching into the previous byte at the
/// block edge; off-screen dots are dark.
pub open spec fn hgr_left_dot(buffer: Seq<u8>, buf_idx: int, block_col: int, i: int) -> u8 {
    if i == 0 {
        if block_col != 0 {
            (buffer[buf_idx - 1] >> 6u8) & 1
        } else {
            0
        }
    } else {
        (buffer[buf_idx] >> ((i - 1) as u8)) & 1
    }
}

/// The dot to the right of dot `i`, reaching into the next byte at the
/// block edge; off-screen dots are dark.
pub open spec fn hgr_right_dot(buffer: Seq<u8>, buf_idx: int, block_col: int, i: int) -> u8 {
    if i == 6 {
        if block_col != BLOCK_COLS - 1 {
            buffer[buf_idx + 1] & 1
        } else {
            0
        }
    } else {
        (buffer[buf_idx] >> ((i + 1) as u8)) & 1
    }
}

/// Whether dot `i` of the block in `block_col` sits on an even screen
/// column.
pub open spec fn hgr_is_even(block_col: int, i: int) -> bool {
    (block_col % 2 == 0 && i % 2 == 0) || (block_col % 2 == 1 && i % 2 == 1)
}

/// The colour of HGR dot `i` of the byte at `buf_idx`: a lit dot next to
/// another lit dot is white; a lone lit dot takes the palette colour of
/// its column parity (bit 7 of the byte picks the palette pair); a dark
/// dot left of a lit one takes the opposite parity's colour as fringing;
/// everything else is black.
pub open spec fn hgr_color(buffer: Seq<u8>, buf_idx: int, block_col: int, i: int) -> u32 {
    let alt = (buffer[buf_idx] >> 7u8) != 0;
    let dot = hgr_dot(buffer, buf_idx, i);
    let left = hgr_left_dot(buffer, buf_idx, block_col, i);
    let right = hgr_right_dot(buffer, buf_idx, block_col, i);
    let even = hgr_is_even(block_col, i);
    if dot != 0 {
        if left == 1 || right == 1 {
            COLOR_WHITE
        } else if alt && even {
            COLOR_HIRES_BLUE
        } else if alt && !even {
            COLOR_HIRES_ORANGE
        } else if !alt && even {
            COLOR_HIRES_VIOLET
        } else {
            COLOR_HIRES_GREEN
        }
    } else if right == 1 {
        if alt && !even {
            COLOR_HIRES_BLUE
        } else if alt && even {
            COLOR_HIRES_ORANGE
        } else if !alt && !even {
            COLOR_HIRES_VIOLET
        } else {
            COLOR_HIRES_GREEN
        }
    } else {
        COLOR_BLACK
    }
}

/// Every white pixel of an HGR block has its own dot lit and at least one
/// lit neighbouring dot: white only arises from the coalescing rule.
pub proof fn lemma_white_needs_neighbour(buffer: Seq<u8>, buf_idx: int, block_col: int, i: int)
    requires
        hgr_color(buffer, buf_idx, block_col, i) == COLOR_WHITE,
    ensures
        hgr_dot(buffer, buf_idx, i) != 0,
        hgr_left_dot(buffer, buf_idx, block_col, i) == 1 || hgr_right_dot(
            buffer,
            buf_idx,
            block_col,
            i,
        ) == 1,
{
}

/// Map the seven dots of one HGR byte to their colours; the neighbouring
/// bytes take part through the edge dots.
pub fn to_pixel_map(buffer: &Vec<u8>, buf_idx: usize, block_col: usize) -> (r: Vec<u32>)
    requires
        buf_idx < buffer.len(),
        block_col < BLOCK_COLS,
        block_col != 0 ==> buf_idx >= 1,
        block_col != BLOCK_COLS - 1 ==> buf_idx + 1 < buffer.len(),
    ensures
        r@.len() == BLOCK_WIDTH,
        forall|i: int|
            0 <= i < BLOCK_WIDTH ==> r@[i] == hgr_color(
                buffer@,
                buf_idx as int,
                block_col as int,
                i,
            ),
{
    let mut pixel_map: Vec<u32> = Vec::new();
    let val = buffer[buf_idx];
    let alt_colors = (val >> 7u8) != 0;

    let left_block_dot: u8 = if block_col != 0 {
        (buffer[buf_idx - 1] >> 6u8) & 1
    } else {
        0
    };
    let right_block_dot: u8 = if block_col != BLOCK_COLS - 1 {
        buffer[buf_idx + 1] & 1
    } else {
        0
    };

    let mut i: usize = 0;
    while i < BLOCK_WIDTH
        invariant
            i <= BLOCK_WIDTH,
            buf_idx < buffer.len(),
            block_col < BLOCK_COLS,
            block_col != 0 ==> buf_idx >= 1,
            block_col != BLOCK_COLS - 1 ==> buf_idx + 1 < buffer.len(),
            val == buffer@[buf_idx as int],
            alt_colors == ((val >> 7u8) != 0),
            left_block_dot == (if block_col != 0 {
                (buffer@[buf_idx - 1] >> 6u8) & 1
            } else {
                0u8
            }),
            right_block_dot == (if block_col != BLOCK_COLS - 1 {
                buffer@[buf_idx + 1] & 1
            } else {
                0u8
            }),
            pixel_map@.len() == i,
            forall|q: int|
                0 <= q < i ==> pixel_map@[q] == hgr_color(
                    buffer@,
                    buf_idx as int,
                    block_col as int,
                    q,
                ),
        decreases BLOCK_WIDTH - i,
    {
        let dot = (val >> (i as u8)) & 1;
        let left_dot: u8 = if i == 0 {
            left_block_dot
        } else {
            (val >> ((i - 1) as u8)) & 1
        };
        let right_dot: u8 = if i == 6 {
            right_block_dot
        } else {
            (val >> ((i + 1) as u8)) & 1
        };

        let is_even = (block_col % 2 == 0 && i % 2 == 0) || (block_col % 2 == 1 && i % 2 == 1);

        let color = if dot != 0 {
            if left_dot == 1 || right_dot == 1 {
                COLOR_WHITE
            } else if alt_colors && is_even {
                COLOR_HIRES_BLUE
            } else if alt_colors && !is_even {
                COLOR_HIRES_ORANGE
            } else if !alt_colors && is_even {
                COLOR_HIRES_VIOLET
            } else {
                COLOR_HIRES_GREEN
            }
        } else if right_dot == 1 {
            if alt_colors && !is_even {
                COLOR_HIRES_BLUE
            } else if alt_colors && is_even {
                COLOR_HIRES_ORANGE
            } else if !alt_colors && !is_even {
                COLOR_HIRES_VIOLET
            } else {
                COLOR_HIRES_GREEN
            }
        } else {
            COLOR_BLACK
        };

        pixel_map.push(color);
        i = i + 1;
    }
    pixel_map
}

/// Mathematical state of the compositor.
pub ghost struct GfxModel {
    pub pixel_buf: Seq<u8>,
    pub char_data: Seq<u8>,
    pub frame_count: u32,
    pub flash: bool,
    pub txt_mode: bool,
    pub hires_mode: bool,
    pub mixed_mode: bool,
    pub use_pg2: bool,
}

impl GfxModel {
    /// The buffers have their fixed sizes.
    pub open spec fn wf(self) -> bool {
        &&& self.pixel_buf.len() == PIXEL_BUF_SIZE
        &&& self.char_data.len() == CHAR_ROM_SIZE
    }

    /// The same state with another pixel buffer.
    pub open spec fn with_pixels(self, pix: Seq<u8>) -> GfxModel {
        GfxModel { pixel_buf: pix, ..self }
    }

    /// The state after one video soft-switch touch.
    pub open spec fn soft_sw_step(self, address: usize) -> GfxModel {
        if address == GFX_MODE {
            GfxModel { txt_mode: false, ..self }
        } else if address == TXT_MODE {
            GfxModel { txt_mode: true, ..self }
        } else if address == SINGLE_MODE {
            GfxModel { mixed_mode: false, ..self }
        } else if address == MIXED_MODE {
            GfxModel { mixed_mode: true, ..self }
        } else if address == PG1_MODE {
            GfxModel { use_pg2: false, ..self }
        } else if address == PG2_MODE {
            GfxModel { use_pg2: true, ..self }
        } else if address == LORES_MODE {
            GfxModel { hires_mode: false, ..self }
        } else if address == HIRES_MODE {
            GfxModel { hires_mode: true, ..self }
        } else {
            self
        }
    }

    /// The flash phase after one frame: the counter wraps every
    /// `frame_rate / FLASH_RATE` frames and toggles the phase.
    pub open spec fn flash_step(self, frame_rate: u32) -> GfxModel {
        let fc = if self.frame_count == u32::MAX {
            self.frame_count
        } else {
            (self.frame_count + 1) as u32
        };
        if fc >= frame_rate / FLASH_RATE {
            GfxModel { frame_count: 0, flash: !self.flash, ..self }
        } else {
            GfxModel { frame_count: fc, ..self }
        }
    }
}

/// Byte `k` (big-endian: red first) of a packed 0xRRGGBB colour.
pub open spec fn color_byte(color: u32, k: int) -> u8 {
    ((color >> ((16 - 8 * k) as u32)) & 0xFF) as u8
}

/// First pixel-buffer byte of a block: blocks are laid out row-major,
/// 8 scan lines of 840 bytes each per block row.
pub open spec fn block_base(block: int) -> int {
    (block / 40) * 6720 + (block % 40) * 21
}

/// Which block the pixel-buffer byte at `n` belongs to.
pub open spec fn owning_block(n: int) -> int {
    ((n / 840) / 8) * 40 + (n % 840) / 21
}

/// Glyph row `j` of the character cell byte `val`: bits 0..6 of the ROM
/// row, inverted for inverse text and for flashing text while the flash
/// phase is on.
pub open spec fn char_row_byte(char_data: Seq<u8>, val: u8, flash: bool, j: int) -> u8 {
    let glyph = char_data[(val & 0x3F) * 8 + j];
    if (val & 0x80) == 0 && ((val & 0x40) == 0 || flash) {
        glyph ^ 0xFF
    } else {
        glyph
    }
}

/// Dot `i` of a text glyph row: lit dots are white.
pub open spec fn text_pixel(c: u8, i: int) -> u32 {
    if (c >> ((6 - i) as u8)) & 1 == 1 {
        COLOR_WHITE
    } else {
        COLOR_BLACK
    }
}

/// Dot `(j, i)` of a character cell: the glyph row byte rendered as
/// white-on-black dots.
pub open spec fn char_pixel(char_data: Seq<u8>, val: u8, flash: bool, j: int, i: int) -> u32 {
    text_pixel(char_row_byte(char_data, val, flash, j), i)
}

/// The sixteen-entry LORES palette.
pub open spec fn lores_palette(v: int) -> u32 {
    if v == 0 {
        COLOR_BLACK
    } else if v == 1 {
        COLOR_MAGENTA
    } else if v == 2 {
        COLOR_DARK_BLUE
    } else if v == 3 {
        COLOR_PURPLE
    } else if v == 4 {
        COLOR_DARK_GREEN
    } else if v == 5 {
        COLOR_GREY
    } else if v == 6 {
        COLOR_BLUE
    } else if v == 7 {
        COLOR_LIGHT_BLUE
    } else if v == 8 {
        COLOR_BROWN
    } else if v == 9 {
        COLOR_ORANGE
    } else if v == 10 {
        COLOR_GREY
    } else if v == 11 {
        COLOR_PINK
    } else if v == 12 {
        COLOR_LIGHT_GREEN
    } else if v == 13 {
        COLOR_YELLOW
    } else if v == 14 {
        COLOR_AQUA
    } else {
        COLOR_WHITE
    }
}

/// Scan line `j` of a LORES cell: the low nibble colours the top half,
/// the high nibble the bottom half.
pub open spec fn lores_pixel(val: u8, j: int) -> u32 {
    if j < 4 {
        lores_palette((val & 0xF) as int)
    } else {
        lores_palette((val >> 4u8) as int)
    }
}

/// Base-address offset of a screen section (eight block rows each).
pub open spec fn sect_offset(section: int) -> int {
    if section == 0 {
        0
    } else if section == 1 {
        0x28
    } else {
        0x50
    }
}

/// The colour of dot `(j, i)` of block `block`, rendered from main
/// memory under the current video mode: text cells in text mode and in
/// the bottom four rows of mixed mode, HGR bytes or LORES cells
/// otherwise.
pub open spec fn block_pixel(mem: Seq<u8>, g: GfxModel, block: int, j: int, i: int) -> u32 {
    let row = block / 40;
    let col = block % 40;
    let section = row / 8;
    let jrow = row % 8;
    let lores_base = (if g.use_pg2 {
        0x800int
    } else {
        0x400int
    }) + sect_offset(section);
    let hires_base = (if g.use_pg2 {
        0x4000int
    } else {
        0x2000int
    }) + sect_offset(section);
    let offset = 0x80 * jrow + col;
    if g.txt_mode || (row >= 20 && g.mixed_mode) {
        char_pixel(g.char_data, mem[lores_base + offset], g.flash, j, i)
    } else if g.hires_mode {
        hgr_color(mem, hires_base + offset + j * 1024, col, i)
    } else {
        lores_pixel(mem[lores_base + offset], j)
    }
}

/// Byte `n` of the rendered pixel buffer.
pub open spec fn pbuf_byte(mem: Seq<u8>, g: GfxModel, n: int) -> u8 {
    let y = n / 840;
    let xk = n % 840;
    let block = (y / 8) * 40 + xk / 21;
    color_byte(block_pixel(mem, g, block, y % 8, (xk % 21) / 3), (xk % 21) % 3)
}

/// Where cell `(j, i)` byte `k` of a block lands in the pixel buffer, and
/// how that flat position decomposes back into the same coordinates.
proof fn lemma_pbuf_decompose(block: int, j: int, i: int, k: int)
    requires
        0 <= block < 960,
        0 <= j < 8,
        0 <= i < 7,
        0 <= k < 3,
    ensures
        ({
            let n = block_base(block) + 840 * j + 3 * i + k;
            &&& 0 <= n < PIXEL_BUF_SIZE
            &&& n / 840 == (block / 40) * 8 + j
            &&& (n / 840) % 8 == j
            &&& n % 840 == (block % 40) * 21 + 3 * i + k
            &&& (n % 840) / 21 == block % 40
            &&& (n % 840) % 21 == 3 * i + k
            &&& ((n % 840) % 21) / 3 == i
            &&& ((n % 840) % 21) % 3 == k
            &&& owning_block(n) == block
        }),
{
    let n = block_base(block) + 840 * j + 3 * i + k;
    let y = (block / 40) * 8 + j;
    let r = (block % 40) * 21 + 3 * i + k;
    vstd::arithmetic::div_mod::lemma_fundamental_div_mod(block, 40);
    vstd::arithmetic::div_mod::lemma_mod_pos_bound(block, 40);
    assert(n == 840 * y + r);
    vstd::arithmetic::div_mod::lemma_fundamental_div_mod_converse(n, 840, y, r);
    vstd::arithmetic::div_mod::lemma_fundamental_div_mod_converse(y, 8, block / 40, j);
    vstd::arithmetic::div_mod::lemma_fundamental_div_mod_converse(r, 21, block % 40, 3 * i + k);
    vstd::arithmetic::div_mod::lemma_fundamental_div_mod_converse(3 * i + k, 3, i, k);
}

/// A pixel-buffer byte of a block is exactly the byte its coordinates
/// name: the flat position reassembles from its own decomposition.
proof fn lemma_pbuf_recompose(block: int, n: int)
    requires
        0 <= n < PIXEL_BUF_SIZE,
        owning_block(n) == block,
    ensures
        0 <= block < 960,
        0 <= (n / 840) % 8 < 8,
        0 <= ((n % 840) % 21) / 3 < 7,
        0 <= ((n % 840) % 21) % 3 < 3,
        n == block_base(block) + 840 * ((n / 840) % 8) + 3 * (((n % 840) % 21) / 3) + ((n % 840)
            % 21) % 3,
{
    let y = n / 840;
    let xk = n % 840;
    vstd::arithmetic::div_mod::lemma_fundamental_div_mod(n, 840);
    vstd::arithmetic::div_mod::lemma_mod_pos_bound(n, 840);
    vstd::arithmetic::div_mod::lemma_fundamental_div_mod(y, 8);
    vstd::arithmetic::div_mod::lemma_mod_pos_bound(y, 8);
    vstd::arithmetic::div_mod::lemma_fundamental_div_mod(xk, 21);
    vstd::arithmetic::div_mod::lemma_mod_pos_bound(xk, 21);
    vstd::arithmetic::div_mod::lemma_fundamental_div_mod(xk % 21, 3);
    vstd::arithmetic::div_mod::lemma_mod_pos_bound(xk % 21, 3);
    assert(xk / 21 <= 39) by {
        vstd::arithmetic::div_mod::lemma_div_is_ordered(xk, 839, 21);
    }
    assert(y / 8 <= 23) by {
        vstd::arithmetic::div_mod::lemma_div_is_ordered(y, 191, 8);
        vstd::arithmetic::div_mod::lemma_fundamental_div_mod_converse(191, 8, 23, 7);
    }
    assert(xk / 21 >= 0 && y / 8 >= 0) by {
        vstd::arithmetic::div_mod::lemma_div_pos_is_pos(xk, 21);
        vstd::arithmetic::div_mod::lemma_div_pos_is_pos(y, 8);
    }
    vstd::arithmetic::div_mod::lemma_fundamental_div_mod_converse(block, 40, y / 8, xk / 21);
    assert(xk % 21 <= 20);
    assert((xk % 21) / 3 <= 6) by {
        vstd::arithmetic::div_mod::lemma_div_is_ordered(xk % 21, 20, 3);
        vstd::arithmetic::div_mod::lemma_fundamental_div_mod_converse(20, 3, 6, 2);
    }
    assert((xk % 21) / 3 >= 0) by {
        vstd::arithmetic::div_mod::lemma_div_pos_is_pos(xk % 21, 3);
    }
    assert(191int / 8 == 23 && 839int / 21 == 39);
}

/// The compositor state: the RGB pixel buffer, the character generator
/// ROM, the flash phase, and the video mode switches.
pub struct GraphicsHandler {
    pub pixel_buf: Vec<u8>,
    pub char_data: Vec<u8>,
    pub frame_count: u32,
    pub flash: bool,
    pub txt_mode: bool,
    pub hires_mode: bool,
    pub mixed_mode: bool,
    pub use_pg2: bool,
}

impl View for GraphicsHandler {
    type V = GfxModel;

    open spec fn view(&self) -> GfxModel {
        GfxModel {
            pixel_buf: self.pixel_buf@,
            char_data: self.char_data@,
            frame_count: self.frame_count,
            flash: self.flash,
            txt_mode: self.txt_mode,
            hires_mode: self.hires_mode,
            mixed_mode: self.mixed_mode,
            use_pg2: self.use_pg2,
        }
    }
}

/// First pixel-buffer byte of a block.
pub fn block_to_pbuf_idx(block_idx: usize) -> (r: usize)
    requires
        block_idx < BLOCK_ROWS * BLOCK_COLS,
    ensures
        r == block_base(block_idx as int),
{
    let row = block_idx / BLOCK_COLS;
    let col = block_idx % BLOCK_COLS;
    proof {
        vstd::arithmetic::div_mod::lemma_div_is_ordered(block_idx as int, 959, 40);
        vstd::arithmetic::div_mod::lemma_fundamental_div_mod_converse(959, 40, 23, 39);
        vstd::arithmetic::div_mod::lemma_mod_pos_bound(block_idx as int, 40);
        assert(BLOCK_HEIGHT * BYTES_PER_BLOCK_ROW == 6720);
        assert(row * (BLOCK_HEIGHT * BYTES_PER_BLOCK_ROW) <= 154560) by (nonlinear_arith)
            requires
                row <= 23,
                BLOCK_HEIGHT * BYTES_PER_BLOCK_ROW == 6720,
        ;
        assert(col * (BLOCK_WIDTH * PIXEL_SIZE) <= 819) by (nonlinear_arith)
            requires
                col <= 39,
                BLOCK_WIDTH * PIXEL_SIZE == 21,
        ;
    }
    let r = row * (BLOCK_HEIGHT * BYTES_PER_BLOCK_ROW);
    let c = col * (BLOCK_WIDTH * PIXEL_SIZE);
    r + c
}

impl GraphicsHandler {
    /// A compositor over the given character generator ROM, in text mode
    /// on page 1.
    pub fn new(char_data: Vec<u8>) -> (r: GraphicsHandler)
        requires
            char_data.len() == CHAR_ROM_SIZE,
        ensures
            r@.wf(),
            r@.char_data == char_data@,
            r@.frame_count == 0 && !r@.flash,
            r@.txt_mode && !r@.hires_mode && !r@.mixed_mode && !r@.use_pg2,
            r@.pixel_buf == Seq::<u8>::new(PIXEL_BUF_SIZE as nat, |i: int| 0u8),
    {
        GraphicsHandler {
            pixel_buf: crate::mem_manager::zero_vec(PIXEL_BUF_SIZE),
            char_data,
            frame_count: 0,
            flash: false,
            txt_mode: true,
            hires_mode: false,
            mixed_mode: false,
            use_pg2: false,
        }
    }

    /// One video soft-switch touch; see `GfxModel::soft_sw_step`.
    pub fn handle_soft_sw(&mut self, address: usize)
        ensures
            final(self)@ == old(self)@.soft_sw_step(address),
    {
        if address == GFX_MODE {
            self.txt_mode = false;
        } else if address == TXT_MODE {
            self.txt_mode = true;
        } else if address == SINGLE_MODE {
            self.mixed_mode = false;
        } else if address == MIXED_MODE {
            self.mixed_mode = true;
        } else if address == PG1_MODE {
            self.use_pg2 = false;
        } else if address == PG2_MODE {
            self.use_pg2 = true;
        } else if address == LORES_MODE {
            self.hires_mode = false;
        } else if address == HIRES_MODE {
            self.hires_mode = true;
        }
    }

    /// Advance the flash counter by one frame; see `GfxModel::flash_step`.
    fn handle_flash(&mut self, frame_rate: u32)
        ensures
            final(self)@ == old(self)@.flash_step(frame_rate),
    {
        if self.frame_count != u32::MAX {
            self.frame_count = self.frame_count + 1;
        }
        if self.frame_count >= frame_rate / FLASH_RATE {
            self.flash = !self.flash;
            self.frame_count = 0;
        }
    }

    /// Write one pixel's three colour bytes at `idx`.
    fn draw_pixel(&mut self, color: u32, idx: usize)
        requires
            old(self)@.pixel_buf.len() == PIXEL_BUF_SIZE,
            idx + 3 <= PIXEL_BUF_SIZE,
        ensures
            final(self)@ == old(self)@.with_pixels(final(self)@.pixel_buf),
            final(self)@.pixel_buf.len() == old(self)@.pixel_buf.len(),
            forall|k: int|
                0 <= k < 3 ==> final(self)@.pixel_buf[idx + k] == color_byte(color, k),
            forall|n: int|
                0 <= n < old(self)@.pixel_buf.len() && !(idx <= n < idx + 3)
                    ==> final(self)@.pixel_buf[n] == old(self)@.pixel_buf[n],
    {
        let b0 = #[verifier::truncate] (((color >> 16u32) & 0xFF) as u8);
        let b1 = #[verifier::truncate] (((color >> 8u32) & 0xFF) as u8);
        let b2 = #[verifier::truncate] ((color & 0xFF) as u8);
        self.pixel_buf.set(idx, b0);
        self.pixel_buf.set(idx + 1, b1);
        self.pixel_buf.set(idx + 2, b2);
        proof {
            assert(color_byte(color, 2) == ((color >> 0u32) & 0xFF) as u8);
            let c = color;
            assert(((c >> 0u32) & 0xFF) as u8 == (c & 0xFF) as u8) by (bit_vector);
        }
    }

    /// Paint the 7 x 8 cell of `block_idx` with the given colours, one per
    /// dot in row-major order.
    #[verifier::loop_isolation(false)]
    fn draw_cells(&mut self, colors: &Vec<u32>, block_idx: usize)
        requires
            old(self)@.wf(),
            block_idx < BLOCK_ROWS * BLOCK_COLS,
            colors.len() == BLOCK_WIDTH * BLOCK_HEIGHT,
        ensures
            final(self)@ == old(self)@.with_pixels(final(self)@.pixel_buf),
            final(self)@.wf(),
            forall|n: int|
                #![trigger owning_block(n)]
                0 <= n < PIXEL_BUF_SIZE && owning_block(n) == block_idx
                    ==> final(self)@.pixel_buf[n] == color_byte(
                    colors@[((n / 840) % 8) * 7 + ((n % 840) % 21) / 3],
                    ((n % 840) % 21) % 3,
                ),
            forall|n: int|
                #![trigger owning_block(n)]
                0 <= n < PIXEL_BUF_SIZE && owning_block(n) != block_idx
                    ==> final(self)@.pixel_buf[n] == old(self)@.pixel_buf[n],
    {
        let ghost orig = self@;
        let base = block_to_pbuf_idx(block_idx);
        let ghost b = block_idx as int;
        let mut j: usize = 0;
        while j < BLOCK_HEIGHT
            invariant
                j <= BLOCK_HEIGHT,
                0 <= b < 960,
                b == block_idx as int,
                base == block_base(b),
                colors.len() == BLOCK_WIDTH * BLOCK_HEIGHT,
                orig.wf(),
                self@ == orig.with_pixels(self@.pixel_buf),
                self@.wf(),
                forall|n: int|
                    #![trigger orig.pixel_buf[n]]
                    #![trigger owning_block(n)]
                    0 <= n < PIXEL_BUF_SIZE && owning_block(n) == b && 0 <= (n / 840) % 8 < j
                        ==> self@.pixel_buf[n] == color_byte(
                        colors@[((n / 840) % 8) * 7 + ((n % 840) % 21) / 3],
                        ((n % 840) % 21) % 3,
                    ),
                forall|n: int|
                    #![trigger orig.pixel_buf[n]]
                    #![trigger owning_block(n)]
                    0 <= n < PIXEL_BUF_SIZE && (owning_block(n) != b || (n / 840) % 8 >= j)
                        ==> self@.pixel_buf[n] == orig.pixel_buf[n],
            decreases BLOCK_HEIGHT - j,
        {
            let mut i: usize = 0;
            while i < BLOCK_WIDTH
                invariant
                    i <= BLOCK_WIDTH,
                    j < BLOCK_HEIGHT,
                    0 <= b < 960,
                    b == block_idx as int,
                    base == block_base(b),
                    colors.len() == BLOCK_WIDTH * BLOCK_HEIGHT,
                    orig.wf(),
                    self@ == orig.with_pixels(self@.pixel_buf),
                    self@.wf(),
                    forall|n: int|
                        #![trigger orig.pixel_buf[n]]
                    #![trigger owning_block(n)]
                        0 <= n < PIXEL_BUF_SIZE && owning_block(n) == b && (0 <= (n / 840) % 8 < j
                            || ((n / 840) % 8 == j && 0 <= ((n % 840) % 21) / 3 < i))
                            ==> self@.pixel_buf[n] == color_byte(
                            colors@[((n / 840) % 8) * 7 + ((n % 840) % 21) / 3],
                            ((n % 840) % 21) % 3,
                        ),
                    forall|n: int|
                        #![trigger orig.pixel_buf[n]]
                    #![trigger owning_block(n)]
                        0 <= n < PIXEL_BUF_SIZE && (owning_block(n) != b || (n / 840) % 8 > j)
                            ==> self@.pixel_buf[n] == orig.pixel_buf[n],
                    forall|n: int|
                        #![trigger orig.pixel_buf[n]]
                    #![trigger owning_block(n)]
                        0 <= n < PIXEL_BUF_SIZE && owning_block(n) == b && (n / 840) % 8 == j && ((
                        n % 840) % 21) / 3 >= i ==> self@.pixel_buf[n] == orig.pixel_buf[n],
                decreases BLOCK_WIDTH - i,
            {
                proof {
                    lemma_pbuf_decompose(b, j as int, i as int, 0);
                    lemma_pbuf_decompose(b, j as int, i as int, 1);
                    lemma_pbuf_decompose(b, j as int, i as int, 2);
                }
                let idx = base + j * 840 + i * 3;
                self.draw_pixel(colors[j * 7 + i], idx);
                proof {
                    assert forall|n: int|
                        #![trigger orig.pixel_buf[n]]
                    #![trigger owning_block(n)]
                        0 <= n < PIXEL_BUF_SIZE && owning_block(n) == b && (0 <= (n / 840) % 8 < j
                            || ((n / 840) % 8 == j && 0 <= ((n % 840) % 21) / 3 < i + 1)) implies
                        self@.pixel_buf[n] == color_byte(
                        colors@[((n / 840) % 8) * 7 + ((n % 840) % 21) / 3],
                        ((n % 840) % 21) % 3,
                    ) by {
                        lemma_pbuf_recompose(b, n);
                        if (n / 840) % 8 == j && ((n % 840) % 21) / 3 == i {
                            assert(idx <= n < idx + 3);
                        } else {
                            assert(!(idx <= n < idx + 3));
                        }
                    }
                    assert forall|n: int|
                        #![trigger orig.pixel_buf[n]]
                    #![trigger owning_block(n)]
                        0 <= n < PIXEL_BUF_SIZE && (owning_block(n) != b || (n / 840) % 8 > j)
                        implies self@.pixel_buf[n] == orig.pixel_buf[n] by {
                        if owning_block(n) == b {
                            lemma_pbuf_recompose(b, n);
                        }
                        assert(!(idx <= n < idx + 3));
                    }
                    assert forall|n: int|
                        #![trigger orig.pixel_buf[n]]
                    #![trigger owning_block(n)]
                        0 <= n < PIXEL_BUF_SIZE && owning_block(n) == b && (n / 840) % 8 == j && ((
                        n % 840) % 21) / 3 >= i + 1 implies self@.pixel_buf[n]
                        == orig.pixel_buf[n] by {
                        lemma_pbuf_recompose(b, n);
                        assert(!(idx <= n < idx + 3));
                    }
                }
                i = i + 1;
            }
            proof {
                assert forall|n: int|
                    #![trigger orig.pixel_buf[n]]
                    #![trigger owning_block(n)]
                    0 <= n < PIXEL_BUF_SIZE && owning_block(n) == b && 0 <= (n / 840) % 8 < j + 1
                    implies self@.pixel_buf[n] == color_byte(
                    colors@[((n / 840) % 8) * 7 + ((n % 840) % 21) / 3],
                    ((n % 840) % 21) % 3,
                ) by {
                    lemma_pbuf_recompose(b, n);
                }
                assert forall|n: int|
                    #![trigger orig.pixel_buf[n]]
                    #![trigger owning_block(n)]
                    0 <= n < PIXEL_BUF_SIZE && (owning_block(n) != b || (n / 840) % 8 >= j + 1)
                    implies self@.pixel_buf[n] == orig.pixel_buf[n] by {}
            }
            j = j + 1;
        }
        proof {
            assert forall|n: int|
                #![trigger orig.pixel_buf[n]]
                    #![trigger owning_block(n)]
                0 <= n < PIXEL_BUF_SIZE && owning_block(n) == b implies self@.pixel_buf[n]
                == color_byte(
                colors@[((n / 840) % 8) * 7 + ((n % 840) % 21) / 3],
                ((n % 840) % 21) % 3,
            ) by {
                lemma_pbuf_recompose(b, n);
            }
        }
    }

    /// Look a LORES nibble up in the palette.
    fn lores_lookup(v: u8) -> (r: u32)
        requires
            v < 16,
        ensures
            r == lores_palette(v as int),
    {
        if v == 0 {
            COLOR_BLACK
        } else if v == 1 {
            COLOR_MAGENTA
        } else if v == 2 {
            COLOR_DARK_BLUE
        } else if v == 3 {
            COLOR_PURPLE
        } else if v == 4 {
            COLOR_DARK_GREEN
        } else if v == 5 {
            COLOR_GREY
        } else if v == 6 {
            COLOR_BLUE
        } else if v == 7 {
            COLOR_LIGHT_BLUE
        } else if v == 8 {
            COLOR_BROWN
        } else if v == 9 {
            COLOR_ORANGE
        } else if v == 10 {
            COLOR_GREY
        } else if v == 11 {
            COLOR_PINK
        } else if v == 12 {
            COLOR_LIGHT_GREEN
        } else if v == 13 {
            COLOR_YELLOW
        } else if v == 14 {
            COLOR_AQUA
        } else {
            COLOR_WHITE
        }
    }

    /// Paint one LORES cell: the low nibble colours the top four scan
    /// lines, the high nibble the bottom four.
    fn draw_lores_block(&mut self, val: u8, block_idx: usize)
        requires
            old(self)@.wf(),
            block_idx < BLOCK_ROWS * BLOCK_COLS,
        ensures
            final(self)@ == old(self)@.with_pixels(final(self)@.pixel_buf),
            final(self)@.wf(),
            forall|n: int|
                #![trigger owning_block(n)]
                0 <= n < PIXEL_BUF_SIZE && owning_block(n) == block_idx
                    ==> final(self)@.pixel_buf[n] == color_byte(
                    lores_pixel(val, (n / 840) % 8),
                    ((n % 840) % 21) % 3,
                ),
            forall|n: int|
                #![trigger owning_block(n)]
                0 <= n < PIXEL_BUF_SIZE && owning_block(n) != block_idx
                    ==> final(self)@.pixel_buf[n] == old(self)@.pixel_buf[n],
    {
        proof {
            let v = val;
            assert(v & 0xF < 16 && (v >> 4u8) < 16) by (bit_vector);
        }
        let upper_color = Self::lores_lookup(val & 0xF);
        let lower_color = Self::lores_lookup(val >> 4u8);

        let mut colors: Vec<u32> = Vec::new();
        let mut m: usize = 0;
        while m < BLOCK_WIDTH * BLOCK_HEIGHT
            invariant
                m <= 56,
                upper_color == lores_palette((val & 0xF) as int),
                lower_color == lores_palette((val >> 4u8) as int),
                colors@.len() == m,
                forall|q: int| 0 <= q < m ==> colors@[q] == lores_pixel(val, q / 7),
            decreases 56 - m,
        {
            if m < 28 {
                proof {
                    vstd::arithmetic::div_mod::lemma_div_is_ordered(m as int, 27, 7);
                    vstd::arithmetic::div_mod::lemma_fundamental_div_mod_converse(27, 7, 3, 6);
                    vstd::arithmetic::div_mod::lemma_div_pos_is_pos(m as int, 7);
                }
                colors.push(upper_color);
            } else {
                proof {
                    vstd::arithmetic::div_mod::lemma_div_is_ordered(28, m as int, 7);
                    vstd::arithmetic::div_mod::lemma_fundamental_div_mod_converse(28, 7, 4, 0);
                }
                colors.push(lower_color);
            }
            m = m + 1;
        }

        self.draw_cells(&colors, block_idx);
        proof {
            let ghost b = block_idx as int;
            assert forall|n: int|
                #![trigger owning_block(n)]
                0 <= n < PIXEL_BUF_SIZE && owning_block(n) == b implies self@.pixel_buf[n]
                == color_byte(lores_pixel(val, (n / 840) % 8), ((n % 840) % 21) % 3) by {
                lemma_pbuf_recompose(b, n);
                let row = (n / 840) % 8;
                let col = ((n % 840) % 21) / 3;
                vstd::arithmetic::div_mod::lemma_fundamental_div_mod_converse(
                    row * 7 + col,
                    7,
                    row,
                    col,
                );
                assert(colors@[row * 7 + col] == lores_pixel(val, row));
            }
        }
    }

    /// Paint one HGR cell: scan line `j` renders the byte at
    /// `buf_idx + 1024 j` through the colour rules.
    fn draw_hires_block(&mut self, buffer: &Vec<u8>, buf_idx: usize, block_idx: usize)
        requires
            old(self)@.wf(),
            block_idx < BLOCK_ROWS * BLOCK_COLS,
            1 <= buf_idx,
            buf_idx + 7 * 1024 + 2 <= buffer.len(),
        ensures
            final(self)@ == old(self)@.with_pixels(final(self)@.pixel_buf),
            final(self)@.wf(),
            forall|n: int|
                #![trigger owning_block(n)]
                0 <= n < PIXEL_BUF_SIZE && owning_block(n) == block_idx
                    ==> final(self)@.pixel_buf[n] == color_byte(
                    hgr_color(
                        buffer@,
                        buf_idx + ((n / 840) % 8) * 1024,
                        (block_idx as int) % 40,
                        ((n % 840) % 21) / 3,
                    ),
                    ((n % 840) % 21) % 3,
                ),
            forall|n: int|
                #![trigger owning_block(n)]
                0 <= n < PIXEL_BUF_SIZE && owning_block(n) != block_idx
                    ==> final(self)@.pixel_buf[n] == old(self)@.pixel_buf[n],
    {
        let block_col = block_idx % BLOCK_COLS;
        let mut colors: Vec<u32> = Vec::new();
        let mut j: usize = 0;
        while j < BLOCK_HEIGHT
            invariant
                j <= 8,
                block_col == (block_idx as int) % 40,
                block_col < 40,
                1 <= buf_idx,
                buf_idx + 7 * 1024 + 2 <= buffer.len(),
                colors@.len() == 7 * j,
                forall|q: int|
                    0 <= q < 7 * j ==> colors@[q] == hgr_color(
                        buffer@,
                        buf_idx + (q / 7) * 1024,
                        (block_idx as int) % 40,
                        q % 7,
                    ),
            decreases 8 - j,
        {
            let pm = to_pixel_map(buffer, buf_idx + j * 1024, block_col);
            let mut ii: usize = 0;
            while ii < BLOCK_WIDTH
                invariant
                    ii <= 7,
                    j < 8,
                    block_col == (block_idx as int) % 40,
                    block_col < 40,
                    1 <= buf_idx,
                    buf_idx + 7 * 1024 + 2 <= buffer.len(),
                    pm@.len() == 7,
                    forall|q: int|
                        0 <= q < 7 ==> pm@[q] == hgr_color(
                            buffer@,
                            buf_idx + j * 1024,
                            (block_idx as int) % 40,
                            q,
                        ),
                    colors@.len() == 7 * j + ii,
                    forall|q: int|
                        0 <= q < 7 * j + ii ==> colors@[q] == hgr_color(
                            buffer@,
                            buf_idx + (q / 7) * 1024,
                            (block_idx as int) % 40,
                            q % 7,
                        ),
                decreases 7 - ii,
            {
                colors.push(pm[ii]);
                proof {
                    vstd::arithmetic::div_mod::lemma_fundamental_div_mod_converse(
                        7 * j + ii,
                        7,
                        j as int,
                        ii as int,
                    );
                }
                ii = ii + 1;
            }
            j = j + 1;
        }

        self.draw_cells(&colors, block_idx);
        proof {
            let ghost b = block_idx as int;
            assert forall|n: int|
                #![trigger owning_block(n)]
                0 <= n < PIXEL_BUF_SIZE && owning_block(n) == b implies self@.pixel_buf[n]
                == color_byte(
                hgr_color(buffer@, buf_idx + ((n / 840) % 8) * 1024, b % 40, ((n % 840) % 21) / 3),
                ((n % 840) % 21) % 3,
            ) by {
                lemma_pbuf_recompose(b, n);
                let row = (n / 840) % 8;
                let col = ((n % 840) % 21) / 3;
                vstd::arithmetic::div_mod::lemma_fundamental_div_mod_converse(
                    row * 7 + col,
                    7,
                    row,
                    col,
                );
                assert(colors@[row * 7 + col] == hgr_color(
                    buffer@,
                    buf_idx + row * 1024,
                    b % 40,
                    col,
                ));
            }
        }
    }

    /// Paint one character cell: the glyph row bytes from the character
    /// ROM, inverted for inverse or flashing text, drawn as white dots on
    /// black.
    fn draw_char_block(&mut self, val: u8, block_idx: usize)
        requires
            old(self)@.wf(),
            block_idx < BLOCK_ROWS * BLOCK_COLS,
        ensures
            final(self)@ == old(self)@.with_pixels(final(self)@.pixel_buf),
            final(self)@.wf(),
            forall|n: int|
                #![trigger owning_block(n)]
                0 <= n < PIXEL_BUF_SIZE && owning_block(n) == block_idx
                    ==> final(self)@.pixel_buf[n] == color_byte(
                    char_pixel(
                        old(self)@.char_data,
                        val,
                        old(self)@.flash,
                        (n / 840) % 8,
                        ((n % 840) % 21) / 3,
                    ),
                    ((n % 840) % 21) % 3,
                ),
            forall|n: int|
                #![trigger owning_block(n)]
                0 <= n < PIXEL_BUF_SIZE && owning_block(n) != block_idx
                    ==> final(self)@.pixel_buf[n] == old(self)@.pixel_buf[n],
    {
        proof {
            let v = val;
            assert(v & 0x3F < 64) by (bit_vector);
        }
        let char_addr = (val & 0x3F) as usize * 8;

        let mut colors: Vec<u32> = Vec::new();
        let mut j: usize = 0;
        while j < BLOCK_HEIGHT
            invariant
                j <= 8,
                self@ == old(self)@,
                self@.wf(),
                char_addr == (val & 0x3F) * 8,
                char_addr + 8 <= CHAR_ROM_SIZE,
                colors@.len() == 7 * j,
                forall|q: int|
                    0 <= q < 7 * j ==> colors@[q] == char_pixel(
                        self@.char_data,
                        val,
                        self@.flash,
                        q / 7,
                        q % 7,
                    ),
            decreases 8 - j,
        {
            let glyph = self.char_data[char_addr + j];
            let c: u8 = if (val & 0x80) == 0 && ((val & 0x40) == 0 || self.flash) {
                glyph ^ 0xFF
            } else {
                glyph
            };
            proof {
                assert(c == char_row_byte(self@.char_data, val, self@.flash, j as int));
            }

            let mut ii: usize = 0;
            while ii < BLOCK_WIDTH
                invariant
                    ii <= 7,
                    j < 8,
                    self@ == old(self)@,
                    self@.wf(),
                    char_addr == (val & 0x3F) * 8,
                    char_addr + 8 <= CHAR_ROM_SIZE,
                    c == char_row_byte(self@.char_data, val, self@.flash, j as int),
                    colors@.len() == 7 * j + ii,
                    forall|q: int|
                        0 <= q < 7 * j + ii ==> colors@[q] == char_pixel(
                            self@.char_data,
                            val,
                            self@.flash,
                            q / 7,
                            q % 7,
                        ),
                decreases 7 - ii,
            {
                let bit = (c >> ((6 - ii) as u8)) & 1;
                let color = if bit == 1 {
                    COLOR_WHITE
                } else {
                    COLOR_BLACK
                };
                colors.push(color);
                proof {
                    vstd::arithmetic::div_mod::lemma_fundamental_div_mod_converse(
                        7 * j + ii,
                        7,
                        j as int,
                        ii as int,
                    );
                    assert(color == text_pixel(c, ii as int));
                }
                ii = ii + 1;
            }
            j = j + 1;
        }

        self.draw_cells(&colors, block_idx);
        proof {
            let ghost b = block_idx as int;
            assert forall|n: int|
                #![trigger owning_block(n)]
                0 <= n < PIXEL_BUF_SIZE && owning_block(n) == b implies self@.pixel_buf[n]
                == color_byte(
                char_pixel(
                    old(self)@.char_data,
                    val,
                    old(self)@.flash,
                    (n / 840) % 8,
                    ((n % 840) % 21) / 3,
                ),
                ((n % 840) % 21) % 3,
            ) by {
                lemma_pbuf_recompose(b, n);
                let row = (n / 840) % 8;
                let col = ((n % 840) % 21) / 3;
                vstd::arithmetic::div_mod::lemma_fundamental_div_mod_converse(
                    row * 7 + col,
                    7,
                    row,
                    col,
                );
            }
        }
    }

    /// Render the whole screen from main memory: 24 x 40 cells, drawn as
    /// text, LORES or HGR per the current video mode, with the bottom four
    /// rows forced to text in mixed mode.
    #[verifier::rlimit(100)]
    fn draw_blocks(&mut self, buffer: &Vec<u8>)
        requires
            old(self)@.wf(),
            buffer.len() == crate::mem_manager::MEM_SIZE,
        ensures
            final(self)@ == old(self)@.with_pixels(final(self)@.pixel_buf),
            final(self)@.wf(),
            forall|n: int|
                0 <= n < PIXEL_BUF_SIZE ==> final(self)@.pixel_buf[n] == pbuf_byte(
                    buffer@,
                    old(self)@,
                    n,
                ),
    {
        let ghost g0 = self@;
        let mut block_idx: usize = 0;
        let mut section: usize = 0;
        while section < 3
            invariant
                section <= 3,
                block_idx == section * 320,
                buffer.len() == crate::mem_manager::MEM_SIZE,
                g0.wf(),
                g0 == old(self)@,
                self@ == g0.with_pixels(self@.pixel_buf),
                self@.wf(),
                forall|n: int|
                    #![trigger owning_block(n)]
                    0 <= n < PIXEL_BUF_SIZE && owning_block(n) < block_idx ==> self@.pixel_buf[n]
                        == pbuf_byte(buffer@, g0, n),
            decreases 3 - section,
        {
            let lores_start: usize = (if self.use_pg2 {
                0x800
            } else {
                0x400
            }) + (if section == 0 {
                0
            } else if section == 1 {
                0x28
            } else {
                0x50
            });
            let hires_start: usize = (if self.use_pg2 {
                0x4000
            } else {
                0x2000
            }) + (if section == 0 {
                0
            } else if section == 1 {
                0x28
            } else {
                0x50
            });

            let mut j: usize = 0;
            while j < BLOCK_HEIGHT
                invariant
                    j <= 8,
                    section < 3,
                    block_idx == section * 320 + j * 40,
                    buffer.len() == crate::mem_manager::MEM_SIZE,
                    g0.wf(),
                    g0 == old(self)@,
                    self@ == g0.with_pixels(self@.pixel_buf),
                    self@.wf(),
                    lores_start == (if g0.use_pg2 {
                        0x800int
                    } else {
                        0x400int
                    }) + sect_offset(section as int),
                    hires_start == (if g0.use_pg2 {
                        0x4000int
                    } else {
                        0x2000int
                    }) + sect_offset(section as int),
                    forall|n: int|
                        #![trigger owning_block(n)]
                        0 <= n < PIXEL_BUF_SIZE && owning_block(n) < block_idx
                            ==> self@.pixel_buf[n] == pbuf_byte(buffer@, g0, n),
                decreases 8 - j,
            {
                let mut i: usize = 0;
                while i < BLOCK_COLS
                    invariant
                        i <= 40,
                        j < 8,
                        section < 3,
                        block_idx == section * 320 + j * 40 + i,
                        buffer.len() == crate::mem_manager::MEM_SIZE,
                        g0.wf(),
                        g0 == old(self)@,
                        self@ == g0.with_pixels(self@.pixel_buf),
                        self@.wf(),
                        lores_start == (if g0.use_pg2 {
                            0x800int
                        } else {
                            0x400int
                        }) + sect_offset(section as int),
                        hires_start == (if g0.use_pg2 {
                            0x4000int
                        } else {
                            0x2000int
                        }) + sect_offset(section as int),
                        forall|n: int|
                            #![trigger owning_block(n)]
                            0 <= n < PIXEL_BUF_SIZE && owning_block(n) < block_idx
                                ==> self@.pixel_buf[n] == pbuf_byte(buffer@, g0, n),
                    decreases 40 - i,
                {
                    let ghost b = block_idx as int;
                    let ghost prev = self@.pixel_buf;
                    proof {
                        vstd::arithmetic::div_mod::lemma_fundamental_div_mod_converse(
                            b,
                            40,
                            section * 8 + j,
                            i as int,
                        );
                        vstd::arithmetic::div_mod::lemma_fundamental_div_mod_converse(
                            section * 8 + j,
                            8,
                            section as int,
                            j as int,
                        );
                    }
                    let offset = 0x80 * j + i;
                    let block_row = section * 8 + j;

                    if self.txt_mode || (block_row >= 20 && self.mixed_mode) {
                        let v = buffer[lores_start + offset];
                        self.draw_char_block(v, block_idx);
                    } else if self.hires_mode {
                        self.draw_hires_block(buffer, hires_start + offset, block_idx);
                    } else {
                        let v = buffer[lores_start + offset];
                        self.draw_lores_block(v, block_idx);
                    }

                    proof {
                        assert forall|n: int|
                            #![trigger owning_block(n)]
                            0 <= n < PIXEL_BUF_SIZE && owning_block(n) < b + 1 implies
                            self@.pixel_buf[n] == pbuf_byte(buffer@, g0, n) by {
                            if owning_block(n) == b {
                                lemma_pbuf_recompose(b, n);
                            } else {
                                assert(self@.pixel_buf[n] == prev[n]);
                            }
                        }
                    }
                    block_idx = block_idx + 1;
                    i = i + 1;
                }
                j = j + 1;
            }
            section = section + 1;
        }
        proof {
            assert forall|n: int| 0 <= n < PIXEL_BUF_SIZE implies self@.pixel_buf[n] == pbuf_byte(
                buffer@,
                g0,
                n,
            ) by {
                lemma_pbuf_recompose(owning_block(n), n);
            }
        }
    }

    /// Render one frame from main memory and advance the flash phase.
    pub fn handle_gfx(&mut self, frame_rate: u32, buffer: &Vec<u8>)
        requires
            old(self)@.wf(),
            buffer.len() == crate::mem_manager::MEM_SIZE,
        ensures
            final(self)@ == old(self)@.with_pixels(final(self)@.pixel_buf).flash_step(frame_rate),
            final(self)@.wf(),
            forall|n: int|
                0 <= n < PIXEL_BUF_SIZE ==> final(self)@.pixel_buf[n] == pbuf_byte(
                    buffer@,
                    old(self)@,
                    n,
                ),
    {
        self.draw_blocks(buffer);
        self.handle_flash(frame_rate);
    }
}

} // verus!
