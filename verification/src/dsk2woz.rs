//! DSK/ProDOS sector images converted into synthetic WOZ2 track bit
//! streams: 6-and-2 nibble encoding, 4-and-4 address fields, self-sync
//! gaps, and the chunked WOZ2 container around them.

use vstd::prelude::*;

use crate::wizard_of_woz::le2;
use crate::wizard_of_woz::le4;
use crate::wizard_of_woz::lemma_tmap_scan_skip;
use crate::wizard_of_woz::parse_info_spec;
use crate::wizard_of_woz::parse_tracks_spec;
use crate::wizard_of_woz::parse_woz_spec;
use crate::wizard_of_woz::parsed_track;
use crate::wizard_of_woz::tmap_entry_err;
use crate::wizard_of_woz::track_parse_ok;
use crate::wizard_of_woz::verify_track_map_spec;
use crate::wizard_of_woz::walk;
use crate::wizard_of_woz::walk_finish;
use crate::wizard_of_woz::TrackModel;
use crate::wizard_of_woz::WozError;
use crate::wizard_of_woz::WozModel;

verus! {

/// Size of a 35-track, 16-sector, 256-byte-sector disk image.
pub const DSK_IMG_SIZE: usize = 143360;

/// Tracks on a 5.25" disk.
pub const NUM_TRACKS: usize = 35;
/// WOZ block size in bytes.
pub const BLOCK_SIZE: usize = 512;
/// Blocks a synthetic track occupies.
pub const BLOCKS_PER_TRACK: usize = 13;
/// Bits in a synthetic track stream.
pub const BITS_PER_TRACK: usize = 50304;

/// Sectors per track.
pub const NUM_SECTORS: usize = 16;
/// Logical bytes per sector.
pub const BYTES_PER_SECTOR: usize = 256;
/// 6-and-2 encoded disk bytes per sector, checksum byte included.
pub const GCR_BYTES_PER_SECTOR: usize = 343;

/// Byte offset of the first track's data inside the WOZ buffer.
pub const TRACK_DATA_START: usize = 0x600;

/// Chunk identifiers, little-endian ASCII.
pub const ID_WOZ2: u32 = 0x325A4F57;
pub const ID_INFO: u32 = 0x4F464E49;
pub const ID_TMAP: u32 = 0x50414D54;
pub const ID_TRKS: u32 = 0x534B5254;

/// Bit `i` of a buffer read as an MSB-first bit stream: bit `7 - i % 8` of
/// byte `i / 8`.
pub open spec fn stream_bit(s: Seq<u8>, i: int) -> u8 {
    (s[i / 8] >> ((7 - i % 8) as u8)) & 1
}

/// The byte formed by the eight stream bits starting at bit offset `p`,
/// MSB first.
pub open spec fn byte_at(s: Seq<u8>, p: int) -> u8 {
    (stream_bit(s, p) << 7) | (stream_bit(s, p + 1) << 6) | (stream_bit(s, p + 2) << 5) | (
    stream_bit(s, p + 3) << 4) | (stream_bit(s, p + 4) << 3) | (stream_bit(s, p + 5) << 2) | (
    stream_bit(s, p + 6) << 1) | stream_bit(s, p + 7)
}

/// Every stream bit from `p` on is still zero — the blank tape the bit
/// writer ORs into.
pub open spec fn zeros_from(s: Seq<u8>, p: int) -> bool {
    forall|i: int| p <= i < 8 * s.len() ==> stream_bit(s, i) == 0
}

/// Decoding a 4-and-4 encoded pair of disk bytes back into the byte.
pub open spec fn decode_4_4(hi: u8, lo: u8) -> u8 {
    ((hi << 1) | 1) & lo
}

/// ORing a bit into a zero position changes that position alone.
proof fn lemma_or_bit(b: u8, bit: u8, s1: u8, s2: u8)
    requires
        bit <= 1,
        s1 <= 7,
        s2 <= 7,
        (b >> s1) & 1 == 0,
    ensures
        ((b | (bit << s1)) >> s1) & 1 == bit,
        s1 != s2 ==> ((b | (bit << s1)) >> s2) & 1 == (b >> s2) & 1,
{
    assert(((b | (bit << s1)) >> s1) & 1 == bit && (s1 != s2 ==> ((b | (bit << s1)) >> s2) & 1 == (
    b >> s2) & 1)) by (bit_vector)
        requires
            bit <= 1,
            s1 <= 7,
            s2 <= 7,
            (b >> s1) & 1 == 0,
    ;
}

/// Eight MSB-first bits reassemble into their byte.
proof fn lemma_byte_at_assemble(s: Seq<u8>, p: int, byte: u8)
    requires
        forall|k: int|
            0 <= k < 8 ==> #[trigger] stream_bit(s, p + k) == (byte >> ((7 - k) as u8)) & 1,
    ensures
        byte_at(s, p) == byte,
{
    assert(stream_bit(s, p + 0) == (byte >> 7u8) & 1);
    assert(stream_bit(s, p + 1) == (byte >> 6u8) & 1);
    assert(stream_bit(s, p + 2) == (byte >> 5u8) & 1);
    assert(stream_bit(s, p + 3) == (byte >> 4u8) & 1);
    assert(stream_bit(s, p + 4) == (byte >> 3u8) & 1);
    assert(stream_bit(s, p + 5) == (byte >> 2u8) & 1);
    assert(stream_bit(s, p + 6) == (byte >> 1u8) & 1);
    assert(stream_bit(s, p + 7) == (byte >> 0u8) & 1);
    assert((((byte >> 7u8) & 1) << 7) | (((byte >> 6u8) & 1) << 6) | (((byte >> 5u8) & 1) << 5) | ((
    (byte >> 4u8) & 1) << 4) | (((byte >> 3u8) & 1) << 3) | (((byte >> 2u8) & 1) << 2) | (((byte
        >> 1u8) & 1) << 1) | ((byte >> 0u8) & 1) == byte) by (bit_vector);
}

/// OR one bit into the stream at `*bit_pntr` and advance the pointer. The
/// target position must still be blank.
fn write_bit(woz: &mut Vec<u8>, bit_pntr: &mut usize, bit: u8)
    requires
        bit <= 1,
        *old(bit_pntr) < 8 * old(woz).len(),
        stream_bit(old(woz)@, *old(bit_pntr) as int) == 0,
        8 * old(woz).len() <= usize::MAX,
    ensures
        final(woz).len() == old(woz).len(),
        *final(bit_pntr) == *old(bit_pntr) + 1,
        stream_bit(final(woz)@, *old(bit_pntr) as int) == bit,
        forall|i: int|
            0 <= i < 8 * old(woz).len() && i != *old(bit_pntr) ==> #[trigger] stream_bit(
                final(woz)@,
                i,
            ) == stream_bit(old(woz)@, i),
    {
    let byte_idx = *bit_pntr / 8;
    let sh: u8 = (7 - (*bit_pntr % 8)) as u8;
    let b = woz[byte_idx];
    woz.set(byte_idx, b | (bit << sh));

    proof {
        let p = *bit_pntr as int;
        assert forall|i: int|
            0 <= i < 8 * old(woz).len() && i != p implies #[trigger] stream_bit(woz@, i)
            == stream_bit(old(woz)@, i) by {
            if i / 8 == p / 8 {
                vstd::arithmetic::div_mod::lemma_fundamental_div_mod(i, 8);
                vstd::arithmetic::div_mod::lemma_fundamental_div_mod(p, 8);
                lemma_or_bit(b, bit, sh, (7 - i % 8) as u8);
            }
        }
        lemma_or_bit(b, bit, sh, sh);
    }

    *bit_pntr = *bit_pntr + 1;
}

/// Write one byte as eight MSB-first stream bits.
fn write_byte(woz: &mut Vec<u8>, bit_pntr: &mut usize, byte: u8)
    requires
        *old(bit_pntr) + 8 <= 8 * old(woz).len(),
        zeros_from(old(woz)@, *old(bit_pntr) as int),
        8 * old(woz).len() <= usize::MAX,
    ensures
        final(woz).len() == old(woz).len(),
        *final(bit_pntr) == *old(bit_pntr) + 8,
        byte_at(final(woz)@, *old(bit_pntr) as int) == byte,
        forall|i: int|
            0 <= i < *old(bit_pntr) ==> #[trigger] stream_bit(final(woz)@, i) == stream_bit(
                old(woz)@,
                i,
            ),
        zeros_from(final(woz)@, *old(bit_pntr) + 8),
{
    let ghost p0 = *bit_pntr as int;
    let mut k: usize = 0;
    while k < 8
        invariant
            k <= 8,
            0 <= p0,
            woz.len() == old(woz).len(),
            *bit_pntr == p0 + k,
            8 * woz.len() <= usize::MAX,
            p0 + 8 <= 8 * woz.len(),
            forall|j: int|
                0 <= j < k ==> #[trigger] stream_bit(woz@, p0 + j) == (byte >> ((7 - j) as u8)) & 1,
            forall|i: int|
                0 <= i < p0 ==> #[trigger] stream_bit(woz@, i) == stream_bit(old(woz)@, i),
            zeros_from(woz@, p0 + k),
        decreases 8 - k,
    {
        let sh: u8 = (7 - k) as u8;
        let bit = (byte >> sh) & 1;
        proof {
            let b2 = byte;
            let sh2 = sh;
            assert((b2 >> sh2) & 1 <= 1) by (bit_vector);
            assert(stream_bit(woz@, p0 + k) == 0);
        }
        write_bit(woz, bit_pntr, bit);
        proof {
            let ghost kk = k as int;
            assert forall|j: int| 0 <= j < kk + 1 implies #[trigger] stream_bit(woz@, p0 + j) == (
            byte >> ((7 - j) as u8)) & 1 by {
                if j == kk {
                    assert(stream_bit(woz@, p0 + kk) == bit);
                    assert(sh == (7 - kk) as u8);
                }
            }
        }
        k = k + 1;
    }
    proof {
        lemma_byte_at_assemble(woz@, p0, byte);
    }
}

/// Write a byte 4-and-4 encoded: its odd bits then its even bits, each
/// interleaved with ones. The two stream bytes decode back to the byte.
fn write_4_4(woz: &mut Vec<u8>, bit_pntr: &mut usize, byte: u8)
    requires
        *old(bit_pntr) + 16 <= 8 * old(woz).len(),
        zeros_from(old(woz)@, *old(bit_pntr) as int),
        8 * old(woz).len() <= usize::MAX,
    ensures
        final(woz).len() == old(woz).len(),
        *final(bit_pntr) == *old(bit_pntr) + 16,
        byte_at(final(woz)@, *old(bit_pntr) as int) == (byte >> 1) | 0xAA,
        byte_at(final(woz)@, *old(bit_pntr) + 8) == byte | 0xAA,
        decode_4_4(
            byte_at(final(woz)@, *old(bit_pntr) as int),
            byte_at(final(woz)@, *old(bit_pntr) + 8),
        ) == byte,
        forall|i: int|
            0 <= i < *old(bit_pntr) ==> #[trigger] stream_bit(final(woz)@, i) == stream_bit(
                old(woz)@,
                i,
            ),
        zeros_from(final(woz)@, *old(bit_pntr) + 16),
{
    let ghost p0 = *bit_pntr as int;
    write_byte(woz, bit_pntr, (byte >> 1) | 0xAA);
    write_byte(woz, bit_pntr, byte | 0xAA);
    proof {
        let b = byte;
        assert(((((b >> 1) | 0xAA) << 1) | 1) & (b | 0xAA) == b) by (bit_vector);
    }
}

/// Write a 10-bit self-sync byte: 0xFF followed by two blank padding bits.
fn write_sync(woz: &mut Vec<u8>, bit_pntr: &mut usize)
    requires
        *old(bit_pntr) + 10 <= 8 * old(woz).len(),
        zeros_from(old(woz)@, *old(bit_pntr) as int),
        8 * old(woz).len() <= usize::MAX,
    ensures
        final(woz).len() == old(woz).len(),
        *final(bit_pntr) == *old(bit_pntr) + 10,
        byte_at(final(woz)@, *old(bit_pntr) as int) == 0xFF,
        stream_bit(final(woz)@, *old(bit_pntr) + 8) == 0,
        stream_bit(final(woz)@, *old(bit_pntr) + 9) == 0,
        forall|i: int|
            0 <= i < *old(bit_pntr) ==> #[trigger] stream_bit(final(woz)@, i) == stream_bit(
                old(woz)@,
                i,
            ),
        zeros_from(final(woz)@, *old(bit_pntr) + 10),
{
    write_byte(woz, bit_pntr, 0xFF);
    *bit_pntr = *bit_pntr + 2;
}

/// Reversal of the low two bits of a byte: the 6-and-2 encoder stores them
/// swapped.
pub open spec fn rev2(x: u8) -> u8 {
    if x & 3 == 0 {
        0
    } else if x & 3 == 1 {
        2
    } else if x & 3 == 2 {
        1
    } else {
        3
    }
}

/// The 342 six-bit values a sector's 256 bytes spread into, before the
/// running checksum: 86 nibbles of reversed low bits, then the 256 high
/// six-bit parts.
pub open spec fn gcr_pre(dsk: Seq<u8>, base: int, i: int) -> u8 {
    if i < 84 {
        rev2(dsk[base + i]) | (rev2(dsk[base + i + 86]) << 2) | (rev2(dsk[base + i + 172]) << 4)
    } else if i == 84 {
        rev2(dsk[base + 84]) | (rev2(dsk[base + 170]) << 2)
    } else if i == 85 {
        rev2(dsk[base + 85]) | (rev2(dsk[base + 171]) << 2)
    } else {
        dsk[base + i - 86] >> 2
    }
}

/// The checksum chain: each value XORed with its predecessor, and the
/// final 343rd byte repeating the last value, so that XORing successive
/// decoded values reconstructs the data and a trailing check byte.
pub open spec fn gcr_chk(dsk: Seq<u8>, base: int, i: int) -> u8 {
    if i == 0 {
        gcr_pre(dsk, base, 0)
    } else if i < 342 {
        gcr_pre(dsk, base, i) ^ gcr_pre(dsk, base, i - 1)
    } else {
        gcr_pre(dsk, base, 341)
    }
}

/// Disk byte `i` of a sector's 343-byte 6-and-2 encoding.
pub open spec fn gcr_byte(dsk: Seq<u8>, base: int, i: int) -> u8 {
    gcr_table(gcr_chk(dsk, base, i) as int)
}

/// Every value the checksum chain produces is six bits wide.
proof fn lemma_gcr_chk_bound(dsk: Seq<u8>, base: int, i: int)
    ensures
        gcr_pre(dsk, base, i) < 64,
        gcr_chk(dsk, base, i) < 64,
{
    lemma_gcr_pre_bound(dsk, base, i);
    lemma_gcr_pre_bound(dsk, base, i - 1);
    lemma_gcr_pre_bound(dsk, base, 341);
    let a = gcr_pre(dsk, base, i);
    let b = gcr_pre(dsk, base, i - 1);
    assert((a ^ b) < 64) by (bit_vector)
        requires
            a < 64,
            b < 64,
    ;
}

/// Every pre-checksum value is six bits wide.
proof fn lemma_gcr_pre_bound(dsk: Seq<u8>, base: int, i: int)
    ensures
        gcr_pre(dsk, base, i) < 64,
{
    if i < 86 {
        let r1 = rev2(dsk[base + i]);
        let r2 = rev2(dsk[base + i + 86]);
        let r3 = rev2(dsk[base + i + 172]);
        let q2 = rev2(dsk[base + 170]);
        let q3 = rev2(dsk[base + 171]);
        let p1 = rev2(dsk[base + 84]);
        let p2 = rev2(dsk[base + 85]);
        assert(r1 <= 3 && r2 <= 3 && r3 <= 3 && q2 <= 3 && q3 <= 3 && p1 <= 3 && p2 <= 3);
        assert(r1 <= 3 && r2 <= 3 && r3 <= 3 ==> (r1 | (r2 << 2) | (r3 << 4)) < 64) by (bit_vector);
        assert(p1 <= 3 && q2 <= 3 ==> (p1 | (q2 << 2)) < 64) by (bit_vector);
        assert(p2 <= 3 && q3 <= 3 ==> (p2 | (q3 << 2)) < 64) by (bit_vector);
    } else {
        let x = dsk[base + i - 86];
        assert((x >> 2) < 64) by (bit_vector);
    }
}

/// Reverse the low two bits of a byte.
fn bit_rev2(x: u8) -> (r: u8)
    ensures
        r == rev2(x),
        r <= 3,
{
    let v = x & 3;
    proof {
        assert(x & 3 <= 3) by (bit_vector);
    }
    if v == 0 {
        0
    } else if v == 1 {
        2
    } else if v == 2 {
        1
    } else {
        3
    }
}

/// The standard 64-entry 6-and-2 nibble table: 6-bit value to disk byte.
pub open spec fn gcr_table(v: int) -> u8 {
    if v == 0 {
        0x96
    } else if v == 1 {
        0x97
    } else if v == 2 {
        0x9A
    } else if v == 3 {
        0x9B
    } else if v == 4 {
        0x9D
    } else if v == 5 {
        0x9E
    } else if v == 6 {
        0x9F
    } else if v == 7 {
        0xA6
    } else if v == 8 {
        0xA7
    } else if v == 9 {
        0xAB
    } else if v == 10 {
        0xAC
    } else if v == 11 {
        0xAD
    } else if v == 12 {
        0xAE
    } else if v == 13 {
        0xAF
    } else if v == 14 {
        0xB2
    } else if v == 15 {
        0xB3
    } else if v == 16 {
        0xB4
    } else if v == 17 {
        0xB5
    } else if v == 18 {
        0xB6
    } else if v == 19 {
        0xB7
    } else if v == 20 {
        0xB9
    } else if v == 21 {
        0xBA
    } else if v == 22 {
        0xBB
    } else if v == 23 {
        0xBC
    } else if v == 24 {
        0xBD
    } else if v == 25 {
        0xBE
    } else if v == 26 {
        0xBF
    } else if v == 27 {
        0xCB
    } else if v == 28 {
        0xCD
    } else if v == 29 {
        0xCE
    } else if v == 30 {
        0xCF
    } else if v == 31 {
        0xD3
    } else if v == 32 {
        0xD6
    } else if v == 33 {
        0xD7
    } else if v == 34 {
        0xD9
    } else if v == 35 {
        0xDA
    } else if v == 36 {
        0xDB
    } else if v == 37 {
        0xDC
    } else if v == 38 {
        0xDD
    } else if v == 39 {
        0xDE
    } else if v == 40 {
        0xDF
    } else if v == 41 {
        0xE5
    } else if v == 42 {
        0xE6
    } else if v == 43 {
        0xE7
    } else if v == 44 {
        0xE9
    } else if v == 45 {
        0xEA
    } else if v == 46 {
        0xEB
    } else if v == 47 {
        0xEC
    } else if v == 48 {
        0xED
    } else if v == 49 {
        0xEE
    } else if v == 50 {
        0xEF
    } else if v == 51 {
        0xF2
    } else if v == 52 {
        0xF3
    } else if v == 53 {
        0xF4
    } else if v == 54 {
        0xF5
    } else if v == 55 {
        0xF6
    } else if v == 56 {
        0xF7
    } else if v == 57 {
        0xF9
    } else if v == 58 {
        0xFA
    } else if v == 59 {
        0xFB
    } else if v == 60 {
        0xFC
    } else if v == 61 {
        0xFD
    } else if v == 62 {
        0xFE
    } else {
        0xFF
    }
}

/// Look a 6-bit value up in the nibble table.
fn gcr_encode(v: u8) -> (r: u8)
    requires
        v < 64,
    ensures
        r == gcr_table(v as int),
{
    if v == 0 {
        0x96
    } else if v == 1 {
        0x97
    } else if v == 2 {
        0x9A
    } else if v == 3 {
        0x9B
    } else if v == 4 {
        0x9D
    } else if v == 5 {
        0x9E
    } else if v == 6 {
        0x9F
    } else if v == 7 {
        0xA6
    } else if v == 8 {
        0xA7
    } else if v == 9 {
        0xAB
    } else if v == 10 {
        0xAC
    } else if v == 11 {
        0xAD
    } else if v == 12 {
        0xAE
    } else if v == 13 {
        0xAF
    } else if v == 14 {
        0xB2
    } else if v == 15 {
        0xB3
    } else if v == 16 {
        0xB4
    } else if v == 17 {
        0xB5
    } else if v == 18 {
        0xB6
    } else if v == 19 {
        0xB7
    } else if v == 20 {
        0xB9
    } else if v == 21 {
        0xBA
    } else if v == 22 {
        0xBB
    } else if v == 23 {
        0xBC
    } else if v == 24 {
        0xBD
    } else if v == 25 {
        0xBE
    } else if v == 26 {
        0xBF
    } else if v == 27 {
        0xCB
    } else if v == 28 {
        0xCD
    } else if v == 29 {
        0xCE
    } else if v == 30 {
        0xCF
    } else if v == 31 {
        0xD3
    } else if v == 32 {
        0xD6
    } else if v == 33 {
        0xD7
    } else if v == 34 {
        0xD9
    } else if v == 35 {
        0xDA
    } else if v == 36 {
        0xDB
    } else if v == 37 {
        0xDC
    } else if v == 38 {
        0xDD
    } else if v == 39 {
        0xDE
    } else if v == 40 {
        0xDF
    } else if v == 41 {
        0xE5
    } else if v == 42 {
        0xE6
    } else if v == 43 {
        0xE7
    } else if v == 44 {
        0xE9
    } else if v == 45 {
        0xEA
    } else if v == 46 {
        0xEB
    } else if v == 47 {
        0xEC
    } else if v == 48 {
        0xED
    } else if v == 49 {
        0xEE
    } else if v == 50 {
        0xEF
    } else if v == 51 {
        0xF2
    } else if v == 52 {
        0xF3
    } else if v == 53 {
        0xF4
    } else if v == 54 {
        0xF5
    } else if v == 55 {
        0xF6
    } else if v == 56 {
        0xF7
    } else if v == 57 {
        0xF9
    } else if v == 58 {
        0xFA
    } else if v == 59 {
        0xFB
    } else if v == 60 {
        0xFC
    } else if v == 61 {
        0xFD
    } else if v == 62 {
        0xFE
    } else {
        0xFF
    }
}

/// 6-and-2 encode one 256-byte sector, starting at `start` in the image,
/// into its 343 disk bytes (342 data values chained with XOR plus the
/// closing check byte), each mapped through the nibble table.
fn convert_6_2(dsk: &Vec<u8>, start: usize) -> (r: Vec<u8>)
    requires
        start + BYTES_PER_SECTOR <= dsk.len(),
    ensures
        r@.len() == GCR_BYTES_PER_SECTOR,
        forall|i: int|
            0 <= i < GCR_BYTES_PER_SECTOR ==> r@[i] == gcr_byte(dsk@, start as int, i),
{
    let ghost base = start as int;
    let mut gcr: Vec<u8> = Vec::new();

    let mut i: usize = 0;
    while i < 84
        invariant
            i <= 84,
            start + BYTES_PER_SECTOR <= dsk.len(),
            base == start as int,
            gcr@.len() == i,
            forall|j: int| 0 <= j < i ==> gcr@[j] == gcr_pre(dsk@, base, j),
        decreases 84 - i,
    {
        let v = bit_rev2(dsk[start + i]) | (bit_rev2(dsk[start + i + 86]) << 2) | (bit_rev2(
            dsk[start + i + 172],
        ) << 4);
        gcr.push(v);
        i = i + 1;
    }
    gcr.push(bit_rev2(dsk[start + 84]) | (bit_rev2(dsk[start + 170]) << 2));
    gcr.push(bit_rev2(dsk[start + 85]) | (bit_rev2(dsk[start + 171]) << 2));

    let mut i: usize = 0;
    while i < BYTES_PER_SECTOR
        invariant
            i <= BYTES_PER_SECTOR,
            start + BYTES_PER_SECTOR <= dsk.len(),
            base == start as int,
            gcr@.len() == 86 + i,
            forall|j: int| 0 <= j < 86 + i ==> gcr@[j] == gcr_pre(dsk@, base, j),
        decreases BYTES_PER_SECTOR - i,
    {
        gcr.push(dsk[start + i] >> 2);
        i = i + 1;
    }
    gcr.push(gcr[341]);

    let mut idx: usize = 342;
    while idx > 1
        invariant
            1 <= idx <= 342,
            base == start as int,
            gcr@.len() == GCR_BYTES_PER_SECTOR,
            forall|j: int| 0 <= j < idx ==> gcr@[j] == gcr_pre(dsk@, base, j),
            forall|j: int| idx <= j < 343 ==> gcr@[j] == gcr_chk(dsk@, base, j),
        decreases idx,
    {
        idx = idx - 1;
        let v = gcr[idx] ^ gcr[idx - 1];
        gcr.set(idx, v);
    }

    let mut i: usize = 0;
    while i < GCR_BYTES_PER_SECTOR
        invariant
            i <= GCR_BYTES_PER_SECTOR,
            base == start as int,
            gcr@.len() == GCR_BYTES_PER_SECTOR,
            forall|j: int| 0 <= j < i ==> gcr@[j] == gcr_byte(dsk@, base, j),
            forall|j: int| i <= j < 343 ==> gcr@[j] == gcr_chk(dsk@, base, j),
        decreases GCR_BYTES_PER_SECTOR - i,
    {
        proof {
            lemma_gcr_chk_bound(dsk@, base, i as int);
        }
        let v = gcr_encode(gcr[i]);
        gcr.set(i, v);
        i = i + 1;
    }

    gcr
}

/// A 10-bit self-sync byte sits at bit offset `p`: 0xFF then two zero bits.
pub open spec fn sync_ok(s: Seq<u8>, p: int) -> bool {
    &&& byte_at(s, p) == 0xFF
    &&& stream_bit(s, p + 8) == 0
    &&& stream_bit(s, p + 9) == 0
}

/// `n` self-sync bytes in a row from bit offset `p`.
pub open spec fn gap_ok(s: Seq<u8>, p: int, n: int) -> bool {
    forall|k: int| 0 <= k < n ==> #[trigger] sync_ok(s, p + 10 * k)
}

/// A sector address field at bit offset `p`: prologue, the 4-and-4 encoded
/// volume 254, track, sector and their XOR checksum, and the epilogue.
pub open spec fn addr_field_ok(s: Seq<u8>, p: int, track: u8, sector: u8) -> bool {
    &&& byte_at(s, p) == 0xD5 && byte_at(s, p + 8) == 0xAA && byte_at(s, p + 16) == 0x96
    &&& decode_4_4(byte_at(s, p + 24), byte_at(s, p + 32)) == 254
    &&& decode_4_4(byte_at(s, p + 40), byte_at(s, p + 48)) == track
    &&& decode_4_4(byte_at(s, p + 56), byte_at(s, p + 64)) == sector
    &&& decode_4_4(byte_at(s, p + 72), byte_at(s, p + 80)) == (254 ^ track ^ sector)
    &&& byte_at(s, p + 88) == 0xDE && byte_at(s, p + 96) == 0xAA && byte_at(s, p + 104) == 0xEB
}

/// A sector data field at bit offset `p`: prologue, the 343 disk bytes of
/// the 6-and-2 encoding of the 256 bytes at `sector_base`, and the
/// epilogue.
pub open spec fn data_field_ok(s: Seq<u8>, p: int, dsk: Seq<u8>, sector_base: int) -> bool {
    &&& byte_at(s, p) == 0xD5 && byte_at(s, p + 8) == 0xAA && byte_at(s, p + 16) == 0xAD
    &&& forall|j: int|
        0 <= j < GCR_BYTES_PER_SECTOR ==> #[trigger] byte_at(s, p + 24 + 8 * j) == gcr_byte(
            dsk,
            sector_base,
            j,
        )
    &&& byte_at(s, p + 2768) == 0xDE && byte_at(s, p + 2776) == 0xAA && byte_at(s, p + 2784)
        == 0xEB
}

/// Which logical sector the image stores at physical sector `i`: the DOS
/// 3.3 interleave for plain sector images, the ProDOS skew for ProDOS
/// ordered ones.
pub open spec fn logical_sector_spec(prodos: bool, i: int) -> int {
    if prodos {
        if i % 2 == 0 {
            i / 2
        } else {
            8 + i / 2
        }
    } else {
        if i == 15 {
            15
        } else {
            (i * 7) % 15
        }
    }
}

/// Bits a whole sector occupies on the synthetic track: address field,
/// gap, data field, gap.
pub const SECTOR_BITS: usize = 3134;

/// One whole sector starting at bit offset `base`.
pub open spec fn sector_ok(
    s: Seq<u8>,
    base: int,
    dsk: Seq<u8>,
    dsk_base: int,
    track: u8,
    sector: u8,
    prodos: bool,
) -> bool {
    &&& addr_field_ok(s, base, track, sector)
    &&& gap_ok(s, base + 112, 7)
    &&& data_field_ok(
        s,
        base + 182,
        dsk,
        dsk_base + 256 * logical_sector_spec(prodos, sector as int),
    )
    &&& gap_ok(s, base + 2974, 16)
}

/// A whole synthetic track starting at bit offset `p0`: the leading gap
/// and the sixteen sectors.
pub open spec fn track_ok(
    s: Seq<u8>,
    p0: int,
    dsk: Seq<u8>,
    dsk_base: int,
    track: u8,
    prodos: bool,
) -> bool {
    &&& gap_ok(s, p0, 16)
    &&& forall|i: int|
        0 <= i < NUM_SECTORS ==> #[trigger] sector_ok(
            s,
            p0 + 160 + 3134 * i,
            dsk,
            dsk_base,
            track,
            i as u8,
            prodos,
        )
}

/// A byte of the stream depends only on its own eight bits.
proof fn lemma_byte_at_unchanged(s1: Seq<u8>, s2: Seq<u8>, p: int)
    requires
        forall|i: int| p <= i < p + 8 ==> #[trigger] stream_bit(s2, i) == stream_bit(s1, i),
    ensures
        byte_at(s2, p) == byte_at(s1, p),
{
}

/// A gap depends only on its own bits.
proof fn lemma_gap_ok_unchanged(s1: Seq<u8>, s2: Seq<u8>, p: int, n: int)
    requires
        gap_ok(s1, p, n),
        forall|i: int| p <= i < p + 10 * n ==> #[trigger] stream_bit(s2, i) == stream_bit(s1, i),
    ensures
        gap_ok(s2, p, n),
{
    assert forall|k: int| 0 <= k < n implies #[trigger] sync_ok(s2, p + 10 * k) by {
        assert(sync_ok(s1, p + 10 * k));
        lemma_byte_at_unchanged(s1, s2, p + 10 * k);
    }
}

/// An address field depends only on its own bits.
proof fn lemma_addr_field_ok_unchanged(s1: Seq<u8>, s2: Seq<u8>, p: int, track: u8, sector: u8)
    requires
        addr_field_ok(s1, p, track, sector),
        forall|i: int| p <= i < p + 112 ==> #[trigger] stream_bit(s2, i) == stream_bit(s1, i),
    ensures
        addr_field_ok(s2, p, track, sector),
{
    lemma_byte_at_unchanged(s1, s2, p);
    lemma_byte_at_unchanged(s1, s2, p + 8);
    lemma_byte_at_unchanged(s1, s2, p + 16);
    lemma_byte_at_unchanged(s1, s2, p + 24);
    lemma_byte_at_unchanged(s1, s2, p + 32);
    lemma_byte_at_unchanged(s1, s2, p + 40);
    lemma_byte_at_unchanged(s1, s2, p + 48);
    lemma_byte_at_unchanged(s1, s2, p + 56);
    lemma_byte_at_unchanged(s1, s2, p + 64);
    lemma_byte_at_unchanged(s1, s2, p + 72);
    lemma_byte_at_unchanged(s1, s2, p + 80);
    lemma_byte_at_unchanged(s1, s2, p + 88);
    lemma_byte_at_unchanged(s1, s2, p + 96);
    lemma_byte_at_unchanged(s1, s2, p + 104);
}

/// A data field depends only on its own bits.
proof fn lemma_data_field_ok_unchanged(
    s1: Seq<u8>,
    s2: Seq<u8>,
    p: int,
    dsk: Seq<u8>,
    sector_base: int,
)
    requires
        data_field_ok(s1, p, dsk, sector_base),
        forall|i: int| p <= i < p + 2792 ==> #[trigger] stream_bit(s2, i) == stream_bit(s1, i),
    ensures
        data_field_ok(s2, p, dsk, sector_base),
{
    lemma_byte_at_unchanged(s1, s2, p);
    lemma_byte_at_unchanged(s1, s2, p + 8);
    lemma_byte_at_unchanged(s1, s2, p + 16);
    lemma_byte_at_unchanged(s1, s2, p + 2768);
    lemma_byte_at_unchanged(s1, s2, p + 2776);
    lemma_byte_at_unchanged(s1, s2, p + 2784);
    assert forall|j: int|
        0 <= j < GCR_BYTES_PER_SECTOR implies #[trigger] byte_at(s2, p + 24 + 8 * j) == gcr_byte(
        dsk,
        sector_base,
        j,
    ) by {
        lemma_byte_at_unchanged(s1, s2, p + 24 + 8 * j);
    }
}

/// A sector depends only on its own bits.
proof fn lemma_sector_ok_unchanged(
    s1: Seq<u8>,
    s2: Seq<u8>,
    base: int,
    dsk: Seq<u8>,
    dsk_base: int,
    track: u8,
    sector: u8,
    prodos: bool,
)
    requires
        sector_ok(s1, base, dsk, dsk_base, track, sector, prodos),
        forall|i: int|
            base <= i < base + SECTOR_BITS ==> #[trigger] stream_bit(s2, i) == stream_bit(s1, i),
    ensures
        sector_ok(s2, base, dsk, dsk_base, track, sector, prodos),
{
    lemma_addr_field_ok_unchanged(s1, s2, base, track, sector);
    lemma_gap_ok_unchanged(s1, s2, base + 112, 7);
    lemma_data_field_ok_unchanged(
        s1,
        s2,
        base + 182,
        dsk,
        dsk_base + 256 * logical_sector_spec(prodos, sector as int),
    );
    lemma_gap_ok_unchanged(s1, s2, base + 2974, 16);
}

/// Write `n` self-sync bytes.
fn write_gap(woz: &mut Vec<u8>, bit_pntr: &mut usize, n: usize)
    requires
        *old(bit_pntr) + 10 * n <= 8 * old(woz).len(),
        zeros_from(old(woz)@, *old(bit_pntr) as int),
        8 * old(woz).len() <= usize::MAX,
    ensures
        final(woz).len() == old(woz).len(),
        *final(bit_pntr) == *old(bit_pntr) + 10 * n,
        gap_ok(final(woz)@, *old(bit_pntr) as int, n as int),
        forall|i: int|
            0 <= i < *old(bit_pntr) ==> #[trigger] stream_bit(final(woz)@, i) == stream_bit(
                old(woz)@,
                i,
            ),
        zeros_from(final(woz)@, *old(bit_pntr) + 10 * n),
{
    let ghost p0 = *bit_pntr as int;
    let mut k: usize = 0;
    while k < n
        invariant
            k <= n,
            0 <= p0,
            woz.len() == old(woz).len(),
            *bit_pntr == p0 + 10 * k,
            8 * woz.len() <= usize::MAX,
            p0 + 10 * n <= 8 * woz.len(),
            gap_ok(woz@, p0, k as int),
            forall|i: int|
                0 <= i < p0 ==> #[trigger] stream_bit(woz@, i) == stream_bit(old(woz)@, i),
            zeros_from(woz@, p0 + 10 * k),
        decreases n - k,
    {
        let ghost prev = woz@;
        write_sync(woz, bit_pntr);
        proof {
            assert forall|kk: int| 0 <= kk < k + 1 implies #[trigger] sync_ok(woz@, p0 + 10 * kk) by {
                if kk < k {
                    assert(sync_ok(prev, p0 + 10 * kk));
                    lemma_byte_at_unchanged(prev, woz@, p0 + 10 * kk);
                }
            }
        }
        k = k + 1;
    }
}

/// Write one sector address field.
#[verifier::rlimit(100)]
fn write_addr_field(woz: &mut Vec<u8>, bit_pntr: &mut usize, track: u8, sector: u8)
    requires
        *old(bit_pntr) + 112 <= 8 * old(woz).len(),
        zeros_from(old(woz)@, *old(bit_pntr) as int),
        8 * old(woz).len() <= usize::MAX,
    ensures
        final(woz).len() == old(woz).len(),
        *final(bit_pntr) == *old(bit_pntr) + 112,
        addr_field_ok(final(woz)@, *old(bit_pntr) as int, track, sector),
        forall|i: int|
            0 <= i < *old(bit_pntr) ==> #[trigger] stream_bit(final(woz)@, i) == stream_bit(
                old(woz)@,
                i,
            ),
        zeros_from(final(woz)@, *old(bit_pntr) + 112),
{
    write_byte(woz, bit_pntr, 0xD5);
    write_byte(woz, bit_pntr, 0xAA);
    write_byte(woz, bit_pntr, 0x96);
    write_4_4(woz, bit_pntr, 254);
    write_4_4(woz, bit_pntr, track);
    write_4_4(woz, bit_pntr, sector);
    write_4_4(woz, bit_pntr, 254 ^ track ^ sector);
    write_byte(woz, bit_pntr, 0xDE);
    write_byte(woz, bit_pntr, 0xAA);
    write_byte(woz, bit_pntr, 0xEB);
}

/// Write one sector data field: the 6-and-2 encoding of the 256 bytes at
/// `sector_base`.
#[verifier::rlimit(100)]
fn write_data_field(woz: &mut Vec<u8>, bit_pntr: &mut usize, dsk: &Vec<u8>, sector_base: usize)
    requires
        *old(bit_pntr) + 2792 <= 8 * old(woz).len(),
        zeros_from(old(woz)@, *old(bit_pntr) as int),
        8 * old(woz).len() <= usize::MAX,
        sector_base + BYTES_PER_SECTOR <= dsk.len(),
    ensures
        final(woz).len() == old(woz).len(),
        *final(bit_pntr) == *old(bit_pntr) + 2792,
        data_field_ok(final(woz)@, *old(bit_pntr) as int, dsk@, sector_base as int),
        forall|i: int|
            0 <= i < *old(bit_pntr) ==> #[trigger] stream_bit(final(woz)@, i) == stream_bit(
                old(woz)@,
                i,
            ),
        zeros_from(final(woz)@, *old(bit_pntr) + 2792),
{
    let ghost p0 = *bit_pntr as int;
    write_byte(woz, bit_pntr, 0xD5);
    write_byte(woz, bit_pntr, 0xAA);
    write_byte(woz, bit_pntr, 0xAD);

    let gcr = convert_6_2(dsk, sector_base);
    let mut j: usize = 0;
    while j < GCR_BYTES_PER_SECTOR
        invariant
            j <= GCR_BYTES_PER_SECTOR,
            0 <= p0,
            woz.len() == old(woz).len(),
            *bit_pntr == p0 + 24 + 8 * j,
            8 * woz.len() <= usize::MAX,
            p0 + 2792 <= 8 * woz.len(),
            gcr@.len() == GCR_BYTES_PER_SECTOR,
            forall|i: int|
                0 <= i < GCR_BYTES_PER_SECTOR ==> gcr@[i] == gcr_byte(dsk@, sector_base as int, i),
            byte_at(woz@, p0) == 0xD5,
            byte_at(woz@, p0 + 8) == 0xAA,
            byte_at(woz@, p0 + 16) == 0xAD,
            forall|jj: int|
                0 <= jj < j ==> #[trigger] byte_at(woz@, p0 + 24 + 8 * jj) == gcr_byte(
                    dsk@,
                    sector_base as int,
                    jj,
                ),
            forall|i: int|
                0 <= i < p0 ==> #[trigger] stream_bit(woz@, i) == stream_bit(old(woz)@, i),
            zeros_from(woz@, p0 + 24 + 8 * j),
        decreases GCR_BYTES_PER_SECTOR - j,
    {
        let ghost prev = woz@;
        write_byte(woz, bit_pntr, gcr[j]);
        proof {
            lemma_byte_at_unchanged(prev, woz@, p0);
            lemma_byte_at_unchanged(prev, woz@, p0 + 8);
            lemma_byte_at_unchanged(prev, woz@, p0 + 16);
            assert forall|jj: int|
                0 <= jj < j + 1 implies #[trigger] byte_at(woz@, p0 + 24 + 8 * jj) == gcr_byte(
                dsk@,
                sector_base as int,
                jj,
            ) by {
                if jj < j {
                    lemma_byte_at_unchanged(prev, woz@, p0 + 24 + 8 * jj);
                }
            }
        }
        j = j + 1;
    }

    let ghost wa = woz@;
    write_byte(woz, bit_pntr, 0xDE);
    write_byte(woz, bit_pntr, 0xAA);
    write_byte(woz, bit_pntr, 0xEB);
    proof {
        assert forall|i: int| 0 <= i < p0 + 2768 implies #[trigger] stream_bit(woz@, i)
            == stream_bit(wa, i) by {}
        lemma_byte_at_unchanged(wa, woz@, p0);
        lemma_byte_at_unchanged(wa, woz@, p0 + 8);
        lemma_byte_at_unchanged(wa, woz@, p0 + 16);
        assert forall|j: int|
            0 <= j < GCR_BYTES_PER_SECTOR implies #[trigger] byte_at(woz@, p0 + 24 + 8 * j)
            == gcr_byte(dsk@, sector_base as int, j) by {
            assert(byte_at(wa, p0 + 24 + 8 * j) == gcr_byte(dsk@, sector_base as int, j));
            lemma_byte_at_unchanged(wa, woz@, p0 + 24 + 8 * j);
        }
    }
}

/// Write one whole sector: address field, gap, data field, gap.
#[verifier::rlimit(100)]
#[verifier::spinoff_prover]
fn write_sector(
    woz: &mut Vec<u8>,
    bit_pntr: &mut usize,
    dsk: &Vec<u8>,
    dsk_base: usize,
    track: u8,
    sector: u8,
    prodos: bool,
)
    requires
        sector < NUM_SECTORS,
        *old(bit_pntr) + SECTOR_BITS <= 8 * old(woz).len(),
        zeros_from(old(woz)@, *old(bit_pntr) as int),
        8 * old(woz).len() <= usize::MAX,
        dsk_base + NUM_SECTORS * BYTES_PER_SECTOR <= dsk.len(),
    ensures
        final(woz).len() == old(woz).len(),
        *final(bit_pntr) == *old(bit_pntr) + SECTOR_BITS,
        sector_ok(
            final(woz)@,
            *old(bit_pntr) as int,
            dsk@,
            dsk_base as int,
            track,
            sector,
            prodos,
        ),
        forall|i: int|
            0 <= i < *old(bit_pntr) ==> #[trigger] stream_bit(final(woz)@, i) == stream_bit(
                old(woz)@,
                i,
            ),
        zeros_from(final(woz)@, *old(bit_pntr) + SECTOR_BITS),
{
    let ghost base = *bit_pntr as int;

    let logical_sector: usize = if prodos {
        if sector % 2 == 0 {
            (sector / 2) as usize
        } else {
            8 + (sector / 2) as usize
        }
    } else {
        if sector == 15 {
            15
        } else {
            ((sector as usize) * 7) % 15
        }
    };
    assert(logical_sector == logical_sector_spec(prodos, sector as int));
    let sector_base = dsk_base + logical_sector * BYTES_PER_SECTOR;

    write_addr_field(woz, bit_pntr, track, sector);
    let ghost w1 = woz@;
    write_gap(woz, bit_pntr, 7);
    let ghost w2 = woz@;
    write_data_field(woz, bit_pntr, dsk, sector_base);
    let ghost w3 = woz@;
    write_gap(woz, bit_pntr, 16);

    proof {
        assert(addr_field_ok(w1, base, track, sector));
        assert forall|i: int| base <= i < base + 112 implies #[trigger] stream_bit(w2, i)
            == stream_bit(w1, i) by {}
        lemma_addr_field_ok_unchanged(w1, w2, base, track, sector);
        assert forall|i: int| base <= i < base + 182 implies #[trigger] stream_bit(w3, i)
            == stream_bit(w2, i) by {}
        lemma_addr_field_ok_unchanged(w2, w3, base, track, sector);
        lemma_gap_ok_unchanged(w2, w3, base + 112, 7);
        assert forall|i: int| base <= i < base + 2974 implies #[trigger] stream_bit(woz@, i)
            == stream_bit(w3, i) by {}
        lemma_addr_field_ok_unchanged(w3, woz@, base, track, sector);
        lemma_gap_ok_unchanged(w3, woz@, base + 112, 7);
        lemma_data_field_ok_unchanged(w3, woz@, base + 182, dsk@, sector_base as int);
        assert(addr_field_ok(woz@, base, track, sector));
        assert(gap_ok(woz@, base + 112, 7));
        assert(data_field_ok(
            woz@,
            base + 182,
            dsk@,
            dsk_base + 256 * logical_sector_spec(prodos, sector as int),
        ));
        assert(gap_ok(woz@, base + 2974, 16));
        assert forall|i: int| 0 <= i < base implies #[trigger] stream_bit(woz@, i) == stream_bit(
            old(woz)@,
            i,
        ) by {}
    }
}

/// Convert one 4096-byte track of the image into its synthetic bit stream
/// at bit offset `8 * woz_base`: the leading gap, then each physical
/// sector's address field, gap, data field, and trailing gap.
#[verifier::rlimit(100)]
pub fn convert_track(
    woz: &mut Vec<u8>,
    woz_base: usize,
    dsk: &Vec<u8>,
    dsk_base: usize,
    track: u8,
    prodos: bool,
)
    requires
        8 * woz_base + BITS_PER_TRACK <= 8 * old(woz).len(),
        zeros_from(old(woz)@, 8 * woz_base as int),
        8 * old(woz).len() <= usize::MAX,
        dsk_base + NUM_SECTORS * BYTES_PER_SECTOR <= dsk.len(),
    ensures
        final(woz).len() == old(woz).len(),
        track_ok(final(woz)@, 8 * woz_base as int, dsk@, dsk_base as int, track, prodos),
        forall|i: int|
            0 <= i < 8 * woz_base ==> #[trigger] stream_bit(final(woz)@, i) == stream_bit(
                old(woz)@,
                i,
            ),
        zeros_from(final(woz)@, 8 * woz_base + BITS_PER_TRACK),
        forall|j: int| woz_base + 6288 <= j < old(woz).len() ==> final(woz)@[j] == 0,
{
    let ghost p0 = 8 * woz_base as int;
    let mut bit_pntr: usize = 8 * woz_base;

    write_gap(woz, &mut bit_pntr, 16);

    let mut s: usize = 0;
    while s < NUM_SECTORS
        invariant
            s <= NUM_SECTORS,
            0 <= p0,
            woz.len() == old(woz).len(),
            bit_pntr == p0 + 160 + 3134 * s,
            8 * woz.len() <= usize::MAX,
            p0 + BITS_PER_TRACK <= 8 * woz.len(),
            dsk_base + NUM_SECTORS * BYTES_PER_SECTOR <= dsk.len(),
            gap_ok(woz@, p0, 16),
            forall|t: int|
                0 <= t < s ==> #[trigger] sector_ok(
                    woz@,
                    p0 + 160 + 3134 * t,
                    dsk@,
                    dsk_base as int,
                    track,
                    t as u8,
                    prodos,
                ),
            forall|i: int|
                0 <= i < p0 ==> #[trigger] stream_bit(woz@, i) == stream_bit(old(woz)@, i),
            zeros_from(woz@, p0 + 160 + 3134 * s),
        decreases NUM_SECTORS - s,
    {
        let ghost w0 = woz@;
        let ghost base = p0 + 160 + 3134 * s;

        write_sector(woz, &mut bit_pntr, dsk, dsk_base, track, s as u8, prodos);

        proof {
            lemma_gap_ok_unchanged(w0, woz@, p0, 16);
            assert forall|t: int| 0 <= t < s + 1 implies #[trigger] sector_ok(
                woz@,
                p0 + 160 + 3134 * t,
                dsk@,
                dsk_base as int,
                track,
                t as u8,
                prodos,
            ) by {
                if t < s {
                    assert(sector_ok(
                        w0,
                        p0 + 160 + 3134 * t,
                        dsk@,
                        dsk_base as int,
                        track,
                        t as u8,
                        prodos,
                    ));
                    lemma_sector_ok_unchanged(
                        w0,
                        woz@,
                        p0 + 160 + 3134 * t,
                        dsk@,
                        dsk_base as int,
                        track,
                        t as u8,
                        prodos,
                    );
                }
            }
        }
        s = s + 1;
    }
    proof {
        assert forall|j: int| woz_base + 6288 <= j < woz.len() implies woz@[j] == 0 by {
            lemma_zeros_from_zero_byte(woz@, 8 * woz_base + BITS_PER_TRACK, j);
        }
    }
}

/// The little-endian 32-bit value stored at byte offset `p`.
pub open spec fn le_u32_at(s: Seq<u8>, p: int) -> int {
    s[p] + 0x100 * s[p + 1] + 0x10000 * s[p + 2] + 0x1000000 * s[p + 3]
}

/// The little-endian 16-bit value stored at byte offset `p`.
pub open spec fn le_u16_at(s: Seq<u8>, p: int) -> int {
    s[p] + 0x100 * s[p + 1]
}

/// Store a 32-bit value little-endian at byte offset `start`.
fn put_u32(value: u32, woz: &mut Vec<u8>, start: usize)
    requires
        start + 4 <= old(woz).len(),
    ensures
        final(woz).len() == old(woz).len(),
        le_u32_at(final(woz)@, start as int) == value,
        forall|j: int|
            0 <= j < old(woz).len() && !(start <= j < start + 4) ==> final(woz)@[j] == old(
                woz,
            )@[j],
{
    let b0 = #[verifier::truncate] ((value & 0xFF) as u8);
    let b1 = #[verifier::truncate] (((value >> 8u32) & 0xFF) as u8);
    let b2 = #[verifier::truncate] (((value >> 16u32) & 0xFF) as u8);
    let b3 = #[verifier::truncate] (((value >> 24u32) & 0xFF) as u8);
    woz.set(start, b0);
    woz.set(start + 1, b1);
    woz.set(start + 2, b2);
    woz.set(start + 3, b3);
    proof {
        let v = value;
        assert(((v & 0xFF) as u8) + 0x100 * (((v >> 8u32) & 0xFF) as u8) + 0x10000 * (((v
            >> 16u32) & 0xFF) as u8) + 0x1000000 * (((v >> 24u32) & 0xFF) as u8) == v)
            by (bit_vector);
    }
}

/// Store a 16-bit value little-endian at byte offset `start`.
fn put_u16(value: u16, woz: &mut Vec<u8>, start: usize)
    requires
        start + 2 <= old(woz).len(),
    ensures
        final(woz).len() == old(woz).len(),
        le_u16_at(final(woz)@, start as int) == value,
        forall|j: int|
            0 <= j < old(woz).len() && !(start <= j < start + 2) ==> final(woz)@[j] == old(
                woz,
            )@[j],
{
    let b0 = #[verifier::truncate] ((value & 0xFF) as u8);
    let b1 = #[verifier::truncate] (((value >> 8u16) & 0xFF) as u8);
    woz.set(start, b0);
    woz.set(start + 1, b1);
    proof {
        let v = value;
        assert(((v & 0xFF) as u8) + 0x100 * (((v >> 8u16) & 0xFF) as u8) == v) by (bit_vector);
    }
}

/// The twelve-byte WOZ2 header: magic, a 0xFF guard, and the line-ending
/// probe bytes.
pub open spec fn header_ok(s: Seq<u8>) -> bool {
    &&& le_u32_at(s, 0) == ID_WOZ2
    &&& s[4] == 0xFF
    &&& le_u32_at(s, 5) == 0x000A0D0A
    &&& le_u32_at(s, 8) == 0
}

/// The INFO chunk of a synthetic image: version 2, a 5.25" disk, not
/// write protected, synchronised, with the creator field spaces.
pub open spec fn info_ok(s: Seq<u8>) -> bool {
    &&& le_u32_at(s, 12) == ID_INFO
    &&& le_u32_at(s, 16) == 60
    &&& s[20] == 2 && s[21] == 1 && s[22] == 0 && s[23] == 0
    &&& forall|j: int| 24 <= j < 57 ==> s[j] == 0x20
    &&& s[57] == 1 && s[58] == 0 && s[59] == 32
    &&& le_u16_at(s, 60) == 0 && le_u16_at(s, 62) == 0 && le_u16_at(s, 64) == 13
}

/// Quarter-track map entry `j` of a synthetic image: integer track `t`
/// answers quarter positions `4t - 1`, `4t` and `4t + 1`; everything else
/// is unmapped.
pub open spec fn tmap_entry(j: int) -> u8 {
    if j == 0 || j == 1 {
        0
    } else if j <= 137 && (j % 4 == 3 || j % 4 == 0 || j % 4 == 1) {
        (((j + 1) / 4) as u8)
    } else {
        0xFF
    }
}

/// The TMAP chunk of a synthetic image.
pub open spec fn tmap_ok(s: Seq<u8>) -> bool {
    &&& le_u32_at(s, 80) == ID_TMAP
    &&& le_u32_at(s, 84) == 160
    &&& forall|j: int| 0 <= j < 160 ==> s[88 + j] == tmap_entry(j)
}

/// Directory entry for track `t`: it starts at block `3 + 13t`, spans 13
/// blocks, and holds `BITS_PER_TRACK` bits.
pub open spec fn trk_entry_ok(s: Seq<u8>, t: int) -> bool {
    &&& le_u16_at(s, 256 + 8 * t) == 3 + 13 * t
    &&& le_u16_at(s, 258 + 8 * t) == 13
    &&& le_u32_at(s, 260 + 8 * t) == BITS_PER_TRACK
}

/// The TRKS chunk directory of a synthetic image.
pub open spec fn trks_meta_ok(s: Seq<u8>) -> bool {
    &&& le_u32_at(s, 248) == ID_TRKS
    &&& le_u32_at(s, 252) == 234240
    &&& forall|t: int| 0 <= t < NUM_TRACKS ==> #[trigger] trk_entry_ok(s, t)
}

/// Write the WOZ2 file header.
fn fill_header(woz: &mut Vec<u8>)
    requires
        12 <= old(woz).len(),
        forall|j: int| 4 <= j < 12 ==> old(woz)@[j] == 0,
    ensures
        final(woz).len() == old(woz).len(),
        header_ok(final(woz)@),
        forall|j: int| 12 <= j < old(woz).len() ==> final(woz)@[j] == old(woz)@[j],
{
    put_u32(ID_WOZ2, woz, 0);
    woz.set(4, 0xFF);
    put_u32(0x000A0D0A, woz, 5);
    put_u32(0x00000000, woz, 8);
    proof {
        assert(woz@[8] == 0);
    }
}

/// Write the INFO chunk.
fn fill_info(woz: &mut Vec<u8>)
    requires
        66 <= old(woz).len(),
    ensures
        final(woz).len() == old(woz).len(),
        info_ok(final(woz)@),
        forall|j: int| 0 <= j < 12 ==> final(woz)@[j] == old(woz)@[j],
        forall|j: int| 66 <= j < old(woz).len() ==> final(woz)@[j] == old(woz)@[j],
{
    put_u32(ID_INFO, woz, 12);
    put_u32(60, woz, 16);
    woz.set(20, 2);
    woz.set(21, 1);
    woz.set(22, 0);
    woz.set(23, 0);
    let mut j: usize = 24;
    while j < 57
        invariant
            24 <= j <= 57,
            woz.len() == old(woz).len(),
            66 <= woz.len(),
            le_u32_at(woz@, 12) == ID_INFO,
            le_u32_at(woz@, 16) == 60,
            woz@[20] == 2 && woz@[21] == 1 && woz@[22] == 0 && woz@[23] == 0,
            forall|i: int| 24 <= i < j ==> woz@[i] == 0x20,
            forall|i: int| 0 <= i < 12 ==> woz@[i] == old(woz)@[i],
            forall|i: int| 57 <= i < woz.len() ==> woz@[i] == old(woz)@[i],
        decreases 57 - j,
    {
        woz.set(j, 0x20);
        j = j + 1;
    }
    woz.set(57, 1);
    woz.set(58, 0);
    woz.set(59, 32);
    put_u16(0, woz, 60);
    put_u16(0, woz, 62);
    put_u16(13, woz, 64);
}

/// Write the TMAP chunk.
fn fill_tmap(woz: &mut Vec<u8>)
    requires
        248 <= old(woz).len(),
    ensures
        final(woz).len() == old(woz).len(),
        tmap_ok(final(woz)@),
        forall|j: int| 0 <= j < 80 ==> final(woz)@[j] == old(woz)@[j],
        forall|j: int| 248 <= j < old(woz).len() ==> final(woz)@[j] == old(woz)@[j],
{
    put_u32(ID_TMAP, woz, 80);
    put_u32(160, woz, 84);

    woz.set(88, 0);
    woz.set(89, 0);
    let mut j: usize = 90;
    while j < 248
        invariant
            90 <= j <= 248,
            woz.len() == old(woz).len(),
            248 <= woz.len(),
            le_u32_at(woz@, 80) == ID_TMAP,
            le_u32_at(woz@, 84) == 160,
            woz@[88] == 0 && woz@[89] == 0,
            forall|i: int| 90 <= i < j ==> woz@[i] == 0xFF,
            forall|i: int| 0 <= i < 80 ==> woz@[i] == old(woz)@[i],
            forall|i: int| 248 <= i < woz.len() ==> woz@[i] == old(woz)@[i],
        decreases 248 - j,
    {
        woz.set(j, 0xFF);
        j = j + 1;
    }

    let mut i: usize = 1;
    while i < NUM_TRACKS
        invariant
            1 <= i <= NUM_TRACKS,
            woz.len() == old(woz).len(),
            248 <= woz.len(),
            le_u32_at(woz@, 80) == ID_TMAP,
            le_u32_at(woz@, 84) == 160,
            forall|j: int| 0 <= j < 160 && j >= 4 * i - 1 ==> woz@[88 + j] == tmap_entry_initial(j),
            forall|j: int| 0 <= j < 4 * i - 1 ==> woz@[88 + j] == tmap_entry(j),
            forall|jj: int| 0 <= jj < 80 ==> woz@[jj] == old(woz)@[jj],
            forall|jj: int| 248 <= jj < woz.len() ==> woz@[jj] == old(woz)@[jj],
        decreases NUM_TRACKS - i,
    {
        let idx = 88 + i * 4;
        woz.set(idx - 1, i as u8);
        woz.set(idx, i as u8);
        woz.set(idx + 1, i as u8);
        proof {
            vstd::arithmetic::div_mod::lemma_fundamental_div_mod_converse(
                4 * i as int,
                4,
                i as int,
                0,
            );
            vstd::arithmetic::div_mod::lemma_fundamental_div_mod_converse(
                4 * i + 1,
                4,
                i as int,
                1,
            );
            vstd::arithmetic::div_mod::lemma_fundamental_div_mod_converse(
                4 * i + 2,
                4,
                i as int,
                2,
            );
            assert(tmap_entry(4 * i - 1) == i as u8);
            assert(tmap_entry(4 * i as int) == i as u8);
            assert(tmap_entry(4 * i + 1) == i as u8);
            assert forall|j: int| 0 <= j < 4 * (i + 1) - 1 implies woz@[88 + j] == tmap_entry(
                j,
            ) by {
                if j == 4 * i + 2 {
                    assert(woz@[88 + j] == tmap_entry_initial(j));
                    assert(tmap_entry(j) == 0xFF);
                }
            }
        }
        i = i + 1;
    }
    proof {
        assert forall|j: int| 0 <= j < 160 implies woz@[88 + j] == tmap_entry(j) by {
            if j >= 4 * NUM_TRACKS - 1 {
                assert(woz@[88 + j] == tmap_entry_initial(j));
            }
        }
    }
}

/// The track map before the integer-track entries are written: the first
/// two quarter positions belong to track 0, the rest are unmapped.
pub open spec fn tmap_entry_initial(j: int) -> u8 {
    if j == 0 || j == 1 {
        0
    } else {
        0xFF
    }
}

/// Write the TRKS chunk: the 35 track directory entries, then each
/// track's synthetic bit stream.
fn fill_trks(woz: &mut Vec<u8>, file_buf: &Vec<u8>, prodos: bool)
    requires
        old(woz).len() >= TRACK_DATA_START + NUM_TRACKS * BLOCK_SIZE * BLOCKS_PER_TRACK,
        8 * old(woz).len() <= usize::MAX,
        forall|j: int| 536 <= j < old(woz).len() ==> old(woz)@[j] == 0,
        file_buf.len() == DSK_IMG_SIZE,
    ensures
        final(woz).len() == old(woz).len(),
        trks_meta_ok(final(woz)@),
        forall|t: int|
            0 <= t < NUM_TRACKS ==> #[trigger] track_ok(
                final(woz)@,
                8 * (TRACK_DATA_START + 6656 * t),
                file_buf@,
                4096 * t,
                t as u8,
                prodos,
            ),
        forall|j: int| 0 <= j < 248 ==> final(woz)@[j] == old(woz)@[j],
        forall|j: int| 536 <= j < TRACK_DATA_START ==> final(woz)@[j] == old(woz)@[j],
        forall|j: int|
            TRACK_DATA_START <= j < TRACK_DATA_START + NUM_TRACKS * 6656 && (j
                - TRACK_DATA_START) % 6656 >= 6288 ==> final(woz)@[j] == 0,
        forall|j: int|
            TRACK_DATA_START + NUM_TRACKS * 6656 <= j < old(woz).len() ==> final(woz)@[j] == 0,
{
    put_u32(ID_TRKS, woz, 248);
    put_u32(234240, woz, 252);

    let mut i: usize = 0;
    while i < NUM_TRACKS
        invariant
            i <= NUM_TRACKS,
            woz.len() == old(woz).len(),
            woz.len() >= TRACK_DATA_START + NUM_TRACKS * BLOCK_SIZE * BLOCKS_PER_TRACK,
            le_u32_at(woz@, 248) == ID_TRKS,
            le_u32_at(woz@, 252) == 234240,
            forall|t: int| 0 <= t < i ==> #[trigger] trk_entry_ok(woz@, t),
            forall|j: int| 0 <= j < 248 ==> woz@[j] == old(woz)@[j],
            forall|j: int| 536 <= j < woz.len() ==> woz@[j] == old(woz)@[j],
        decreases NUM_TRACKS - i,
    {
        let ghost w0 = woz@;
        let idx = 256 + i * 8;
        put_u16((3 + i * 13) as u16, woz, idx);
        put_u16(13, woz, idx + 2);
        put_u32(BITS_PER_TRACK as u32, woz, idx + 4);
        proof {
            assert forall|t: int| 0 <= t < i + 1 implies #[trigger] trk_entry_ok(woz@, t) by {
                if t < i {
                    assert(trk_entry_ok(w0, t));
                }
            }
        }
        i = i + 1;
    }

    proof {
        lemma_zero_bytes_zero_bits(woz@, 8 * TRACK_DATA_START as int);
    }

    let ghost wd = woz@;
    let mut woz_idx: usize = TRACK_DATA_START;
    let mut i: usize = 0;
    while i < NUM_TRACKS
        invariant
            i <= NUM_TRACKS,
            woz.len() == old(woz).len(),
            woz.len() >= TRACK_DATA_START + NUM_TRACKS * BLOCK_SIZE * BLOCKS_PER_TRACK,
            8 * woz.len() <= usize::MAX,
            woz_idx == TRACK_DATA_START + 6656 * i,
            file_buf.len() == DSK_IMG_SIZE,
            forall|ii: int|
                0 <= ii < 8 * TRACK_DATA_START ==> #[trigger] stream_bit(woz@, ii) == stream_bit(
                    wd,
                    ii,
                ),
            forall|t: int|
                0 <= t < i ==> #[trigger] track_ok(
                    woz@,
                    8 * (TRACK_DATA_START + 6656 * t),
                    file_buf@,
                    4096 * t,
                    t as u8,
                    prodos,
                ),
            zeros_from(woz@, 8 * (TRACK_DATA_START + 6656 * i)),
            forall|j: int|
                TRACK_DATA_START <= j < TRACK_DATA_START + 6656 * i && (j - TRACK_DATA_START)
                    % 6656 >= 6288 ==> woz@[j] == 0,
        decreases NUM_TRACKS - i,
    {
        let ghost w0 = woz@;
        let dsk_idx = i * 4096;
        convert_track(woz, woz_idx, file_buf, dsk_idx, i as u8, prodos);
        proof {
            assert forall|t: int| 0 <= t < i + 1 implies #[trigger] track_ok(
                woz@,
                8 * (TRACK_DATA_START + 6656 * t),
                file_buf@,
                4096 * t,
                t as u8,
                prodos,
            ) by {
                if t < i {
                    assert(track_ok(
                        w0,
                        8 * (TRACK_DATA_START + 6656 * t),
                        file_buf@,
                        4096 * t,
                        t as u8,
                        prodos,
                    ));
                    lemma_track_ok_unchanged(
                        w0,
                        woz@,
                        8 * (TRACK_DATA_START + 6656 * t),
                        file_buf@,
                        4096 * t,
                        t as u8,
                        prodos,
                    );
                } else {
                    assert(track_ok(
                        woz@,
                        8 * woz_idx as int,
                        file_buf@,
                        dsk_idx as int,
                        t as u8,
                        prodos,
                    ));
                }
            }
            assert(zeros_from(woz@, 8 * (TRACK_DATA_START + 6656 * (i + 1)))) by {
                assert forall|ii: int|
                    8 * (TRACK_DATA_START + 6656 * (i + 1)) <= ii < 8 * woz.len()
                    implies #[trigger] stream_bit(woz@, ii) == 0 by {
                    assert(stream_bit(w0, ii) == 0);
                }
            }
            assert forall|j: int|
                TRACK_DATA_START <= j < TRACK_DATA_START + 6656 * (i + 1) && (j
                    - TRACK_DATA_START) % 6656 >= 6288 implies woz@[j] == 0 by {
                if j < TRACK_DATA_START + 6656 * i {
                    assert(w0[j] == 0);
                    lemma_byte_from_bits(w0, woz@, j);
                } else {
                    vstd::arithmetic::div_mod::lemma_fundamental_div_mod_converse(
                        j - TRACK_DATA_START,
                        6656,
                        i as int,
                        j - TRACK_DATA_START - 6656 * i,
                    );
                    assert(j >= woz_idx + 6288);
                }
            }
        }
        woz_idx = woz_idx + BLOCK_SIZE * BLOCKS_PER_TRACK;
        i = i + 1;
    }
    proof {
        assert forall|j: int| 0 <= j < 248 implies woz@[j] == old(woz)@[j] by {
            lemma_byte_from_bits(wd, woz@, j);
        }
        assert forall|j: int| 248 <= j < 536 implies woz@[j] == wd[j] by {
            lemma_byte_from_bits(wd, woz@, j);
        }
        assert forall|j: int| 536 <= j < TRACK_DATA_START implies woz@[j] == old(woz)@[j] by {
            lemma_byte_from_bits(wd, woz@, j);
        }
        assert forall|j: int|
            TRACK_DATA_START + NUM_TRACKS * 6656 <= j < woz.len() implies woz@[j] == 0 by {
            lemma_zeros_from_zero_byte(woz@, 8 * (TRACK_DATA_START + 6656 * NUM_TRACKS), j);
        }
        assert forall|t: int| 0 <= t < NUM_TRACKS implies #[trigger] trk_entry_ok(woz@, t) by {
            assert(trk_entry_ok(wd, t));
        }
        assert(trks_meta_ok(woz@));
    }
}

/// A whole track depends only on its own bits.
#[verifier::rlimit(100)]
#[verifier::spinoff_prover]
proof fn lemma_track_ok_unchanged(
    s1: Seq<u8>,
    s2: Seq<u8>,
    p0: int,
    dsk: Seq<u8>,
    dsk_base: int,
    track: u8,
    prodos: bool,
)
    requires
        track_ok(s1, p0, dsk, dsk_base, track, prodos),
        forall|i: int|
            p0 <= i < p0 + BITS_PER_TRACK ==> #[trigger] stream_bit(s2, i) == stream_bit(s1, i),
    ensures
        track_ok(s2, p0, dsk, dsk_base, track, prodos),
{
    lemma_gap_ok_unchanged(s1, s2, p0, 16);
    assert forall|i: int| 0 <= i < NUM_SECTORS implies #[trigger] sector_ok(
        s2,
        p0 + 160 + 3134 * i,
        dsk,
        dsk_base,
        track,
        i as u8,
        prodos,
    ) by {
        assert(sector_ok(s1, p0 + 160 + 3134 * i, dsk, dsk_base, track, i as u8, prodos));
        lemma_sector_ok_unchanged(
            s1,
            s2,
            p0 + 160 + 3134 * i,
            dsk,
            dsk_base,
            track,
            i as u8,
            prodos,
        );
    }
}

/// A byte whose eight stream bits agree in two buffers agrees itself.
proof fn lemma_byte_from_bits(s1: Seq<u8>, s2: Seq<u8>, j: int)
    requires
        0 <= j < s1.len(),
        s1.len() == s2.len(),
        forall|i: int|
            8 * j <= i < 8 * j + 8 ==> #[trigger] stream_bit(s2, i) == stream_bit(s1, i),
    ensures
        s2[j] == s1[j],
{
    let b1 = s1[j];
    let b2 = s2[j];
    assert forall|k: int| 0 <= k < 8 implies #[trigger] ((8 * j + k) / 8) == j && (8 * j + k) % 8
        == k by {
        vstd::arithmetic::div_mod::lemma_fundamental_div_mod_converse(8 * j + k, 8, j, k);
    }
    assert(stream_bit(s1, 8 * j + 0) == (b1 >> 7u8) & 1);
    assert(stream_bit(s1, 8 * j + 1) == (b1 >> 6u8) & 1);
    assert(stream_bit(s1, 8 * j + 2) == (b1 >> 5u8) & 1);
    assert(stream_bit(s1, 8 * j + 3) == (b1 >> 4u8) & 1);
    assert(stream_bit(s1, 8 * j + 4) == (b1 >> 3u8) & 1);
    assert(stream_bit(s1, 8 * j + 5) == (b1 >> 2u8) & 1);
    assert(stream_bit(s1, 8 * j + 6) == (b1 >> 1u8) & 1);
    assert(stream_bit(s1, 8 * j + 7) == (b1 >> 0u8) & 1);
    assert(stream_bit(s2, 8 * j + 0) == (b2 >> 7u8) & 1);
    assert(stream_bit(s2, 8 * j + 1) == (b2 >> 6u8) & 1);
    assert(stream_bit(s2, 8 * j + 2) == (b2 >> 5u8) & 1);
    assert(stream_bit(s2, 8 * j + 3) == (b2 >> 4u8) & 1);
    assert(stream_bit(s2, 8 * j + 4) == (b2 >> 3u8) & 1);
    assert(stream_bit(s2, 8 * j + 5) == (b2 >> 2u8) & 1);
    assert(stream_bit(s2, 8 * j + 6) == (b2 >> 1u8) & 1);
    assert(stream_bit(s2, 8 * j + 7) == (b2 >> 0u8) & 1);
    assert((b1 >> 7u8) & 1 == (b2 >> 7u8) & 1 && (b1 >> 6u8) & 1 == (b2 >> 6u8) & 1 && (b1 >> 5u8)
        & 1 == (b2 >> 5u8) & 1 && (b1 >> 4u8) & 1 == (b2 >> 4u8) & 1 && (b1 >> 3u8) & 1 == (b2
        >> 3u8) & 1 && (b1 >> 2u8) & 1 == (b2 >> 2u8) & 1 && (b1 >> 1u8) & 1 == (b2 >> 1u8) & 1 && (
    b1 >> 0u8) & 1 == (b2 >> 0u8) & 1 ==> b1 == b2) by (bit_vector);
}

/// Bytes that are zero hold only zero stream bits.
proof fn lemma_zero_bytes_zero_bits(s: Seq<u8>, p: int)
    requires
        forall|j: int| p / 8 <= j < s.len() ==> s[j] == 0,
        p % 8 == 0,
        0 <= p,
    ensures
        zeros_from(s, p),
{
    assert forall|i: int| p <= i < 8 * s.len() implies stream_bit(s, i) == 0 by {
        vstd::arithmetic::div_mod::lemma_div_multiples_vanish(p / 8, 8);
        assert(i / 8 >= p / 8) by {
            vstd::arithmetic::div_mod::lemma_div_is_ordered(p, i, 8);
        }
        assert(i / 8 < s.len()) by {
            vstd::arithmetic::div_mod::lemma_div_is_ordered(i, 8 * s.len() - 1, 8);
            vstd::arithmetic::div_mod::lemma_div_multiples_vanish(s.len() as int, 8);
            assert((8 * s.len() - 1) / 8 <= s.len() - 1) by {
                vstd::arithmetic::div_mod::lemma_div_is_ordered(8 * s.len() - 1, 8 * (s.len() - 1)
                    + 7, 8);
                vstd::arithmetic::div_mod::lemma_fundamental_div_mod_converse(
                    8 * (s.len() - 1) + 7,
                    8,
                    s.len() - 1,
                    7,
                );
            }
        }
        let b = s[i / 8];
        let sh = (7 - i % 8) as u8;
        assert(b == 0 ==> (b >> sh) & 1 == 0) by (bit_vector);
    }
}

/// A byte all of whose stream bits lie in a zero region is zero.
proof fn lemma_zeros_from_zero_byte(s: Seq<u8>, p: int, j: int)
    requires
        zeros_from(s, p),
        0 <= j < s.len(),
        p <= 8 * j,
    ensures
        s[j] == 0,
{
    assert forall|k: int| 0 <= k < 8 implies #[trigger] ((8 * j + k) / 8) == j && (8 * j + k) % 8
        == k by {
        vstd::arithmetic::div_mod::lemma_fundamental_div_mod_converse(8 * j + k, 8, j, k);
    }
    let b = s[j];
    assert(stream_bit(s, 8 * j + 0) == (b >> 7u8) & 1);
    assert(stream_bit(s, 8 * j + 1) == (b >> 6u8) & 1);
    assert(stream_bit(s, 8 * j + 2) == (b >> 5u8) & 1);
    assert(stream_bit(s, 8 * j + 3) == (b >> 4u8) & 1);
    assert(stream_bit(s, 8 * j + 4) == (b >> 3u8) & 1);
    assert(stream_bit(s, 8 * j + 5) == (b >> 2u8) & 1);
    assert(stream_bit(s, 8 * j + 6) == (b >> 1u8) & 1);
    assert(stream_bit(s, 8 * j + 7) == (b >> 0u8) & 1);
    assert((b >> 7u8) & 1 == 0 && (b >> 6u8) & 1 == 0 && (b >> 5u8) & 1 == 0 && (b >> 4u8) & 1 == 0
        && (b >> 3u8) & 1 == 0 && (b >> 2u8) & 1 == 0 && (b >> 1u8) & 1 == 0 && (b >> 0u8) & 1 == 0
        ==> b == 0) by (bit_vector);
}

/// Bytes the converter never writes: the pads between the chunks, the
/// zero fill after each track's `BITS_PER_TRACK` bits inside its 13-block
/// slot, and everything after the last slot.
pub open spec fn convert_untouched(j: int, len: int) -> bool {
    ||| 66 <= j < 80
    ||| 536 <= j < TRACK_DATA_START
    ||| (TRACK_DATA_START <= j < TRACK_DATA_START + NUM_TRACKS * 6656 && (j - TRACK_DATA_START)
        % 6656 >= 6288)
    ||| TRACK_DATA_START + NUM_TRACKS * 6656 <= j < len
}

/// Convert a whole sector image into a synthetic WOZ2 buffer: header,
/// INFO, TMAP, the TRKS directory, and the 35 track bit streams. The
/// zero fill of the buffer survives everywhere the converter does not
/// write, so the chunk walk of the result ends cleanly after TRKS.
pub fn convert(file_buf: &Vec<u8>, woz: &mut Vec<u8>, prodos: bool)
    requires
        file_buf.len() == DSK_IMG_SIZE,
        old(woz).len() >= TRACK_DATA_START + NUM_TRACKS * BLOCK_SIZE * BLOCKS_PER_TRACK,
        8 * old(woz).len() <= usize::MAX,
        forall|j: int| 0 <= j < old(woz).len() ==> old(woz)@[j] == 0,
    ensures
        final(woz).len() == old(woz).len(),
        header_ok(final(woz)@),
        info_ok(final(woz)@),
        tmap_ok(final(woz)@),
        trks_meta_ok(final(woz)@),
        forall|t: int|
            0 <= t < NUM_TRACKS ==> #[trigger] track_ok(
                final(woz)@,
                8 * (TRACK_DATA_START + 6656 * t),
                file_buf@,
                4096 * t,
                t as u8,
                prodos,
            ),
        forall|j: int|
            convert_untouched(j, old(woz).len() as int) ==> final(woz)@[j] == 0,
{
    fill_header(woz);
    fill_info(woz);
    fill_tmap(woz);
    fill_trks(woz, file_buf, prodos);
    proof {
        assert forall|j: int| convert_untouched(j, woz.len() as int) implies woz@[j] == 0 by {
            if 66 <= j < 80 || 536 <= j < TRACK_DATA_START {
                assert(woz@[j] == old(woz)@[j]);
            }
        }
    }
}

/// Read one bit of a buffer's MSB-first bit stream.
pub fn get_stream_bit(buf: &Vec<u8>, i: usize) -> (r: u8)
    requires
        i < 8 * buf.len(),
    ensures
        r == stream_bit(buf@, i as int),
{
    proof {
        vstd::arithmetic::div_mod::lemma_div_is_ordered(i as int, 8 * buf.len() - 1, 8);
        vstd::arithmetic::div_mod::lemma_fundamental_div_mod_converse(
            8 * (buf.len() - 1) + 7,
            8,
            buf.len() - 1,
            7,
        );
        vstd::arithmetic::div_mod::lemma_div_is_ordered(
            8 * buf.len() - 1,
            8 * (buf.len() - 1) + 7,
            8,
        );
    }
    (buf[i / 8] >> ((7 - (i % 8)) as u8)) & 1
}

/// Read the byte formed by the eight stream bits starting at bit offset
/// `p`, MSB first — the way the disk sequencer assembles disk bytes.
pub fn stream_byte_at(buf: &Vec<u8>, p: usize) -> (r: u8)
    requires
        p + 8 <= 8 * buf.len(),
        8 * buf.len() <= usize::MAX,
    ensures
        r == byte_at(buf@, p as int),
{
    (get_stream_bit(buf, p) << 7u8) | (get_stream_bit(buf, p + 1) << 6u8) | (get_stream_bit(
        buf,
        p + 2,
    ) << 5u8) | (get_stream_bit(buf, p + 3) << 4u8) | (get_stream_bit(buf, p + 4) << 3u8) | (
    get_stream_bit(buf, p + 5) << 2u8) | (get_stream_bit(buf, p + 6) << 1u8) | get_stream_bit(
        buf,
        p + 7,
    )
}

/// Converting an image and then decoding the synthetic stream gives back,
/// for every track and every physical sector, an address field with volume
/// 254, the track number, the sector number, and a checksum equal to their
/// XOR.
pub proof fn lemma_address_field_round_trip(
    s: Seq<u8>,
    dsk: Seq<u8>,
    t: int,
    sector: int,
    prodos: bool,
)
    requires
        0 <= t < NUM_TRACKS,
        0 <= sector < NUM_SECTORS,
        track_ok(s, 8 * (TRACK_DATA_START + 6656 * t), dsk, 4096 * t, t as u8, prodos),
    ensures
        ({
            let base = 8 * (TRACK_DATA_START + 6656 * t) + 160 + 3134 * sector;
            &&& decode_4_4(byte_at(s, base + 24), byte_at(s, base + 32)) == 254
            &&& decode_4_4(byte_at(s, base + 40), byte_at(s, base + 48)) == t as u8
            &&& decode_4_4(byte_at(s, base + 56), byte_at(s, base + 64)) == sector as u8
            &&& decode_4_4(byte_at(s, base + 72), byte_at(s, base + 80)) == (254 ^ (t as u8) ^ (
            sector as u8))
        }),
{
    assert(sector_ok(
        s,
        8 * (TRACK_DATA_START + 6656 * t) + 160 + 3134 * sector,
        dsk,
        4096 * t,
        t as u8,
        sector as u8,
        prodos,
    ));
}

/// A buffer the converter produced parses as a well-formed image: the
/// chunk walk accepts INFO, TMAP and TRKS in order, stops at the zero
/// fill after the track data, and yields a writable disk of 35 tracks of
/// `BITS_PER_TRACK` bits, each backed by the bytes of its 13-block slot.
#[verifier::rlimit(100)]
#[verifier::spinoff_prover]
pub proof fn lemma_convert_parses(s: Seq<u8>)
    requires
        TRACK_DATA_START + NUM_TRACKS * 6656 <= s.len(),
        header_ok(s),
        info_ok(s),
        tmap_ok(s),
        trks_meta_ok(s),
        forall|j: int| convert_untouched(j, s.len() as int) ==> s[j] == 0,
    ensures
        parse_woz_spec(s) is Ok,
        parse_woz_spec(s) matches Ok(m) ==> {
            &&& m.wf()
            &&& !m.write_protected
            &&& m.tracks.len() == NUM_TRACKS
            &&& forall|t: int|
                0 <= t < NUM_TRACKS ==> (#[trigger] m.tracks[t]).bit_count == BITS_PER_TRACK
                    && m.tracks[t].data == s.subrange(1536 + 6656 * t, 1536 + 6656 * t + 6288)
        },
{
    // Pointer arithmetic of the chunk walk, settled first.
    assert(le4(s, 12) == le_u32_at(s, 12));
    assert(le4(s, 16) == le_u32_at(s, 16));
    assert(le4(s, 80) == le_u32_at(s, 80));
    assert(le4(s, 84) == le_u32_at(s, 84));
    assert(le4(s, 248) == le_u32_at(s, 248));
    assert(le4(s, 252) == le_u32_at(s, 252));
    assert(12 + 8 + le4(s, 16) == 80);
    assert(80 + 8 + le4(s, 84) == 248);
    assert(248 + 8 + le4(s, 252) == 234496);

    // The signature bytes fall out of the header's little-endian values.
    assert(le4(s, 0) == le_u32_at(s, 0));
    assert(le4(s, 5) == le_u32_at(s, 5));
    assert(s[8] == 0);
    assert(s[5] == 0x0A && s[6] == 0x0D && s[7] == 0x0A);

    // The INFO chunk body parses to "not write protected".
    assert(le2(s, 60) == le_u16_at(s, 60));
    assert(parse_info_spec(s, 20) == Ok::<bool, WozError>(false));

    // Every quarter-track map entry is acceptable, so the scan passes.
    assert forall|i: int| 0 <= i < 160 implies #[trigger] tmap_entry_err(s, 88, i) is None by {
        assert(s[88 + i] == tmap_entry(i));
        if i < 140 && i % 4 == 0 {
            vstd::arithmetic::div_mod::lemma_fundamental_div_mod(i, 4);
            vstd::arithmetic::div_mod::lemma_fundamental_div_mod_converse(i + 1, 4, i / 4, 1);
        }
    }
    lemma_tmap_scan_skip(s, 88, 160);
    assert(verify_track_map_spec(s, 88) == Ok::<(), WozError>(()));

    // Every TRKS directory entry points at data the buffer holds.
    assert forall|t: int| 0 <= t < NUM_TRACKS implies #[trigger] track_parse_ok(s, 256, t)
        && parsed_track(s, 256, t) == (TrackModel {
        bit_count: BITS_PER_TRACK as u32,
        data: s.subrange(1536 + 6656 * t, 1536 + 6656 * t + 6288),
    }) by {
        assert(trk_entry_ok(s, t));
        assert(le2(s, 256 + 8 * t) == le_u16_at(s, 256 + 8 * t));
        assert(le4(s, 256 + 8 * t + 4) == le_u32_at(s, 260 + 8 * t));
        vstd::arithmetic::div_mod::lemma_fundamental_div_mod_converse(50311, 8, 6288, 7);
    }
    let tracks = Seq::new(NUM_TRACKS as nat, |i: int| parsed_track(s, 256, i));
    assert(parse_tracks_spec(s, 256) == Ok::<Seq<TrackModel>, WozError>(tracks));

    // Past the TRKS chunk the walk lands in the zero fill after the last
    // track slot (or past the buffer's end), so it stops there.
    if s.len() >= 234504 {
        assert forall|j: int| 234496 <= j < 234500 implies s[j] == 0 by {
            assert(convert_untouched(j, s.len() as int));
        }
        assert(le4(s, 234496) == 0);
    }

    // Unfold the walk, one chunk at a time.
    assert(walk(s, 12, false, None) == walk(s, 80, false, None));
    assert(walk(s, 80, false, None) == walk(s, 248, false, None));
    assert(walk(s, 248, false, None) == walk(s, 234496, false, Some(tracks)));
    assert(walk(s, 234496, false, Some(tracks)) == walk_finish(false, Some(tracks)));
    assert(parse_woz_spec(s) == Ok::<WozModel, WozError>(
        WozModel { write_protected: false, tracks },
    ));

    assert forall|t: int| 0 <= t < NUM_TRACKS implies (#[trigger] tracks[t]).wf()
        && tracks[t].bit_count == BITS_PER_TRACK && tracks[t].data == s.subrange(
        1536 + 6656 * t,
        1536 + 6656 * t + 6288,
    ) by {
        assert(track_parse_ok(s, 256, t));
        vstd::arithmetic::div_mod::lemma_fundamental_div_mod_converse(50311, 8, 6288, 7);
    }
}

} // verus!
