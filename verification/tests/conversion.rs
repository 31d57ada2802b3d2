use apple2_core::dsk2woz;
use apple2_core::dsk2woz::stream_byte_at;
use apple2_core::wizard_of_woz::{WozError, WozImage};

fn sample_dsk() -> Vec<u8> {
    let mut dsk: Vec<u8> = vec![0u8; 143360];
    for (i, b) in dsk.iter_mut().enumerate() {
        *b = (i % 251) as u8;
    }
    dsk
}

fn convert_dsk(dsk: &Vec<u8>, prodos: bool) -> Vec<u8> {
    let mut woz: Vec<u8> = vec![0u8; 250000];
    dsk2woz::convert(dsk, &mut woz, prodos);
    woz
}

fn decode_4_4(hi: u8, lo: u8) -> u8 {
    ((hi << 1) | 1) & lo
}

/// Bit offset of the first sector-bit of (track, sector).
fn sector_base(track: usize, sector: usize) -> usize {
    8 * (0x600 + 6656 * track) + 160 + 3134 * sector
}

#[test]
fn address_fields_round_trip() {
    // Converting an image and decoding the synthetic stream gives back,
    // for every track and sector, volume 254, the track, the sector, and
    // a matching checksum.
    let dsk = sample_dsk();
    let woz = convert_dsk(&dsk, false);
    for track in [0usize, 1, 17, 34] {
        for sector in 0..16usize {
            let base = sector_base(track, sector);
            assert_eq!(stream_byte_at(&woz, base), 0xD5);
            assert_eq!(stream_byte_at(&woz, base + 8), 0xAA);
            assert_eq!(stream_byte_at(&woz, base + 16), 0x96);
            let vol = decode_4_4(stream_byte_at(&woz, base + 24), stream_byte_at(&woz, base + 32));
            let trk = decode_4_4(stream_byte_at(&woz, base + 40), stream_byte_at(&woz, base + 48));
            let sec = decode_4_4(stream_byte_at(&woz, base + 56), stream_byte_at(&woz, base + 64));
            let chk = decode_4_4(stream_byte_at(&woz, base + 72), stream_byte_at(&woz, base + 80));
            assert_eq!(vol, 254);
            assert_eq!(trk, track as u8);
            assert_eq!(sec, sector as u8);
            assert_eq!(chk, vol ^ trk ^ sec);
            assert_eq!(stream_byte_at(&woz, base + 88), 0xDE);
            assert_eq!(stream_byte_at(&woz, base + 96), 0xAA);
            assert_eq!(stream_byte_at(&woz, base + 104), 0xEB);
        }
    }
}

#[test]
fn data_field_of_a_blank_sector() {
    // A zero sector 6-and-2 encodes to 343 copies of the first nibble
    // table entry, 0x96.
    let dsk: Vec<u8> = vec![0u8; 143360];
    let woz = convert_dsk(&dsk, false);
    let data_base = sector_base(0, 0) + 182;
    assert_eq!(stream_byte_at(&woz, data_base), 0xD5);
    assert_eq!(stream_byte_at(&woz, data_base + 8), 0xAA);
    assert_eq!(stream_byte_at(&woz, data_base + 16), 0xAD);
    for j in 0..343usize {
        assert_eq!(stream_byte_at(&woz, data_base + 24 + 8 * j), 0x96);
    }
    assert_eq!(stream_byte_at(&woz, data_base + 2768), 0xDE);
    assert_eq!(stream_byte_at(&woz, data_base + 2776), 0xAA);
    assert_eq!(stream_byte_at(&woz, data_base + 2784), 0xEB);
}

#[test]
fn sync_gaps_are_ten_bit_ffs() {
    let dsk: Vec<u8> = vec![0u8; 143360];
    let woz = convert_dsk(&dsk, false);
    let track_base = 8 * 0x600;
    for k in 0..16usize {
        assert_eq!(stream_byte_at(&woz, track_base + 10 * k), 0xFF);
        // The two padding bits of each self-sync byte are zero.
        let pad = stream_byte_at(&woz, track_base + 10 * k + 2);
        assert_eq!(pad & 0x03, 0x00);
    }
}

#[test]
fn woz_header_and_directory() {
    let dsk: Vec<u8> = vec![0u8; 143360];
    let woz = convert_dsk(&dsk, false);
    assert_eq!(&woz[0..4], b"WOZ2");
    assert_eq!(woz[4], 0xFF);
    assert_eq!(&woz[5..8], &[0x0A, 0x0D, 0x0A]);
    assert_eq!(&woz[12..16], b"INFO");
    assert_eq!(woz[20], 2); // WOZ version
    assert_eq!(woz[21], 1); // 5.25" disk
    assert_eq!(&woz[80..84], b"TMAP");
    assert_eq!(&woz[248..252], b"TRKS");
    for t in 0..35usize {
        let e = 256 + 8 * t;
        let start_block = woz[e] as usize | ((woz[e + 1] as usize) << 8);
        assert_eq!(start_block, 3 + 13 * t);
        let bits = woz[e + 4] as u32
            | ((woz[e + 5] as u32) << 8)
            | ((woz[e + 6] as u32) << 16)
            | ((woz[e + 7] as u32) << 24);
        assert_eq!(bits, 50304);
    }
}

#[test]
fn parse_reserialise_is_bit_identical() {
    // Parsing the WOZ and re-serialising each track's {bit_count, data}
    // reproduces the original track payload bytes exactly.
    let dsk = sample_dsk();
    let woz = convert_dsk(&dsk, false);
    let img = WozImage::new(&woz).expect("parses");
    assert_eq!(img.tracks.len(), 35);
    for (t, track) in img.tracks.iter().enumerate() {
        assert_eq!(track.bit_count, 50304);
        let byte_count = (50304 + 7) / 8;
        assert_eq!(track.data.len(), byte_count);
        let base = 512 * (3 + 13 * t);
        assert_eq!(&track.data[..], &woz[base..base + byte_count]);
    }
}

#[test]
fn prodos_interleave_differs() {
    // The same image converted with the ProDOS skew stores sector data in
    // another physical order, while address fields stay put.
    let dsk = sample_dsk();
    let dos = convert_dsk(&dsk, false);
    let po = convert_dsk(&dsk, true);
    // Physical sector 1 carries logical sector 7 under DOS 3.3 and
    // logical sector 8 under ProDOS: first data nibbles differ.
    let data_base = sector_base(0, 1) + 182 + 24;
    let mut differs = false;
    for j in 0..343usize {
        if stream_byte_at(&dos, data_base + 8 * j) != stream_byte_at(&po, data_base + 8 * j) {
            differs = true;
            break;
        }
    }
    assert!(differs);
    // Physical sector 0 is logical 0 in both orders.
    let s0 = sector_base(0, 0) + 182 + 24;
    for j in 0..343usize {
        assert_eq!(
            stream_byte_at(&dos, s0 + 8 * j),
            stream_byte_at(&po, s0 + 8 * j)
        );
    }
}

#[test]
fn parser_rejects_bad_signature() {
    let mut woz: Vec<u8> = vec![0u8; 256];
    woz[0] = b'W';
    match WozImage::new(&woz) {
        Err(e) => assert_eq!(e, WozError::NotWoz2),
        Ok(_) => panic!("expected a rejection"),
    }
}

#[test]
fn parser_rejects_truncated_buffer() {
    let woz: Vec<u8> = vec![0u8; 4];
    match WozImage::new(&woz) {
        Err(e) => assert_eq!(e, WozError::Malformed),
        Ok(_) => panic!("expected a rejection"),
    }
}

#[test]
fn parser_rejects_missing_tracks() {
    // A valid signature with no chunks at all has no TRKS chunk.
    let dsk: Vec<u8> = vec![0u8; 143360];
    let full = convert_dsk(&dsk, false);
    let mut woz: Vec<u8> = vec![0u8; 256];
    woz[..12].copy_from_slice(&full[..12]);
    match WozImage::new(&woz) {
        Err(e) => assert_eq!(e, WozError::Malformed),
        Ok(_) => panic!("expected a rejection"),
    }
}

#[test]
fn parser_reports_unsupported_info() {
    let dsk: Vec<u8> = vec![0u8; 143360];
    let mut woz = convert_dsk(&dsk, false);
    woz[20] = 1; // claim WOZ version 1
    match WozImage::new(&woz) {
        Err(e) => {
            assert_eq!(e, WozError::Unsupported);
            assert_eq!(e.message(), "This WOZ image is not supported.");
        }
        Ok(_) => panic!("expected a rejection"),
    }
}

#[test]
fn parser_rejects_odd_track_maps() {
    let dsk: Vec<u8> = vec![0u8; 143360];
    let mut woz = convert_dsk(&dsk, false);
    // Quarter-track entry 2 (an even non-integer position) must be 0xFF.
    woz[88 + 2] = 0x00;
    match WozImage::new(&woz) {
        Err(e) => assert_eq!(e, WozError::OddTracks),
        Ok(_) => panic!("expected a rejection"),
    }
    let mut woz2 = convert_dsk(&dsk, false);
    // Entry 140 onward must be unmapped.
    woz2[88 + 150] = 0x01;
    match WozImage::new(&woz2) {
        Err(e) => assert_eq!(e, WozError::TooManyTracks),
        Ok(_) => panic!("expected a rejection"),
    }
    let mut woz3 = convert_dsk(&dsk, false);
    // An integer position must name its own track.
    woz3[88 + 4] = 0x05;
    match WozImage::new(&woz3) {
        Err(e) => assert_eq!(e, WozError::BadTrackMap),
        Ok(_) => panic!("expected a rejection"),
    }
}

#[test]
fn parsed_image_is_not_write_protected() {
    let dsk: Vec<u8> = vec![0u8; 143360];
    let woz = convert_dsk(&dsk, false);
    let img = WozImage::new(&woz).expect("parses");
    assert!(!img.write_protected);
}
