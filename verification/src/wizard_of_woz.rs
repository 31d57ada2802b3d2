//! WOZ2 disk images: the track-stream data model and a parser for the raw
//! chunked file format.

use vstd::prelude::*;

verus! {

/// A 5.25" disk has 35 usable integer tracks.
pub const MAX_TRACKS: usize = 35;

/// Mathematical view of one track: the first `bit_count` bits of `data`,
/// MSB-first within each byte, form one circular revolution of the disk.
pub ghost struct TrackModel {
    pub bit_count: u32,
    pub data: Seq<u8>,
}

impl TrackModel {
    /// A track holds at least one bit, and exactly the bytes that hold its
    /// bits — `ceil(bit_count / 8)` of them.
    pub open spec fn wf(self) -> bool {
        &&& 1 <= self.bit_count
        &&& self.data.len() == (self.bit_count as int + 7) / 8
    }

    /// Bit `i` of the stream: bit `7 - i % 8` of byte `i / 8`.
    pub open spec fn bit_at(self, i: int) -> u8 {
        (self.data[i / 8] >> ((7 - i % 8) as u8)) & 1
    }
}

/// One track of a WOZ2 image.
pub struct WozTrack {
    pub bit_count: u32,
    pub data: Vec<u8>,
}

impl View for WozTrack {
    type V = TrackModel;

    open spec fn view(&self) -> TrackModel {
        TrackModel { bit_count: self.bit_count, data: self.data@ }
    }
}

/// Mathematical view of a whole image.
pub ghost struct WozModel {
    pub write_protected: bool,
    pub tracks: Seq<TrackModel>,
}

impl WozModel {
    /// Exactly 35 tracks, each well formed.
    pub open spec fn wf(self) -> bool {
        &&& self.tracks.len() == MAX_TRACKS
        &&& forall|t: int| 0 <= t < MAX_TRACKS ==> #[trigger] self.tracks[t].wf()
    }
}

/// A parsed WOZ2 disk image: the write-protect flag and the 35 track
/// streams.
pub struct WozImage {
    pub write_protected: bool,
    pub tracks: Vec<WozTrack>,
}

impl View for WozImage {
    type V = WozModel;

    open spec fn view(&self) -> WozModel {
        WozModel {
            write_protected: self.write_protected,
            tracks: self.tracks@.map_values(|t: WozTrack| t@),
        }
    }
}

/// Why an image was rejected.
#[derive(Clone, Copy, PartialEq, Eq, Structural, Debug)]
pub enum WozError {
    /// The buffer does not carry the WOZ2 signature.
    NotWoz2,
    /// The INFO chunk describes a disk this machine cannot use.
    Unsupported,
    /// The quarter-track map does not follow the plain 35-track layout.
    BadTrackMap,
    /// The image maps data onto odd quarter-track positions.
    OddTracks,
    /// The image uses more than 35 tracks.
    TooManyTracks,
    /// The buffer is truncated or structurally broken.
    Malformed,
}

impl WozError {
    /// A human-readable description of the rejection.
    pub fn message(&self) -> (r: &'static str) {
        match self {
            WozError::NotWoz2 => "File is not a WOZ2 disk image.",
            WozError::Unsupported => "This WOZ image is not supported.",
            WozError::BadTrackMap => "This WOZ image uses unsupported track mapping.",
            WozError::OddTracks => "This WOZ image utilizes odd tracks which is not supported.",
            WozError::TooManyTracks => "WOZ images using more than 35 tracks is not supported.",
            WozError::Malformed => "This disk image is truncated or malformed.",
        }
    }
}

/// The little-endian 32-bit value at byte offset `p`.
pub open spec fn le4(s: Seq<u8>, p: int) -> int {
    s[p] + 0x100 * s[p + 1] + 0x10000 * s[p + 2] + 0x1000000 * s[p + 3]
}

/// The little-endian 16-bit value at byte offset `p`.
pub open spec fn le2(s: Seq<u8>, p: int) -> int {
    s[p] + 0x100 * s[p + 1]
}

/// Chunk identifiers, little-endian ASCII.
pub const SIG_WOZ2: u32 = 0x325A4F57;
pub const SIG_INFO: u32 = 0x4F464E49;
pub const SIG_TMAP: u32 = 0x50414D54;
pub const SIG_TRKS: u32 = 0x534B5254;

/// Read a little-endian 32-bit value.
fn get_bytes_4(buf: &Vec<u8>, start: usize) -> (r: u32)
    requires
        start + 4 <= buf.len(),
    ensures
        r == le4(buf@, start as int),
{
    let b0 = buf[start];
    let b1 = buf[start + 1];
    let b2 = buf[start + 2];
    let b3 = buf[start + 3];
    let r = (b0 as u32) | ((b1 as u32) << 8u32) | ((b2 as u32) << 16u32) | ((b3 as u32) << 24u32);
    proof {
        assert(((b0 as u32) | ((b1 as u32) << 8u32) | ((b2 as u32) << 16u32) | ((b3 as u32)
            << 24u32)) == b0 + 0x100 * b1 + 0x10000 * b2 + 0x1000000 * b3) by (bit_vector);
    }
    r
}

/// Read a little-endian 16-bit value.
fn get_bytes_2(buf: &Vec<u8>, start: usize) -> (r: u16)
    requires
        start + 2 <= buf.len(),
    ensures
        r == le2(buf@, start as int),
{
    let b0 = buf[start];
    let b1 = buf[start + 1];
    let r = (b0 as u16) | ((b1 as u16) << 8u16);
    proof {
        assert(((b0 as u16) | ((b1 as u16) << 8u16)) == b0 + 0x100 * b1) by (bit_vector);
    }
    r
}

/// The buffer carries the WOZ2 signature: the magic, a 0xFF guard byte,
/// and the three line-ending probe bytes.
pub open spec fn signature_ok(s: Seq<u8>) -> bool {
    &&& le4(s, 0) == SIG_WOZ2
    &&& s[4] == 0xFF
    &&& s[5] == 0x0A && s[6] == 0x0D && s[7] == 0x0A
}

/// What parsing the INFO chunk body at `p` yields: the write-protect flag,
/// or a rejection. The image must be WOZ version 2, a 5.25" disk, not
/// tied to a boot-sector format this machine cannot read, and compatible
/// with Apple II hardware.
pub open spec fn parse_info_spec(s: Seq<u8>, p: int) -> Result<bool, WozError> {
    if p + 42 > s.len() {
        Err(WozError::Malformed)
    } else {
        let version = s[p];
        let disk_type = s[p + 1];
        let boot_sectors = s[p + 38];
        let supported = le2(s, p + 40);
        let compatible = supported == 0 || supported % 4 != 0;
        if version == 2 && disk_type == 1 && boot_sectors != 2 && compatible {
            Ok(s[p + 2] == 1)
        } else {
            Err(WozError::Unsupported)
        }
    }
}

/// The rejection a single quarter-track map entry provokes, if any:
/// entries past 139 and even non-integer positions must be unmapped, and
/// integer positions must name their own track.
pub open spec fn tmap_entry_err(s: Seq<u8>, p: int, i: int) -> Option<WozError> {
    if i >= 140 {
        if s[p + i] != 0xFF {
            Some(WozError::TooManyTracks)
        } else {
            None
        }
    } else if i % 4 == 0 {
        if s[p + i] != (i / 4) as u8 {
            Some(WozError::BadTrackMap)
        } else {
            None
        }
    } else if i % 2 == 0 {
        if s[p + i] != 0xFF {
            Some(WozError::OddTracks)
        } else {
            None
        }
    } else {
        None
    }
}

/// Scanning the quarter-track map from entry `i` on: the first faulty
/// entry decides the rejection.
pub open spec fn tmap_scan(s: Seq<u8>, p: int, i: int) -> Result<(), WozError>
    decreases 160 - i,
{
    if i < 0 || i >= 160 {
        Ok(())
    } else {
        match tmap_entry_err(s, p, i) {
            Some(e) => Err(e),
            None => tmap_scan(s, p, i + 1),
        }
    }
}

/// What verifying the TMAP chunk body at `p` yields.
pub open spec fn verify_track_map_spec(s: Seq<u8>, p: int) -> Result<(), WozError> {
    if p + 160 > s.len() {
        Err(WozError::Malformed)
    } else {
        tmap_scan(s, p, 0)
    }
}

/// A clean prefix lets the scan start later.
pub proof fn lemma_tmap_scan_skip(s: Seq<u8>, p: int, i: int)
    requires
        0 <= i <= 160,
        forall|j: int| 0 <= j < i ==> #[trigger] tmap_entry_err(s, p, j) is None,
    ensures
        tmap_scan(s, p, 0) == tmap_scan(s, p, i),
    decreases i,
{
    if i > 0 {
        lemma_tmap_scan_skip(s, p, i - 1);
    }
}

/// Block address (in bytes) of track `i`'s data, per its TRKS entry at
/// chunk body offset `p`.
pub open spec fn track_base(s: Seq<u8>, p: int, i: int) -> int {
    le2(s, p + 8 * i) * 512
}

/// Bit count of track `i`, per its TRKS entry.
pub open spec fn track_bits(s: Seq<u8>, p: int, i: int) -> int {
    le4(s, p + 8 * i + 4)
}

/// Bytes track `i`'s bit stream occupies.
pub open spec fn track_byte_len(s: Seq<u8>, p: int, i: int) -> int {
    (track_bits(s, p, i) + 7) / 8
}

/// Track `i`'s entry points at data the buffer holds, with a stream of at
/// least one bit.
pub open spec fn track_parse_ok(s: Seq<u8>, p: int, i: int) -> bool {
    &&& p + 8 * i + 8 <= s.len()
    &&& 1 <= track_bits(s, p, i)
    &&& track_base(s, p, i) + track_byte_len(s, p, i) <= s.len()
}

/// The track model that entry `i` of the TRKS chunk at `p` describes.
pub open spec fn parsed_track(s: Seq<u8>, p: int, i: int) -> TrackModel {
    TrackModel {
        bit_count: track_bits(s, p, i) as u32,
        data: s.subrange(track_base(s, p, i), track_base(s, p, i) + track_byte_len(s, p, i)),
    }
}

/// What parsing the TRKS chunk body at `p` yields: all 35 tracks, or a
/// rejection of the truncated buffer.
pub open spec fn parse_tracks_spec(s: Seq<u8>, p: int) -> Result<Seq<TrackModel>, WozError> {
    if forall|i: int| 0 <= i < MAX_TRACKS ==> #[trigger] track_parse_ok(s, p, i) {
        Ok(Seq::new(MAX_TRACKS as nat, |i: int| parsed_track(s, p, i)))
    } else {
        Err(WozError::Malformed)
    }
}

/// Parsing the TRKS chunk and re-serialising each track's bit count and
/// data is bit-identical to the original payload: the data is exactly the
/// `ceil(bit_count / 8)` bytes its directory entry points at, and the bit
/// count is exactly the directory field.
pub proof fn lemma_track_round_trip(s: Seq<u8>, p: int, tracks: Seq<TrackModel>, i: int)
    requires
        parse_tracks_spec(s, p) == Ok::<Seq<TrackModel>, WozError>(tracks),
        0 <= i < MAX_TRACKS,
    ensures
        tracks[i].bit_count == track_bits(s, p, i),
        tracks[i].data == s.subrange(
            track_base(s, p, i),
            track_base(s, p, i) + track_byte_len(s, p, i),
        ),
        tracks[i].data.len() == track_byte_len(s, p, i),
{
    assert(track_parse_ok(s, p, i));
}

/// The outcome once the chunk walk stops: an image if a TRKS chunk was
/// seen, else a rejection.
pub open spec fn walk_finish(wp: bool, tracks: Option<Seq<TrackModel>>) -> Result<
    WozModel,
    WozError,
> {
    match tracks {
        Some(ts) => Ok(WozModel { write_protected: wp, tracks: ts }),
        None => Err(WozError::Malformed),
    }
}

/// The chunk walk from byte offset `p`: read `{id, size}` pairs, fold the
/// recognised chunk bodies into the state, stop at the first unknown
/// chunk or at the end of the buffer.
pub open spec fn walk(s: Seq<u8>, p: int, wp: bool, tracks: Option<Seq<TrackModel>>) -> Result<
    WozModel,
    WozError,
>
    decreases (if s.len() >= p {
        s.len() - p
    } else {
        0
    }),
{
    if p < 0 || p + 8 > s.len() {
        walk_finish(wp, tracks)
    } else {
        let id = le4(s, p);
        let size = le4(s, p + 4);
        if id == SIG_INFO {
            match parse_info_spec(s, p + 8) {
                Ok(w) => walk(s, p + 8 + size, w, tracks),
                Err(e) => Err(e),
            }
        } else if id == SIG_TMAP {
            match verify_track_map_spec(s, p + 8) {
                Ok(u) => walk(s, p + 8 + size, wp, tracks),
                Err(e) => Err(e),
            }
        } else if id == SIG_TRKS {
            match parse_tracks_spec(s, p + 8) {
                Ok(ts) => walk(s, p + 8 + size, wp, Some(ts)),
                Err(e) => Err(e),
            }
        } else {
            walk_finish(wp, tracks)
        }
    }
}

/// What parsing a whole buffer yields.
pub open spec fn parse_woz_spec(s: Seq<u8>) -> Result<WozModel, WozError> {
    if s.len() < 12 {
        Err(WozError::Malformed)
    } else if !signature_ok(s) {
        Err(WozError::NotWoz2)
    } else {
        walk(s, 12, false, None)
    }
}

impl WozImage {
    /// Check the WOZ2 signature.
    fn verify(file_buf: &Vec<u8>) -> (r: Result<(), WozError>)
        requires
            file_buf.len() >= 12,
        ensures
            r is Ok <==> signature_ok(file_buf@),
            r is Err ==> r == Err::<(), WozError>(WozError::NotWoz2),
    {
        let signature = get_bytes_4(file_buf, 0);
        let high_bits = file_buf[4];
        let raw = get_bytes_4(file_buf, 5);
        let lfcr = raw & 0x00FFFFFF;
        proof {
            let b0 = file_buf@[5];
            let b1 = file_buf@[6];
            let b2 = file_buf@[7];
            let b3 = file_buf@[8];
            let v = raw;
            assert(v == b0 + 0x100 * b1 + 0x10000 * b2 + 0x1000000 * b3);
            assert(v as int == b0 + 0x100 * b1 + 0x10000 * b2 + 0x1000000 * b3 ==> ((v
                & 0x00FFFFFF) == 0x0A0D0A <==> (b0 == 0x0A && b1 == 0x0D && b2 == 0x0A)))
                by (bit_vector);
        }
        if signature == SIG_WOZ2 && high_bits == 0xFF && lfcr == 0x0A0D0A {
            Ok(())
        } else {
            Err(WozError::NotWoz2)
        }
    }

    /// Parse the INFO chunk body; see `parse_info_spec`.
    fn parse_info(file_buf: &Vec<u8>, buf_pntr: usize) -> (r: Result<bool, WozError>)
        ensures
            r == parse_info_spec(file_buf@, buf_pntr as int),
    {
        if file_buf.len() < 42 || buf_pntr > file_buf.len() - 42 {
            return Err(WozError::Malformed);
        }
        let version = file_buf[buf_pntr];
        let disk_type = file_buf[buf_pntr + 1];
        let write_protected = file_buf[buf_pntr + 2];
        let boot_sectors = file_buf[buf_pntr + 38];
        let supported = get_bytes_2(file_buf, buf_pntr + 40);
        let compatible = supported == 0 || supported & 0x3 != 0;
        proof {
            let v = supported;
            assert((v & 0x3 != 0) <==> v % 4 != 0) by (bit_vector);
        }
        if version == 2 && disk_type == 1 && boot_sectors != 2 && compatible {
            Ok(write_protected == 1)
        } else {
            Err(WozError::Unsupported)
        }
    }

    /// Check the TMAP chunk body; see `verify_track_map_spec`.
    fn verify_track_map(file_buf: &Vec<u8>, buf_pntr: usize) -> (r: Result<(), WozError>)
        ensures
            r == verify_track_map_spec(file_buf@, buf_pntr as int),
    {
        if file_buf.len() < 160 || buf_pntr > file_buf.len() - 160 {
            return Err(WozError::Malformed);
        }
        let ghost s = file_buf@;
        let ghost p = buf_pntr as int;
        let mut i: usize = 0;
        while i < 160
            invariant
                i <= 160,
                p == buf_pntr as int,
                s == file_buf@,
                buf_pntr + 160 <= file_buf.len(),
                forall|j: int| 0 <= j < i ==> #[trigger] tmap_entry_err(s, p, j) is None,
            decreases 160 - i,
        {
            let map = file_buf[buf_pntr + i];
            if i >= 140 {
                if map != 0xFF {
                    proof {
                        lemma_tmap_scan_skip(s, p, i as int);
                    }
                    return Err(WozError::TooManyTracks);
                }
            } else if i % 4 == 0 {
                if map != (i / 4) as u8 {
                    proof {
                        lemma_tmap_scan_skip(s, p, i as int);
                    }
                    return Err(WozError::BadTrackMap);
                }
            } else if i % 2 == 0 {
                if map != 0xFF {
                    proof {
                        lemma_tmap_scan_skip(s, p, i as int);
                    }
                    return Err(WozError::OddTracks);
                }
            }
            i = i + 1;
        }
        proof {
            lemma_tmap_scan_skip(s, p, 160);
        }
        Ok(())
    }

    /// Parse the TRKS chunk body; see `parse_tracks_spec`.
    fn parse_tracks(file_buf: &Vec<u8>, buf_pntr: usize) -> (r: Result<Vec<WozTrack>, WozError>)
        requires
            8 * file_buf.len() <= usize::MAX,
        ensures
            match r {
                Ok(tracks) => {
                    &&& parse_tracks_spec(file_buf@, buf_pntr as int) == Ok::<
                        Seq<TrackModel>,
                        WozError,
                    >(tracks@.map_values(|t: WozTrack| t@))
                    &&& tracks@.len() == MAX_TRACKS
                    &&& forall|i: int| 0 <= i < MAX_TRACKS ==> (#[trigger] tracks@[i])@.wf()
                },
                Err(e) => parse_tracks_spec(file_buf@, buf_pntr as int) == Err::<
                    Seq<TrackModel>,
                    WozError,
                >(e),
            },
    {
        let ghost s = file_buf@;
        let ghost p = buf_pntr as int;
        if buf_pntr > file_buf.len() {
            proof {
                assert(!track_parse_ok(s, p, 0));
            }
            return Err(WozError::Malformed);
        }
        let mut tracks: Vec<WozTrack> = Vec::new();
        let mut i: usize = 0;
        while i < MAX_TRACKS
            invariant
                i <= MAX_TRACKS,
                p == buf_pntr as int,
                s == file_buf@,
                8 * file_buf.len() <= usize::MAX,
                buf_pntr <= file_buf.len(),
                tracks@.len() == i,
                forall|j: int| 0 <= j < i ==> #[trigger] track_parse_ok(s, p, j),
                forall|j: int| 0 <= j < i ==> (#[trigger] tracks@[j])@ == parsed_track(s, p, j),
                forall|j: int| 0 <= j < i ==> (#[trigger] tracks@[j])@.wf(),
            decreases MAX_TRACKS - i,
        {
            let offset = buf_pntr + i * 8;
            if file_buf.len() < 8 || offset > file_buf.len() - 8 {
                proof {
                    assert(!track_parse_ok(s, p, i as int));
                }
                return Err(WozError::Malformed);
            }
            let block_addr = (get_bytes_2(file_buf, offset) as usize) * 512;
            let bit_count = get_bytes_4(file_buf, offset + 4);
            if bit_count == 0 {
                proof {
                    assert(!track_parse_ok(s, p, i as int));
                }
                return Err(WozError::Malformed);
            }
            let byte_count = (((bit_count - 1) / 8) as usize) + 1;
            proof {
                let b = bit_count as int;
                let q = (b - 1) / 8;
                let r = (b - 1) % 8;
                vstd::arithmetic::div_mod::lemma_fundamental_div_mod(b - 1, 8);
                vstd::arithmetic::div_mod::lemma_mod_pos_bound(b - 1, 8);
                vstd::arithmetic::div_mod::lemma_fundamental_div_mod_converse(b + 7, 8, q + 1, r);
                assert(byte_count == track_byte_len(s, p, i as int));
            }
            if block_addr > file_buf.len() || byte_count > file_buf.len() - block_addr {
                proof {
                    assert(!track_parse_ok(s, p, i as int));
                }
                return Err(WozError::Malformed);
            }

            let mut data: Vec<u8> = Vec::new();
            let mut j: usize = 0;
            while j < byte_count
                invariant
                    j <= byte_count,
                    s == file_buf@,
                    block_addr + byte_count <= file_buf.len(),
                    data@ == s.subrange(block_addr as int, block_addr + j),
                decreases byte_count - j,
            {
                data.push(file_buf[block_addr + j]);
                proof {
                    assert(data@ =~= s.subrange(block_addr as int, block_addr + j + 1));
                }
                j = j + 1;
            }

            let track = WozTrack { bit_count, data };
            proof {
                assert(track_parse_ok(s, p, i as int));
                assert(track@ == parsed_track(s, p, i as int)) by {
                    assert(track@.data =~= parsed_track(s, p, i as int).data);
                }
            }
            tracks.push(track);
            i = i + 1;
        }
        proof {
            assert(parse_tracks_spec(s, p) == Ok::<Seq<TrackModel>, WozError>(
                tracks@.map_values(|t: WozTrack| t@),
            )) by {
                assert(tracks@.map_values(|t: WozTrack| t@) =~= Seq::new(
                    MAX_TRACKS as nat,
                    |i: int| parsed_track(s, p, i),
                ));
            }
        }
        Ok(tracks)
    }

    /// Parse a whole WOZ2 buffer into an image; see `parse_woz_spec`. A
    /// returned image is well formed: 35 tracks, each with at least one
    /// bit and exactly the bytes that hold its stream.
    pub fn new(file_buf: &Vec<u8>) -> (r: Result<WozImage, WozError>)
        requires
            8 * file_buf.len() <= usize::MAX,
        ensures
            match r {
                Ok(img) => parse_woz_spec(file_buf@) == Ok::<WozModel, WozError>(img@)
                    && img@.wf(),
                Err(e) => parse_woz_spec(file_buf@) == Err::<WozModel, WozError>(e),
            },
    {
        let ghost s = file_buf@;
        if file_buf.len() < 12 {
            return Err(WozError::Malformed);
        }
        match WozImage::verify(file_buf) {
            Ok(u) => {},
            Err(e) => {
                return Err(e);
            },
        }

        let mut write_protected = false;
        let mut tracks: Option<Vec<WozTrack>> = None;
        let mut buf_pntr: usize = 12;

        while buf_pntr + 8 <= file_buf.len()
            invariant
                12 <= buf_pntr <= file_buf.len(),
                file_buf.len() >= 12,
                s == file_buf@,
                8 * file_buf.len() <= usize::MAX,
                signature_ok(s),
                walk(s, 12, false, None) == walk(
                    s,
                    buf_pntr as int,
                    write_protected,
                    spec_tracks_of(tracks),
                ),
                tracks_wf(tracks),
            decreases file_buf.len() - buf_pntr,
        {
            let ghost p_before = buf_pntr as int;
            let ghost wp_before = write_protected;
            let ghost tr_before = spec_tracks_of(tracks);

            let chunk_id = get_bytes_4(file_buf, buf_pntr);
            let chunk_size = get_bytes_4(file_buf, buf_pntr + 4);

            if chunk_id == SIG_INFO {
                match WozImage::parse_info(file_buf, buf_pntr + 8) {
                    Ok(w) => {
                        write_protected = w;
                    },
                    Err(e) => {
                        return Err(e);
                    },
                }
            } else if chunk_id == SIG_TMAP {
                match WozImage::verify_track_map(file_buf, buf_pntr + 8) {
                    Ok(u) => {},
                    Err(e) => {
                        return Err(e);
                    },
                }
            } else if chunk_id == SIG_TRKS {
                match WozImage::parse_tracks(file_buf, buf_pntr + 8) {
                    Ok(ts) => {
                        tracks = Some(ts);
                    },
                    Err(e) => {
                        return Err(e);
                    },
                }
            } else {
                proof {
                    assert(walk(s, p_before, wp_before, tr_before) == walk_finish(
                        wp_before,
                        tr_before,
                    ));
                }
                return match tracks {
                    Some(ts) => Ok(WozImage { write_protected, tracks: ts }),
                    None => Err(WozError::Malformed),
                };
            }

            proof {
                assert(walk(s, p_before, wp_before, tr_before) == walk(
                    s,
                    p_before + 8 + chunk_size,
                    write_protected,
                    spec_tracks_of(tracks),
                ));
            }

            let after = buf_pntr + 8;
            if (chunk_size as usize) > file_buf.len() - after {
                proof {
                    assert(walk(
                        s,
                        p_before + 8 + chunk_size,
                        write_protected,
                        spec_tracks_of(tracks),
                    ) == walk_finish(write_protected, spec_tracks_of(tracks)));
                    assert(walk(
                        s,
                        file_buf.len() as int,
                        write_protected,
                        spec_tracks_of(tracks),
                    ) == walk_finish(write_protected, spec_tracks_of(tracks)));
                }
                buf_pntr = file_buf.len();
            } else {
                buf_pntr = after + chunk_size as usize;
            }
        }

        proof {
            assert(walk(s, buf_pntr as int, write_protected, spec_tracks_of(tracks))
                == walk_finish(write_protected, spec_tracks_of(tracks)));
        }
        match tracks {
            Some(ts) => Ok(WozImage { write_protected, tracks: ts }),
            None => Err(WozError::Malformed),
        }
    }
}

/// The model of an optional parsed track list.
pub open spec fn spec_tracks_of(tracks: Option<Vec<WozTrack>>) -> Option<Seq<TrackModel>> {
    match tracks {
        Some(v) => Some(v@.map_values(|t: WozTrack| t@)),
        None => None,
    }
}

/// Every track of a parsed list is well formed and there are 35 of them.
pub open spec fn tracks_wf(tracks: Option<Vec<WozTrack>>) -> bool {
    match tracks {
        Some(v) => v@.len() == MAX_TRACKS && forall|i: int|
            0 <= i < MAX_TRACKS ==> (#[trigger] v@[i])@.wf(),
        None => true,
    }
}

} // verus!
