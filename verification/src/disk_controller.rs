//! Disk II controller: stepper-motor phase tracking, the self-sync bit
//! stream reader, write-protect sense, and the motor-off delay, all driven
//! by soft-switch touches in the controller's slot.

use vstd::prelude::*;

use crate::wizard_of_woz::{TrackModel, WozImage, WozModel, MAX_TRACKS};

verus! {

/// Highest usable integer track index.
pub const MAX_TRACK: u8 = 34;
/// Highest half-track index the head can reach.
pub const MAX_HALF_TRACK: u8 = 68;
/// Number of stepper phases; they form a ring.
pub const NUM_PHASES: usize = 4;
/// Base address of the peripheral soft-switch block; a controller in slot
/// `s` answers addresses `PERIPH_IO_ADDR + s + 0x0 ..= + 0xF`.
pub const PERIPH_IO_ADDR: usize = 0xC080;
/// Frames the motor keeps spinning after a "drives off" touch.
pub const MOTOR_OFF_FRAMES: u8 = 60;

/// Slot-relative soft switches, written as the address a slot-0 controller
/// would answer; a controller in slot `s` answers these plus `s`.
pub const PHASE0_OFF: usize = PERIPH_IO_ADDR + 0x0;
pub const PHASE1_OFF: usize = PERIPH_IO_ADDR + 0x2;
pub const PHASE2_OFF: usize = PERIPH_IO_ADDR + 0x4;
pub const PHASE3_OFF: usize = PERIPH_IO_ADDR + 0x6;
pub const DRIVES_OFF: usize = PERIPH_IO_ADDR + 0x8;
pub const SEL_DRIVE1: usize = PERIPH_IO_ADDR + 0xA;
pub const SHIFT_OFF: usize = PERIPH_IO_ADDR + 0xC;
pub const DISK_READ: usize = PERIPH_IO_ADDR + 0xE;
pub const PHASE0_ON: usize = PERIPH_IO_ADDR + 0x1;
pub const PHASE1_ON: usize = PERIPH_IO_ADDR + 0x3;
pub const PHASE2_ON: usize = PERIPH_IO_ADDR + 0x5;
pub const PHASE3_ON: usize = PERIPH_IO_ADDR + 0x7;
pub const DRIVES_ON: usize = PERIPH_IO_ADDR + 0x9;
pub const SEL_DRIVE2: usize = PERIPH_IO_ADDR + 0xB;
pub const SHIFT_ON: usize = PERIPH_IO_ADDR + 0xD;
pub const DISK_WRITE: usize = PERIPH_IO_ADDR + 0xF;

/// Number of zero bits the stream delivers from position `start` (taken
/// modulo the track length) before the first one bit, looking at most
/// `fuel` positions ahead; `fuel` if all of them are zero.
pub open spec fn zeros_before_one(t: TrackModel, start: int, fuel: nat) -> int
    decreases fuel,
{
    if fuel == 0 {
        0
    } else if t.bit_at(start % (t.bit_count as int)) == 1 {
        0
    } else {
        1 + zeros_before_one(t, start + 1, (fuel - 1) as nat)
    }
}

/// `zeros_before_one` is characterised by the bits themselves: if the `k`
/// positions from `start` are zero and (when `k < fuel`) position `start + k`
/// holds a one, the count is `k`, capped at `fuel`.
pub proof fn lemma_zeros_before_one_char(t: TrackModel, start: int, fuel: nat, k: nat)
    requires
        t.bit_count > 0,
        k <= fuel,
        forall|j: int| 0 <= j < k ==> #[trigger] t.bit_at((start + j) % (t.bit_count as int)) == 0,
        k < fuel ==> t.bit_at((start + k) % (t.bit_count as int)) == 1,
    ensures
        zeros_before_one(t, start, fuel) == if k < fuel {
            k as int
        } else {
            fuel as int
        },
    decreases k,
{
    if k == 0 {
        if fuel > 0 {
            assert(t.bit_at((start + 0) % (t.bit_count as int)) == 1);
        }
    } else {
        assert(t.bit_at((start + 0) % (t.bit_count as int)) == 0);
        assert(forall|j: int|
            0 <= j < k - 1 ==> #[trigger] t.bit_at(((start + 1) + j) % (t.bit_count as int))
                == t.bit_at((start + (j + 1)) % (t.bit_count as int)));
        lemma_zeros_before_one_char(t, start + 1, (fuel - 1) as nat, (k - 1) as nat);
    }
}

/// A stream bit is zero or one.
pub proof fn lemma_bit_at_bound(t: TrackModel, i: int)
    ensures
        t.bit_at(i) <= 1,
{
    let x = t.data[i / 8];
    let sh = (7 - i % 8) as u8;
    assert((x >> sh) & 1 <= 1) by (bit_vector);
}

/// Mathematical state of the controller.
pub ghost struct DiskModel {
    pub slot: usize,
    pub data_reg: u8,
    pub half_track: u8,
    pub current_phase: usize,
    pub phases: Seq<bool>,
    pub bit_pntr: usize,
    pub reading_byte: bool,
    pub drives_on: bool,
    pub current_drive: u8,
    pub write_mode: bool,
    pub write_sense: bool,
    pub disk_image: Option<WozModel>,
    pub motor_off_delay: u8,
}

impl DiskModel {
    /// The head stays on the disk, the phase index stays on the ring, and
    /// while an image is in, the bit pointer stays inside the current
    /// track's stream.
    pub open spec fn wf(self) -> bool {
        &&& self.phases.len() == NUM_PHASES
        &&& self.current_phase < NUM_PHASES
        &&& self.half_track <= MAX_HALF_TRACK
        &&& match self.disk_image {
            Some(img) => img.wf() && self.bit_pntr < img.tracks[self.half_track as int / 2].bit_count,
            None => true,
        }
    }

    /// The track under the head.
    pub open spec fn cur_track(self) -> TrackModel {
        self.disk_image.unwrap().tracks[self.half_track as int / 2]
    }

    /// Head movement when the engaged phase changes from `current_phase` to
    /// `to`: engaging the next phase on the ring steps inward, the previous
    /// one steps outward, clamped to the disk; the bit pointer is brought
    /// back inside the (possibly shorter) new track by a wrap.
    pub open spec fn step_motor_spec(self, to: usize) -> DiskModel {
        let from = self.current_phase;
        let ascending = (to > from && to - from < NUM_PHASES - 1) || (to == 0 && from
            == NUM_PHASES - 1);
        let descending = to < from || (to == NUM_PHASES - 1 && from == 0);
        let ht = if ascending && self.half_track < MAX_HALF_TRACK {
            (self.half_track + 1) as u8
        } else if descending && self.half_track > 0 {
            (self.half_track - 1) as u8
        } else {
            self.half_track
        };
        let moved = DiskModel { half_track: ht, current_phase: to, ..self };
        match self.disk_image {
            Some(img) => DiskModel {
                bit_pntr: (self.bit_pntr % (img.tracks[ht as int / 2].bit_count as usize)) as usize,
                ..moved
            },
            None => moved,
        }
    }

    /// Engaging a phase: if the currently engaged phase is off, the head
    /// moves toward the new phase.
    pub open spec fn phase_on_spec(self, phase: usize) -> DiskModel {
        let s1 = DiskModel { phases: self.phases.update(phase as int, true), ..self };
        if !s1.phases[s1.current_phase as int] {
            s1.step_motor_spec(phase)
        } else {
            s1
        }
    }

    /// Releasing a phase: if it was the engaged one and a neighbouring
    /// phase is on, the head moves there, preferring the next phase on the
    /// ring over the previous one.
    pub open spec fn phase_off_spec(self, phase: usize) -> DiskModel {
        let s1 = DiskModel { phases: self.phases.update(phase as int, false), ..self };
        if s1.current_phase == phase {
            let right = ((phase + 1) % (NUM_PHASES as int)) as usize;
            let left = ((phase + NUM_PHASES - 1) % (NUM_PHASES as int)) as usize;
            if s1.phases[right as int] {
                s1.step_motor_spec(right)
            } else if s1.phases[left as int] {
                s1.step_motor_spec(left)
            } else {
                s1
            }
        } else {
            s1
        }
    }

    /// Taking one bit from the stream: the bit under the pointer, with the
    /// pointer advanced and wrapped around the revolution.
    pub open spec fn next_bit_spec(self) -> DiskModel {
        let bc = self.cur_track().bit_count as int;
        DiskModel { bit_pntr: (((self.bit_pntr + 1) as int % bc) as usize), ..self }
    }

    /// Shifting one stream bit into the data register. In searching mode
    /// (between disk bytes) the leading zero bits of self-sync bytes are
    /// discarded first: the register takes a one and the sequencer enters
    /// reading-byte mode at the first one bit, after at most one whole
    /// revolution of looking.
    pub open spec fn load_bit_spec(self) -> DiskModel {
        let t = self.cur_track();
        let bc = t.bit_count as int;
        let p0 = self.bit_pntr as int;
        if self.reading_byte {
            DiskModel {
                data_reg: (self.data_reg << 1) | t.bit_at(p0),
                bit_pntr: (((p0 + 1) % bc) as usize),
                ..self
            }
        } else {
            let k = zeros_before_one(t, p0, t.bit_count as nat);
            if k < bc {
                DiskModel {
                    data_reg: (self.data_reg << 1) | 1,
                    bit_pntr: (((p0 + k + 1) % bc) as usize),
                    reading_byte: true,
                    ..self
                }
            } else {
                DiskModel {
                    data_reg: self.data_reg << 1,
                    bit_pntr: (((p0 + 1) % bc) as usize),
                    reading_byte: true,
                    ..self
                }
            }
        }
    }

    /// A touch of an even soft switch while the drive is on: in read mode
    /// the register either takes the write-protect flag (write sense) or
    /// shifts in a stream bit; the register is then stored to RAM at the
    /// touched address, and a completed disk byte (high bit set) clears the
    /// register back to searching mode.
    pub open spec fn read_bit_spec(self, ram: Seq<u8>, address: usize) -> (DiskModel, Seq<u8>) {
        if !self.drives_on {
            (self, ram)
        } else {
            let s1 = if !self.write_mode {
                if self.write_sense {
                    DiskModel {
                        data_reg: if self.disk_image.unwrap().write_protected {
                            0x80u8
                        } else {
                            0u8
                        },
                        ..self
                    }
                } else {
                    self.load_bit_spec()
                }
            } else {
                self
            };
            let ram1 = ram.update(address as int, s1.data_reg);
            if s1.data_reg & 0x80 != 0 {
                (DiskModel { data_reg: 0, reading_byte: false, ..s1 }, ram1)
            } else {
                (s1, ram1)
            }
        }
    }

    /// The whole controller transition for one soft-switch touch at
    /// `address`, together with the RAM it may store the data register to.
    /// With no image inserted nothing reacts.
    pub open spec fn soft_sw_step(self, ram: Seq<u8>, address: usize) -> (DiskModel, Seq<u8>) {
        if self.disk_image is None {
            (self, ram)
        } else {
            let off = address - self.slot;
            if off == PHASE0_OFF as int {
                self.phase_off_spec(0).read_bit_spec(ram, address)
            } else if off == PHASE1_OFF as int {
                self.phase_off_spec(1).read_bit_spec(ram, address)
            } else if off == PHASE2_OFF as int {
                self.phase_off_spec(2).read_bit_spec(ram, address)
            } else if off == PHASE3_OFF as int {
                self.phase_off_spec(3).read_bit_spec(ram, address)
            } else if off == DRIVES_OFF as int {
                (DiskModel { motor_off_delay: MOTOR_OFF_FRAMES, ..self }).read_bit_spec(ram, address)
            } else if off == SEL_DRIVE1 as int {
                (DiskModel { current_drive: 1, ..self }).read_bit_spec(ram, address)
            } else if off == SHIFT_OFF as int {
                let s1 = DiskModel { write_sense: false, ..self };
                if !self.write_mode {
                    s1.read_bit_spec(ram, address)
                } else {
                    (s1, ram)
                }
            } else if off == DISK_READ as int {
                (DiskModel { write_mode: false, ..self }).read_bit_spec(ram, address)
            } else if off == PHASE0_ON as int {
                (self.phase_on_spec(0), ram)
            } else if off == PHASE1_ON as int {
                (self.phase_on_spec(1), ram)
            } else if off == PHASE2_ON as int {
                (self.phase_on_spec(2), ram)
            } else if off == PHASE3_ON as int {
                (self.phase_on_spec(3), ram)
            } else if off == DRIVES_ON as int {
                (DiskModel { drives_on: true, motor_off_delay: 0, ..self }, ram)
            } else if off == SEL_DRIVE2 as int {
                (DiskModel { current_drive: 2, ..self }, ram)
            } else if off == SHIFT_ON as int {
                let s1 = DiskModel { write_sense: true, ..self };
                if self.write_mode {
                    (DiskModel { data_reg: ram[address as int], ..s1 }, ram)
                } else {
                    (DiskModel { data_reg: 0, ..s1 }, ram)
                }
            } else if off == DISK_WRITE as int {
                (DiskModel { write_mode: true, ..self }, ram)
            } else {
                (self, ram)
            }
        }
    }

    /// The state after a reset: every phase released, the sequencer back
    /// in its idle read state, the head and image kept.
    pub open spec fn reset_spec(self) -> DiskModel {
        DiskModel {
            phases: seq![false, false, false, false],
            current_phase: 0,
            data_reg: 0,
            write_mode: false,
            write_sense: false,
            motor_off_delay: 0,
            drives_on: false,
            ..self
        }
    }

    /// One frame tick of the motor-off countdown: on the transition to
    /// zero the drive powers off.
    pub open spec fn motor_tick_spec(self) -> DiskModel {
        if self.motor_off_delay > 0 {
            let d = (self.motor_off_delay - 1) as u8;
            if d == 0 {
                DiskModel { motor_off_delay: d, drives_on: false, ..self }
            } else {
                DiskModel { motor_off_delay: d, ..self }
            }
        } else {
            self
        }
    }
}

/// The Disk II controller state. `slot` is the hardware slot offset
/// (0x10 × slot number), so the controller answers soft switches at
/// `0xC080 + slot + 0x0 ..= 0xF`.
pub struct DiskController {
    pub slot: usize,
    pub data_reg: u8,
    pub half_track: u8,
    pub current_phase: usize,
    pub phases: Vec<bool>,
    pub bit_pntr: usize,
    pub reading_byte: bool,
    pub drives_on: bool,
    pub current_drive: u8,
    pub write_mode: bool,
    pub write_sense: bool,
    pub disk_image: Option<WozImage>,
    pub motor_off_delay: u8,
}

impl View for DiskController {
    type V = DiskModel;

    open spec fn view(&self) -> DiskModel {
        DiskModel {
            slot: self.slot,
            data_reg: self.data_reg,
            half_track: self.half_track,
            current_phase: self.current_phase,
            phases: self.phases@,
            bit_pntr: self.bit_pntr,
            reading_byte: self.reading_byte,
            drives_on: self.drives_on,
            current_drive: self.current_drive,
            write_mode: self.write_mode,
            write_sense: self.write_sense,
            disk_image: match self.disk_image {
                Some(img) => Some(img@),
                None => None,
            },
            motor_off_delay: self.motor_off_delay,
        }
    }
}

impl DiskController {
    /// A powered-off controller in the given slot, with no image inserted.
    pub fn new(slot: usize) -> (r: DiskController)
        ensures
            r@.wf(),
            r@.slot == slot,
            r@.data_reg == 0 && r@.half_track == 0 && r@.current_phase == 0,
            r@.phases == seq![false, false, false, false],
            r@.bit_pntr == 0 && !r@.reading_byte && !r@.drives_on,
            r@.current_drive == 1 && !r@.write_mode && !r@.write_sense,
            r@.disk_image is None,
            r@.motor_off_delay == 0,
    {
        let mut phases: Vec<bool> = Vec::new();
        phases.push(false);
        phases.push(false);
        phases.push(false);
        phases.push(false);
        assert(phases@ =~= seq![false, false, false, false]);
        DiskController {
            slot,
            data_reg: 0,
            half_track: 0,
            current_phase: 0,
            phases,
            bit_pntr: 0,
            reading_byte: false,
            drives_on: false,
            current_drive: 1,
            write_mode: false,
            write_sense: false,
            disk_image: None,
            motor_off_delay: 0,
        }
    }

    /// Reset releases every phase and returns the sequencer to its idle
    /// read state; the head position, drive selection and image stay.
    pub fn reset(&mut self)
        requires
            old(self)@.wf(),
        ensures
            final(self)@ == old(self)@.reset_spec(),
            final(self)@.wf(),
    {
        let mut phases: Vec<bool> = Vec::new();
        phases.push(false);
        phases.push(false);
        phases.push(false);
        phases.push(false);
        assert(phases@ =~= seq![false, false, false, false]);
        self.phases = phases;
        self.current_phase = 0;
        self.data_reg = 0;
        self.write_mode = false;
        self.write_sense = false;
        self.motor_off_delay = 0;
        self.drives_on = false;
    }

    /// Insert a parsed image; the bit pointer returns to the start of the
    /// stream so it lies inside whatever track the head is over.
    pub fn load_image(&mut self, image: WozImage)
        requires
            old(self)@.wf(),
            image@.wf(),
        ensures
            final(self)@ == (DiskModel {
                disk_image: Some(image@),
                bit_pntr: 0,
                ..old(self)@
            }),
            final(self)@.wf(),
    {
        proof {
            assert(image@.tracks[self.half_track as int / 2].wf());
        }
        self.disk_image = Some(image);
        self.bit_pntr = 0;
    }

    /// One frame tick of the motor-off countdown.
    pub fn handle_motor_off_delay(&mut self)
        requires
            old(self)@.wf(),
        ensures
            final(self)@ == old(self)@.motor_tick_spec(),
            final(self)@.wf(),
    {
        if self.motor_off_delay > 0 {
            self.motor_off_delay = self.motor_off_delay - 1;
            if self.motor_off_delay == 0 {
                self.drives_on = false;
            }
        }
    }

    /// Move the head toward phase `to` and re-engage it.
    fn step_motor(&mut self, to: usize)
        requires
            old(self)@.wf(),
            to < NUM_PHASES,
        ensures
            final(self)@ == old(self)@.step_motor_spec(to),
            final(self)@.wf(),
    {
        let from = self.current_phase;
        let ascending = (to > from && to - from < NUM_PHASES - 1) || (to == 0 && from == NUM_PHASES
            - 1);
        let descending = (to < from) || (to == NUM_PHASES - 1 && from == 0);

        if ascending && self.half_track < MAX_HALF_TRACK {
            self.half_track = self.half_track + 1;
        } else if descending && self.half_track > 0 {
            self.half_track = self.half_track - 1;
        }
        self.current_phase = to;

        if let Some(img) = &self.disk_image {
            let track_idx = (self.half_track / 2) as usize;
            proof {
                assert(old(self)@.disk_image.unwrap().tracks[track_idx as int].wf());
            }
            let bit_count = img.tracks[track_idx].bit_count;
            self.bit_pntr = self.bit_pntr % (bit_count as usize);
        }
    }

    /// Engage a phase; see `DiskModel::phase_on_spec`.
    fn phase_on(&mut self, phase: usize)
        requires
            old(self)@.wf(),
            phase < NUM_PHASES,
        ensures
            final(self)@ == old(self)@.phase_on_spec(phase),
            final(self)@.wf(),
    {
        self.phases.set(phase, true);
        if !self.phases[self.current_phase] {
            self.step_motor(phase);
        }
    }

    /// Release a phase; see `DiskModel::phase_off_spec`.
    fn phase_off(&mut self, phase: usize)
        requires
            old(self)@.wf(),
            phase < NUM_PHASES,
        ensures
            final(self)@ == old(self)@.phase_off_spec(phase),
            final(self)@.wf(),
    {
        self.phases.set(phase, false);
        if self.current_phase == phase {
            let right = if self.current_phase < NUM_PHASES - 1 {
                self.current_phase + 1
            } else {
                0
            };
            let left = if self.current_phase > 0 {
                self.current_phase - 1
            } else {
                NUM_PHASES - 1
            };
            if self.phases[right] {
                self.step_motor(right);
            } else if self.phases[left] {
                self.step_motor(left);
            }
        }
    }

    /// Take one bit from the circular stream and advance the pointer.
    fn get_next_bit(&mut self) -> (bit: u8)
        requires
            old(self)@.wf(),
            old(self)@.disk_image is Some,
        ensures
            final(self)@ == old(self)@.next_bit_spec(),
            bit == old(self)@.cur_track().bit_at(old(self)@.bit_pntr as int),
            final(self)@.wf(),
    {
        let track_idx = (self.half_track / 2) as usize;
        proof {
            assert(self@.disk_image.unwrap().tracks[track_idx as int].wf());
        }
        let (byte, bit_count): (u8, u32) = match &self.disk_image {
            Some(img) => {
                let track = &img.tracks[track_idx];
                (track.data[self.bit_pntr / 8], track.bit_count)
            },
            None => (0, 1),
        };
        let shift: u8 = (7 - (self.bit_pntr % 8)) as u8;
        let bit = (byte >> shift) & 1;

        self.bit_pntr = (self.bit_pntr + 1) % (bit_count as usize);
        bit
    }

    /// Shift one stream bit into the data register, discarding self-sync
    /// zero padding first when searching for the start of a disk byte; see
    /// `DiskModel::load_bit_spec`.
    fn load_bit(&mut self)
        requires
            old(self)@.wf(),
            old(self)@.disk_image is Some,
        ensures
            final(self)@ == old(self)@.load_bit_spec(),
            final(self)@.wf(),
    {
        let ghost s0 = self@;
        let ghost t = s0.cur_track();
        let ghost bc = t.bit_count as int;
        let ghost p0 = s0.bit_pntr as int;
        proof {
            vstd::arithmetic::div_mod::lemma_small_mod(s0.bit_pntr as nat, t.bit_count as nat);
        }

        let mut bit = self.get_next_bit();
        if !self.reading_byte {
            let track_idx = (self.half_track / 2) as usize;
            let bit_count: u32 = match &self.disk_image {
                Some(img) => img.tracks[track_idx].bit_count,
                None => 1,
            };
            let mut tries: u32 = 0;
            while bit == 0 && tries < bit_count
                invariant
                    self@.wf(),
                    self@.disk_image is Some,
                    s0.wf(),
                    s0.disk_image is Some,
                    t == s0.cur_track(),
                    bc == t.bit_count as int,
                    p0 == s0.bit_pntr as int,
                    0 <= p0 < bc,
                    bit_count == t.bit_count,
                    tries <= bit_count,
                    self@ == (DiskModel { bit_pntr: (((p0 + tries + 1) % bc) as usize), ..s0 }),
                    bit == t.bit_at((p0 + tries) % bc),
                    forall|j: int| 0 <= j < tries ==> #[trigger] t.bit_at((p0 + j) % bc) == 0,
                decreases bit_count - tries,
            {
                proof {
                    assert(self@.cur_track() == t);
                    vstd::arithmetic::div_mod::lemma_add_mod_noop_right(1, p0 + tries + 1, bc);
                    assert((1 + (p0 + tries + 1) % bc) % bc == (p0 + (tries + 1) + 1) % bc);
                }
                bit = self.get_next_bit();
                tries = tries + 1;
            }
            self.reading_byte = true;

            proof {
                lemma_bit_at_bound(t, (p0 + tries) % bc);
                if bit != 0 {
                    if tries == bit_count {
                        vstd::arithmetic::div_mod::lemma_mod_add_multiples_vanish(p0, bc);
                        assert(t.bit_at((p0 + 0) % bc) == 0);
                        assert(false);
                    }
                    lemma_zeros_before_one_char(t, p0, t.bit_count as nat, tries as nat);
                } else {
                    assert(tries == bit_count);
                    lemma_zeros_before_one_char(t, p0, t.bit_count as nat, tries as nat);
                    vstd::arithmetic::div_mod::lemma_mod_add_multiples_vanish(p0 + 1, bc);
                    assert((p0 + tries + 1) % bc == (p0 + 1) % bc);
                }
            }
        }
        self.data_reg = (self.data_reg << 1) | bit;
        proof {
            if !s0.reading_byte {
                let k = zeros_before_one(t, p0, t.bit_count as nat);
                if k >= bc {
                    let dr = s0.data_reg;
                    assert(((dr << 1) | 0) == (dr << 1)) by (bit_vector);
                }
            }
        }
    }

    /// A touch of an even soft switch: store the data register to RAM at
    /// the touched address, shifting in a stream bit or sensing write
    /// protection first; see `DiskModel::read_bit_spec`.
    fn read_bit(&mut self, address: usize, ram: &mut Vec<u8>)
        requires
            old(self)@.wf(),
            old(self)@.disk_image is Some,
            address < old(ram).len(),
        ensures
            final(self)@ == old(self)@.read_bit_spec(old(ram)@, address).0,
            final(ram)@ == old(self)@.read_bit_spec(old(ram)@, address).1,
            final(self)@.wf(),
            final(ram).len() == old(ram).len(),
    {
        if !self.drives_on {
            return ;
        }

        if !self.write_mode {
            if self.write_sense {
                let wp = match &self.disk_image {
                    Some(img) => img.write_protected,
                    None => false,
                };
                self.data_reg = if wp {
                    0x80
                } else {
                    0
                };
            } else {
                self.load_bit();
            }
        }

        ram.set(address, self.data_reg);

        if self.data_reg & 0x80 != 0 {
            self.data_reg = 0;
            self.reading_byte = false;
        }
    }

    /// Dispatch one soft-switch touch at `address` against the main RAM;
    /// see `DiskModel::soft_sw_step`. Addresses outside the controller's
    /// sixteen switches are ignored, as is everything while no image is in.
    pub fn handle_soft_sw(&mut self, address: usize, ram: &mut Vec<u8>)
        requires
            old(self)@.wf(),
            address >= old(self)@.slot,
            address < old(ram).len(),
        ensures
            final(self)@ == old(self)@.soft_sw_step(old(ram)@, address).0,
            final(ram)@ == old(self)@.soft_sw_step(old(ram)@, address).1,
            final(self)@.wf(),
            final(ram).len() == old(ram).len(),
    {
        if self.disk_image.is_none() {
            return ;
        }

        let off = address - self.slot;
        if off == PHASE0_OFF {
            self.phase_off(0);
            self.read_bit(address, ram);
        } else if off == PHASE1_OFF {
            self.phase_off(1);
            self.read_bit(address, ram);
        } else if off == PHASE2_OFF {
            self.phase_off(2);
            self.read_bit(address, ram);
        } else if off == PHASE3_OFF {
            self.phase_off(3);
            self.read_bit(address, ram);
        } else if off == DRIVES_OFF {
            self.motor_off_delay = MOTOR_OFF_FRAMES;
            self.read_bit(address, ram);
        } else if off == SEL_DRIVE1 {
            self.current_drive = 1;
            self.read_bit(address, ram);
        } else if off == SHIFT_OFF {
            self.write_sense = false;
            if !self.write_mode {
                self.read_bit(address, ram);
            }
        } else if off == DISK_READ {
            self.write_mode = false;
            self.read_bit(address, ram);
        } else if off == PHASE0_ON {
            self.phase_on(0);
        } else if off == PHASE1_ON {
            self.phase_on(1);
        } else if off == PHASE2_ON {
            self.phase_on(2);
        } else if off == PHASE3_ON {
            self.phase_on(3);
        } else if off == DRIVES_ON {
            self.drives_on = true;
            self.motor_off_delay = 0;
        } else if off == SEL_DRIVE2 {
            self.current_drive = 2;
        } else if off == SHIFT_ON {
            self.write_sense = true;
            if self.write_mode {
                self.data_reg = ram[address];
            } else {
                self.data_reg = 0;
            }
        } else if off == DISK_WRITE {
            self.write_mode = true;
        }
    }
}

/// The controller invariants hold in every reachable state: each transition
/// keeps the head between half-tracks 0 and `MAX_HALF_TRACK` and, while an
/// image is in, keeps the bit pointer below the current track's bit count.
#[verifier::rlimit(60)]
pub proof fn lemma_controller_invariants(s: DiskModel, ram: Seq<u8>, address: usize, phase: usize)
    requires
        s.wf(),
        phase < NUM_PHASES,
    ensures
        s.step_motor_spec(phase).wf(),
        s.phase_on_spec(phase).wf(),
        s.phase_off_spec(phase).wf(),
        s.motor_tick_spec().wf(),
        s.load_bit_spec().wf() <== (s.disk_image is Some),
        s.soft_sw_step(ram, address).0.wf(),
        s.half_track <= MAX_HALF_TRACK,
        s.disk_image is Some ==> s.bit_pntr < s.cur_track().bit_count,
{
    lemma_step_wf(s, phase);
    lemma_step_wf(s, 0);
    lemma_step_wf(s, 1);
    lemma_step_wf(s, 2);
    lemma_step_wf(s, 3);
    if s.disk_image is Some {
        lemma_load_bit_wf(s);
        lemma_load_bit_wf(s.phase_off_spec(0));
        lemma_load_bit_wf(s.phase_off_spec(1));
        lemma_load_bit_wf(s.phase_off_spec(2));
        lemma_load_bit_wf(s.phase_off_spec(3));
        lemma_load_bit_wf(DiskModel { motor_off_delay: MOTOR_OFF_FRAMES, ..s });
        lemma_load_bit_wf(DiskModel { current_drive: 1, ..s });
        lemma_load_bit_wf(DiskModel { write_sense: false, ..s });
        lemma_load_bit_wf(DiskModel { write_mode: false, ..s });
    }
}

/// One stepper engagement moves the head by at most one half-track and
/// re-engages the target phase. The head steps inward only when the new
/// phase sits forward of the engaged one on the ring (3 to 0 counts
/// forward), outward only when it sits backward (0 to 3 counts backward),
/// and the movement clamps at the rim and at half-track 68.
pub proof fn lemma_step_motor_moves_one(s: DiskModel, to: usize)
    requires
        s.wf(),
        to < NUM_PHASES,
    ensures
        ({
            let m = s.step_motor_spec(to);
            &&& m.wf()
            &&& m.current_phase == to
            &&& m.half_track <= MAX_HALF_TRACK
            &&& s.half_track - 1 <= m.half_track <= s.half_track + 1
            &&& m.half_track == s.half_track + 1 ==> ((to > s.current_phase && to
                - s.current_phase < NUM_PHASES - 1) || (to == 0 && s.current_phase == NUM_PHASES
                - 1))
            &&& m.half_track == s.half_track - 1 ==> (to < s.current_phase || (to == NUM_PHASES
                - 1 && s.current_phase == 0))
        }),
{
    lemma_step_wf(s, to);
}

/// Stepper transitions preserve the invariants.
proof fn lemma_step_wf(s: DiskModel, phase: usize)
    requires
        s.wf(),
        phase < NUM_PHASES,
    ensures
        s.step_motor_spec(phase).wf(),
        s.phase_on_spec(phase).wf(),
        s.phase_off_spec(phase).wf(),
{
    let m = s.step_motor_spec(phase);
    if s.disk_image is Some {
        assert(s.disk_image.unwrap().tracks[m.half_track as int / 2].wf());
    }
    let s1 = DiskModel { phases: s.phases.update(phase as int, true), ..s };
    let m1 = s1.step_motor_spec(phase);
    if s.disk_image is Some {
        assert(s.disk_image.unwrap().tracks[m1.half_track as int / 2].wf());
    }
    let s2 = DiskModel { phases: s.phases.update(phase as int, false), ..s };
    let right = ((phase + 1) % (NUM_PHASES as int)) as usize;
    let left = ((phase + NUM_PHASES - 1) % (NUM_PHASES as int)) as usize;
    if s.disk_image is Some {
        assert(s.disk_image.unwrap().tracks[s2.step_motor_spec(right).half_track as int / 2].wf());
        assert(s.disk_image.unwrap().tracks[s2.step_motor_spec(left).half_track as int / 2].wf());
    }
}

/// Shifting a bit in preserves the invariants.
proof fn lemma_load_bit_wf(s: DiskModel)
    requires
        s.wf(),
        s.disk_image is Some,
    ensures
        s.load_bit_spec().wf(),
        s.read_bit_spec(Seq::<u8>::empty(), 0).0.wf(),
        forall|ram: Seq<u8>, address: usize|
            #[trigger] s.read_bit_spec(ram, address).0.wf(),
{
    let t = s.cur_track();
    assert(s.disk_image.unwrap().tracks[s.half_track as int / 2].wf());
    let bc = t.bit_count as int;
    lemma_zeros_nonneg(t, s.bit_pntr as int, t.bit_count as nat);
    vstd::arithmetic::div_mod::lemma_mod_pos_bound(s.bit_pntr as int + 1, bc);
    vstd::arithmetic::div_mod::lemma_mod_pos_bound(
        s.bit_pntr as int + zeros_before_one(t, s.bit_pntr as int, t.bit_count as nat) + 1,
        bc,
    );
}

/// The zero count is never negative.
proof fn lemma_zeros_nonneg(t: TrackModel, start: int, fuel: nat)
    ensures
        zeros_before_one(t, start, fuel) >= 0,
    decreases fuel,
{
    if fuel > 0 && t.bit_at(start % (t.bit_count as int)) != 1 {
        lemma_zeros_nonneg(t, start + 1, (fuel - 1) as nat);
    }
}

/// Once the motor-off countdown has elapsed the drive is powered off, and
/// as long as no stepper phase is engaged, a touch of any even soft switch
/// in the controller's slot neither advances the bit pointer nor stores
/// anything to RAM.
pub proof fn lemma_motor_off_stops_reading(s: DiskModel, ram: Seq<u8>, address: usize)
    requires
        s.wf(),
        !s.drives_on,
        forall|p: int| 0 <= p < s.phases.len() ==> !(#[trigger] s.phases[p]),
        (address - s.slot) % 2 == 0,
    ensures
        s.soft_sw_step(ram, address).0.bit_pntr == s.bit_pntr,
        s.soft_sw_step(ram, address).0.data_reg == s.data_reg,
        s.soft_sw_step(ram, address).0.reading_byte == s.reading_byte,
        s.soft_sw_step(ram, address).1 == ram,
{
    if s.disk_image is Some {
        let off = address - s.slot;
        if off == PHASE0_OFF || off == PHASE1_OFF || off == PHASE2_OFF || off == PHASE3_OFF {
            let phase = ((off - PHASE0_OFF as int) / 2) as usize;
            let s1 = DiskModel { phases: s.phases.update(phase as int, false), ..s };
            assert(!s1.phases[((phase + 1) % (NUM_PHASES as int))]);
            assert(!s1.phases[((phase + NUM_PHASES - 1) % (NUM_PHASES as int))]);
        }
    }
}

} // verus!
