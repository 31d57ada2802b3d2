//! The machine: hosts the memory map, video, speaker and disk controller,
//! routes every bus cycle to its soft-switch handler, paces audio samples
//! against CPU cycles, and maps host keys to the keyboard latch. The 6502
//! interpreter itself is an external collaborator: the host steps it and
//! hands the consumed cycle counts in.

use vstd::prelude::*;

use crate::disk_controller::DiskController;
use crate::disk_controller::DiskModel;
use crate::graphics::GfxModel;
use crate::graphics::GraphicsHandler;
use crate::mem_manager::Cycle;
use crate::mem_manager::CycleKind;
use crate::mem_manager::MemManager;
use crate::mem_manager::MemModel;
use crate::mem_manager::MEM_SIZE;
use crate::sound::SoundHandler;
use crate::wizard_of_woz::WozImage;

verus! {

/// CPU clock rate in cycles per second.
pub const CPU_CLK_SPEED: u32 = 1024000;
/// Size of a peripheral card's ROM window.
pub const PERIPH_ROM_SZ: usize = 0x100;
/// Hardware slot offset of the disk controller (slot 6).
pub const DISK_SLOT: usize = 0x60;
/// Where the Disk II boot ROM is mapped.
pub const DISK2_START: usize = 0xC600;
/// Where the firmware ROM is mapped.
pub const FW_START: usize = 0xD000;
/// Size of the firmware ROM image.
pub const FW_ROM_SIZE: usize = 0x3000;
/// The keyboard latch address.
pub const INPUT_DATA: usize = 0xC000;
/// First and last address whose read clears the keyboard strobe.
pub const INPUT_CLEAR_FIRST: usize = 0xC010;
pub const INPUT_CLEAR_LAST: usize = 0xC01F;
/// CPU cycles between two audio samples.
pub const CYCLES_PER_SAMPLE: u32 = CPU_CLK_SPEED / crate::sound::SAMPLE_RATE;

/// Latch codes of the right and left arrow keys.
pub const KEY_RIGHT: u8 = 0x95;
pub const KEY_LEFT: u8 = 0x88;

/// Why the machine could not be built: a ROM blob had the wrong size.
#[derive(Clone, Copy, PartialEq, Eq, Structural, Debug)]
pub enum ConfigError {
    BadFirmwareRom,
    BadDiskRom,
    BadCharRom,
}

impl ConfigError {
    /// A human-readable description.
    pub fn message(&self) -> (r: &'static str) {
        match self {
            ConfigError::BadFirmwareRom => "The firmware ROM must be 12,288 bytes.",
            ConfigError::BadDiskRom => "The Disk II ROM must be 256 bytes.",
            ConfigError::BadCharRom => "The character ROM must be 2,048 bytes.",
        }
    }
}

/// Mathematical state of the whole machine.
pub ghost struct A2Model {
    pub mem: MemModel,
    pub gfx: GfxModel,
    pub snd_polarity: bool,
    pub disk: DiskModel,
    pub frame_cycles: u32,
    pub sample_cycles: u32,
    pub speaker_samples: Seq<bool>,
    pub polarity_change: bool,
    pub prev_polarity: bool,
}

impl A2Model {
    /// Every component is well formed and the disk controller sits in its
    /// slot.
    pub open spec fn wf(self) -> bool {
        &&& self.mem.wf()
        &&& self.gfx.wf()
        &&& self.disk.wf()
        &&& self.disk.slot == DISK_SLOT
    }

    /// Dispatch of a single bus cycle, exactly as the hardware decodes the
    /// address ranges: the disk controller's slot, the bank switches, the
    /// video switches, the speaker page, and the keyboard strobe.
    pub open spec fn dispatch_one(self, c: Cycle) -> A2Model {
        if c.address >= 0xC090 {
            let stepped = self.disk.soft_sw_step(self.mem.memory, c.address);
            A2Model {
                disk: stepped.0,
                mem: MemModel { memory: stepped.1, ..self.mem },
                ..self
            }
        } else if c.address >= 0xC080 {
            A2Model { mem: self.mem.soft_sw_step(c.address, c.ctype), ..self }
        } else if c.address >= 0xC050 {
            A2Model { gfx: self.gfx.soft_sw_step(c.address), ..self }
        } else if c.address >= 0xC030 {
            if c.ctype == CycleKind::Read && crate::sound::is_speaker_switch(c.address) {
                A2Model { snd_polarity: !self.snd_polarity, ..self }
            } else {
                self
            }
        } else if INPUT_CLEAR_FIRST <= c.address <= INPUT_CLEAR_LAST && c.ctype
            == CycleKind::Read {
            A2Model {
                mem: MemModel {
                    memory: self.mem.memory.update(
                        INPUT_DATA as int,
                        self.mem.memory[INPUT_DATA as int] & 0x7F,
                    ),
                    ..self.mem
                },
                ..self
            }
        } else {
            self
        }
    }

    /// Dispatch of the first `k` cycles of a trace, in order.
    pub open spec fn dispatch_prefix(self, cycles: Seq<Cycle>, k: int) -> A2Model
        decreases k,
    {
        if k <= 0 {
            self
        } else {
            self.dispatch_prefix(cycles, k - 1).dispatch_one(cycles[k - 1])
        }
    }

    /// The audio bookkeeping after one instruction that consumed `cycles`
    /// CPU cycles: on a sample boundary the current polarity is recorded,
    /// the counter drops by one sample period (keeping the remainder so no
    /// boundary is lost), and a change against the frame's starting
    /// polarity is noted.
    pub open spec fn count_cycles(self, cycles: u32) -> A2Model {
        let fc = (self.frame_cycles + cycles) as u32;
        let sc = (self.sample_cycles + cycles) as u32;
        if sc >= CYCLES_PER_SAMPLE {
            A2Model {
                frame_cycles: fc,
                sample_cycles: (sc - CYCLES_PER_SAMPLE) as u32,
                speaker_samples: self.speaker_samples.push(self.snd_polarity),
                polarity_change: self.polarity_change || self.snd_polarity
                    != self.prev_polarity,
                ..self
            }
        } else {
            A2Model { frame_cycles: fc, sample_cycles: sc, ..self }
        }
    }

    /// A whole instruction step: count the cycles, dispatch the pending bus
    /// cycles in order, then clear the trace.
    pub open spec fn step_spec(self, cycles: u32) -> A2Model {
        let counted = self.count_cycles(cycles);
        let dispatched = counted.dispatch_prefix(
            counted.mem.cycles,
            counted.mem.cycles.len() as int,
        );
        A2Model {
            mem: MemModel { cycles: Seq::<Cycle>::empty(), ..dispatched.mem },
            ..dispatched
        }
    }
}

/// The Apple machine: all components plus the frame-pacing counters.
pub struct Apple2 {
    pub mem_manager: MemManager,
    pub gfx_handler: GraphicsHandler,
    pub snd_handler: SoundHandler,
    pub disk_controller: DiskController,
    pub frame_cycles: u32,
    pub sample_cycles: u32,
    pub speaker_samples: Vec<bool>,
    pub polarity_change: bool,
    pub prev_polarity: bool,
}

impl View for Apple2 {
    type V = A2Model;

    open spec fn view(&self) -> A2Model {
        A2Model {
            mem: self.mem_manager@,
            gfx: self.gfx_handler@,
            snd_polarity: self.snd_handler.polarity,
            disk: self.disk_controller@,
            frame_cycles: self.frame_cycles,
            sample_cycles: self.sample_cycles,
            speaker_samples: self.speaker_samples@,
            polarity_change: self.polarity_change,
            prev_polarity: self.prev_polarity,
        }
    }
}

impl Apple2 {
    /// Build a machine around the given character generator ROM. The disk
    /// controller sits in slot 6; memory, video and speaker are at their
    /// power-on state.
    pub fn new(char_data: Vec<u8>) -> (r: Result<Apple2, ConfigError>)
        ensures
            match r {
                Ok(a) => char_data@.len() == crate::graphics::CHAR_ROM_SIZE && a@.wf()
                    && a@.gfx.char_data == char_data@ && a@.frame_cycles == 0
                    && a@.speaker_samples.len() == 0 && a@.disk.disk_image is None
                    && !a@.snd_polarity && a@.mem.cycles.len() == 0,
                Err(e) => char_data@.len() != crate::graphics::CHAR_ROM_SIZE && e
                    == ConfigError::BadCharRom,
            },
    {
        if char_data.len() != crate::graphics::CHAR_ROM_SIZE {
            return Err(ConfigError::BadCharRom);
        }
        Ok(
            Apple2 {
                mem_manager: MemManager::new(),
                gfx_handler: GraphicsHandler::new(char_data),
                snd_handler: SoundHandler::new(),
                disk_controller: DiskController::new(DISK_SLOT),
                frame_cycles: 0,
                sample_cycles: 0,
                speaker_samples: Vec::new(),
                polarity_change: false,
                prev_polarity: false,
            },
        )
    }

    /// Copy the firmware and Disk II boot ROM blobs into the memory map.
    pub fn load_rom(&mut self, fw_rom: &Vec<u8>, disk_rom: &Vec<u8>) -> (r: Result<
        (),
        ConfigError,
    >)
        requires
            old(self)@.wf(),
        ensures
            final(self)@.wf(),
            match r {
                Ok(u) => fw_rom@.len() == FW_ROM_SIZE && disk_rom@.len() == PERIPH_ROM_SZ
                    && final(self)@ == (A2Model {
                    mem: MemModel {
                        memory: rom_loaded(old(self)@.mem.memory, fw_rom@, disk_rom@),
                        ..old(self)@.mem
                    },
                    ..old(self)@
                }),
                Err(e) => final(self)@ == old(self)@ && ((e == ConfigError::BadFirmwareRom
                    && fw_rom@.len() != FW_ROM_SIZE) || (e == ConfigError::BadDiskRom
                    && fw_rom@.len() == FW_ROM_SIZE && disk_rom@.len() != PERIPH_ROM_SZ)),
            },
    {
        if fw_rom.len() != FW_ROM_SIZE {
            return Err(ConfigError::BadFirmwareRom);
        }
        if disk_rom.len() != PERIPH_ROM_SZ {
            return Err(ConfigError::BadDiskRom);
        }

        let mut k: usize = 0;
        while k < FW_ROM_SIZE
            invariant
                k <= FW_ROM_SIZE,
                fw_rom@.len() == FW_ROM_SIZE,
                self@.mem.wf(),
                self@ == (A2Model {
                    mem: MemModel { memory: self@.mem.memory, ..old(self)@.mem },
                    ..old(self)@
                }),
                forall|q: int|
                    0 <= q < MEM_SIZE && !(FW_START <= q < FW_START + k)
                        ==> self@.mem.memory[q] == old(self)@.mem.memory[q],
                forall|q: int|
                    0 <= q < k ==> self@.mem.memory[FW_START + q] == fw_rom@[q],
            decreases FW_ROM_SIZE - k,
        {
            self.mem_manager.memory.set(FW_START + k, fw_rom[k]);
            k = k + 1;
        }

        let mut k: usize = 0;
        while k < PERIPH_ROM_SZ
            invariant
                k <= PERIPH_ROM_SZ,
                fw_rom@.len() == FW_ROM_SIZE,
                disk_rom@.len() == PERIPH_ROM_SZ,
                self@.mem.wf(),
                self@ == (A2Model {
                    mem: MemModel { memory: self@.mem.memory, ..old(self)@.mem },
                    ..old(self)@
                }),
                forall|q: int|
                    0 <= q < MEM_SIZE && !(FW_START <= q < FW_START + FW_ROM_SIZE) && !(
                    DISK2_START <= q < DISK2_START + k) ==> self@.mem.memory[q] == old(
                        self,
                    )@.mem.memory[q],
                forall|q: int|
                    0 <= q < FW_ROM_SIZE ==> self@.mem.memory[FW_START + q] == fw_rom@[q],
                forall|q: int|
                    0 <= q < k ==> self@.mem.memory[DISK2_START + q] == disk_rom@[q],
            decreases PERIPH_ROM_SZ - k,
        {
            self.mem_manager.memory.set(DISK2_START + k, disk_rom[k]);
            k = k + 1;
        }

        proof {
            assert(self@.mem.memory =~= rom_loaded(old(self)@.mem.memory, fw_rom@, disk_rom@));
        }
        Ok(())
    }

    /// Reset the memory map's bank latches and the disk controller; the
    /// host resets the CPU itself.
    pub fn reset(&mut self)
        requires
            old(self)@.wf(),
        ensures
            final(self)@.wf(),
            final(self)@.mem == old(self)@.mem.reset_spec(),
            final(self)@.disk == old(self)@.disk.reset_spec(),
            final(self)@.gfx == old(self)@.gfx,
            final(self)@.snd_polarity == old(self)@.snd_polarity,
    {
        self.mem_manager.reset();
        self.disk_controller.reset();
    }

    /// Insert a parsed disk image.
    pub fn insert_disk(&mut self, image: WozImage)
        requires
            old(self)@.wf(),
            image@.wf(),
        ensures
            final(self)@.wf(),
            final(self)@ == (A2Model {
                disk: DiskModel { disk_image: Some(image@), bit_pntr: 0, ..old(self)@.disk },
                ..old(self)@
            }),
    {
        self.disk_controller.load_image(image);
    }

    /// Latch a key code for the CPU to read at 0xC000.
    pub fn input_char(&mut self, ascii: u8)
        requires
            old(self)@.wf(),
        ensures
            final(self)@.wf(),
            final(self)@ == (A2Model {
                mem: MemModel {
                    memory: old(self)@.mem.memory.update(INPUT_DATA as int, ascii),
                    ..old(self)@.mem
                },
                ..old(self)@
            }),
    {
        self.mem_manager.memory.set(INPUT_DATA, ascii);
    }

    /// True for the characters the keyboard can produce: space through
    /// caret, underscore, backspace and return.
    pub fn is_valid_key(ascii: u8) -> (r: bool)
        ensures
            r == is_valid_key_spec(ascii),
    {
        (0x20 <= ascii && ascii <= 0x5E) || ascii == 0x5F || ascii == 8 || ascii == 13
    }

    /// The character a key produces with Shift held.
    pub fn get_shift_ascii(ascii: u8) -> (r: u8)
        ensures
            r == shift_ascii_spec(ascii),
    {
        if ascii == 0x31 {
            0x21
        } else if ascii == 0x32 {
            0x40
        } else if ascii == 0x33 {
            0x23
        } else if ascii == 0x34 {
            0x24
        } else if ascii == 0x35 {
            0x25
        } else if ascii == 0x36 {
            0x5E
        } else if ascii == 0x37 {
            0x26
        } else if ascii == 0x38 {
            0x2A
        } else if ascii == 0x39 {
            0x28
        } else if ascii == 0x30 {
            0x29
        } else if ascii == 0x2D {
            0x5F
        } else if ascii == 0x3D {
            0x2B
        } else if ascii == 0x5B {
            0x7B
        } else if ascii == 0x5D {
            0x7D
        } else if ascii == 0x3B {
            0x3A
        } else if ascii == 0x27 {
            0x22
        } else if ascii == 0x2C {
            0x3C
        } else if ascii == 0x2E {
            0x3E
        } else if ascii == 0x2F {
            0x3F
        } else {
            ascii
        }
    }

    /// The character a key produces with Ctrl held: A..Z lose bit 6.
    pub fn get_ctrl_ascii(ascii: u8) -> (r: u8)
        ensures
            r == ctrl_ascii_spec(ascii),
    {
        if 0x41 <= ascii && ascii <= 0x5A {
            ascii & 0xBF
        } else {
            ascii
        }
    }

    /// Map a host key press to the keyboard latch byte: fold lowercase to
    /// uppercase, apply the shifted table, reject characters the keyboard
    /// cannot produce, apply Ctrl, and set the high bit.
    pub fn map_key(ascii: u8, shift: bool, ctrl: bool) -> (r: Option<u8>)
        ensures
            r == map_key_spec(ascii, shift, ctrl),
    {
        let up = if 0x61 <= ascii && ascii <= 0x7A {
            ascii - 32
        } else {
            ascii
        };
        let shifted = if shift {
            Apple2::get_shift_ascii(up)
        } else {
            up
        };
        if !Apple2::is_valid_key(shifted) {
            return None;
        }
        let code = if ctrl {
            Apple2::get_ctrl_ascii(shifted)
        } else {
            shifted
        };
        Some(code | 0x80)
    }

    /// Start a new frame: clear the cycle and sample counters and remember
    /// the speaker polarity the frame starts with.
    pub fn begin_frame(&mut self)
        requires
            old(self)@.wf(),
        ensures
            final(self)@.wf(),
            final(self)@ == (A2Model {
                frame_cycles: 0,
                sample_cycles: 0,
                speaker_samples: Seq::<bool>::empty(),
                polarity_change: false,
                prev_polarity: old(self)@.snd_polarity,
                ..old(self)@
            }),
    {
        self.frame_cycles = 0;
        self.sample_cycles = 0;
        self.speaker_samples = Vec::new();
        self.polarity_change = false;
        self.prev_polarity = self.snd_handler.polarity;
    }

    /// Route one bus cycle to its soft-switch handler.
    #[verifier::rlimit(100)]
    #[verifier::spinoff_prover]
    fn dispatch_cycle(&mut self, c: Cycle)
        requires
            old(self)@.wf(),
            c.address < MEM_SIZE,
        ensures
            final(self)@.wf(),
            final(self)@ == old(self)@.dispatch_one(c),
    {
        if c.address >= 0xC090 {
            self.disk_controller.handle_soft_sw(c.address, &mut self.mem_manager.memory);
        } else if c.address >= 0xC080 {
            self.mem_manager.handle_soft_sw(c.address, c.ctype);
        } else if c.address >= 0xC050 {
            self.gfx_handler.handle_soft_sw(c.address);
        } else if c.address >= 0xC030 {
            if c.ctype == CycleKind::Read {
                self.snd_handler.handle_soft_sw(c.address);
            }
        } else if INPUT_CLEAR_FIRST <= c.address && c.address <= INPUT_CLEAR_LAST && c.ctype
            == CycleKind::Read {
            let v = self.mem_manager.memory[INPUT_DATA];
            self.mem_manager.memory.set(INPUT_DATA, v & 0x7F);
        }
    }

    /// Dispatch every pending bus cycle to its soft-switch handler, in
    /// program order.
    fn handle_soft_sw(&mut self)
        requires
            old(self)@.wf(),
            forall|k: int|
                0 <= k < old(self)@.mem.cycles.len()
                    ==> (#[trigger] old(self)@.mem.cycles[k]).address < MEM_SIZE,
        ensures
            final(self)@.wf(),
            final(self)@ == old(self)@.dispatch_prefix(
                old(self)@.mem.cycles,
                old(self)@.mem.cycles.len() as int,
            ),
    {
        let cycles = self.mem_manager.get_cycles();
        let mut k: usize = 0;
        while k < cycles.len()
            invariant
                k <= cycles.len(),
                cycles@ == old(self)@.mem.cycles,
                forall|q: int|
                    0 <= q < cycles@.len() ==> (#[trigger] cycles@[q]).address < MEM_SIZE,
                self@.wf(),
                self@ == old(self)@.dispatch_prefix(cycles@, k as int),
            decreases cycles.len() - k,
        {
            self.dispatch_cycle(cycles[k]);
            k = k + 1;
        }
    }

    /// Account one stepped instruction: add its cycles to the frame and
    /// sample counters, record a speaker sample on a sample boundary, then
    /// dispatch and clear the pending bus cycles.
    pub fn step_instruction(&mut self, cycles: u32)
        requires
            old(self)@.wf(),
            old(self)@.frame_cycles < 0x4000_0000,
            old(self)@.sample_cycles < 0x4000_0000,
            cycles < 0x4000_0000,
            forall|k: int|
                0 <= k < old(self)@.mem.cycles.len()
                    ==> (#[trigger] old(self)@.mem.cycles[k]).address < MEM_SIZE,
        ensures
            final(self)@.wf(),
            final(self)@ == old(self)@.step_spec(cycles),
    {
        self.frame_cycles = self.frame_cycles + cycles;
        self.sample_cycles = self.sample_cycles + cycles;
        if self.sample_cycles >= CYCLES_PER_SAMPLE {
            self.speaker_samples.push(self.snd_handler.polarity);
            self.sample_cycles = self.sample_cycles - CYCLES_PER_SAMPLE;
            if self.snd_handler.polarity != self.prev_polarity {
                self.polarity_change = true;
            }
        }
        self.handle_soft_sw();
        self.mem_manager.clear_cycles();
    }

    /// Whether the frame's cycle budget is spent.
    pub fn frame_done(&self, frame_rate: u32) -> (r: bool)
        requires
            frame_rate > 0,
        ensures
            r == (self@.frame_cycles >= CPU_CLK_SPEED / frame_rate),
    {
        self.frame_cycles >= CPU_CLK_SPEED / frame_rate
    }

    /// Close a frame: tick the disk motor-off countdown, and hand the
    /// frame's speaker samples out if the polarity moved during the frame
    /// (a still speaker yields no audio, avoiding a DC buzz).
    pub fn end_frame(&mut self) -> (r: Option<Vec<bool>>)
        requires
            old(self)@.wf(),
        ensures
            final(self)@.wf(),
            final(self)@ == (A2Model { disk: old(self)@.disk.motor_tick_spec(), ..old(self)@ }),
            match r {
                Some(v) => old(self)@.polarity_change && v@ == old(self)@.speaker_samples,
                None => !old(self)@.polarity_change,
            },
    {
        self.disk_controller.handle_motor_off_delay();
        if self.polarity_change {
            let mut out: Vec<bool> = Vec::new();
            let mut k: usize = 0;
            while k < self.speaker_samples.len()
                invariant
                    k <= self.speaker_samples.len(),
                    out@ == self@.speaker_samples.subrange(0, k as int),
                decreases self.speaker_samples.len() - k,
            {
                out.push(self.speaker_samples[k]);
                k = k + 1;
            }
            proof {
                assert(out@ =~= self@.speaker_samples);
            }
            Some(out)
        } else {
            None
        }
    }

    /// Render the screen from main memory and advance the flash phase.
    pub fn draw_frame(&mut self, frame_rate: u32)
        requires
            old(self)@.wf(),
        ensures
            final(self)@.wf(),
            final(self)@ == (A2Model {
                gfx: old(self)@.gfx.with_pixels(final(self)@.gfx.pixel_buf).flash_step(
                    frame_rate,
                ),
                ..old(self)@
            }),
            forall|n: int|
                0 <= n < crate::graphics::PIXEL_BUF_SIZE ==> final(self)@.gfx.pixel_buf[n]
                    == crate::graphics::pbuf_byte(old(self)@.mem.memory, old(self)@.gfx, n),
    {
        self.gfx_handler.handle_gfx(frame_rate, &self.mem_manager.memory);
    }
}

/// The memory after the two ROM blobs are copied in.
pub open spec fn rom_loaded(mem: Seq<u8>, fw: Seq<u8>, disk: Seq<u8>) -> Seq<u8> {
    Seq::new(
        mem.len(),
        |q: int|
            if FW_START <= q < FW_START + FW_ROM_SIZE {
                fw[q - FW_START]
            } else if DISK2_START <= q < DISK2_START + PERIPH_ROM_SZ {
                disk[q - DISK2_START]
            } else {
                mem[q]
            },
    )
}

/// See `Apple2::is_valid_key`.
pub open spec fn is_valid_key_spec(ascii: u8) -> bool {
    (0x20 <= ascii <= 0x5E) || ascii == 0x5F || ascii == 8 || ascii == 13
}

/// See `Apple2::get_shift_ascii`.
pub open spec fn shift_ascii_spec(ascii: u8) -> u8 {
    if ascii == 0x31 {
        0x21
    } else if ascii == 0x32 {
        0x40
    } else if ascii == 0x33 {
        0x23
    } else if ascii == 0x34 {
        0x24
    } else if ascii == 0x35 {
        0x25
    } else if ascii == 0x36 {
        0x5E
    } else if ascii == 0x37 {
        0x26
    } else if ascii == 0x38 {
        0x2A
    } else if ascii == 0x39 {
        0x28
    } else if ascii == 0x30 {
        0x29
    } else if ascii == 0x2D {
        0x5F
    } else if ascii == 0x3D {
        0x2B
    } else if ascii == 0x5B {
        0x7B
    } else if ascii == 0x5D {
        0x7D
    } else if ascii == 0x3B {
        0x3A
    } else if ascii == 0x27 {
        0x22
    } else if ascii == 0x2C {
        0x3C
    } else if ascii == 0x2E {
        0x3E
    } else if ascii == 0x2F {
        0x3F
    } else {
        ascii
    }
}

/// See `Apple2::get_ctrl_ascii`.
pub open spec fn ctrl_ascii_spec(ascii: u8) -> u8 {
    if 0x41 <= ascii <= 0x5A {
        ascii & 0xBF
    } else {
        ascii
    }
}

/// See `Apple2::map_key`: uppercase fold, shifted table, validity, Ctrl,
/// and the latched high bit.
pub open spec fn map_key_spec(ascii: u8, shift: bool, ctrl: bool) -> Option<u8> {
    let up = if 0x61 <= ascii <= 0x7A {
        (ascii - 32) as u8
    } else {
        ascii
    };
    let shifted = if shift {
        shift_ascii_spec(up)
    } else {
        up
    };
    if !is_valid_key_spec(shifted) {
        None
    } else {
        let code = if ctrl {
            ctrl_ascii_spec(shifted)
        } else {
            shifted
        };
        Some(code | 0x80)
    }
}

} // verus!
