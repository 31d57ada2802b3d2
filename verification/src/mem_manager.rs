//! 64 KiB memory map with the Language-Card banked RAM overlay, the bus-cycle
//! trace, and the bank-switch soft switches at 0xC080..=0xC08F.

use vstd::prelude::*;

verus! {

/// Size of the main store: the full 6502 address space.
pub const MEM_SIZE: usize = 0x10000;
/// First address of the I/O / peripheral-ROM page.
pub const ROM_START: usize = 0xC000;
/// First address overlaid by the switchable 4 KiB banks.
pub const BANK_RAM_START: usize = 0xD000;
/// Size of each of the two switchable banks.
pub const BANK_RAM_SIZE: usize = 0x1000;
/// First address overlaid by the shared 8 KiB region.
pub const EXT_RAM_START: usize = 0xE000;
/// Size of the shared overlay region.
pub const EXT_RAM_SIZE: usize = 0x2000;

/// The write-enable latch arms only after this many further consecutive
/// reads of a write-enable switch (two reads in all).
pub const WRITE_EN_COUNT_MAX: u8 = 1;

/// First bank-switch soft-switch address.
pub const BANK_SW_FIRST: usize = 0xC080;
/// Last bank-switch soft-switch address (the +4 aliases included).
pub const BANK_SW_LAST: usize = 0xC08F;

/// Whether a bus cycle was a read or a write.
#[derive(Clone, Copy, PartialEq, Eq, Structural, Debug)]
pub enum CycleKind {
    Read,
    Write,
}

/// One CPU bus cycle: the address touched, the value on the bus, and whether
/// the cycle was a read or a write.
#[derive(Clone, Copy, PartialEq, Eq, Structural, Debug)]
pub struct Cycle {
    pub address: usize,
    pub value: u8,
    pub ctype: CycleKind,
}

/// The mathematical state of the memory manager: the four stores as byte
/// sequences, the bank-switch latch state, and the pending cycle trace.
pub ghost struct MemModel {
    pub memory: Seq<u8>,
    pub bank1_ram: Seq<u8>,
    pub bank2_ram: Seq<u8>,
    pub ext_ram: Seq<u8>,
    pub bank2_active: bool,
    pub rom_read: bool,
    pub ram_write: bool,
    pub write_en_count: u8,
    pub cycles: Seq<Cycle>,
}

impl MemModel {
    /// The stores have their fixed sizes.
    pub open spec fn wf(self) -> bool {
        &&& self.memory.len() == MEM_SIZE
        &&& self.bank1_ram.len() == BANK_RAM_SIZE
        &&& self.bank2_ram.len() == BANK_RAM_SIZE
        &&& self.ext_ram.len() == EXT_RAM_SIZE
    }

    /// The value a CPU read at `address` returns: main store below the
    /// overlay or when ROM is selected for read, otherwise the active bank
    /// at 0xD000..=0xDFFF and the shared region above.
    pub open spec fn read_value(self, address: usize) -> u8 {
        if address < BANK_RAM_START || self.rom_read {
            self.memory[address as int]
        } else if address < EXT_RAM_START {
            if self.bank2_active {
                self.bank2_ram[address - BANK_RAM_START]
            } else {
                self.bank1_ram[address - BANK_RAM_START]
            }
        } else {
            self.ext_ram[address - EXT_RAM_START]
        }
    }

    /// The state after a CPU read: the value is returned unchanged and the
    /// cycle is appended to the trace.
    pub open spec fn read_step(self, address: usize) -> MemModel {
        MemModel {
            cycles: self.cycles.push(
                Cycle { address, value: self.read_value(address), ctype: CycleKind::Read },
            ),
            ..self
        }
    }

    /// The state after a CPU write: below 0xC000 the main store takes the
    /// value; the I/O page discards it; above, the overlay RAM takes it only
    /// while writes are enabled. The cycle is appended either way.
    pub open spec fn write_step(self, address: usize, value: u8) -> MemModel {
        let with_cycle = MemModel {
            cycles: self.cycles.push(Cycle { address, value, ctype: CycleKind::Write }),
            ..self
        };
        if address < ROM_START {
            MemModel { memory: self.memory.update(address as int, value), ..with_cycle }
        } else if self.ram_write && address >= BANK_RAM_START {
            if address < EXT_RAM_START {
                if self.bank2_active {
                    MemModel {
                        bank2_ram: self.bank2_ram.update(address - BANK_RAM_START, value),
                        ..with_cycle
                    }
                } else {
                    MemModel {
                        bank1_ram: self.bank1_ram.update(address - BANK_RAM_START, value),
                        ..with_cycle
                    }
                }
            } else {
                MemModel {
                    ext_ram: self.ext_ram.update(address - EXT_RAM_START, value),
                    ..with_cycle
                }
            }
        } else {
            with_cycle
        }
    }

    /// A read of a no-write switch: select the bank and read source, disarm
    /// RAM writes and reset the arm counter.
    pub open spec fn read_enable_step(self, bank2: bool, rom_read: bool) -> MemModel {
        MemModel {
            bank2_active: bank2,
            rom_read: rom_read,
            ram_write: false,
            write_en_count: WRITE_EN_COUNT_MAX,
            ..self
        }
    }

    /// A read of a write-enable switch: select the bank and read source, and
    /// arm RAM writes only once the counter has run down — that is, only on
    /// the second consecutive such read.
    pub open spec fn write_enable_step(self, bank2: bool, rom_read: bool) -> MemModel {
        let sel = MemModel { bank2_active: bank2, rom_read: rom_read, ..self };
        if self.ram_write {
            sel
        } else if self.write_en_count == 0 {
            MemModel { ram_write: true, write_en_count: WRITE_EN_COUNT_MAX, ..sel }
        } else {
            MemModel { write_en_count: (self.write_en_count - 1) as u8, ..sel }
        }
    }

    /// The power-on bank-latch state: bank 2 mapped, ROM read, RAM writes
    /// enabled, arm counter full.
    pub open spec fn reset_spec(self) -> MemModel {
        MemModel {
            bank2_active: true,
            rom_read: true,
            ram_write: true,
            write_en_count: WRITE_EN_COUNT_MAX,
            ..self
        }
    }

    /// The state after one bank-switch soft-switch touch. A write to any
    /// switch only resets the arm counter; a read selects per the address.
    pub open spec fn soft_sw_step(self, address: usize, ctype: CycleKind) -> MemModel {
        if ctype == CycleKind::Write {
            MemModel { write_en_count: WRITE_EN_COUNT_MAX, ..self }
        } else if is_bank_switch(address) {
            if bank_sw_write_enable(address) {
                self.write_enable_step(bank_sw_bank2(address), bank_sw_rom_read(address))
            } else {
                self.read_enable_step(bank_sw_bank2(address), bank_sw_rom_read(address))
            }
        } else {
            self
        }
    }
}

/// True when `address` is one of the sixteen bank-switch soft switches.
pub open spec fn is_bank_switch(address: usize) -> bool {
    BANK_SW_FIRST <= address <= BANK_SW_LAST
}

/// The low three bits of a bank-switch address modulo 4 pick the function;
/// this is the offset the +4 aliases share.
pub open spec fn bank_sw_offset(address: usize) -> int {
    (address - BANK_SW_FIRST) % 4
}

/// Switches 0xC080..=0xC087 (and aliases) select bank 2; the upper eight
/// select bank 1.
pub open spec fn bank_sw_bank2(address: usize) -> bool {
    address < 0xC088
}

/// Offsets 1 and 2 within a group select ROM for read; 0 and 3 select RAM.
pub open spec fn bank_sw_rom_read(address: usize) -> bool {
    bank_sw_offset(address) == 1 || bank_sw_offset(address) == 2
}

/// Offsets 1 and 3 within a group are the write-enable switches.
pub open spec fn bank_sw_write_enable(address: usize) -> bool {
    bank_sw_offset(address) == 1 || bank_sw_offset(address) == 3
}

/// The memory manager: the 64 KiB main store, the two 4 KiB banks, the
/// shared 8 KiB overlay, the bank-switch latch state, and the cycle trace
/// the CPU appends to on every bus access.
pub struct MemManager {
    pub memory: Vec<u8>,
    pub bank1_ram: Vec<u8>,
    pub bank2_ram: Vec<u8>,
    pub ext_ram: Vec<u8>,
    pub bank2_active: bool,
    pub rom_read: bool,
    pub ram_write: bool,
    pub write_en_count: u8,
    pub cycles: Vec<Cycle>,
}

impl View for MemManager {
    type V = MemModel;

    open spec fn view(&self) -> MemModel {
        MemModel {
            memory: self.memory@,
            bank1_ram: self.bank1_ram@,
            bank2_ram: self.bank2_ram@,
            ext_ram: self.ext_ram@,
            bank2_active: self.bank2_active,
            rom_read: self.rom_read,
            ram_write: self.ram_write,
            write_en_count: self.write_en_count,
            cycles: self.cycles@,
        }
    }
}

impl MemManager {
    /// Power-on state: all stores zeroed, bank 2 selected, ROM mapped for
    /// read, RAM writes enabled, no cycles pending.
    pub fn new() -> (r: MemManager)
        ensures
            r@.wf(),
            r@.memory == Seq::<u8>::new(MEM_SIZE as nat, |i: int| 0u8),
            r@.bank1_ram == Seq::<u8>::new(BANK_RAM_SIZE as nat, |i: int| 0u8),
            r@.bank2_ram == Seq::<u8>::new(BANK_RAM_SIZE as nat, |i: int| 0u8),
            r@.ext_ram == Seq::<u8>::new(EXT_RAM_SIZE as nat, |i: int| 0u8),
            r@.bank2_active && r@.rom_read && r@.ram_write,
            r@.write_en_count == WRITE_EN_COUNT_MAX,
            r@.cycles == Seq::<Cycle>::empty(),
    {
        MemManager {
            memory: zero_vec(MEM_SIZE),
            bank1_ram: zero_vec(BANK_RAM_SIZE),
            bank2_ram: zero_vec(BANK_RAM_SIZE),
            ext_ram: zero_vec(EXT_RAM_SIZE),
            bank2_active: true,
            rom_read: true,
            ram_write: true,
            write_en_count: WRITE_EN_COUNT_MAX,
            cycles: Vec::new(),
        }
    }

    /// A CPU read: returns the mapped value and records the cycle.
    pub fn mem_read(&mut self, address: usize) -> (value: u8)
        requires
            old(self)@.wf(),
            address < MEM_SIZE,
        ensures
            final(self)@ == old(self)@.read_step(address),
            final(self)@.wf(),
            value == old(self)@.read_value(address),
    {
        let value = if address < BANK_RAM_START || self.rom_read {
            self.memory[address]
        } else if address < EXT_RAM_START {
            if self.bank2_active {
                self.bank2_ram[address - BANK_RAM_START]
            } else {
                self.bank1_ram[address - BANK_RAM_START]
            }
        } else {
            self.ext_ram[address - EXT_RAM_START]
        };

        self.cycles.push(Cycle { address, value, ctype: CycleKind::Read });
        value
    }

    /// A CPU write: records the cycle and stores the value where the map
    /// sends it, or discards it.
    pub fn mem_write(&mut self, address: usize, value: u8)
        requires
            old(self)@.wf(),
            address < MEM_SIZE,
        ensures
            final(self)@ == old(self)@.write_step(address, value),
            final(self)@.wf(),
    {
        self.cycles.push(Cycle { address, value, ctype: CycleKind::Write });

        if address < ROM_START {
            self.memory.set(address, value);
        } else if self.ram_write && address >= BANK_RAM_START {
            if address < EXT_RAM_START {
                if self.bank2_active {
                    self.bank2_ram.set(address - BANK_RAM_START, value);
                } else {
                    self.bank1_ram.set(address - BANK_RAM_START, value);
                }
            } else {
                self.ext_ram.set(address - EXT_RAM_START, value);
            }
        }
    }

    /// Reset returns the bank-switch latches to their power-on values and
    /// leaves every store and the cycle trace alone.
    pub fn reset(&mut self)
        ensures
            final(self)@ == old(self)@.reset_spec(),
    {
        self.bank2_active = true;
        self.rom_read = true;
        self.ram_write = true;
        self.write_en_count = WRITE_EN_COUNT_MAX;
    }

    /// A copy of the pending cycle trace, oldest first.
    pub fn get_cycles(&self) -> (r: Vec<Cycle>)
        ensures
            r@ == self@.cycles,
    {
        let mut r: Vec<Cycle> = Vec::new();
        let mut i: usize = 0;
        while i < self.cycles.len()
            invariant
                i <= self.cycles.len(),
                r@ == self@.cycles.subrange(0, i as int),
            decreases self.cycles.len() - i,
        {
            r.push(self.cycles[i]);
            i = i + 1;
        }
        assert(self@.cycles.subrange(0, self.cycles.len() as int) =~= self@.cycles);
        r
    }

    /// Forget the pending cycle trace.
    pub fn clear_cycles(&mut self)
        ensures
            final(self)@ == (MemModel { cycles: Seq::<Cycle>::empty(), ..old(self)@ }),
    {
        self.cycles.clear();
    }

    /// One bank-switch soft-switch touch, per `MemModel::soft_sw_step`.
    pub fn handle_soft_sw(&mut self, address: usize, ctype: CycleKind)
        ensures
            final(self)@ == old(self)@.soft_sw_step(address, ctype),
    {
        if ctype == CycleKind::Write {
            self.write_en_count = WRITE_EN_COUNT_MAX;
            return;
        }

        if address >= BANK_SW_FIRST && address <= BANK_SW_LAST {
            let offset = (address - BANK_SW_FIRST) % 4;
            let bank2 = address < 0xC088;
            let rom_read = offset == 1 || offset == 2;
            if offset == 1 || offset == 3 {
                self.write_enable(bank2, rom_read);
            } else {
                self.read_enable(bank2, rom_read);
            }
        }
    }

    fn read_enable(&mut self, bank2: bool, rom_read: bool)
        ensures
            final(self)@ == old(self)@.read_enable_step(bank2, rom_read),
    {
        self.bank2_active = bank2;
        self.rom_read = rom_read;
        self.ram_write = false;
        self.write_en_count = WRITE_EN_COUNT_MAX;
    }

    fn write_enable(&mut self, bank2: bool, rom_read: bool)
        ensures
            final(self)@ == old(self)@.write_enable_step(bank2, rom_read),
    {
        self.bank2_active = bank2;
        self.rom_read = rom_read;

        if !self.ram_write {
            if self.write_en_count == 0 {
                self.ram_write = true;
                self.write_en_count = WRITE_EN_COUNT_MAX;
            } else {
                self.write_en_count = self.write_en_count - 1;
            }
        }
    }
}

/// A vector of `n` zero bytes.
pub fn zero_vec(n: usize) -> (r: Vec<u8>)
    ensures
        r@ == Seq::<u8>::new(n as nat, |i: int| 0u8),
{
    let mut r: Vec<u8> = Vec::new();
    let mut i: usize = 0;
    while i < n
        invariant
            i <= n,
            r@ == Seq::<u8>::new(i as nat, |j: int| 0u8),
        decreases n - i,
    {
        r.push(0);
        i = i + 1;
        assert(r@ =~= Seq::<u8>::new(i as nat, |j: int| 0u8));
    }
    r
}

/// For any address the main store handles entirely (below 0xC000), a read
/// straight after a write of `value` at the same address returns `value`.
pub proof fn lemma_main_store_round_trip(m: MemModel, address: usize, value: u8)
    requires
        m.wf(),
        address < ROM_START,
    ensures
        m.write_step(address, value).read_value(address) == value,
{
}

/// Any sequence of bank-switch reads that ends with a read of a no-write
/// switch leaves RAM writes disarmed.
pub proof fn lemma_no_write_read_disarms(m: MemModel, address: usize)
    requires
        is_bank_switch(address),
        !bank_sw_write_enable(address),
    ensures
        m.soft_sw_step(address, CycleKind::Read).ram_write == false,
{
}

/// Starting from a state with RAM writes disarmed and the arm counter full,
/// two consecutive reads of write-enable switch 0xC083 arm RAM writes, while
/// an intervening read of no-write switch 0xC080 keeps them disarmed.
pub proof fn lemma_two_reads_arm_ram_writes(m: MemModel)
    requires
        !m.ram_write,
        m.write_en_count == WRITE_EN_COUNT_MAX,
    ensures
        m.soft_sw_step(0xC083, CycleKind::Read)
            .soft_sw_step(0xC083, CycleKind::Read).ram_write == true,
        m.soft_sw_step(0xC083, CycleKind::Read)
            .soft_sw_step(0xC080, CycleKind::Read)
            .soft_sw_step(0xC083, CycleKind::Read).ram_write == false,
{
}

} // verus!
