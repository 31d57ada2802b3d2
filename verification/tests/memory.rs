use apple2_core::mem_manager::{CycleKind, MemManager};

#[test]
fn main_store_read_back() {
    let mut mem = MemManager::new();
    mem.mem_write(0x0300, 0x42);
    assert_eq!(mem.mem_read(0x0300), 0x42);
    mem.mem_write(0xBFFF, 0x99);
    assert_eq!(mem.mem_read(0xBFFF), 0x99);
}

#[test]
fn io_page_writes_are_discarded() {
    let mut mem = MemManager::new();
    mem.mem_write(0xC500, 0x42);
    assert_eq!(mem.mem_read(0xC500), 0x00);
}

#[test]
fn cycles_are_recorded_in_order() {
    let mut mem = MemManager::new();
    mem.mem_write(0x10, 1);
    mem.mem_read(0x10);
    let cycles = mem.get_cycles();
    assert_eq!(cycles.len(), 2);
    assert_eq!(cycles[0].address, 0x10);
    assert_eq!(cycles[0].ctype, CycleKind::Write);
    assert_eq!(cycles[1].ctype, CycleKind::Read);
    assert_eq!(cycles[1].value, 1);
    mem.clear_cycles();
    assert_eq!(mem.get_cycles().len(), 0);
}

#[test]
fn bank_switching_from_reset() {
    // From reset, two reads of 0xC083 select bank 2 RAM with writes live
    // (they are live from power-on), so a write to 0xD000 lands in RAM.
    let mut mem = MemManager::new();
    // Pretend a ROM byte sits at 0xD000 in the main store.
    mem.memory[0xD000] = 0xAA;
    mem.handle_soft_sw(0xC083, CycleKind::Read);
    mem.handle_soft_sw(0xC083, CycleKind::Read);
    mem.mem_write(0xD000, 0x55);
    assert_eq!(mem.mem_read(0xD000), 0x55);
    // A read of 0xC082 maps ROM back in: the RAM byte disappears.
    mem.handle_soft_sw(0xC082, CycleKind::Read);
    assert_eq!(mem.mem_read(0xD000), 0xAA);
}

#[test]
fn two_reads_arm_ram_writes() {
    let mut mem = MemManager::new();
    // Disarm with a no-write switch first.
    mem.handle_soft_sw(0xC080, CycleKind::Read);
    mem.mem_write(0xD123, 0x11);
    mem.handle_soft_sw(0xC083, CycleKind::Read);
    // One read is not enough to arm writes.
    mem.mem_write(0xD123, 0x22);
    mem.handle_soft_sw(0xC083, CycleKind::Read);
    // The second consecutive read arms them.
    mem.mem_write(0xD123, 0x33);
    assert_eq!(mem.mem_read(0xD123), 0x33);
}

#[test]
fn intervening_no_write_read_disarms() {
    let mut mem = MemManager::new();
    mem.handle_soft_sw(0xC083, CycleKind::Read);
    mem.handle_soft_sw(0xC080, CycleKind::Read);
    mem.handle_soft_sw(0xC083, CycleKind::Read);
    // Only one consecutive write-enable read: still disarmed.
    mem.mem_write(0xD200, 0x77);
    mem.handle_soft_sw(0xC083, CycleKind::Read);
    mem.handle_soft_sw(0xC083, CycleKind::Read);
    assert_ne!(mem.mem_read(0xD200), 0x77);
}

#[test]
fn write_to_switch_resets_arm_counter() {
    let mut mem = MemManager::new();
    mem.handle_soft_sw(0xC080, CycleKind::Read);
    mem.handle_soft_sw(0xC083, CycleKind::Read);
    // A write access to a bank switch resets the two-read counter.
    mem.handle_soft_sw(0xC083, CycleKind::Write);
    mem.handle_soft_sw(0xC083, CycleKind::Read);
    mem.mem_write(0xD300, 0x44);
    assert_ne!(mem.mem_read(0xD300), 0x44);
}

#[test]
fn bank1_and_bank2_are_distinct() {
    let mut mem = MemManager::new();
    // Bank 2 RAM read + write (two reads of 0xC083).
    mem.handle_soft_sw(0xC083, CycleKind::Read);
    mem.handle_soft_sw(0xC083, CycleKind::Read);
    mem.mem_write(0xD000, 0x22);
    // Bank 1 RAM read + write (two reads of 0xC08B).
    mem.handle_soft_sw(0xC08B, CycleKind::Read);
    mem.handle_soft_sw(0xC08B, CycleKind::Read);
    mem.mem_write(0xD000, 0x11);
    assert_eq!(mem.mem_read(0xD000), 0x11);
    // Back to bank 2: its byte survived.
    mem.handle_soft_sw(0xC083, CycleKind::Read);
    mem.handle_soft_sw(0xC083, CycleKind::Read);
    assert_eq!(mem.mem_read(0xD000), 0x22);
}

#[test]
fn shared_region_spans_banks() {
    let mut mem = MemManager::new();
    mem.handle_soft_sw(0xC083, CycleKind::Read);
    mem.handle_soft_sw(0xC083, CycleKind::Read);
    mem.mem_write(0xE000, 0x66);
    mem.handle_soft_sw(0xC08B, CycleKind::Read);
    mem.handle_soft_sw(0xC08B, CycleKind::Read);
    assert_eq!(mem.mem_read(0xE000), 0x66);
}

#[test]
fn reset_restores_power_on_latches() {
    let mut mem = MemManager::new();
    mem.handle_soft_sw(0xC080, CycleKind::Read);
    mem.reset();
    // ROM is mapped for read and writes are live again.
    mem.mem_write(0xD000, 0x12);
    mem.memory[0xD000] = 0x34;
    assert_eq!(mem.mem_read(0xD000), 0x34);
}
