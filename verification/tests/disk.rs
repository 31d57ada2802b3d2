use apple2_core::disk_controller::DiskController;
use apple2_core::dsk2woz;
use apple2_core::wizard_of_woz::WozImage;

fn converted_image() -> WozImage {
    let dsk: Vec<u8> = vec![0u8; 143360];
    let mut woz: Vec<u8> = vec![0u8; 250000];
    dsk2woz::convert(&dsk, &mut woz, false);
    WozImage::new(&woz).expect("synthetic image parses")
}

fn controller_with_disk() -> (DiskController, Vec<u8>) {
    let mut dc = DiskController::new(0x60);
    dc.load_image(converted_image());
    let ram: Vec<u8> = vec![0u8; 0x10000];
    (dc, ram)
}

#[test]
fn seek_two_half_tracks() {
    // Phase sequence: phase0 on, phase1 on, phase0 off, phase2 on,
    // phase1 off. The head ends two half-tracks in.
    let (mut dc, mut ram) = controller_with_disk();
    dc.handle_soft_sw(0xC0E9, &mut ram); // drives on
    dc.handle_soft_sw(0xC0E1, &mut ram); // phase 0 on
    dc.handle_soft_sw(0xC0E3, &mut ram); // phase 1 on
    dc.handle_soft_sw(0xC0E0, &mut ram); // phase 0 off
    dc.handle_soft_sw(0xC0E5, &mut ram); // phase 2 on
    dc.handle_soft_sw(0xC0E2, &mut ram); // phase 1 off
    assert_eq!(dc.half_track, 2);
}

#[test]
fn head_stays_on_the_disk() {
    // Stepping outward from track 0 never underflows, and a long inward
    // seek clamps at half-track 68.
    let (mut dc, mut ram) = controller_with_disk();
    dc.handle_soft_sw(0xC0E9, &mut ram);
    // Outward at the rim: engaging the previous phase on the ring (0 to 3)
    // steps outward, clamped at half-track 0.
    dc.handle_soft_sw(0xC0E7, &mut ram); // phase 3 on
    assert_eq!(dc.half_track, 0);
    dc.handle_soft_sw(0xC0E6, &mut ram); // phase 3 off, no neighbour engaged
    assert_eq!(dc.half_track, 0);
    // Inward, 80 phase steps: clamps at half-track 68.
    let mut p = 0usize;
    for _ in 0..80 {
        dc.handle_soft_sw(0xC0E1 + 2 * p, &mut ram); // phase p on
        dc.handle_soft_sw(0xC0E0 + 2 * ((p + 3) % 4), &mut ram); // previous off
        p = (p + 1) % 4;
    }
    assert_eq!(dc.half_track, 68);
}

#[test]
fn read_latch_assembles_disk_bytes() {
    // The synthetic track starts with self-sync 0xFF bytes; clocking the
    // sequencer enough times must put 0xFF on the bus.
    let (mut dc, mut ram) = controller_with_disk();
    dc.handle_soft_sw(0xC0E9, &mut ram); // drives on
    dc.handle_soft_sw(0xC0EE, &mut ram); // read mode
    let mut saw_ff = false;
    for _ in 0..100 {
        dc.handle_soft_sw(0xC0EC, &mut ram); // shift off: clock a bit
        if ram[0xC0EC] == 0xFF {
            saw_ff = true;
            break;
        }
    }
    assert!(saw_ff);
}

#[test]
fn bit_pointer_stays_inside_track() {
    let (mut dc, mut ram) = controller_with_disk();
    dc.handle_soft_sw(0xC0E9, &mut ram);
    dc.handle_soft_sw(0xC0EE, &mut ram);
    for _ in 0..1000 {
        dc.handle_soft_sw(0xC0EC, &mut ram);
        assert!(dc.bit_pntr < 50304);
    }
}

#[test]
fn write_protect_sense() {
    // A freshly converted image is not write protected: sensing returns 0.
    let (mut dc, mut ram) = controller_with_disk();
    dc.handle_soft_sw(0xC0E9, &mut ram); // drives on
    dc.handle_soft_sw(0xC0ED, &mut ram); // shift on: sense mode
    dc.handle_soft_sw(0xC0EE, &mut ram); // read mode touch stores the latch
    assert_eq!(ram[0xC0EE] & 0x80, 0x00);
}

#[test]
fn motor_off_countdown_stops_reading() {
    let (mut dc, mut ram) = controller_with_disk();
    dc.handle_soft_sw(0xC0E9, &mut ram); // drives on
    dc.handle_soft_sw(0xC0EE, &mut ram); // read mode
    dc.handle_soft_sw(0xC0EC, &mut ram); // clock one bit
    let ptr_running = dc.bit_pntr;
    assert!(ptr_running > 0);

    dc.handle_soft_sw(0xC0E8, &mut ram); // drives off: 60-frame countdown
    // While the countdown runs, the drive still reads.
    dc.handle_soft_sw(0xC0EC, &mut ram);
    assert!(dc.bit_pntr != ptr_running);

    for _ in 0..60 {
        dc.handle_motor_off_delay();
    }
    assert!(!dc.drives_on);
    let ptr_stopped = dc.bit_pntr;
    dc.handle_soft_sw(0xC0EC, &mut ram);
    assert_eq!(dc.bit_pntr, ptr_stopped);
}

#[test]
fn no_image_means_no_reaction() {
    let mut dc = DiskController::new(0x60);
    let mut ram: Vec<u8> = vec![0u8; 0x10000];
    dc.handle_soft_sw(0xC0E9, &mut ram);
    assert!(!dc.drives_on);
}

#[test]
fn drive_selection() {
    let (mut dc, mut ram) = controller_with_disk();
    assert_eq!(dc.current_drive, 1);
    dc.handle_soft_sw(0xC0EB, &mut ram);
    assert_eq!(dc.current_drive, 2);
    dc.handle_soft_sw(0xC0EA, &mut ram);
    assert_eq!(dc.current_drive, 1);
}
