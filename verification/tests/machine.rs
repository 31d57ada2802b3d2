use apple2_core::apple2::{Apple2, ConfigError, KEY_LEFT, KEY_RIGHT};
use apple2_core::sound::SoundHandler;

fn machine() -> Apple2 {
    Apple2::new(vec![0u8; 0x800]).expect("rom size fits")
}

#[test]
fn keyboard_latch_and_strobe() {
    // Inject key A (0xC1). Reading 0xC000 sees it; a read of 0xC010
    // clears the strobe bit, after which 0xC000 reads 0x41.
    let mut a2 = machine();
    a2.input_char(0xC1);
    assert_eq!(a2.mem_manager.mem_read(0xC000), 0xC1);
    a2.mem_manager.mem_read(0xC010);
    a2.step_instruction(4);
    assert_eq!(a2.mem_manager.mem_read(0xC000), 0x41);
}

#[test]
fn speaker_toggles_once_per_read() {
    let mut s = SoundHandler::new();
    assert!(!s.polarity);
    s.handle_soft_sw(0xC030);
    assert!(s.polarity);
    s.handle_soft_sw(0xC03F);
    assert!(!s.polarity);
    // Outside the speaker page nothing moves.
    s.handle_soft_sw(0xC040);
    assert!(!s.polarity);
    s.handle_soft_sw(0xC02F);
    assert!(!s.polarity);
}

#[test]
fn speaker_tone_transitions() {
    // Read 0xC030 every 46 CPU cycles while sampling every 23: the
    // sample vector alternates in pairs, giving 22,050 transitions over
    // 44,100 samples.
    let mut a2 = machine();
    a2.begin_frame();
    for k in 0..44100u32 {
        if k % 2 == 0 {
            a2.mem_manager.mem_read(0xC030);
        }
        a2.step_instruction(23);
    }
    let samples = a2.end_frame().expect("polarity moved");
    assert_eq!(samples.len(), 44100);
    let transitions = samples.windows(2).filter(|w| w[0] != w[1]).count();
    assert_eq!(transitions, 22050);
}

#[test]
fn sample_boundaries_keep_their_remainder() {
    // Instructions of 24 then 22 cycles span two 23-cycle sample
    // boundaries; the counter keeps the remainder, so both are taken.
    let mut a2 = machine();
    a2.begin_frame();
    a2.step_instruction(24);
    a2.step_instruction(22);
    assert_eq!(a2.speaker_samples.len(), 2);
    assert_eq!(a2.sample_cycles, 0);
}

#[test]
fn still_speaker_yields_no_audio() {
    let mut a2 = machine();
    a2.begin_frame();
    for _ in 0..100 {
        a2.step_instruction(23);
    }
    assert!(a2.end_frame().is_none());
}

#[test]
fn frame_pacing() {
    let mut a2 = machine();
    a2.begin_frame();
    assert!(!a2.frame_done(60));
    // 1,024,000 / 60 = 17,066 cycles per frame.
    for _ in 0..2438 {
        a2.step_instruction(7);
    }
    assert!(a2.frame_done(60));
}

#[test]
fn bank_switch_scenario_through_the_bus() {
    // From reset: read 0xC083 twice, write 0x55 to 0xD000, read it back;
    // then read 0xC082 and see the ROM byte again.
    let mut a2 = machine();
    a2.reset();
    a2.mem_manager.memory[0xD000] = 0xAA; // stands for a firmware byte
    a2.mem_manager.mem_read(0xC083);
    a2.mem_manager.mem_read(0xC083);
    a2.step_instruction(2);
    a2.mem_manager.mem_write(0xD000, 0x55);
    a2.step_instruction(1);
    assert_eq!(a2.mem_manager.mem_read(0xD000), 0x55);
    a2.mem_manager.mem_read(0xC082);
    a2.step_instruction(2);
    assert_eq!(a2.mem_manager.mem_read(0xD000), 0xAA);
}

#[test]
fn disk_seek_through_the_bus() {
    // With a valid image inserted, the phase sequence "phase0 on, phase1
    // on, phase0 off, phase2 on, phase1 off" leaves the head at
    // half-track 2.
    let mut a2 = machine();
    let dsk: Vec<u8> = vec![0u8; 143360];
    let mut woz: Vec<u8> = vec![0u8; 250000];
    apple2_core::dsk2woz::convert(&dsk, &mut woz, false);
    let img = apple2_core::wizard_of_woz::WozImage::new(&woz).expect("parses");
    a2.insert_disk(img);
    for addr in [0xC0E9usize, 0xC0E1, 0xC0E3, 0xC0E0, 0xC0E5, 0xC0E2] {
        a2.mem_manager.mem_read(addr);
        a2.step_instruction(4);
    }
    assert_eq!(a2.disk_controller.half_track, 2);
}

#[test]
fn rom_loading() {
    let mut a2 = machine();
    let fw: Vec<u8> = (0..0x3000).map(|i| (i % 256) as u8).collect();
    let disk2: Vec<u8> = (0..0x100).map(|i| (255 - i % 256) as u8).collect();
    a2.load_rom(&fw, &disk2).expect("sizes fit");
    assert_eq!(a2.mem_manager.memory[0xD000], fw[0]);
    assert_eq!(a2.mem_manager.memory[0xFFFF], fw[0x2FFF]);
    assert_eq!(a2.mem_manager.memory[0xC600], disk2[0]);
    assert_eq!(a2.mem_manager.memory[0xC6FF], disk2[0xFF]);
}

#[test]
fn rom_size_errors() {
    let mut a2 = machine();
    let short_fw: Vec<u8> = vec![0u8; 100];
    let disk2: Vec<u8> = vec![0u8; 0x100];
    match a2.load_rom(&short_fw, &disk2) {
        Err(e) => {
            assert_eq!(e, ConfigError::BadFirmwareRom);
            assert_eq!(e.message(), "The firmware ROM must be 12,288 bytes.");
        }
        Ok(()) => panic!("expected a rejection"),
    }
    let fw: Vec<u8> = vec![0u8; 0x3000];
    let short_disk: Vec<u8> = vec![0u8; 10];
    match a2.load_rom(&fw, &short_disk) {
        Err(e) => assert_eq!(e, ConfigError::BadDiskRom),
        Ok(()) => panic!("expected a rejection"),
    }
    match Apple2::new(vec![0u8; 3]) {
        Err(e) => assert_eq!(e, ConfigError::BadCharRom),
        Ok(_) => panic!("expected a rejection"),
    }
}

#[test]
fn arrow_key_codes() {
    assert_eq!(KEY_RIGHT, 0x95);
    assert_eq!(KEY_LEFT, 0x88);
}
