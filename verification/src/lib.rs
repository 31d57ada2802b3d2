//! Emulation core of an Apple ][+ personal computer.
//!
//! The crate models the machine as plain data driven by bus cycles: a 64 KiB
//! memory map with Language-Card banked RAM, a Disk II controller fed by
//! WOZ2-style bit streams, a composite video compositor, a one-bit speaker,
//! and the frame-paced dispatch loop that ties them together. The 6502
//! interpreter and the host window/audio library are external collaborators:
//! they live outside this crate and talk to it through plain values.

pub mod apple2;
pub mod disk_controller;
pub mod dsk2woz;
pub mod graphics;
pub mod mem_manager;
pub mod sound;
pub mod wizard_of_woz;
