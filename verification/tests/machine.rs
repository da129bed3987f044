use chip8_core::emu::Emu;
use chip8_core::model::Chip8Error;

/// A machine with `prog` loaded at 512, ready to step.
fn boot(prog: &[u8]) -> Emu {
    let mut e = Emu::new();
    e.load(prog).unwrap();
    e
}

#[test]
fn fresh_machine_state() {
    let e = Emu::new();
    assert_eq!(e.program_counter(), 512);
    assert_eq!(e.index_register(), 0);
    assert_eq!(e.stack_pointer(), 0);
    assert_eq!(e.delay_timer(), 0);
    assert_eq!(e.sound_timer(), 0);
    assert!(!e.play_beep);
    assert_eq!(e.get_display().len(), 2048);
    assert!(e.get_display().iter().all(|p| !p));
    for i in 0..16 {
        assert_eq!(e.register(i), 0);
    }
}

#[test]
fn load_at_capacity_succeeds() {
    let mut e = Emu::new();
    let rom = vec![0u8; 3584];
    assert_eq!(e.load(&rom), Ok(()));
}

#[test]
fn load_one_past_capacity_fails() {
    let mut e = Emu::new();
    let rom = vec![0u8; 3585];
    assert_eq!(e.load(&rom), Err(Chip8Error::RomTooLarge));
    // the failed load changed nothing; an in-range load still works
    assert_eq!(e.load(&[0x60, 0x09]), Ok(()));
    e.tick().unwrap();
    assert_eq!(e.register(0), 9);
}

#[test]
fn keypress_out_of_range_fails() {
    let mut e = Emu::new();
    assert_eq!(e.keypress(16, true), Err(Chip8Error::KeyIndexOutOfRange));
    assert_eq!(e.keypress(15, true), Ok(()));
}

#[test]
fn unknown_opcode_reported_and_state_kept() {
    let mut e = boot(&[0xFF, 0xFF]);
    assert_eq!(e.tick(), Err(Chip8Error::UnknownOpcode(0xFFFF)));
    assert_eq!(e.program_counter(), 0x200);
    assert_eq!(e.delay_timer(), 0);
}

#[test]
fn unmatched_zero_family_is_unknown() {
    let mut e = boot(&[0x01, 0x23]);
    assert_eq!(e.tick(), Err(Chip8Error::UnknownOpcode(0x0123)));
}

#[test]
fn no_op_succeeds() {
    let mut e = boot(&[0x00, 0x00]);
    assert_eq!(e.tick(), Ok(()));
    assert_eq!(e.program_counter(), 0x202);
}

#[test]
fn return_with_empty_stack_underflows() {
    let mut e = boot(&[0x00, 0xEE]);
    assert_eq!(e.tick(), Err(Chip8Error::StackUnderflow));
    assert_eq!(e.program_counter(), 0x200);
    assert_eq!(e.stack_pointer(), 0);
}

#[test]
fn seventeenth_call_overflows_stack() {
    // A call to its own address pushes on every step.
    let mut e = boot(&[0x22, 0x00]);
    for _ in 0..16 {
        assert_eq!(e.tick(), Ok(()));
    }
    assert_eq!(e.stack_pointer(), 16);
    assert_eq!(e.tick(), Err(Chip8Error::StackOverflow));
    assert_eq!(e.stack_pointer(), 16);
    assert_eq!(e.program_counter(), 0x200);
}

#[test]
fn sound_timer_latches_beep_on_run_out() {
    // V1 = 2, sound timer = 2; the timer reaches zero two decays later and
    // only then latches the beep.
    let mut e = boot(&[0x61, 0x02, 0xF1, 0x18, 0x00, 0x00, 0x00, 0x00]);
    e.tick().unwrap();
    e.tick().unwrap();
    assert_eq!(e.sound_timer(), 1);
    assert!(!e.play_beep);
    e.tick().unwrap();
    assert_eq!(e.sound_timer(), 0);
    assert!(e.play_beep);
    // the engine never clears the latch by itself
    e.tick().unwrap();
    assert!(e.play_beep);
    // the host does
    e.play_beep = false;
    e.tick().unwrap();
    assert!(!e.play_beep);
}

#[test]
fn delay_timer_counts_down_and_is_readable() {
    let mut e = boot(&[0x60, 0x05, 0xF0, 0x15, 0xF1, 0x07]);
    e.tick().unwrap();
    e.tick().unwrap();
    assert_eq!(e.delay_timer(), 4);
    e.tick().unwrap();
    assert_eq!(e.register(1), 4);
    assert_eq!(e.delay_timer(), 3);
}

#[test]
fn timer_decay_alone() {
    let mut e = boot(&[0x60, 0x03, 0xF0, 0x18]);
    e.tick().unwrap();
    e.tick().unwrap();
    assert_eq!(e.sound_timer(), 2);
    e.tick_timers();
    assert_eq!(e.sound_timer(), 1);
    assert!(!e.play_beep);
    e.tick_timers();
    assert_eq!(e.sound_timer(), 0);
    assert!(e.play_beep);
}

#[test]
fn reset_restores_creation_state() {
    let mut e = boot(&[0x60, 0x2A, 0xA3, 0x00, 0xF0, 0x18, 0x22, 0x0A]);
    for _ in 0..4 {
        e.tick().unwrap();
    }
    e.keypress(2, true).unwrap();
    e.reset();
    assert_eq!(e.program_counter(), 512);
    assert_eq!(e.index_register(), 0);
    assert_eq!(e.stack_pointer(), 0);
    assert_eq!(e.sound_timer(), 0);
    assert!(!e.play_beep);
    for i in 0..16 {
        assert_eq!(e.register(i), 0);
    }
    assert!(e.get_display().iter().all(|p| !p));
    // memory below 512 again holds the glyph table, and the program is gone:
    // address 512 reads as zero, a no-op word
    e.load(&[0xA0, 0x00, 0xF4, 0x65]).unwrap();
    e.tick().unwrap();
    e.tick().unwrap();
    assert_eq!(e.register(0), 0xF0);
    assert_eq!(e.register(4), 0xF0);
}

#[test]
fn failed_step_is_atomic() {
    // Set a timer first so the failing step would have decayed it if it
    // were not atomic.
    let mut e = boot(&[0x60, 0x05, 0xF0, 0x15, 0xFF, 0xFF]);
    e.tick().unwrap();
    e.tick().unwrap();
    let dt = e.delay_timer();
    let pc = e.program_counter();
    assert_eq!(e.tick(), Err(Chip8Error::UnknownOpcode(0xFFFF)));
    assert_eq!(e.delay_timer(), dt);
    assert_eq!(e.program_counter(), pc);
}
