use chip8_core::emu::Emu;

/// A machine with `prog` loaded at 512, ready to step.
fn boot(prog: &[u8]) -> Emu {
    let mut e = Emu::new();
    e.load(prog).unwrap();
    e
}

/// Step `n` times, expecting every step to succeed.
fn run(e: &mut Emu, n: usize) {
    for _ in 0..n {
        e.tick().unwrap();
    }
}

#[test]
fn set_immediate_scenario() {
    // 6xNN: register 0 becomes 5, program counter moves past the word.
    let mut e = boot(&[0x60, 0x05]);
    run(&mut e, 1);
    assert_eq!(e.register(0), 5);
    assert_eq!(e.program_counter(), 514);
}

#[test]
fn set_immediate_leaves_other_registers() {
    let mut e = boot(&[0x6A, 0x42]);
    run(&mut e, 1);
    for i in 0..16 {
        let expected = if i == 0xA { 0x42 } else { 0 };
        assert_eq!(e.register(i), expected);
    }
}

#[test]
fn add_immediate_wraps_and_spares_flag() {
    // V5 = 255, then V5 += 3: (255 + 3) mod 256 = 2, flag register untouched.
    let mut e = boot(&[0x65, 0xFF, 0x75, 0x03]);
    run(&mut e, 2);
    assert_eq!(e.register(5), 2);
    assert_eq!(e.register(0xF), 0);
}

#[test]
fn add_with_carry() {
    // 200 + 200 = 400: result 144, carry flag 1.
    let mut e = boot(&[0x60, 0xC8, 0x61, 0xC8, 0x80, 0x14]);
    run(&mut e, 3);
    assert_eq!(e.register(0), 144);
    assert_eq!(e.register(0xF), 1);
}

#[test]
fn add_without_carry() {
    let mut e = boot(&[0x60, 0x05, 0x61, 0x06, 0x80, 0x14]);
    run(&mut e, 3);
    assert_eq!(e.register(0), 11);
    assert_eq!(e.register(0xF), 0);
}

#[test]
fn sub_with_borrow() {
    // 5 - 7 borrows: result 254, flag 0.
    let mut e = boot(&[0x60, 0x05, 0x61, 0x07, 0x80, 0x15]);
    run(&mut e, 3);
    assert_eq!(e.register(0), 254);
    assert_eq!(e.register(0xF), 0);
}

#[test]
fn sub_without_borrow() {
    // 7 - 5: result 2, flag 1.
    let mut e = boot(&[0x60, 0x07, 0x61, 0x05, 0x80, 0x15]);
    run(&mut e, 3);
    assert_eq!(e.register(0), 2);
    assert_eq!(e.register(0xF), 1);
}

#[test]
fn sub_reversed_with_borrow() {
    // Vy - Vx = 5 - 7 borrows: result 254, flag 0.
    let mut e = boot(&[0x60, 0x07, 0x61, 0x05, 0x80, 0x17]);
    run(&mut e, 3);
    assert_eq!(e.register(0), 254);
    assert_eq!(e.register(0xF), 0);
}

#[test]
fn sub_reversed_without_borrow() {
    let mut e = boot(&[0x60, 0x05, 0x61, 0x07, 0x80, 0x17]);
    run(&mut e, 3);
    assert_eq!(e.register(0), 2);
    assert_eq!(e.register(0xF), 1);
}

#[test]
fn shift_right_keeps_low_bit() {
    let mut e = boot(&[0x60, 0x05, 0x80, 0x06]);
    run(&mut e, 2);
    assert_eq!(e.register(0), 2);
    assert_eq!(e.register(0xF), 1);
}

#[test]
fn shift_left_keeps_high_bit() {
    let mut e = boot(&[0x60, 0x81, 0x80, 0x0E]);
    run(&mut e, 2);
    assert_eq!(e.register(0), 2);
    assert_eq!(e.register(0xF), 1);
}

#[test]
fn register_move_or_and_xor() {
    let mut e = boot(&[0x60, 0x0C, 0x61, 0x0A, 0x80, 0x11]);
    run(&mut e, 3);
    assert_eq!(e.register(0), 0x0E);

    let mut e = boot(&[0x60, 0x0C, 0x61, 0x0A, 0x80, 0x12]);
    run(&mut e, 3);
    assert_eq!(e.register(0), 0x08);

    let mut e = boot(&[0x60, 0x0C, 0x61, 0x0A, 0x80, 0x13]);
    run(&mut e, 3);
    assert_eq!(e.register(0), 0x06);

    let mut e = boot(&[0x61, 0x0A, 0x80, 0x10]);
    run(&mut e, 2);
    assert_eq!(e.register(0), 0x0A);
}

#[test]
fn jump_sets_program_counter() {
    let mut e = boot(&[0x13, 0x45]);
    run(&mut e, 1);
    assert_eq!(e.program_counter(), 0x345);
}

#[test]
fn jump_with_offset() {
    let mut e = boot(&[0x60, 0x10, 0xB3, 0x00]);
    run(&mut e, 2);
    assert_eq!(e.program_counter(), 0x310);
}

#[test]
fn skip_if_equal_immediate() {
    // V0 = 7, skip the 0x6001 word, land on 0x6002.
    let mut e = boot(&[0x60, 0x07, 0x30, 0x07, 0x60, 0x01, 0x60, 0x02]);
    run(&mut e, 3);
    assert_eq!(e.register(0), 2);
}

#[test]
fn skip_if_not_equal_immediate() {
    // V0 = 7 equals 7, so no skip: the 0x6001 word runs.
    let mut e = boot(&[0x60, 0x07, 0x40, 0x07, 0x60, 0x01]);
    run(&mut e, 3);
    assert_eq!(e.register(0), 1);
}

#[test]
fn skip_if_registers_equal() {
    let mut e = boot(&[0x60, 0x03, 0x61, 0x03, 0x50, 0x10, 0x60, 0x09, 0x60, 0x0A]);
    run(&mut e, 4);
    assert_eq!(e.register(0), 0x0A);
}

#[test]
fn skip_if_registers_differ() {
    let mut e = boot(&[0x60, 0x03, 0x61, 0x04, 0x90, 0x10, 0x60, 0x09, 0x60, 0x0A]);
    run(&mut e, 4);
    assert_eq!(e.register(0), 0x0A);
}

#[test]
fn set_index_scenario() {
    let mut e = boot(&[0xA2, 0x0A]);
    run(&mut e, 1);
    assert_eq!(e.index_register(), 0x20A);
}

#[test]
fn call_pushes_return_address() {
    let mut e = boot(&[0x22, 0x08]);
    run(&mut e, 1);
    assert_eq!(e.stack_pointer(), 1);
    assert_eq!(e.stack_entry(0), 514);
    assert_eq!(e.program_counter(), 0x208);
}

#[test]
fn call_then_return_round_trip() {
    // Call 0x206, which holds a return; the counter comes back to the word
    // after the call.
    let mut e = boot(&[0x22, 0x06, 0x00, 0x00, 0x00, 0x00, 0x00, 0xEE]);
    run(&mut e, 2);
    assert_eq!(e.program_counter(), 0x202);
    assert_eq!(e.stack_pointer(), 0);
}

#[test]
fn random_masked_by_zero_is_zero() {
    let mut e = boot(&[0xC0, 0x00]);
    run(&mut e, 1);
    assert_eq!(e.register(0), 0);
}

#[test]
fn index_add_register() {
    let mut e = boot(&[0xA0, 0x10, 0x60, 0x05, 0xF0, 0x1E]);
    run(&mut e, 3);
    assert_eq!(e.index_register(), 0x15);
}

#[test]
fn glyph_address_is_five_per_digit() {
    let mut e = boot(&[0x60, 0x03, 0xF0, 0x29]);
    run(&mut e, 2);
    assert_eq!(e.index_register(), 15);
}

#[test]
fn decimal_digits_stored_and_read_back() {
    // V0 = 251, spilled as 2, 5, 1 and loaded back into V0..V2.
    let mut e = boot(&[0x60, 0xFB, 0xA3, 0x00, 0xF0, 0x33, 0xF2, 0x65]);
    run(&mut e, 4);
    assert_eq!(e.register(0), 2);
    assert_eq!(e.register(1), 5);
    assert_eq!(e.register(2), 1);
}

#[test]
fn store_and_load_registers_round_trip() {
    let mut e = boot(&[
        0x60, 0x11, 0x61, 0x22, 0xA3, 0x00, 0xF1, 0x55, 0x60, 0x00, 0x61, 0x00, 0xF1, 0x65,
    ]);
    run(&mut e, 7);
    assert_eq!(e.register(0), 0x11);
    assert_eq!(e.register(1), 0x22);
}

#[test]
fn glyph_table_survives_in_memory() {
    // Load registers from address 0: the glyph for digit 0.
    let mut e = boot(&[0xA0, 0x00, 0xF4, 0x65]);
    run(&mut e, 2);
    assert_eq!(e.register(0), 0xF0);
    assert_eq!(e.register(1), 0x90);
    assert_eq!(e.register(2), 0x90);
    assert_eq!(e.register(3), 0x90);
    assert_eq!(e.register(4), 0xF0);
}

#[test]
fn draw_glyph_then_redraw_restores() {
    // Draw glyph 0 at (0, 0), then draw it again: the display returns to
    // all-dark and the second draw reports its collisions.
    let mut e = boot(&[0x60, 0x00, 0xA0, 0x00, 0xD0, 0x05, 0xD0, 0x05]);
    run(&mut e, 3);
    let lit: Vec<bool> = e.get_display().to_vec();
    assert!(lit[0] && lit[1] && lit[2] && lit[3]);
    assert!(!lit[4]);
    assert_eq!(e.register(0xF), 0);
    run(&mut e, 1);
    assert!(e.get_display().iter().all(|p| !p));
    assert_eq!(e.register(0xF), 1);
}

#[test]
fn draw_wraps_columns() {
    // Store a full row byte 0xFF, then draw it one row high at (60, 0):
    // columns 60..64 and 0..4 of the top row light up, nothing else.
    let mut e = boot(&[
        0x60, 0xFF, 0xA3, 0x00, 0xF0, 0x55, 0x60, 0x3C, 0x61, 0x00, 0xD0, 0x11,
    ]);
    run(&mut e, 6);
    let d = e.get_display();
    for x in 0..64 {
        let expected = (60..64).contains(&x) || x < 4;
        assert_eq!(d[x], expected, "column {x}");
    }
    for x in 0..64 {
        assert!(!d[64 + x]);
    }
    assert_eq!(e.register(0xF), 0);
}

#[test]
fn clear_display() {
    let mut e = boot(&[0x60, 0x00, 0xA0, 0x00, 0xD0, 0x05, 0x00, 0xE0]);
    run(&mut e, 4);
    assert!(e.get_display().iter().all(|p| !p));
}

#[test]
fn key_skip_when_selected_key_pressed() {
    // The skip instruction reads the key numbered by the value in Vx:
    // with V4 = 4 and key 4 down, the following load is skipped.
    let mut e = Emu::new();
    e.keypress(4, true).unwrap();
    e.load(&[0x64, 0x04, 0xE4, 0x9E, 0x60, 0x01, 0x60, 0x00]).unwrap();
    run(&mut e, 3);
    assert_eq!(e.register(0), 0);
}

#[test]
fn key_skip_selector_reads_register() {
    // With V4 still 0, the same instruction looks at key 0, which is up:
    // no skip happens and the load runs.
    let mut e = Emu::new();
    e.keypress(4, true).unwrap();
    e.load(&[0xE4, 0x9E, 0x60, 0x01]).unwrap();
    run(&mut e, 2);
    assert_eq!(e.register(0), 1);
}

#[test]
fn key_skip_when_not_pressed() {
    let mut e = boot(&[0xE0, 0xA1, 0x60, 0x01, 0x60, 0x02]);
    run(&mut e, 2);
    assert_eq!(e.register(0), 2);
}

#[test]
fn wait_for_key_rewinds_until_pressed() {
    let mut e = boot(&[0xF0, 0x0A]);
    run(&mut e, 1);
    assert_eq!(e.program_counter(), 0x200);
    run(&mut e, 1);
    assert_eq!(e.program_counter(), 0x200);
    e.keypress(7, true).unwrap();
    run(&mut e, 1);
    assert_eq!(e.register(0), 7);
    assert_eq!(e.program_counter(), 0x202);
}

#[test]
fn wait_for_key_takes_lowest_pressed() {
    let mut e = boot(&[0xF0, 0x0A]);
    e.keypress(9, true).unwrap();
    e.keypress(3, true).unwrap();
    run(&mut e, 1);
    assert_eq!(e.register(0), 3);
}
