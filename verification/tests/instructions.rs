use chip8_core::{Chip8, Chip8Error, DISPLAY_WIDTH, FONT_START};

/// Build a machine executing the given opcodes from 0x200.
fn machine(opcodes: &[u16]) -> Chip8 {
    let mut chip8 = Chip8::new(1);
    let rom: Vec<u8> = opcodes.iter().flat_map(|op| op.to_be_bytes()).collect();
    chip8.load_rom(&rom).unwrap();
    chip8
}

fn run(chip8: &mut Chip8, steps: usize) {
    for _ in 0..steps {
        chip8.step().unwrap();
    }
}

#[test]
fn load_and_add_immediate() {
    let mut c = machine(&[0x6A2B, 0x7A05]); // LD VA, 0x2B; ADD VA, 5
    run(&mut c, 2);
    assert_eq!(c.v[0xA], 0x30);
}

#[test]
fn add_immediate_wraps_without_flag() {
    let mut c = machine(&[0x60FF, 0x7002]); // LD V0, 0xFF; ADD V0, 2
    c.v[0xF] = 7;
    run(&mut c, 2);
    assert_eq!(c.v[0], 1);
    assert_eq!(c.v[0xF], 7, "7xkk must not touch VF");
}

#[test]
fn jump_and_jump_v0() {
    let mut c = machine(&[0x1300]); // JP 0x300
    run(&mut c, 1);
    assert_eq!(c.pc, 0x300);

    let mut c = machine(&[0x6005, 0xB300]); // LD V0, 5; JP V0, 0x300
    run(&mut c, 2);
    assert_eq!(c.pc, 0x305);
}

#[test]
fn call_and_return() {
    let mut c = machine(&[0x2206, 0x0000, 0x0000, 0x00EE]); // CALL 0x206 ... RET
    run(&mut c, 1);
    assert_eq!(c.pc, 0x206);
    assert_eq!(c.sp, 1);
    run(&mut c, 1); // RET
    assert_eq!(c.pc, 0x202);
    assert_eq!(c.sp, 0);
}

#[test]
fn stack_underflow_and_overflow() {
    let mut c = machine(&[0x00EE]);
    assert_eq!(c.step(), Err(Chip8Error::StackUnderflow));

    // CALL 0x200 forever: the 17th call must overflow.
    let mut c = machine(&[0x2200]);
    for _ in 0..16 {
        c.step().unwrap();
    }
    assert_eq!(c.step(), Err(Chip8Error::StackOverflow));
}

#[test]
fn skip_instructions() {
    // SE taken: V0 == 0x11 skips the JP.
    let mut c = machine(&[0x6011, 0x3011, 0x1200, 0x6499]);
    run(&mut c, 3);
    assert_eq!(c.v[4], 0x99);

    // SNE not taken: V0 == 0x11 falls through into LD V4.
    let mut c = machine(&[0x6011, 0x4011, 0x6499]);
    run(&mut c, 3);
    assert_eq!(c.v[4], 0x99);

    // 5xy0 / 9xy0 register compares.
    let mut c = machine(&[0x6007, 0x6107, 0x5010, 0x1200, 0x6499]);
    run(&mut c, 4);
    assert_eq!(c.v[4], 0x99);
}

#[test]
fn logic_ops() {
    let mut c = machine(&[0x60CC, 0x61AA, 0x8011]); // OR
    run(&mut c, 3);
    assert_eq!(c.v[0], 0xEE);

    let mut c = machine(&[0x60CC, 0x61AA, 0x8012]); // AND
    run(&mut c, 3);
    assert_eq!(c.v[0], 0x88);

    let mut c = machine(&[0x60CC, 0x61AA, 0x8013]); // XOR
    run(&mut c, 3);
    assert_eq!(c.v[0], 0x66);
}

#[test]
fn add_with_carry() {
    let mut c = machine(&[0x60FF, 0x6101, 0x8014]);
    run(&mut c, 3);
    assert_eq!(c.v[0], 0x00);
    assert_eq!(c.v[0xF], 1);

    let mut c = machine(&[0x6010, 0x6101, 0x8014]);
    run(&mut c, 3);
    assert_eq!(c.v[0], 0x11);
    assert_eq!(c.v[0xF], 0);
}

#[test]
fn sub_sets_not_borrow() {
    let mut c = machine(&[0x600A, 0x6103, 0x8015]); // 10 - 3
    run(&mut c, 3);
    assert_eq!(c.v[0], 7);
    assert_eq!(c.v[0xF], 1);

    let mut c = machine(&[0x6003, 0x610A, 0x8015]); // 3 - 10
    run(&mut c, 3);
    assert_eq!(c.v[0], 0xF9);
    assert_eq!(c.v[0xF], 0);

    let mut c = machine(&[0x6003, 0x610A, 0x8017]); // SUBN: 10 - 3
    run(&mut c, 3);
    assert_eq!(c.v[0], 7);
    assert_eq!(c.v[0xF], 1);
}

#[test]
fn shifts_capture_shifted_bit() {
    let mut c = machine(&[0x6005, 0x8006]); // SHR 0b101
    run(&mut c, 2);
    assert_eq!(c.v[0], 2);
    assert_eq!(c.v[0xF], 1);

    let mut c = machine(&[0x6081, 0x800E]); // SHL 0b1000_0001
    run(&mut c, 2);
    assert_eq!(c.v[0], 2);
    assert_eq!(c.v[0xF], 1);
}

#[test]
fn vf_result_wins_when_vf_is_operand() {
    // 8FF4: VF = VF + VF; the flag must overwrite the sum.
    let mut c = machine(&[0x6FFF, 0x8FF4]);
    run(&mut c, 2);
    assert_eq!(c.v[0xF], 1);
}

#[test]
fn rnd_is_masked_and_deterministic() {
    let mut a = machine(&[0xC00F, 0xC1FF]);
    let mut b = machine(&[0xC00F, 0xC1FF]);
    run(&mut a, 2);
    run(&mut b, 2);
    assert!(a.v[0] <= 0x0F);
    assert_eq!(a.v[0], b.v[0]);
    assert_eq!(a.v[1], b.v[1]);
}

#[test]
fn draw_xor_collision_and_erase() {
    // Draw the font sprite "0" twice at (0,0): the second draw erases it
    // and reports a collision in VF.
    let rom = [0x6000, 0xF029, 0xD005, 0xD005];
    let mut c = machine(&rom);
    run(&mut c, 3);
    assert!(c.display().iter().any(|&p| p));
    assert_eq!(c.v[0xF], 0);
    run(&mut c, 1);
    assert!(c.display().iter().all(|&p| !p));
    assert_eq!(c.v[0xF], 1);
}

#[test]
fn draw_wraps_start_and_clips_overflow() {
    // Start coordinates wrap modulo the display size…
    let mut c = machine(&[0x6040, 0x6120, 0xF029, 0xD015]); // (64, 32) ≡ (0, 0)
    run(&mut c, 4);
    assert!(c.display()[0..4].iter().any(|&p| p));

    // …but a sprite hanging off the bottom edge clips instead of wrapping.
    let mut c = machine(&[0x6000, 0x611E, 0xF029, 0xD015]); // y = 30
    run(&mut c, 4);
    let top_row_lit = c.display()[..DISPLAY_WIDTH].iter().any(|&p| p);
    assert!(!top_row_lit);
}

#[test]
fn keypad_skips() {
    // SKP taken when the key in V0 is held.
    let mut c = machine(&[0x6005, 0xE09E, 0x1200, 0x6499]);
    c.key_down(5);
    run(&mut c, 3);
    assert_eq!(c.v[4], 0x99);

    // SKNP taken when it is not.
    let mut c = machine(&[0x6005, 0xE0A1, 0x1200, 0x6499]);
    run(&mut c, 3);
    assert_eq!(c.v[4], 0x99);
}

#[test]
fn wait_for_key_blocks_then_stores() {
    let mut c = machine(&[0xF30A, 0x6499]);
    run(&mut c, 5); // stays parked on the wait
    assert_eq!(c.v[4], 0);
    c.key_down(0xB);
    run(&mut c, 1);
    assert_eq!(c.v[3], 0xB);
    assert_eq!(c.v[4], 0x99);
}

#[test]
fn timers_load_read_and_tick() {
    let mut c = machine(&[0x603C, 0xF015, 0xF018, 0xF107]);
    run(&mut c, 4);
    assert_eq!(c.v[1], 60);
    assert!(c.beeping());
    for _ in 0..60 {
        c.tick_timers();
    }
    assert_eq!(c.delay_timer, 0);
    assert!(!c.beeping());
}

#[test]
fn bcd_and_register_store_load() {
    // BCD of 234 at I, then read the digits back through Fx65.
    let mut c = machine(&[0x60EA, 0xA400, 0xF033, 0xF265]);
    run(&mut c, 4);
    assert_eq!((c.v[0], c.v[1], c.v[2]), (2, 3, 4));

    // Fx55 round-trip, and I must be left unchanged.
    let mut c = machine(&[0x6011, 0x6122, 0xA400, 0xF155]);
    run(&mut c, 4);
    assert_eq!(c.i, 0x400);
    assert_eq!(c.memory[0x400], 0x11);
    assert_eq!(c.memory[0x401], 0x22);
}

#[test]
fn font_addressing() {
    let mut c = machine(&[0x600A, 0xF029]); // sprite for 'A'
    run(&mut c, 2);
    assert_eq!(c.i as usize, FONT_START + 10 * 5);
    assert_eq!(c.memory[c.i as usize], 0xF0);
}

#[test]
fn unknown_opcode_is_reported() {
    let mut c = machine(&[0xF0FF]);
    assert_eq!(c.step(), Err(Chip8Error::UnknownOpcode(0xF0FF)));
}

#[test]
fn rom_too_large_is_rejected() {
    let mut c = Chip8::new(1);
    assert!(matches!(
        c.load_rom(&[0u8; 4096]),
        Err(Chip8Error::RomTooLarge(4096))
    ));
}
