use chip8_core::frontend::{keymap, render_luminance};
use chip8_core::snapshot::{framegrab_image, IMAGE_BYTES, IMAGE_WIDTH};
use chip8_core::{Chip8, Chip8Error, DISPLAY_PIXELS, DISPLAY_WIDTH, FONT_START, PROGRAM_START};

fn program(opcodes: &[u16]) -> Chip8 {
    let mut chip8 = Chip8::new(7);
    let rom: Vec<u8> = opcodes.iter().flat_map(|op| op.to_be_bytes()).collect();
    chip8.load_rom(&rom).unwrap();
    chip8
}

fn steps(chip8: &mut Chip8, n: usize) {
    for _ in 0..n {
        chip8.step().unwrap();
    }
}

#[test]
fn new_machine_state() {
    let c = Chip8::new(5);
    assert_eq!(c.pc as usize, PROGRAM_START);
    assert_eq!(c.sp, 0);
    assert_eq!(c.rng, 5);
    assert_eq!(&c.memory[FONT_START..FONT_START + 5], &[0xF0, 0x90, 0x90, 0x90, 0xF0]);
    assert_eq!(&c.memory[FONT_START + 75..FONT_START + 80], &[0xF0, 0x80, 0xF0, 0x80, 0x80]);
    assert_eq!(c.memory[FONT_START - 1], 0);
    assert_eq!(c.memory[FONT_START + 80], 0);
    assert!(c.display().iter().all(|&p| !p));
    assert!(c.is_well_formed());
}

#[test]
fn zero_seed_is_remapped() {
    let c = Chip8::new(0);
    assert_eq!(c.rng, 0x2A2A_2A2A);
}

#[test]
fn rng_follows_xorshift32() {
    let mut c = program(&[0xC0FF]);
    steps(&mut c, 1);
    let mut x: u32 = 7;
    x ^= x << 13;
    x ^= x >> 17;
    x ^= x << 5;
    assert_eq!(c.rng, x);
    assert_eq!(c.v[0], (x >> 24) as u8);
    assert_ne!(c.rng, 0);
}

#[test]
fn load_rom_fills_program_memory_exactly() {
    let mut c = Chip8::new(1);
    let rom = vec![0xAB; 4096 - 0x200];
    assert_eq!(c.load_rom(&rom), Ok(()));
    assert_eq!(c.memory[0x200], 0xAB);
    assert_eq!(c.memory[0xFFF], 0xAB);
    assert_eq!(c.memory[0x1FF], 0);

    let too_big = vec![0u8; 4096 - 0x200 + 1];
    let before = c.memory;
    assert_eq!(c.load_rom(&too_big), Err(Chip8Error::RomTooLarge(3585)));
    assert_eq!(c.memory, before);
}

#[test]
fn reset_keeps_rom_and_restarts() {
    let mut c = program(&[0x6A2B, 0x2300, 0x00E0]);
    steps(&mut c, 2);
    c.key_down(3);
    let rng = c.rng;
    c.reset();
    assert_eq!(c.pc, 0x200);
    assert_eq!(c.sp, 0);
    assert_eq!(c.v[0xA], 0);
    assert!(!c.keys[3]);
    assert_eq!(c.rng, rng);
    assert_eq!(c.memory[0x200], 0x6A);
    assert_eq!(c.memory[0x201], 0x2B);
    steps(&mut c, 1);
    assert_eq!(c.v[0xA], 0x2B);
}

#[test]
fn clear_screen_and_ignored_sys() {
    let mut c = program(&[0x6000, 0xF029, 0xD005, 0x0123, 0x00E0]);
    steps(&mut c, 3);
    assert!(c.display().iter().any(|&p| p));
    steps(&mut c, 1); // SYS 0x123 does nothing but advance
    assert_eq!(c.pc, 0x208);
    steps(&mut c, 1);
    assert!(c.display().iter().all(|&p| !p));
}

#[test]
fn unknown_opcodes_in_every_class() {
    for op in [0x5011u16, 0x9012, 0x8018, 0xE0FF, 0xF0FF] {
        let mut c = program(&[op]);
        let before_v = c.v;
        assert_eq!(c.step(), Err(Chip8Error::UnknownOpcode(op)));
        assert_eq!(c.pc, 0x202, "the PC still moves past the bad word");
        assert_eq!(c.v, before_v);
    }
}

#[test]
fn error_messages() {
    assert_eq!(Chip8Error::UnknownOpcode(0xF0FF).message(), "unknown opcode 0xF0FF");
    assert_eq!(Chip8Error::UnknownOpcode(0x00AB).message(), "unknown opcode 0x00AB");
    assert_eq!(Chip8Error::StackOverflow.message(), "call stack overflow");
    assert_eq!(Chip8Error::StackUnderflow.message(), "return with empty call stack");
    assert_eq!(
        Chip8Error::RomTooLarge(4096).message(),
        "ROM is 4096 bytes; at most 3584 fit"
    );
    assert_eq!(Chip8Error::RomTooLarge(0).message(), "ROM is 0 bytes; at most 3584 fit");
}

#[test]
fn call_then_return_resumes_after_call() {
    let mut c = program(&[0x6001, 0x2300]);
    c.memory[0x300] = 0x00;
    c.memory[0x301] = 0xEE;
    steps(&mut c, 1);
    let (pc, sp) = (c.pc, c.sp);
    steps(&mut c, 2);
    assert_eq!(c.pc, pc + 2);
    assert_eq!(c.sp, sp);
}

#[test]
fn waiting_step_changes_nothing() {
    let mut c = program(&[0xF50A]);
    steps(&mut c, 1);
    assert_eq!(c.waiting_for_key, Some(5));
    let pc = c.pc;
    steps(&mut c, 10);
    assert_eq!(c.pc, pc);
    c.key_down(0x20); // not a keypad key: ignored, still waiting
    assert_eq!(c.waiting_for_key, Some(5));
    c.key_down(0x7);
    assert_eq!(c.waiting_for_key, None);
    assert_eq!(c.v[5], 0x7);
    assert!(c.keys[7]);
    c.key_up(7);
    assert!(!c.keys[7]);
}

#[test]
fn timers_saturate_at_zero() {
    let mut c = program(&[0x6003, 0xF015, 0xF018]);
    steps(&mut c, 3);
    for _ in 0..2 {
        c.tick_timers();
    }
    assert_eq!(c.delay_timer, 1);
    assert!(c.beeping());
    for _ in 0..5 {
        c.tick_timers();
    }
    assert_eq!(c.delay_timer, 0);
    assert_eq!(c.sound_timer, 0);
    assert!(!c.beeping());
}

#[test]
fn flags_complete_arithmetic() {
    for (a, b) in [(0u8, 0u8), (200, 100), (255, 255), (3, 10), (128, 1)] {
        let mut c = program(&[0x6000 | a as u16, 0x6100 | b as u16, 0x8014]);
        steps(&mut c, 3);
        assert_eq!(c.v[0] as u32 + 256 * c.v[0xF] as u32, a as u32 + b as u32);

        let mut c = program(&[0x6000 | a as u16, 0x6100 | b as u16, 0x8015]);
        steps(&mut c, 3);
        assert_eq!(c.v[0] as i32 - 256 * (1 - c.v[0xF] as i32), a as i32 - b as i32);

        let mut c = program(&[0x6000 | a as u16, 0x800E]);
        steps(&mut c, 2);
        assert_eq!(c.v[0] as u32 + 256 * c.v[0xF] as u32, 2 * a as u32);
    }
}

#[test]
fn store_then_load_round_trip() {
    let mut c = program(&[0x6011, 0x6122, 0x6233, 0xAFFE, 0xF255, 0x6000, 0x6100, 0x6200, 0xF265]);
    steps(&mut c, 9);
    assert_eq!((c.v[0], c.v[1], c.v[2]), (0x11, 0x22, 0x33));
    // The store wrapped around the end of memory.
    assert_eq!(c.memory[0xFFE], 0x11);
    assert_eq!(c.memory[0xFFF], 0x22);
    assert_eq!(c.memory[0x000], 0x33);
}

#[test]
fn index_arithmetic_wraps() {
    let mut c = program(&[0xAFFF, 0x6002, 0xF01E]);
    steps(&mut c, 3);
    assert_eq!(c.i, 0x001);
}

#[test]
fn jump_v0_wraps() {
    let mut c = program(&[0x60FF, 0xBFFF]);
    steps(&mut c, 2);
    assert_eq!(c.pc, (0xFFF + 0xFF) & 0xFFF);
}

#[test]
fn draw_clips_at_right_edge_and_erases_twice() {
    let mut c = program(&[0x603C, 0x6100, 0xF029, 0xD015, 0xD015]); // x = 60
    steps(&mut c, 4);
    // "0" is 0xF0 in its first row: columns 60..63 lit, nothing wraps to 0.
    assert!(c.display()[60..64].iter().all(|&p| p));
    assert!(!c.display()[0]);
    steps(&mut c, 1);
    assert!(c.display().iter().all(|&p| !p));
    assert_eq!(c.v[0xF], 1);
}

#[test]
fn keymap_layout() {
    let expected = [
        ('1', 0x1), ('2', 0x2), ('3', 0x3), ('4', 0xC),
        ('q', 0x4), ('w', 0x5), ('e', 0x6), ('r', 0xD),
        ('a', 0x7), ('s', 0x8), ('d', 0x9), ('f', 0xE),
        ('z', 0xA), ('x', 0x0), ('c', 0xB), ('v', 0xF),
    ];
    for (key, pad) in expected {
        assert_eq!(keymap(key), Some(pad));
    }
    assert_eq!(keymap('5'), None);
    assert_eq!(keymap('p'), None);
}

#[test]
fn luminance_of_display() {
    let mut c = program(&[0x6000, 0xF029, 0xD001]);
    steps(&mut c, 3);
    let mut pixels = [7u8; DISPLAY_PIXELS];
    render_luminance(c.display(), &mut pixels);
    assert_eq!(&pixels[0..5], &[0xFF, 0xFF, 0xFF, 0xFF, 0x00]);
    assert_eq!(pixels[DISPLAY_WIDTH], 0x00);
}

#[test]
fn framegrab_picture() {
    let mut c = program(&[0x6000, 0xF029, 0xD001]);
    steps(&mut c, 3);
    let img = framegrab_image(c.display());
    assert_eq!(img.len(), IMAGE_BYTES);
    let at = |x: usize, y: usize| {
        let k = (y * IMAGE_WIDTH + x) * 3;
        [img[k], img[k + 1], img[k + 2]]
    };
    assert_eq!(at(0, 0), [0x12, 0x16, 0x0F]); // margin
    assert_eq!(at(28, 28), [0xF5, 0xA7, 0x3B]); // lit cell (0, 0)
    assert_eq!(at(28 + 11, 28), [0x8A, 0x60, 0x25]); // its grid edge
    assert_eq!(at(28 + 4 * 12, 28), [0x1E, 0x24, 0x19]); // unlit cell (4, 0)
    assert_eq!(at(28 + 4 * 12 + 11, 28), [0x12, 0x16, 0x0F]); // unlit grid edge
}

/// A small program that counts through the sixteen font glyphs forever,
/// drawing each one and waiting on the delay timer between them, runs
/// headless for thousands of cycles without an error and leaves pixels on
/// screen.
#[test]
fn drawing_loop_runs_headless() {
    let program = [
        0x6000u16, // 200: LD V0, 0        glyph
        0x6108,    // 202: LD V1, 8        x
        0x6208,    // 204: LD V2, 8        y
        0x00E0,    // 206: CLS
        0xF029,    // 208: LD F, V0
        0xD125,    // 20A: DRW V1, V2, 5
        0x6302,    // 20C: LD V3, 2
        0xF315,    // 20E: LD DT, V3
        0xF407,    // 210: LD V4, DT
        0x3400,    // 212: SE V4, 0
        0x1210,    // 214: JP 0x210
        0x7001,    // 216: ADD V0, 1
        0x1206,    // 218: JP 0x206
    ];
    let mut c = Chip8::new(0xC0FFEE);
    let rom: Vec<u8> = program.iter().flat_map(|op| op.to_be_bytes()).collect();
    c.load_rom(&rom).unwrap();
    for cycle in 0..5000 {
        c.step().unwrap();
        if cycle % 11 == 0 {
            c.tick_timers();
        }
    }
    assert!(c.display().iter().any(|&p| p), "the program drew nothing");
}
