use chip8_core::frontend::{command_for, Command, InputEvent, Session};
use chip8_core::{Chip8, Chip8Error};

fn rom_of(opcodes: &[u16]) -> Vec<u8> {
    opcodes.iter().flat_map(|op| op.to_be_bytes()).collect()
}

fn loaded(opcodes: &[u16]) -> Chip8 {
    let mut c = Chip8::new(3);
    c.load_rom(&rom_of(opcodes)).unwrap();
    c
}

#[test]
fn frame_runs_steps_then_ticks_and_reports_beep() {
    // LD V0, 2; LD ST, V0; LD DT, V0; then spin.
    let mut c = loaded(&[0x6002, 0xF018, 0xF015, 0x1206]);
    assert_eq!(c.run_frame(4, false), Ok(true)); // sound 2 -> 1 after the tick
    assert_eq!(c.pc, 0x206);
    assert_eq!(c.sound_timer, 1);
    assert_eq!(c.delay_timer, 1);
    assert_eq!(c.run_frame(4, false), Ok(false)); // sound 1 -> 0
    assert_eq!(c.sound_timer, 0);
}

#[test]
fn paused_frame_changes_nothing() {
    let mut c = loaded(&[0x6002, 0xF018]);
    let before = (c.pc, c.v, c.sound_timer);
    assert_eq!(c.run_frame(10, true), Ok(false));
    assert_eq!((c.pc, c.v, c.sound_timer), before);
}

#[test]
fn frame_stops_at_error_without_ticking() {
    let mut c = loaded(&[0x6005, 0xF015, 0xF0FF, 0x6199]);
    assert_eq!(c.run_frame(10, false), Err(Chip8Error::UnknownOpcode(0xF0FF)));
    assert_eq!(c.pc, 0x206);
    assert_eq!(c.delay_timer, 5, "no tick after an error");
    assert_eq!(c.v[1], 0);
}

#[test]
fn headless_cycles_tick_on_schedule() {
    // LD V0, 20; LD DT, V0; spin.
    let mut c = loaded(&[0x6014, 0xF015, 0x1204]);
    assert_eq!(c.run_cycles(23, 11), Ok(()));
    // Ticks after cycles 0, 11 and 22; DT was loaded in cycle 1.
    assert_eq!(c.delay_timer, 18);
}

#[test]
fn restart_resets_and_reloads() {
    let mut c = loaded(&[0x6A2B, 0x2300]);
    c.run_frame(2, false).unwrap();
    assert_eq!(c.restart(&rom_of(&[0x6B01])), Ok(()));
    assert_eq!(c.pc, 0x200);
    assert_eq!(c.sp, 0);
    assert_eq!(c.v[0xA], 0);
    assert_eq!(c.memory[0x200], 0x6B);
    assert_eq!(c.memory[0x202], 0x23, "the rest of the old ROM stays");
    assert_eq!(c.restart(&vec![0u8; 4000]), Err(Chip8Error::RomTooLarge(4000)));
    assert_eq!(c.pc, 0x200);
}

#[test]
fn commands_for_events() {
    let down = |key: char, repeat: bool| InputEvent::KeyDown { key: Some(key), repeat };
    assert_eq!(command_for(InputEvent::Quit), Command::Quit);
    assert_eq!(command_for(down('\u{1b}', false)), Command::Quit);
    assert_eq!(command_for(down('\u{1b}', true)), Command::Quit);
    assert_eq!(command_for(down('p', false)), Command::TogglePause);
    assert_eq!(command_for(down('p', true)), Command::Ignore);
    assert_eq!(command_for(down('\u{8}', false)), Command::Restart);
    assert_eq!(command_for(down('q', false)), Command::Press(0x4));
    assert_eq!(command_for(down('q', true)), Command::Ignore);
    assert_eq!(command_for(down('m', false)), Command::Ignore);
    assert_eq!(command_for(InputEvent::KeyUp { key: Some('v') }), Command::Release(0xF));
    assert_eq!(command_for(InputEvent::KeyUp { key: Some('p') }), Command::Ignore);
    assert_eq!(command_for(InputEvent::KeyDown { key: None, repeat: false }), Command::Ignore);
}

#[test]
fn session_pauses_restarts_and_quits() {
    let rom = rom_of(&[0x6001, 0x7001, 0x1202]);
    let mut s = Session::new(9, &rom).unwrap();
    assert!(!s.paused);
    assert_eq!(s.frame(5), Ok(false));
    let v0 = s.chip8.v[0];
    assert!(v0 > 1);
    assert_eq!(s.handle_event(InputEvent::KeyDown { key: Some('p'), repeat: false }, &rom), Ok(true));
    assert!(s.paused);
    assert_eq!(s.frame(5), Ok(false));
    assert_eq!(s.chip8.v[0], v0);
    assert_eq!(s.handle_event(InputEvent::KeyDown { key: Some('w'), repeat: false }, &rom), Ok(true));
    assert!(s.chip8.keys[5]);
    assert_eq!(s.handle_event(InputEvent::KeyUp { key: Some('w') }, &rom), Ok(true));
    assert!(!s.chip8.keys[5]);
    assert_eq!(s.handle_event(InputEvent::KeyDown { key: Some('\u{8}'), repeat: false }, &rom), Ok(true));
    assert_eq!(s.chip8.v[0], 0);
    assert_eq!(s.chip8.pc, 0x200);
    assert_eq!(s.handle_event(InputEvent::Quit, &rom), Ok(false));
    assert!(Session::new(1, &vec![0u8; 3585]).is_err());
}
