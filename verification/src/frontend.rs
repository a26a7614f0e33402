//! Logic the frontends share: the keyboard layout of the hex keypad, what
//! each keyboard event asks of the machine, the desktop session that pauses,
//! restarts and runs frames, and the conversion of the framebuffer to an
//! 8-bit luminance texture.
use vstd::prelude::*;
use crate::error::Chip8Error;
use crate::machine::Chip8;
use crate::model::{press_key, release_key, restart, run_frame};

verus! {

/// The physical keys of the 4×4 block 1234 / QWER / ASDF / ZXCV, row by
/// row, as the characters they type.
pub open spec fn keyboard_rows() -> Seq<Seq<char>> {
    seq![
        seq!['1', '2', '3', '4'],
        seq!['q', 'w', 'e', 'r'],
        seq!['a', 's', 'd', 'f'],
        seq!['z', 'x', 'c', 'v'],
    ]
}

/// The CHIP-8 hexadecimal keypad, row by row.
pub open spec fn keypad_rows() -> Seq<Seq<u8>> {
    seq![
        seq![0x1u8, 0x2, 0x3, 0xC],
        seq![0x4u8, 0x5, 0x6, 0xD],
        seq![0x7u8, 0x8, 0x9, 0xE],
        seq![0xAu8, 0x0, 0xB, 0xF],
    ]
}

/// Whether `c` is the key at `row`, `col` of the keyboard block.
pub open spec fn key_at(c: char, row: int, col: int) -> bool {
    0 <= row < 4 && 0 <= col < 4 && keyboard_rows()[row][col] == c
}

/// The keypad key that typed key `c` stands for, if any.
pub open spec fn keypad_of(c: char) -> Option<u8> {
    if exists|row: int, col: int| #[trigger] key_at(c, row, col) {
        let (row, col) = choose|row: int, col: int| #[trigger] key_at(c, row, col);
        Some(keypad_rows()[row][col])
    } else {
        None
    }
}

/// Map a typed key to the CHIP-8 keypad: each key of the 4×4 block
/// 1234 / QWER / ASDF / ZXCV stands for the keypad key in the same place.
pub fn keymap(key: char) -> (r: Option<u8>)
    ensures
        r is Some <==> exists|row: int, col: int| #[trigger] key_at(key, row, col),
        forall|row: int, col: int| #[trigger] key_at(key, row, col) ==> r == Some(keypad_rows()[row][col]),
        r == keypad_of(key),
{
    let r = match key {
        '1' => Some(0x1),
        '2' => Some(0x2),
        '3' => Some(0x3),
        '4' => Some(0xC),
        'q' => Some(0x4),
        'w' => Some(0x5),
        'e' => Some(0x6),
        'r' => Some(0xD),
        'a' => Some(0x7),
        's' => Some(0x8),
        'd' => Some(0x9),
        'f' => Some(0xE),
        'z' => Some(0xA),
        'x' => Some(0x0),
        'c' => Some(0xB),
        'v' => Some(0xF),
        _ => None,
    };
    proof {
        if r is Some {
            let (row, col) = if key == '1' { (0int, 0int) } else if key == '2' { (0, 1) } else if key == '3' { (0, 2) } else if key == '4' { (0, 3) }
                else if key == 'q' { (1, 0) } else if key == 'w' { (1, 1) } else if key == 'e' { (1, 2) } else if key == 'r' { (1, 3) }
                else if key == 'a' { (2, 0) } else if key == 's' { (2, 1) } else if key == 'd' { (2, 2) } else if key == 'f' { (2, 3) }
                else if key == 'z' { (3, 0) } else if key == 'x' { (3, 1) } else if key == 'c' { (3, 2) } else { (3, 3) };
            assert(key_at(key, row, col));
        }
    }
    r
}

/// A keyboard event of a desktop frontend: the window was closed, or a key
/// went down or up. `key` is the character the key types (control keys
/// included: Escape is `'\u{1b}'`, Backspace `'\u{8}'`); `None` for keys
/// that type none.
#[derive(Debug, Clone, Copy, PartialEq, Eq, Structural)]
pub enum InputEvent {
    Quit,
    KeyDown { key: Option<char>, repeat: bool },
    KeyUp { key: Option<char> },
}

/// What an event asks of the session.
#[derive(Debug, Clone, Copy, PartialEq, Eq, Structural)]
pub enum Command {
    /// Close the window or Escape: stop.
    Quit,
    /// P: pause or resume.
    TogglePause,
    /// Backspace: reset the machine and reload the ROM.
    Restart,
    /// A keypad key went down.
    Press(u8),
    /// A keypad key went up.
    Release(u8),
    /// Anything else, including auto-repeated key-downs.
    Ignore,
}

/// The command for `event`. Escape quits even when auto-repeated; P,
/// Backspace and keypad keys act on their first key-down only.
pub open spec fn command_of(event: InputEvent) -> Command {
    match event {
        InputEvent::Quit => Command::Quit,
        InputEvent::KeyDown { key: Some(c), repeat } => if c == '\u{1b}' {
            Command::Quit
        } else if repeat {
            Command::Ignore
        } else if c == 'p' {
            Command::TogglePause
        } else if c == '\u{8}' {
            Command::Restart
        } else {
            match keypad_of(c) {
                Some(k) => Command::Press(k),
                None => Command::Ignore,
            }
        },
        InputEvent::KeyUp { key: Some(c) } => match keypad_of(c) {
            Some(k) => Command::Release(k),
            None => Command::Ignore,
        },
        _ => Command::Ignore,
    }
}

/// Decide what `event` asks of the session.
pub fn command_for(event: InputEvent) -> (r: Command)
    ensures
        r == command_of(event),
{
    match event {
        InputEvent::Quit => Command::Quit,
        InputEvent::KeyDown { key: Some(c), repeat } => {
            if c == '\u{1b}' {
                Command::Quit
            } else if repeat {
                Command::Ignore
            } else if c == 'p' {
                Command::TogglePause
            } else if c == '\u{8}' {
                Command::Restart
            } else {
                match keymap(c) {
                    Some(k) => Command::Press(k),
                    None => Command::Ignore,
                }
            }
        },
        InputEvent::KeyUp { key: Some(c) } => match keymap(c) {
            Some(k) => Command::Release(k),
            None => Command::Ignore,
        },
        _ => Command::Ignore,
    }
}

/// A desktop session: the machine and whether it is paused.
pub struct Session {
    pub chip8: Chip8,
    pub paused: bool,
}

impl Session {
    /// A running session on a fresh machine seeded with `seed` and loaded
    /// with `rom`.
    pub fn new(seed: u32, rom: &[u8]) -> (r: Result<Session, Chip8Error>)
        ensures
            r is Ok <==> crate::model::load_result(rom@.len() as usize) is Ok,
            r matches Ok(s) ==> {
                &&& !s.paused
                &&& s.chip8.well_formed()
                &&& s.chip8@ == (crate::model::Machine {
                    memory: crate::model::load_memory(crate::model::initial_machine(seed).memory, rom@),
                    ..crate::model::initial_machine(seed)
                })
            },
            r matches Err(e) ==> e == Chip8Error::RomTooLarge(rom@.len() as usize),
    {
        let mut chip8 = Chip8::new(seed);
        match chip8.load_rom(rom) {
            Ok(()) => Ok(Session { chip8, paused: false }),
            Err(e) => Err(e),
        }
    }

    /// Carry out what `event` asks: `Ok(false)` to stop, `Ok(true)` to go on,
    /// or the error a restart met.
    pub fn handle_event(&mut self, event: InputEvent, rom: &[u8]) -> (r: Result<bool, Chip8Error>)
        requires
            old(self).chip8.well_formed(),
        ensures
            final(self).chip8.well_formed(),
            old(self).chip8@.consistent() ==> final(self).chip8@.consistent(),
            match command_of(event) {
                Command::Quit => final(self).chip8@ == old(self).chip8@ && final(self).paused
                    == old(self).paused && r == Ok::<bool, Chip8Error>(false),
                Command::TogglePause => final(self).chip8@ == old(self).chip8@ && final(self).paused
                    == !old(self).paused && r == Ok::<bool, Chip8Error>(true),
                Command::Restart => final(self).chip8@ == restart(old(self).chip8@, rom@).0
                    && final(self).paused == old(self).paused && r == (match restart(
                    old(self).chip8@,
                    rom@,
                ).1 {
                    Ok(_) => Ok::<bool, Chip8Error>(true),
                    Err(e) => Err(e),
                }),
                Command::Press(k) => final(self).chip8@ == press_key(old(self).chip8@, k)
                    && final(self).paused == old(self).paused && r == Ok::<bool, Chip8Error>(true),
                Command::Release(k) => final(self).chip8@ == release_key(old(self).chip8@, k)
                    && final(self).paused == old(self).paused && r == Ok::<bool, Chip8Error>(true),
                Command::Ignore => final(self).chip8@ == old(self).chip8@ && final(self).paused
                    == old(self).paused && r == Ok::<bool, Chip8Error>(true),
            },
    {
        match command_for(event) {
            Command::Quit => Ok(false),
            Command::TogglePause => {
                self.paused = !self.paused;
                Ok(true)
            },
            Command::Restart => match self.chip8.restart(rom) {
                Ok(()) => Ok(true),
                Err(e) => Err(e),
            },
            Command::Press(k) => {
                self.chip8.key_down(k);
                Ok(true)
            },
            Command::Release(k) => {
                self.chip8.key_up(k);
                Ok(true)
            },
            Command::Ignore => Ok(true),
        }
    }

    /// One 60 Hz frame of the session: `steps` instructions and a timer
    /// tick unless paused. Returns whether the beeper should sound.
    pub fn frame(&mut self, steps: u32) -> (r: Result<bool, Chip8Error>)
        requires
            old(self).chip8.well_formed(),
        ensures
            final(self).chip8@ == run_frame(old(self).chip8@, steps as nat, old(self).paused).0,
            r == run_frame(old(self).chip8@, steps as nat, old(self).paused).1,
            final(self).paused == old(self).paused,
            final(self).chip8.well_formed(),
            old(self).chip8@.consistent() ==> final(self).chip8@.consistent(),
    {
        let paused = self.paused;
        self.chip8.run_frame(steps, paused)
    }
}

/// Fill `pixels` with the luminance of each framebuffer pixel: 0xFF where
/// it is lit, 0x00 where it is not.
pub fn render_luminance(display: &[bool; 2048], pixels: &mut [u8; 2048])
    ensures
        forall|p: int| 0 <= p < 2048 ==> #[trigger] final(pixels)@[p] == (if display@[p] { 0xFFu8 } else { 0x00u8 }),
{
    let mut p: usize = 0;
    while p < 2048
        invariant
            p <= 2048,
            forall|q: int| 0 <= q < p ==> #[trigger] pixels@[q] == (if display@[q] { 0xFFu8 } else { 0x00u8 }),
        decreases 2048 - p,
    {
        pixels[p] = if display[p] { 0xFF } else { 0x00 };
        p += 1;
    }
}

/// Whether some typed key stands for keypad key `k`.
pub open spec fn reachable_key(k: u8) -> bool {
    exists|d: char| #[trigger] keypad_of(d) == Some(k)
}

/// The keypad key each typed key stands for, key by key.
pub open spec fn vip_layout(c: char) -> Option<u8> {
    if c == '1' { Some(0x1u8) } else if c == '2' { Some(0x2u8) } else if c == '3' { Some(0x3u8) }
    else if c == '4' { Some(0xCu8) } else if c == 'q' { Some(0x4u8) } else if c == 'w' { Some(0x5u8) }
    else if c == 'e' { Some(0x6u8) } else if c == 'r' { Some(0xDu8) } else if c == 'a' { Some(0x7u8) }
    else if c == 's' { Some(0x8u8) } else if c == 'd' { Some(0x9u8) } else if c == 'f' { Some(0xEu8) }
    else if c == 'z' { Some(0xAu8) } else if c == 'x' { Some(0x0u8) } else if c == 'c' { Some(0xBu8) }
    else if c == 'v' { Some(0xFu8) } else { None }
}

/// The typed keys map onto the sixteen keypad keys one to one, in the
/// COSMAC VIP arrangement: 1 2 3 C / 4 5 6 D / 7 8 9 E / A 0 B F under
/// 1 2 3 4 / Q W E R / A S D F / Z X C V; every other character maps to
/// nothing.
pub proof fn lemma_keypad_layout(c: char)
    ensures
        keypad_of(c) == vip_layout(c),
        forall|k: u8| k < 16 ==> #[trigger] reachable_key(k),
{
    lemma_layout_key(c);
    assert forall|k: u8| k < 16 implies #[trigger] reachable_key(k) by {
        let d = if k == 0x1 { '1' } else if k == 0x2 { '2' } else if k == 0x3 { '3' } else if k == 0xC { '4' }
            else if k == 0x4 { 'q' } else if k == 0x5 { 'w' } else if k == 0x6 { 'e' } else if k == 0xD { 'r' }
            else if k == 0x7 { 'a' } else if k == 0x8 { 's' } else if k == 0x9 { 'd' } else if k == 0xE { 'f' }
            else if k == 0xA { 'z' } else if k == 0x0 { 'x' } else if k == 0xB { 'c' } else { 'v' };
        lemma_layout_key(d);
        assert(keypad_of(d) == Some(k));
    }
}

proof fn lemma_layout_key(c: char)
    ensures
        keypad_of(c) == vip_layout(c),
{
    let rows = keyboard_rows();
    assert(rows[0] == seq!['1', '2', '3', '4']);
    assert(rows[1] == seq!['q', 'w', 'e', 'r']);
    assert(rows[2] == seq!['a', 's', 'd', 'f']);
    assert(rows[3] == seq!['z', 'x', 'c', 'v']);
    let pad = keypad_rows();
    assert(pad[0] == seq![0x1u8, 0x2, 0x3, 0xC]);
    assert(pad[1] == seq![0x4u8, 0x5, 0x6, 0xD]);
    assert(pad[2] == seq![0x7u8, 0x8, 0x9, 0xE]);
    assert(pad[3] == seq![0xAu8, 0x0, 0xB, 0xF]);
    if exists|row: int, col: int| #[trigger] key_at(c, row, col) {
        let (r2, c2) = choose|row: int, col: int| #[trigger] key_at(c, row, col);
        assert(key_at(c, r2, c2));
        assert(keypad_of(c) == Some(pad[r2][c2]));
        if r2 == 0 {} else if r2 == 1 {} else if r2 == 2 {} else {}
    } else {
        let (row, col) = if c == '1' { (0int, 0int) } else if c == '2' { (0, 1) } else if c == '3' { (0, 2) } else if c == '4' { (0, 3) }
            else if c == 'q' { (1, 0) } else if c == 'w' { (1, 1) } else if c == 'e' { (1, 2) } else if c == 'r' { (1, 3) }
            else if c == 'a' { (2, 0) } else if c == 's' { (2, 1) } else if c == 'd' { (2, 2) } else if c == 'f' { (2, 3) }
            else if c == 'z' { (3, 0) } else if c == 'x' { (3, 1) } else if c == 'c' { (3, 2) } else { (3, 3) };
        assert(!key_at(c, row, col));
    }
}

/// The desktop keys: closing the window quits, and so does Escape even
/// when auto-repeated; other auto-repeated key-downs are ignored; P pauses
/// or resumes, Backspace restarts, and a key of the 4×4 block presses
/// (key-down) or releases (key-up) the keypad key in its place; anything
/// else is ignored.
pub proof fn lemma_commands(event: InputEvent)
    ensures
        event == InputEvent::Quit ==> command_of(event) == Command::Quit,
        event matches InputEvent::KeyDown { key: Some(c), repeat } ==> command_of(event) == (if c
            == '\u{1b}' {
            Command::Quit
        } else if repeat {
            Command::Ignore
        } else if c == 'p' {
            Command::TogglePause
        } else if c == '\u{8}' {
            Command::Restart
        } else if vip_layout(c) is Some {
            Command::Press(vip_layout(c)->0)
        } else {
            Command::Ignore
        }),
        event matches InputEvent::KeyUp { key: Some(c) } ==> command_of(event) == (if vip_layout(
            c,
        ) is Some {
            Command::Release(vip_layout(c)->0)
        } else {
            Command::Ignore
        }),
        (event matches InputEvent::KeyDown { key: None, .. }) || (event matches InputEvent::KeyUp {
            key: None,
        }) ==> command_of(event) == Command::Ignore,
{
    match event {
        InputEvent::KeyDown { key: Some(c), .. } => lemma_layout_key(c),
        InputEvent::KeyUp { key: Some(c) } => lemma_layout_key(c),
        _ => {},
    }
}

} // verus!
