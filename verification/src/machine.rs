//! The executable machine.
use vstd::prelude::*;
use crate::error::Chip8Error;
use crate::bits::{wrap_address, add_address, lemma_decode};
use crate::laws::{
    lemma_step_well_formed, lemma_step_consistent, lemma_controls_consistent,
    lemma_initial_consistent,
};
use crate::model::{
    Machine, font, initial_memory, initial_machine, reset_machine, load_memory, load_result,
    release_key, tick, press_key, execute, step_machine, outcome_result, outcome_machine, op_x,
    op_y, fetch, op_class, exec_system, exec_call, exec_load, exec_branch, run_steps, run_frame,
    run_cycles, restart,
};

verus! {

/// A CHIP-8 machine. Frontends drive it by calling [`Chip8::step`] at their
/// chosen instruction rate, [`Chip8::tick_timers`] at 60 Hz, and rendering
/// [`Chip8::display`] however they like.
pub struct Chip8 {
    /// 4 KiB of memory.
    pub memory: [u8; 4096],
    /// General-purpose registers V0–VF. VF doubles as the flag register.
    pub v: [u8; 16],
    /// Index register, used for memory addressing.
    pub i: u16,
    pub pc: u16,
    pub stack: [u16; 16],
    pub sp: u8,
    pub delay_timer: u8,
    pub sound_timer: u8,
    pub display: [bool; 2048],
    pub keys: [bool; 16],
    /// `Some(x)` while `Fx0A` is blocked waiting to store a key in Vx.
    pub waiting_for_key: Option<u8>,
    /// xorshift32 state for the `RND` instruction.
    pub rng: u32,
}

impl View for Chip8 {
    type V = Machine;

    open spec fn view(&self) -> Machine {
        Machine {
            memory: self.memory@,
            v: self.v@,
            i: self.i,
            pc: self.pc,
            stack: self.stack@,
            sp: self.sp,
            delay_timer: self.delay_timer,
            sound_timer: self.sound_timer,
            display: self.display@,
            keys: self.keys@,
            waiting_for_key: self.waiting_for_key,
            rng: self.rng,
        }
    }
}

impl Chip8 {
    /// The stack depth and pending key register are in range.
    pub open spec fn well_formed(&self) -> bool {
        self@.well_formed()
    }

    /// Whether the stack depth and the pending key register are in range,
    /// as `step` and `key_down` require.
    pub fn is_well_formed(&self) -> (r: bool)
        ensures
            r == self.well_formed(),
    {
        self.sp <= 16 && match self.waiting_for_key {
            Some(x) => x < 16,
            None => true,
        }
    }

    pub fn beeping(&self) -> (r: bool)
        ensures
            r == (self.sound_timer > 0),
    {
        self.sound_timer > 0
    }

    /// The 64×32 framebuffer, row-major; `true` means the pixel is lit.
    pub fn display(&self) -> (r: &[bool; 2048])
        ensures
            r@ == self.display@,
    {
        &self.display
    }

    pub fn key_up(&mut self, key: u8)
        ensures
            final(self)@ == release_key(old(self)@, key),
            old(self).well_formed() ==> final(self).well_formed(),
            old(self)@.consistent() ==> final(self)@.consistent(),
    {
        proof {
            lemma_controls_consistent(self@, key, seq![]);
        }
        if key < 16 {
            self.keys[key as usize] = false;
        }
    }

    /// Decrement the delay and sound timers. Call at 60 Hz.
    pub fn tick_timers(&mut self)
        ensures
            final(self)@ == tick(old(self)@),
            old(self).well_formed() ==> final(self).well_formed(),
            old(self)@.consistent() ==> final(self)@.consistent(),
    {
        proof {
            lemma_controls_consistent(self@, 0, seq![]);
        }
        self.delay_timer = self.delay_timer.saturating_sub(1);
        self.sound_timer = self.sound_timer.saturating_sub(1);
    }

    pub fn key_down(&mut self, key: u8)
        requires
            old(self)@.key_in_bounds(key),
        ensures
            final(self)@ == press_key(old(self)@, key),
            old(self).well_formed() ==> final(self).well_formed(),
            old(self)@.consistent() ==> final(self)@.consistent(),
    {
        proof {
            lemma_controls_consistent(self@, key, seq![]);
        }
        if key < 16 {
            self.keys[key as usize] = true;
            // Fx0A resolves on the first key press seen while waiting.
            if let Some(x) = self.waiting_for_key.take() {
                self.v[x as usize] = key;
            }
        }
    }
}

/// The built-in hexadecimal font: sprites 0–F, five bytes each.
fn font_table() -> (r: [u8; 80])
    ensures
        r@ == font(),
{
    let table: [u8; 80] = [
        0xF0, 0x90, 0x90, 0x90, 0xF0, // 0
        0x20, 0x60, 0x20, 0x20, 0x70, // 1
        0xF0, 0x10, 0xF0, 0x80, 0xF0, // 2
        0xF0, 0x10, 0xF0, 0x10, 0xF0, // 3
        0x90, 0x90, 0xF0, 0x10, 0x10, // 4
        0xF0, 0x80, 0xF0, 0x10, 0xF0, // 5
        0xF0, 0x80, 0xF0, 0x90, 0xF0, // 6
        0xF0, 0x10, 0x20, 0x40, 0x40, // 7
        0xF0, 0x90, 0xF0, 0x90, 0xF0, // 8
        0xF0, 0x90, 0xF0, 0x10, 0xF0, // 9
        0xF0, 0x90, 0xF0, 0x90, 0x90, // A
        0xE0, 0x90, 0xE0, 0x90, 0xE0, // B
        0xF0, 0x80, 0x80, 0x80, 0xF0, // C
        0xE0, 0x90, 0x90, 0x90, 0xE0, // D
        0xF0, 0x80, 0xF0, 0x80, 0xF0, // E
        0xF0, 0x80, 0xF0, 0x80, 0x80, // F
    ];
    assert(table@ =~= font());
    table
}

impl Chip8 {
    /// Create a machine with the font loaded and the PC at 0x200.
    ///
    /// `seed` drives the deterministic PRNG behind `Cxkk RND`; any value is
    /// fine (zero is remapped, since xorshift has a fixed point there).
    pub fn new(seed: u32) -> (r: Self)
        ensures
            r@ == initial_machine(seed),
            r.well_formed(),
            r@.consistent(),
    {
        proof {
            lemma_initial_consistent(seed);
        }
        let mut memory = [0u8; 4096];
        let table = font_table();
        let mut k: usize = 0;
        while k < 80
            invariant
                k <= 80,
                table@ == font(),
                forall|a: int|
                    0 <= a < 4096 ==> #[trigger] memory@[a] == (if 0x50 <= a < 0x50 + k {
                        font()[a - 0x50]
                    } else {
                        0u8
                    }),
            decreases 80 - k,
        {
            memory[crate::FONT_START + k] = table[k];
            k += 1;
        }
        assert(memory@ =~= initial_memory());
        let r = Chip8 {
            memory,
            v: [0; 16],
            i: 0,
            pc: crate::PROGRAM_START as u16,
            stack: [0; 16],
            sp: 0,
            delay_timer: 0,
            sound_timer: 0,
            display: [false; 2048],
            keys: [false; 16],
            waiting_for_key: None,
            rng: if seed == 0 { 0x2A2A_2A2A } else { seed },
        };
        assert(r.v@ =~= Seq::new(16, |j: int| 0u8));
        assert(r.stack@ =~= Seq::new(16, |j: int| 0u16));
        assert(r.display@ =~= Seq::new(2048, |p: int| false));
        assert(r.keys@ =~= Seq::new(16, |j: int| false));
        r
    }

    /// Reset everything except the loaded ROM image and RNG state.
    pub fn reset(&mut self)
        ensures
            final(self)@ == reset_machine(old(self)@),
            old(self).well_formed() ==> final(self).well_formed(),
            old(self)@.consistent() ==> final(self)@.consistent(),
    {
        proof {
            lemma_controls_consistent(self@, 0, seq![]);
        }
        self.v = [0; 16];
        self.i = 0;
        self.pc = crate::PROGRAM_START as u16;
        self.stack = [0; 16];
        self.sp = 0;
        self.delay_timer = 0;
        self.sound_timer = 0;
        self.display = [false; 2048];
        self.keys = [false; 16];
        self.waiting_for_key = None;
        assert(self.v@ =~= Seq::new(16, |j: int| 0u8));
        assert(self.stack@ =~= Seq::new(16, |j: int| 0u16));
        assert(self.display@ =~= Seq::new(2048, |p: int| false));
        assert(self.keys@ =~= Seq::new(16, |j: int| false));
    }

    /// Copy a ROM into memory starting at 0x200.
    pub fn load_rom(&mut self, rom: &[u8]) -> (r: Result<(), Chip8Error>)
        ensures
            r == load_result(rom@.len() as usize),
            final(self)@ == (if r is Ok {
                Machine { memory: load_memory(old(self)@.memory, rom@), ..old(self)@ }
            } else {
                old(self)@
            }),
            old(self).well_formed() ==> final(self).well_formed(),
            old(self)@.consistent() ==> final(self)@.consistent(),
    {
        proof {
            lemma_controls_consistent(self@, 0, rom@);
        }
        if rom.len() > crate::MEMORY_SIZE - crate::PROGRAM_START {
            return Err(Chip8Error::RomTooLarge(rom.len()));
        }
        let ghost m0 = self@;
        let mut k: usize = 0;
        while k < rom.len()
            invariant
                rom@.len() <= 4096 - 0x200,
                k <= rom@.len(),
                m0.memory.len() == 4096,
                self@ == (Machine { memory: self.memory@, ..m0 }),
                forall|a: int|
                    0 <= a < 4096 ==> #[trigger] self.memory@[a] == (if 0x200 <= a < 0x200 + k {
                        rom@[a - 0x200]
                    } else {
                        m0.memory[a]
                    }),
            decreases rom@.len() - k,
        {
            self.memory[crate::PROGRAM_START + k] = rom[k];
            k += 1;
        }
        assert(self.memory@ =~= load_memory(m0.memory, rom@));
        Ok(())
    }

    /// Fetch, decode, and execute a single instruction.
    ///
    /// While `Fx0A` is waiting for a key press this is a no-op, so frontends
    /// can keep calling it at their normal rate.
    pub fn step(&mut self) -> (r: Result<(), Chip8Error>)
        requires
            old(self)@.step_in_bounds(),
        ensures
            final(self)@ == step_machine(old(self)@).0,
            r == step_machine(old(self)@).1,
            old(self).well_formed() ==> final(self).well_formed(),
            old(self)@.consistent() ==> final(self)@.consistent(),
    {
        proof {
            reveal(step_machine);
            if self@.well_formed() {
                lemma_step_well_formed(self@);
            }
            if self@.consistent() {
                lemma_step_consistent(self@);
            }
        }
        if self.waiting_for_key.is_some() {
            return Ok(());
        }
        let pc = wrap_address(self.pc as usize);
        let opcode = self.memory[pc] as u16 * 256 + self.memory[wrap_address(pc + 1)] as u16;
        assert(opcode == fetch(self@));
        self.pc = add_address(self.pc, 2);
        self.execute(opcode)
    }

    /// One 60 Hz frame: unless `paused`, execute `steps` instructions
    /// (stopping at the first error) and then tick the timers once. Returns
    /// whether the beeper should sound.
    pub fn run_frame(&mut self, steps: u32, paused: bool) -> (r: Result<bool, Chip8Error>)
        requires
            old(self).well_formed(),
        ensures
            final(self)@ == run_frame(old(self)@, steps as nat, paused).0,
            r == run_frame(old(self)@, steps as nat, paused).1,
            final(self).well_formed(),
            old(self)@.consistent() ==> final(self)@.consistent(),
    {
        if paused {
            return Ok(false);
        }
        let ghost m0 = self@;
        let mut i: u32 = 0;
        while i < steps
            invariant
                !paused,
                m0 == old(self)@,
                i <= steps,
                self.well_formed(),
                m0.consistent() ==> self@.consistent(),
                run_steps(m0, steps as nat) == run_steps(self@, (steps - i) as nat),
            decreases steps - i,
        {
            let ghost before = self@;
            match self.step() {
                Ok(()) => {},
                Err(e) => {
                    assert(run_steps(before, (steps - i) as nat) == (self@, Err::<(), Chip8Error>(e)));
                    return Err(e);
                },
            }
            i += 1;
        }
        self.tick_timers();
        Ok(self.beeping())
    }

    /// Run `cycles` instructions headless, ticking the timers after every
    /// cycle whose number (counting from zero) is a multiple of
    /// `tick_every`; stop at the first error.
    pub fn run_cycles(&mut self, cycles: usize, tick_every: usize) -> (r: Result<(), Chip8Error>)
        requires
            old(self).well_formed(),
        ensures
            final(self)@ == run_cycles(old(self)@, 0, cycles as nat, tick_every as nat).0,
            r == run_cycles(old(self)@, 0, cycles as nat, tick_every as nat).1,
            final(self).well_formed(),
            old(self)@.consistent() ==> final(self)@.consistent(),
    {
        let ghost m0 = self@;
        let mut cycle: usize = 0;
        while cycle < cycles
            invariant
                m0 == old(self)@,
                cycle <= cycles,
                self.well_formed(),
                m0.consistent() ==> self@.consistent(),
                run_cycles(m0, 0, cycles as nat, tick_every as nat) == run_cycles(
                    self@,
                    cycle as nat,
                    (cycles - cycle) as nat,
                    tick_every as nat,
                ),
            decreases cycles - cycle,
        {
            let ghost before = self@;
            match self.step() {
                Ok(()) => {},
                Err(e) => {
                    assert(run_cycles(before, cycle as nat, (cycles - cycle) as nat, tick_every as nat)
                        == (self@, Err::<(), Chip8Error>(e)));
                    return Err(e);
                },
            }
            if tick_every != 0 && cycle % tick_every == 0 {
                self.tick_timers();
            }
            cycle += 1;
        }
        Ok(())
    }

    /// Restart with `rom`: `reset`, then `load_rom(rom)`.
    pub fn restart(&mut self, rom: &[u8]) -> (r: Result<(), Chip8Error>)
        ensures
            final(self)@ == restart(old(self)@, rom@).0,
            r == restart(old(self)@, rom@).1,
            old(self).well_formed() ==> final(self).well_formed(),
            old(self)@.consistent() ==> final(self)@.consistent(),
    {
        self.reset();
        self.load_rom(rom)
    }

    /// Decode and execute `opcode`, with the program counter already past it.
    fn execute(&mut self, opcode: u16) -> (r: Result<(), Chip8Error>)
        requires
            opcode == 0x00EE ==> old(self).sp <= 16,
        ensures
            r == outcome_result(execute(old(self)@, opcode)),
            final(self)@ == outcome_machine(old(self)@, execute(old(self)@, opcode)),
    {
        proof {
            lemma_decode(opcode);
            reveal(execute);
        }
        let x = ((opcode >> 8u16) & 0x000F) as usize;
        let y = ((opcode >> 4u16) & 0x000F) as usize;
        let n = opcode & 0x000F;
        let kk = (opcode & 0x00FF) as u8;
        match opcode & 0xF000 {
            0x0000 => self.exec_system(opcode),
            0x2000 => self.exec_call(opcode & 0x0FFF),
            0x6000 | 0x7000 | 0xA000 | 0xC000 => {
                self.exec_load(opcode, x);
                Ok(())
            },
            0x8000 => self.exec_alu(opcode, x, y, n),
            // Dxyn — DRW Vx, Vy, n.
            0xD000 => {
                self.draw(x, y, n as usize);
                Ok(())
            },
            0xE000 => self.exec_key_skip(opcode, x, kk),
            0xF000 => self.exec_misc(opcode, x, kk),
            _ => self.exec_branch(opcode, x, y),
        }
    }

    /// Class 0: `00E0` CLS and `00EE` RET.
    fn exec_system(&mut self, opcode: u16) -> (r: Result<(), Chip8Error>)
        requires
            opcode == 0x00EE ==> old(self).sp <= 16,
        ensures
            r == outcome_result(exec_system(old(self)@, opcode)),
            final(self)@ == outcome_machine(old(self)@, exec_system(old(self)@, opcode)),
    {
        if opcode == 0x00E0 {
            // 00E0 — CLS: clear the display.
            self.display = [false; 2048];
            assert(self.display@ =~= Seq::new(2048, |p: int| false));
        } else if opcode == 0x00EE {
            // 00EE — RET: return from subroutine.
            if self.sp == 0 {
                return Err(Chip8Error::StackUnderflow);
            }
            self.sp = self.sp - 1;
            self.pc = self.stack[self.sp as usize];
        }
        // 0nnn (SYS) called into machine code on the COSMAC VIP;
        // it is universally ignored by interpreters.
        Ok(())
    }

    /// `2nnn` — CALL addr.
    fn exec_call(&mut self, nnn: u16) -> (r: Result<(), Chip8Error>)
        ensures
            r == outcome_result(exec_call(old(self)@, nnn)),
            final(self)@ == outcome_machine(old(self)@, exec_call(old(self)@, nnn)),
    {
        if self.sp as usize >= crate::STACK_DEPTH {
            return Err(Chip8Error::StackOverflow);
        }
        self.stack[self.sp as usize] = self.pc;
        self.sp = self.sp + 1;
        self.pc = nnn;
        Ok(())
    }

    /// Classes 6, 7, A and C.
    fn exec_load(&mut self, opcode: u16, x: usize)
        requires
            x == op_x(opcode),
            op_class(opcode) == 0x6 || op_class(opcode) == 0x7 || op_class(opcode) == 0xA
                || op_class(opcode) == 0xC,
        ensures
            final(self)@ == exec_load(old(self)@, opcode),
    {
        proof {
            lemma_decode(opcode);
        }
        let kk = (opcode & 0x00FF) as u8;
        match opcode & 0xF000 {
            // 6xkk — LD Vx, byte.
            0x6000 => self.v[x] = kk,
            // 7xkk — ADD Vx, byte (no carry flag).
            0x7000 => self.v[x] = self.v[x].wrapping_add(kk),
            // Annn — LD I, addr.
            0xA000 => self.i = opcode & 0x0FFF,
            // Cxkk — RND Vx, byte: random byte AND kk.
            _ => {
                let byte = self.rand();
                self.v[x] = byte & kk;
            },
        }
    }

    /// Classes 1, 3, 4, 5, 9 and B.
    fn exec_branch(&mut self, opcode: u16, x: usize, y: usize) -> (r: Result<(), Chip8Error>)
        requires
            x == op_x(opcode),
            y == op_y(opcode),
        ensures
            r == outcome_result(exec_branch(old(self)@, opcode)),
            final(self)@ == outcome_machine(old(self)@, exec_branch(old(self)@, opcode)),
    {
        proof {
            lemma_decode(opcode);
        }
        let nnn = opcode & 0x0FFF;
        let kk = (opcode & 0x00FF) as u8;
        let n = opcode & 0x000F;
        match opcode & 0xF000 {
            // 1nnn — JP addr.
            0x1000 => self.pc = nnn,
            // 3xkk — SE Vx, byte: skip next if equal.
            0x3000 => {
                if self.v[x] == kk {
                    self.pc = add_address(self.pc, 2);
                }
            },
            // 4xkk — SNE Vx, byte: skip next if not equal.
            0x4000 => {
                if self.v[x] != kk {
                    self.pc = add_address(self.pc, 2);
                }
            },
            // 5xy0 — SE Vx, Vy.
            0x5000 if n == 0 => {
                if self.v[x] == self.v[y] {
                    self.pc = add_address(self.pc, 2);
                }
            },
            // 9xy0 — SNE Vx, Vy.
            0x9000 if n == 0 => {
                if self.v[x] != self.v[y] {
                    self.pc = add_address(self.pc, 2);
                }
            },
            // Bnnn — JP V0, addr.
            0xB000 => self.pc = add_address(nnn, self.v[0] as u16),
            _ => return Err(Chip8Error::UnknownOpcode(opcode)),
        }
        Ok(())
    }
}

} // verus!
