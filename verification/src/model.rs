//! The abstract machine: the state of a CHIP-8 interpreter as mathematical
//! sequences, and the effect of every instruction on it.
use vstd::prelude::*;
use crate::error::Chip8Error;
use crate::draw::{draw_sprite, sprite_collides};

verus! {

/// The complete state of a CHIP-8 machine.
#[verifier::ext_equal]
pub struct Machine {
    /// 4096 bytes of memory.
    pub memory: Seq<u8>,
    /// Registers V0–VF; VF doubles as the flag register.
    pub v: Seq<u8>,
    /// The index register.
    pub i: u16,
    /// The program counter.
    pub pc: u16,
    /// Sixteen return-address slots; the first `sp` are in use.
    pub stack: Seq<u16>,
    /// Number of occupied stack slots.
    pub sp: u8,
    pub delay_timer: u8,
    pub sound_timer: u8,
    /// The 64×32 framebuffer, row-major.
    pub display: Seq<bool>,
    /// Which of the sixteen keys are held.
    pub keys: Seq<bool>,
    /// `Some(x)` while `Fx0A` waits to store a key in Vx.
    pub waiting_for_key: Option<u8>,
    /// xorshift32 state behind `RND`.
    pub rng: u32,
}

impl Machine {
    /// The shape every machine has, and what `step` and `key_down` need in
    /// order to index the stack and the registers.
    pub open spec fn well_formed(self) -> bool {
        &&& self.memory.len() == 4096
        &&& self.v.len() == 16
        &&& self.stack.len() == 16
        &&& self.display.len() == 2048
        &&& self.keys.len() == 16
        &&& self.sp <= 16
        &&& (self.waiting_for_key matches Some(x) ==> x < 16)
    }

    /// `step` reads the return address at `sp - 1`, which must lie within
    /// the stack, only when it executes `00EE` (RET).
    pub open spec fn step_in_bounds(self) -> bool {
        self.waiting_for_key is Some || fetch(self) != 0x00EE || self.sp <= 16
    }

    /// `key_down(key)` stores a keypad key in the register a pending `Fx0A`
    /// names, which must be one of the sixteen.
    pub open spec fn key_in_bounds(self, key: u8) -> bool {
        key < 16 && self.waiting_for_key is Some ==> self.waiting_for_key->0 < 16
    }

    /// What every machine built by `Chip8::new` keeps through every
    /// operation: addresses stay within the 12-bit address space and the
    /// random generator never reaches its fixed point zero.
    pub open spec fn consistent(self) -> bool {
        &&& self.well_formed()
        &&& self.rng != 0
        &&& self.pc < 0x1000
        &&& self.i < 0x1000
        &&& forall|j: int| 0 <= j < self.sp ==> #[trigger] self.stack[j] < 0x1000
    }
}

/// The built-in hexadecimal font: sprites 0–F, five bytes each.
pub open spec fn font() -> Seq<u8> {
    seq![
        0xF0u8, 0x90, 0x90, 0x90, 0xF0, // 0
        0x20, 0x60, 0x20, 0x20, 0x70, // 1
        0xF0, 0x10, 0xF0, 0x80, 0xF0, // 2
        0xF0, 0x10, 0xF0, 0x10, 0xF0, // 3
        0x90, 0x90, 0xF0, 0x10, 0x10, // 4
        0xF0, 0x80, 0xF0, 0x10, 0xF0, // 5
        0xF0, 0x80, 0xF0, 0x90, 0xF0, // 6
        0xF0, 0x10, 0x20, 0x40, 0x40, // 7
        0xF0, 0x90, 0xF0, 0x90, 0xF0, // 8
        0xF0, 0x90, 0xF0, 0x10, 0xF0, // 9
        0xF0, 0x90, 0xF0, 0x90, 0x90, // A
        0xE0, 0x90, 0xE0, 0x90, 0xE0, // B
        0xF0, 0x80, 0x80, 0x80, 0xF0, // C
        0xE0, 0x90, 0x90, 0x90, 0xE0, // D
        0xF0, 0x80, 0xF0, 0x80, 0xF0, // E
        0xF0, 0x80, 0xF0, 0x80, 0x80, // F
    ]
}

/// Memory at power-on: the font at 0x050, zero everywhere else.
pub open spec fn initial_memory() -> Seq<u8> {
    Seq::new(4096, |a: int| if 0x50 <= a < 0xA0 { font()[a - 0x50] } else { 0u8 })
}

/// The machine `Chip8::new(seed)` builds.
pub open spec fn initial_machine(seed: u32) -> Machine {
    Machine {
        memory: initial_memory(),
        v: Seq::new(16, |r: int| 0u8),
        i: 0,
        pc: 0x200,
        stack: Seq::new(16, |j: int| 0u16),
        sp: 0,
        delay_timer: 0,
        sound_timer: 0,
        display: Seq::new(2048, |p: int| false),
        keys: Seq::new(16, |k: int| false),
        waiting_for_key: None,
        rng: if seed == 0 { 0x2A2A_2A2A } else { seed },
    }
}

/// `m` after `reset`: everything back to power-on except memory and the
/// random generator.
pub open spec fn reset_machine(m: Machine) -> Machine {
    Machine { memory: m.memory, rng: m.rng, ..initial_machine(m.rng) }
}

/// Memory with `rom` copied to 0x200 onwards.
pub open spec fn load_memory(memory: Seq<u8>, rom: Seq<u8>) -> Seq<u8> {
    Seq::new(
        memory.len(),
        |a: int| if 0x200 <= a < 0x200 + rom.len() { rom[a - 0x200] } else { memory[a] },
    )
}

/// What `load_rom` returns for a ROM of `len` bytes.
pub open spec fn load_result(len: usize) -> Result<(), Chip8Error> {
    if len > 4096 - 0x200 {
        Err(Chip8Error::RomTooLarge(len))
    } else {
        Ok(())
    }
}

/// One xorshift32 step (Marsaglia's 13/17/5 triple).
pub open spec fn xorshift32(x: u32) -> u32 {
    let a = x ^ (x << 13u32);
    let b = a ^ (a >> 17u32);
    b ^ (b << 5u32)
}

/// The byte `RND` draws from the generator state after it has advanced.
pub open spec fn random_byte(state: u32) -> u8 {
    (state >> 24u32) as u8
}

// ----------------------------------------------------------------------
// Decoding
// ----------------------------------------------------------------------

/// The address after `pc`, within the 12-bit address space.
pub open spec fn next_pc(pc: u16) -> u16 {
    ((pc + 2) % 0x1000) as u16
}

/// The big-endian word at `pc` (modulo the memory size).
pub open spec fn fetch(m: Machine) -> u16 {
    let a = m.pc % 0x1000;
    (m.memory[a as int] * 256 + m.memory[(a + 1) % 0x1000]) as u16
}

pub open spec fn op_class(op: u16) -> int {
    (op / 0x1000) as int
}

pub open spec fn op_nnn(op: u16) -> u16 {
    (op % 0x1000) as u16
}

pub open spec fn op_kk(op: u16) -> u8 {
    (op % 0x100) as u8
}

pub open spec fn op_n(op: u16) -> int {
    (op % 0x10) as int
}

pub open spec fn op_x(op: u16) -> int {
    ((op / 0x100) % 0x10) as int
}

pub open spec fn op_y(op: u16) -> int {
    ((op / 0x10) % 0x10) as int
}

// ----------------------------------------------------------------------
// Instruction semantics
// ----------------------------------------------------------------------

/// `m` with register `x` set to `value`.
pub open spec fn set_v(m: Machine, x: int, value: u8) -> Machine {
    Machine { v: m.v.update(x, value), ..m }
}

/// `m` with Vx set to `value` and then VF set to `flag`: when `x` is VF the
/// flag wins.
pub open spec fn set_v_flag(m: Machine, x: int, value: u8, flag: u8) -> Machine {
    set_v(set_v(m, x, value), 15, flag)
}

/// `m` with the next instruction skipped when `cond` holds.
pub open spec fn skip_if(m: Machine, cond: bool) -> Machine {
    if cond {
        Machine { pc: next_pc(m.pc), ..m }
    } else {
        m
    }
}

/// Class 0: `00E0` CLS, `00EE` RET; every other `0nnn` is ignored.
pub open spec fn exec_system(m: Machine, op: u16) -> Result<Machine, Chip8Error> {
    if op == 0x00E0 {
        Ok(Machine { display: Seq::new(2048, |p: int| false), ..m })
    } else if op == 0x00EE {
        if m.sp == 0 {
            Err(Chip8Error::StackUnderflow)
        } else {
            Ok(Machine { sp: (m.sp - 1) as u8, pc: m.stack[m.sp - 1], ..m })
        }
    } else {
        Ok(m)
    }
}

/// `2nnn` CALL: push the return address and jump.
pub open spec fn exec_call(m: Machine, nnn: u16) -> Result<Machine, Chip8Error> {
    if m.sp >= 16 {
        Err(Chip8Error::StackOverflow)
    } else {
        Ok(Machine { stack: m.stack.update(m.sp as int, m.pc), sp: (m.sp + 1) as u8, pc: nnn, ..m })
    }
}

/// Class 8: register-to-register arithmetic and logic.
pub open spec fn exec_alu(m: Machine, op: u16) -> Result<Machine, Chip8Error> {
    let x = op_x(op);
    let vx = m.v[x];
    let vy = m.v[op_y(op)];
    let n = op_n(op);
    if n == 0x0 {
        Ok(set_v(m, x, vy))
    } else if n == 0x1 {
        Ok(set_v(m, x, vx | vy))
    } else if n == 0x2 {
        Ok(set_v(m, x, vx & vy))
    } else if n == 0x3 {
        Ok(set_v(m, x, vx ^ vy))
    } else if n == 0x4 {
        Ok(set_v_flag(m, x, ((vx + vy) % 256) as u8, if vx + vy > 255 { 1 } else { 0 }))
    } else if n == 0x5 {
        Ok(set_v_flag(m, x, ((vx - vy) % 256) as u8, if vx >= vy { 1 } else { 0 }))
    } else if n == 0x6 {
        Ok(set_v_flag(m, x, vx / 2, vx % 2))
    } else if n == 0x7 {
        Ok(set_v_flag(m, x, ((vy - vx) % 256) as u8, if vy >= vx { 1 } else { 0 }))
    } else if n == 0xE {
        Ok(set_v_flag(m, x, ((vx * 2) % 256) as u8, vx / 128))
    } else {
        Err(Chip8Error::UnknownOpcode(op))
    }
}

/// `Dxyn` DRW: XOR the n-byte sprite at I onto the display at (Vx, Vy),
/// with VF reporting whether a lit pixel was erased.
pub open spec fn exec_draw(m: Machine, x: int, y: int, n: int) -> Machine {
    let x0 = m.v[x] % 64;
    let y0 = m.v[y] % 32;
    Machine {
        display: draw_sprite(m.display, m.memory, m.i, x0 as int, y0 as int, n),
        v: m.v.update(15, if sprite_collides(m.display, m.memory, m.i, x0 as int, y0 as int, n) {
            1
        } else {
            0
        }),
        ..m
    }
}

/// Class E: skip on the state of the key named by the low nibble of Vx.
pub open spec fn exec_key_skip(m: Machine, op: u16) -> Result<Machine, Chip8Error> {
    let key = m.v[op_x(op)] % 16;
    let kk = op_kk(op);
    if kk == 0x9E {
        Ok(skip_if(m, m.keys[key as int]))
    } else if kk == 0xA1 {
        Ok(skip_if(m, !m.keys[key as int]))
    } else {
        Err(Chip8Error::UnknownOpcode(op))
    }
}

/// `Fx33`: the decimal digits of Vx at I, I+1, I+2 (modulo the memory size).
pub open spec fn store_bcd(m: Machine, value: u8) -> Seq<u8> {
    let i = m.i as int;
    m.memory.update(i % 4096, value / 100).update((i + 1) % 4096, (value / 10) % 10).update(
        (i + 2) % 4096,
        value % 10,
    )
}

/// `Fx55`: V0..=Vx written to memory from I onwards (modulo the memory size).
pub open spec fn store_registers(m: Machine, x: int) -> Seq<u8> {
    Seq::new(
        m.memory.len(),
        |a: int|
            {
                let offset = (a - m.i) % 4096;
                if offset <= x {
                    m.v[offset]
                } else {
                    m.memory[a]
                }
            },
    )
}

/// `Fx65`: V0..=Vx read from memory from I onwards (modulo the memory size).
pub open spec fn load_registers(m: Machine, x: int) -> Seq<u8> {
    Seq::new(
        m.v.len(),
        |r: int|
            if r <= x {
                m.memory[(m.i + r) % 4096]
            } else {
                m.v[r]
            },
    )
}

/// Class F: timers, keypad wait, index arithmetic, font, BCD and bulk
/// register transfer.
pub open spec fn exec_misc(m: Machine, op: u16) -> Result<Machine, Chip8Error> {
    let x = op_x(op);
    let vx = m.v[x];
    let kk = op_kk(op);
    if kk == 0x07 {
        Ok(set_v(m, x, m.delay_timer))
    } else if kk == 0x0A {
        Ok(Machine { waiting_for_key: Some(x as u8), ..m })
    } else if kk == 0x15 {
        Ok(Machine { delay_timer: vx, ..m })
    } else if kk == 0x18 {
        Ok(Machine { sound_timer: vx, ..m })
    } else if kk == 0x1E {
        Ok(Machine { i: ((m.i + vx) % 0x1000) as u16, ..m })
    } else if kk == 0x29 {
        Ok(Machine { i: (0x50 + (vx % 16) * 5) as u16, ..m })
    } else if kk == 0x33 {
        Ok(Machine { memory: store_bcd(m, vx), ..m })
    } else if kk == 0x55 {
        Ok(Machine { memory: store_registers(m, x), ..m })
    } else if kk == 0x65 {
        Ok(Machine { v: load_registers(m, x), ..m })
    } else {
        Err(Chip8Error::UnknownOpcode(op))
    }
}

/// Classes 1, 3, 4, 5, 9 and B: jumps and conditional skips.
pub open spec fn exec_branch(m: Machine, op: u16) -> Result<Machine, Chip8Error> {
    let class = op_class(op);
    let vx = m.v[op_x(op)];
    let vy = m.v[op_y(op)];
    let nnn = op_nnn(op);
    let kk = op_kk(op);
    if class == 0x1 {
        Ok(Machine { pc: nnn, ..m })
    } else if class == 0x3 {
        Ok(skip_if(m, vx == kk))
    } else if class == 0x4 {
        Ok(skip_if(m, vx != kk))
    } else if class == 0x5 && op_n(op) == 0 {
        Ok(skip_if(m, vx == vy))
    } else if class == 0x9 && op_n(op) == 0 {
        Ok(skip_if(m, vx != vy))
    } else if class == 0xB {
        Ok(Machine { pc: ((nnn + m.v[0]) % 0x1000) as u16, ..m })
    } else {
        Err(Chip8Error::UnknownOpcode(op))
    }
}

/// Classes 6, 7, A and C: immediate loads, immediate add, and `RND`.
pub open spec fn exec_load(m: Machine, op: u16) -> Machine {
    let class = op_class(op);
    let x = op_x(op);
    let vx = m.v[x];
    let kk = op_kk(op);
    if class == 0x6 {
        set_v(m, x, kk)
    } else if class == 0x7 {
        set_v(m, x, ((vx + kk) % 256) as u8)
    } else if class == 0xA {
        Machine { i: op_nnn(op), ..m }
    } else {
        let state = xorshift32(m.rng);
        Machine { rng: state, ..set_v(m, x, random_byte(state) & kk) }
    }
}

/// The effect of instruction `op` on `m`, whose program counter already
/// points past it.
#[verifier::opaque]
pub open spec fn execute(m: Machine, op: u16) -> Result<Machine, Chip8Error> {
    let class = op_class(op);
    if class == 0x0 {
        exec_system(m, op)
    } else if class == 0x2 {
        exec_call(m, op_nnn(op))
    } else if class == 0x6 || class == 0x7 || class == 0xA || class == 0xC {
        Ok(exec_load(m, op))
    } else if class == 0x8 {
        exec_alu(m, op)
    } else if class == 0xD {
        Ok(exec_draw(m, op_x(op), op_y(op), op_n(op)))
    } else if class == 0xE {
        exec_key_skip(m, op)
    } else if class == 0xF {
        exec_misc(m, op)
    } else {
        exec_branch(m, op)
    }
}

/// What an operation whose effect is `outcome` returns.
pub open spec fn outcome_result(outcome: Result<Machine, Chip8Error>) -> Result<(), Chip8Error> {
    match outcome {
        Ok(_) => Ok(()),
        Err(e) => Err(e),
    }
}

/// The machine after an operation whose effect on `before` is `outcome`:
/// a failed operation changes nothing.
pub open spec fn outcome_machine(before: Machine, outcome: Result<Machine, Chip8Error>) -> Machine {
    match outcome {
        Ok(m) => m,
        Err(_) => before,
    }
}

/// One fetch/decode/execute cycle: the machine afterwards and what `step`
/// returns. While `Fx0A` waits for a key nothing happens; on an error the
/// program counter has still moved past the offending instruction and
/// nothing else has changed.
#[verifier::opaque]
pub open spec fn step_machine(m: Machine) -> (Machine, Result<(), Chip8Error>) {
    if m.waiting_for_key is Some {
        (m, Ok(()))
    } else {
        let op = fetch(m);
        let advanced = Machine { pc: next_pc(m.pc), ..m };
        let outcome = execute(advanced, op);
        (outcome_machine(advanced, outcome), outcome_result(outcome))
    }
}

/// `m` after up to `k` cycles, stopping at the first error: the machine
/// afterwards and the first error, if any.
pub open spec fn run_steps(m: Machine, k: nat) -> (Machine, Result<(), Chip8Error>)
    decreases k,
{
    if k == 0 {
        (m, Ok(()))
    } else {
        let (next, r) = step_machine(m);
        match r {
            Ok(_) => run_steps(next, (k - 1) as nat),
            Err(e) => (next, Err(e)),
        }
    }
}

/// One 60 Hz frame: unless paused, `steps` cycles (stopping at the first
/// error) and then one timer tick. Succeeds with whether the beeper sounds:
/// never while paused, otherwise while the sound timer is running.
pub open spec fn run_frame(m: Machine, steps: nat, paused: bool) -> (Machine, Result<bool, Chip8Error>) {
    if paused {
        (m, Ok(false))
    } else {
        let (after, r) = run_steps(m, steps);
        match r {
            Ok(_) => (tick(after), Ok(tick(after).sound_timer > 0)),
            Err(e) => (after, Err(e)),
        }
    }
}

/// `k` cycles numbered from `cycle`, with a timer tick after every cycle
/// whose number is a multiple of `tick_every`, stopping at the first error.
pub open spec fn run_cycles(m: Machine, cycle: nat, k: nat, tick_every: nat) -> (
    Machine,
    Result<(), Chip8Error>,
)
    decreases k,
{
    if k == 0 {
        (m, Ok(()))
    } else {
        let (next, r) = step_machine(m);
        match r {
            Ok(_) => run_cycles(
                if tick_every != 0 && cycle % tick_every == 0 { tick(next) } else { next },
                cycle + 1,
                (k - 1) as nat,
                tick_every,
            ),
            Err(e) => (next, Err(e)),
        }
    }
}

/// `reset` followed by loading `rom`: the machine afterwards and what the
/// load returns.
pub open spec fn restart(m: Machine, rom: Seq<u8>) -> (Machine, Result<(), Chip8Error>) {
    let fresh = reset_machine(m);
    let r = load_result(rom.len() as usize);
    (if r is Ok { Machine { memory: load_memory(fresh.memory, rom), ..fresh } } else { fresh }, r)
}

/// `key_down(key)`: a key below 16 is marked held and resolves a pending
/// `Fx0A`; any other key is ignored.
pub open spec fn press_key(m: Machine, key: u8) -> Machine {
    if key < 16 {
        let held = Machine { keys: m.keys.update(key as int, true), ..m };
        match m.waiting_for_key {
            Some(x) => Machine { waiting_for_key: None, ..set_v(held, x as int, key) },
            None => held,
        }
    } else {
        m
    }
}

/// `key_up(key)`: a key below 16 is marked released; any other is ignored.
pub open spec fn release_key(m: Machine, key: u8) -> Machine {
    if key < 16 {
        Machine { keys: m.keys.update(key as int, false), ..m }
    } else {
        m
    }
}

/// `tick_timers`: both timers count down by one and stop at zero.
pub open spec fn tick(m: Machine) -> Machine {
    Machine {
        delay_timer: if m.delay_timer > 0 { (m.delay_timer - 1) as u8 } else { 0 },
        sound_timer: if m.sound_timer > 0 { (m.sound_timer - 1) as u8 } else { 0 },
        ..m
    }
}

} // verus!
