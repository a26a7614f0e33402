//! Executable instruction groups: arithmetic, keypad skips, the class-F
//! miscellany, and the random generator behind `RND`.
use vstd::prelude::*;
use crate::bits::{wrap_address, add_address, lemma_offset_address};
use crate::error::Chip8Error;
use crate::machine::Chip8;
use crate::model::{
    Machine, xorshift32, random_byte, exec_alu, exec_key_skip, exec_misc, outcome_result,
    outcome_machine, op_x, op_y, op_n, op_kk, store_bcd, store_registers,
    load_registers,
};

verus! {

impl Chip8 {
    /// Advance the xorshift32 generator and return its top byte.
    pub(crate) fn rand(&mut self) -> (r: u8)
        ensures
            final(self)@ == (Machine { rng: xorshift32(old(self).rng), ..old(self)@ }),
            r == random_byte(xorshift32(old(self).rng)),
    {
        // xorshift32 (Marsaglia): small, fast, and deterministic per seed.
        let mut x = self.rng;
        x ^= x << 13u32;
        x ^= x >> 17u32;
        x ^= x << 5u32;
        self.rng = x;
        (x >> 24u32) as u8
    }

    /// Class 8: `8xyn`, with `x`, `y`, `n` decoded from `opcode`.
    pub(crate) fn exec_alu(&mut self, opcode: u16, x: usize, y: usize, n: u16) -> (r: Result<(), Chip8Error>)
        requires
            x == op_x(opcode),
            y == op_y(opcode),
            n == op_n(opcode),
        ensures
            r == outcome_result(exec_alu(old(self)@, opcode)),
            final(self)@ == outcome_machine(old(self)@, exec_alu(old(self)@, opcode)),
    {
        let vx = self.v[x];
        let vy = self.v[y];
        match n {
            // 8xy0 — LD Vx, Vy.
            0x0 => self.v[x] = vy,
            // 8xy1 — OR Vx, Vy.
            0x1 => self.v[x] = vx | vy,
            // 8xy2 — AND Vx, Vy.
            0x2 => self.v[x] = vx & vy,
            // 8xy3 — XOR Vx, Vy.
            0x3 => self.v[x] = vx ^ vy,
            // 8xy4 — ADD Vx, Vy; VF = carry.
            0x4 => {
                let sum = vx as u16 + vy as u16;
                self.v[x] = (sum % 256) as u8;
                self.v[15] = if sum > 255 { 1 } else { 0 };
            },
            // 8xy5 — SUB Vx, Vy; VF = NOT borrow.
            0x5 => {
                self.v[x] = vx.wrapping_sub(vy);
                self.v[15] = if vx >= vy { 1 } else { 0 };
            },
            // 8xy6 — SHR Vx; VF = bit shifted out.
            0x6 => {
                self.v[x] = vx / 2;
                self.v[15] = vx % 2;
            },
            // 8xy7 — SUBN Vx, Vy: Vx = Vy - Vx; VF = NOT borrow.
            0x7 => {
                self.v[x] = vy.wrapping_sub(vx);
                self.v[15] = if vy >= vx { 1 } else { 0 };
            },
            // 8xyE — SHL Vx; VF = bit shifted out.
            0xE => {
                self.v[x] = ((vx as u16 * 2) % 256) as u8;
                self.v[15] = vx / 128;
            },
            _ => return Err(Chip8Error::UnknownOpcode(opcode)),
        }
        Ok(())
    }

    /// Class E: `Ex9E` SKP and `ExA1` SKNP.
    pub(crate) fn exec_key_skip(&mut self, opcode: u16, x: usize, kk: u8) -> (r: Result<(), Chip8Error>)
        requires
            x == op_x(opcode),
            kk == op_kk(opcode),
        ensures
            r == outcome_result(exec_key_skip(old(self)@, opcode)),
            final(self)@ == outcome_machine(old(self)@, exec_key_skip(old(self)@, opcode)),
    {
        let key = self.v[x] % 16;
        match kk {
            // Ex9E — SKP Vx: skip if the key in Vx is down.
            0x9E => {
                if self.keys[key as usize] {
                    self.pc = add_address(self.pc, 2);
                }
            },
            // ExA1 — SKNP Vx: skip if the key in Vx is up.
            0xA1 => {
                if !self.keys[key as usize] {
                    self.pc = add_address(self.pc, 2);
                }
            },
            _ => return Err(Chip8Error::UnknownOpcode(opcode)),
        }
        Ok(())
    }

    /// Class F: `Fxkk`.
    pub(crate) fn exec_misc(&mut self, opcode: u16, x: usize, kk: u8) -> (r: Result<(), Chip8Error>)
        requires
            x == op_x(opcode),
            kk == op_kk(opcode),
        ensures
            r == outcome_result(exec_misc(old(self)@, opcode)),
            final(self)@ == outcome_machine(old(self)@, exec_misc(old(self)@, opcode)),
    {
        let vx = self.v[x];
        match kk {
            // Fx07 — LD Vx, DT.
            0x07 => self.v[x] = self.delay_timer,
            // Fx0A — LD Vx, K: block until a key is pressed.
            0x0A => self.waiting_for_key = Some(x as u8),
            // Fx15 — LD DT, Vx.
            0x15 => self.delay_timer = vx,
            // Fx18 — LD ST, Vx.
            0x18 => self.sound_timer = vx,
            // Fx1E — ADD I, Vx.
            0x1E => self.i = add_address(self.i, vx as u16),
            // Fx29 — LD F, Vx: I = address of the font sprite for Vx.
            0x29 => self.i = (crate::FONT_START + (vx % 16) as usize * 5) as u16,
            // Fx33 — LD B, Vx: BCD of Vx into memory[I..I+3].
            0x33 => {
                let i = self.i as usize;
                self.memory[wrap_address(i)] = vx / 100;
                self.memory[wrap_address(i + 1)] = (vx / 10) % 10;
                self.memory[wrap_address(i + 2)] = vx % 10;
                assert(self.memory@ =~= store_bcd(old(self)@, vx));
            },
            // Fx55 — LD [I], V0..Vx. (I itself is left unchanged.)
            0x55 => self.store_registers(x),
            // Fx65 — LD V0..Vx, [I].
            0x65 => self.load_registers(x),
            _ => return Err(Chip8Error::UnknownOpcode(opcode)),
        }
        Ok(())
    }

    /// `Fx55`: write V0..=Vx to memory from I onwards.
    fn store_registers(&mut self, x: usize)
        requires
            x < 16,
        ensures
            final(self)@ == (Machine { memory: store_registers(old(self)@, x as int), ..old(self)@ }),
    {
        let i = self.i as usize;
        let ghost m0 = self@;
        let mut offset: usize = 0;
        while offset <= x
            invariant
                x < 16,
                offset <= x + 1,
                i == m0.i,
                m0.memory.len() == 4096,
                self@ == (Machine { memory: self.memory@, ..m0 }),
                forall|a: int|
                    0 <= a < 4096 ==> #[trigger] self.memory@[a] == (if (a - i) % 4096 < offset {
                        m0.v[(a - i) % 4096]
                    } else {
                        m0.memory[a]
                    }),
            decreases x + 1 - offset,
        {
            let a = wrap_address(i + offset);
            self.memory[a] = self.v[offset];
            proof {
                assert forall|b: int| 0 <= b < 4096 implies #[trigger] self.memory@[b] == (if (b
                    - i) % 4096 < offset + 1 {
                    m0.v[(b - i) % 4096]
                } else {
                    m0.memory[b]
                }) by {
                    lemma_offset_address(b, i as int, offset as int);
                    lemma_offset_address(b, i as int, (b - i) % 4096);
                }
            }
            offset += 1;
        }
        assert(self.memory@ =~= store_registers(m0, x as int));
    }

    /// `Fx65`: read V0..=Vx from memory from I onwards.
    fn load_registers(&mut self, x: usize)
        requires
            x < 16,
        ensures
            final(self)@ == (Machine { v: load_registers(old(self)@, x as int), ..old(self)@ }),
    {
        let i = self.i as usize;
        let ghost m0 = self@;
        let mut offset: usize = 0;
        while offset <= x
            invariant
                x < 16,
                offset <= x + 1,
                i == m0.i,
                m0.v.len() == 16,
                self@ == (Machine { v: self.v@, ..m0 }),
                forall|r: int|
                    0 <= r < 16 ==> #[trigger] self.v@[r] == (if r < offset {
                        m0.memory[(i + r) % 4096]
                    } else {
                        m0.v[r]
                    }),
            decreases x + 1 - offset,
        {
            self.v[offset] = self.memory[wrap_address(i + offset)];
            offset += 1;
        }
        assert(self.v@ =~= load_registers(m0, x as int));
    }
}

} // verus!
