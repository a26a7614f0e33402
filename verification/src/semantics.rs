//! What each instruction does, stated directly over the machine before and
//! after one `step`: each law names the instruction by the word stored at
//! the program counter and describes its effect from the fields of the
//! machine, without going through the per-class definitions of `model`.
use vstd::prelude::*;
use crate::error::Chip8Error;
use crate::draw::{sprite_bit, sprite_covers, sprite_collides};
use crate::error::{hex_word, decimal, error_message, hex_char};
use crate::model::{
    initial_machine,
    Machine, step_machine, fetch, next_pc, execute, outcome_machine, outcome_result, op_class,
    op_x, op_y, op_n, op_kk, op_nnn, skip_if, exec_alu, exec_draw, exec_system, exec_call, exec_load, set_v, store_bcd, store_registers, load_registers, exec_branch, exec_key_skip, exec_misc,
};

verus! {

/// The big-endian word stored at the program counter (modulo the memory size).
pub open spec fn word_at_pc(m: Machine) -> int {
    m.memory[(m.pc % 4096) as int] * 256 + m.memory[(m.pc + 1) % 4096]
}

/// `m` is about to execute the word `op`.
pub open spec fn executes(m: Machine, op: int) -> bool {
    &&& m.well_formed()
    &&& m.waiting_for_key is None
    &&& word_at_pc(m) == op
}

/// The address of the instruction after the one at `pc`.
pub open spec fn following(pc: u16) -> int {
    (pc + 2) % 4096
}

/// The address two instructions after the one at `pc`.
pub open spec fn skipping(pc: u16) -> int {
    (pc + 4) % 4096
}

/// `b` agrees with `a` on everything but the registers and the program
/// counter.
pub open spec fn same_but_registers(a: Machine, b: Machine) -> bool {
    &&& b.memory == a.memory
    &&& b.i == a.i
    &&& b.stack == a.stack
    &&& b.sp == a.sp
    &&& b.delay_timer == a.delay_timer
    &&& b.sound_timer == a.sound_timer
    &&& b.display == a.display
    &&& b.keys == a.keys
    &&& b.waiting_for_key == a.waiting_for_key
    &&& b.rng == a.rng
}

/// `m` with the program counter moved past the current instruction.
pub open spec fn advanced(m: Machine) -> Machine {
    Machine { pc: next_pc(m.pc), ..m }
}

/// The opcode fields of a word, as the model decodes them.
proof fn lemma_fields(op: int)
    requires
        0 <= op < 0x10000,
    ensures
        op_class(op as u16) == op / 0x1000,
        op_x(op as u16) == (op / 0x100) % 16,
        op_y(op as u16) == (op / 0x10) % 16,
        op_n(op as u16) == op % 16,
        op_kk(op as u16) == op % 0x100,
        op_nnn(op as u16) == op % 0x1000,
{
}

/// A cycle of a machine that is not waiting executes the word at the
/// program counter on the machine with the program counter moved past it.
proof fn lemma_cycle(m: Machine, op: int)
    requires
        executes(m, op),
    ensures
        0 <= op < 0x10000,
        fetch(m) == op,
        op_class(op as u16) == op / 0x1000,
        op_x(op as u16) == (op / 0x100) % 16,
        op_y(op as u16) == (op / 0x10) % 16,
        op_n(op as u16) == op % 16,
        op_kk(op as u16) == op % 0x100,
        op_nnn(op as u16) == op % 0x1000,
        advanced(m).pc == following(m.pc),
        step_machine(m).0 == outcome_machine(advanced(m), execute(advanced(m), op as u16)),
        step_machine(m).1 == outcome_result(execute(advanced(m), op as u16)),
{
    let a = (m.pc % 4096) as int;
    assert(m.memory[a] < 256 && m.memory[(a + 1) % 4096] < 256);
    assert(0 <= op < 0x10000);
    assert(fetch(m) == op);
    lemma_fields(op);
    reveal(step_machine);
}

/// `8xy0`: Vx takes the old value of Vy; every other register, Vy
/// included, keeps its value, and execution moves to the next instruction.
pub proof fn lemma_copy_register(m: Machine, op: int)
    requires
        executes(m, op),
        op / 0x1000 == 8,
        op % 16 == 0,
    ensures
        ({
            let (after, r) = step_machine(m);
            let x = (op / 0x100) % 16;
            let y = (op / 0x10) % 16;
            &&& r is Ok
            &&& after.v == m.v.update(x, m.v[y])
            &&& after.pc == following(m.pc)
            &&& same_but_registers(m, after)
        }),
{
    lemma_cycle(m, op);
    let a = advanced(m);
    reveal(execute);
    assert(execute(a, op as u16) == exec_alu(a, op as u16));
}

/// `Ex9E` skips the next instruction exactly when the key named by the low
/// nibble of Vx is held, `ExA1` exactly when it is not; nothing else changes.
pub proof fn lemma_key_skips(m: Machine, op: int)
    requires
        executes(m, op),
        op / 0x1000 == 0xE,
        op % 0x100 == 0x9E || op % 0x100 == 0xA1,
    ensures
        ({
            let (after, r) = step_machine(m);
            let x = (op / 0x100) % 16;
            let held = m.keys[(m.v[x] % 16) as int];
            let skips = if op % 0x100 == 0x9E { held } else { !held };
            &&& r is Ok
            &&& after.pc == (if skips { skipping(m.pc) } else { following(m.pc) })
            &&& after.v == m.v
            &&& same_but_registers(m, after)
        }),
{
    lemma_cycle(m, op);
    let a = advanced(m);
    let w = op as u16;
    reveal(execute);
    assert(execute(a, w) == exec_key_skip(a, w));
    assert(((m.pc + 2) % 4096 + 2) % 4096 == (m.pc + 4) % 4096) by (nonlinear_arith);
    let held = a.keys[(a.v[op_x(w)] % 16) as int];
    if op % 0x100 == 0x9E {
        assert(exec_key_skip(a, w) == Ok::<Machine, Chip8Error>(skip_if(a, held)));
    } else {
        assert(exec_key_skip(a, w) == Ok::<Machine, Chip8Error>(skip_if(a, !held)));
    }
}

/// `3xkk`, `4xkk`, `5xy0`, `9xy0`: skip the next instruction exactly when
/// Vx equals kk, differs from kk, equals Vy, differs from Vy; nothing else
/// changes.
pub proof fn lemma_conditional_skips(m: Machine, op: int)
    requires
        executes(m, op),
        op / 0x1000 == 3 || op / 0x1000 == 4 || ((op / 0x1000 == 5 || op / 0x1000 == 9) && op
            % 16 == 0),
    ensures
        ({
            let (after, r) = step_machine(m);
            let class = op / 0x1000;
            let vx = m.v[(op / 0x100) % 16];
            let vy = m.v[(op / 0x10) % 16];
            let kk = op % 0x100;
            let skips = if class == 3 {
                vx == kk
            } else if class == 4 {
                vx != kk
            } else if class == 5 {
                vx == vy
            } else {
                vx != vy
            };
            &&& r is Ok
            &&& after.pc == (if skips { skipping(m.pc) } else { following(m.pc) })
            &&& after.v == m.v
            &&& same_but_registers(m, after)
        }),
{
    lemma_cycle(m, op);
    let a = advanced(m);
    let w = op as u16;
    reveal(execute);
    assert(execute(a, w) == exec_branch(a, w));
    let vx = a.v[op_x(w)];
    let vy = a.v[op_y(w)];
    let kk = op_kk(w);
    assert(((m.pc + 2) % 4096 + 2) % 4096 == (m.pc + 4) % 4096) by (nonlinear_arith);
    if op / 0x1000 == 3 {
        assert(exec_branch(a, w) == Ok::<Machine, Chip8Error>(skip_if(a, vx == kk)));
    } else if op / 0x1000 == 4 {
        assert(exec_branch(a, w) == Ok::<Machine, Chip8Error>(skip_if(a, vx != kk)));
    } else if op / 0x1000 == 5 {
        assert(exec_branch(a, w) == Ok::<Machine, Chip8Error>(skip_if(a, vx == vy)));
    } else {
        assert(exec_branch(a, w) == Ok::<Machine, Chip8Error>(skip_if(a, vx != vy)));
    }
}

/// `Fx1E`: I becomes the old I plus Vx, within the 12-bit address space;
/// nothing else but the program counter changes.
pub proof fn lemma_add_to_index(m: Machine, op: int)
    requires
        executes(m, op),
        op / 0x1000 == 0xF,
        op % 0x100 == 0x1E,
    ensures
        ({
            let (after, r) = step_machine(m);
            let x = (op / 0x100) % 16;
            &&& r is Ok
            &&& after.i == (m.i + m.v[x]) % 0x1000
            &&& after.pc == following(m.pc)
            &&& after.v == m.v
            &&& after == (Machine { i: after.i, pc: after.pc, ..m })
        }),
{
    lemma_cycle(m, op);
    let a = advanced(m);
    reveal(execute);
    assert(execute(a, op as u16) == exec_misc(a, op as u16));
}

/// Bit `c` of `byte`, counting from the most significant bit (bit 0)
/// down to the least significant (bit 7).
pub open spec fn bit_from_left(byte: u8, c: int) -> bool {
    (byte >> ((7 - c) as u8)) & 1u8 == 1u8
}

proof fn lemma_bit_from_left(byte: u8, c: int)
    requires
        0 <= c < 8,
    ensures
        sprite_bit(byte, c) == bit_from_left(byte, c),
{
    let k = c as u8;
    let s = (7 - c) as u8;
    assert((byte & (0x80u8 >> k) != 0) == ((byte >> s) & 1u8 == 1u8)) by (bit_vector)
        requires
            k < 8,
            s + k == 7,
    ;
}

/// Whether (`c`, `r`) is a position of the `n`-row sprite drawn at
/// (`x0`, `y0`) that lies on the 64×32 display.
pub open spec fn on_screen(x0: int, y0: int, n: int, c: int, r: int) -> bool {
    0 <= r < n && 0 <= c < 8 && y0 + r < 32 && x0 + c < 64
}

/// `Dxyn`: the sprite's row `r` is byte `r` of memory from I onwards, and
/// its column `c` is bit `c` of that byte from the left. Each set bit flips
/// the pixel at (Vx mod 64 + c, Vy mod 32 + r); bits that would fall off the
/// right or bottom edge are dropped and every other pixel keeps its value.
/// VF becomes 1 exactly when a set bit lands on a lit pixel, 0 otherwise.
#[verifier::rlimit(50)]
pub proof fn lemma_draw(m: Machine, op: int)
    requires
        executes(m, op),
        op / 0x1000 == 0xD,
    ensures
        ({
            let (after, res) = step_machine(m);
            let x0 = (m.v[(op / 0x100) % 16] % 64) as int;
            let y0 = (m.v[(op / 0x10) % 16] % 32) as int;
            let n = op % 16;
            let set = |c: int, r: int| bit_from_left(m.memory[(m.i + r) % 4096], c);
            &&& res is Ok
            &&& after.pc == following(m.pc)
            &&& after == (Machine { display: after.display, v: after.v, pc: after.pc, ..m })
            &&& forall|c: int, r: int| #[trigger] on_screen(x0, y0, n, c, r) ==>
                after.display[(y0 + r) * 64 + x0 + c] == (m.display[(y0 + r) * 64 + x0 + c] != set(c, r))
            &&& forall|p: int| 0 <= p < 2048 && !on_screen(x0, y0, n, p % 64 - x0, p / 64 - y0)
                ==> #[trigger] after.display[p] == m.display[p]
            &&& after.display.len() == 2048
            &&& after.v == m.v.update(15, if exists|c: int, r: int| #[trigger] on_screen(x0, y0, n, c, r)
                && set(c, r) && m.display[(y0 + r) * 64 + x0 + c] { 1u8 } else { 0u8 })
        }),
{
    lemma_cycle(m, op);
    let a = advanced(m);
    let w = op as u16;
    reveal(execute);
    let x = (op / 0x100) % 16;
    let y = (op / 0x10) % 16;
    let n = op % 16;
    assert(execute(a, w) == Ok::<Machine, Chip8Error>(exec_draw(a, x, y, n)));
    let x0 = (m.v[x] % 64) as int;
    let y0 = (m.v[y] % 32) as int;
    let set = |c: int, r: int| bit_from_left(m.memory[(m.i + r) % 4096], c);
    let after = step_machine(m).0;
    assert forall|c: int, r: int| #[trigger] on_screen(x0, y0, n, c, r) implies {
        let p = (y0 + r) * 64 + x0 + c;
        &&& p % 64 == x0 + c
        &&& p / 64 == y0 + r
        &&& sprite_covers(m.memory, m.i, x0, y0, n, p) == set(c, r)
        &&& after.display[p] == (m.display[p] != set(c, r))
    } by {
        lemma_bit_from_left(m.memory[(m.i + r) % 4096], c);
    }
    assert forall|p: int| 0 <= p < 2048 && !on_screen(x0, y0, n, p % 64 - x0, p / 64 - y0)
        implies #[trigger] after.display[p] == m.display[p] by {
        assert(!sprite_covers(m.memory, m.i, x0, y0, n, p));
    }
    let boxed = exists|c: int, r: int| #[trigger] on_screen(x0, y0, n, c, r) && set(c, r)
        && m.display[(y0 + r) * 64 + x0 + c];
    if sprite_collides(m.display, m.memory, m.i, x0, y0, n) {
        let p = choose|p: int| #[trigger] sprite_covers(m.memory, m.i, x0, y0, n, p) && m.display[p];
        let c = p % 64 - x0;
        let r = p / 64 - y0;
        assert(on_screen(x0, y0, n, c, r));
        assert((y0 + r) * 64 + x0 + c == p);
        assert(boxed);
    }
    if boxed {
        let (c, r) = choose|c: int, r: int| #[trigger] on_screen(x0, y0, n, c, r) && set(c, r)
            && m.display[(y0 + r) * 64 + x0 + c];
        let p = (y0 + r) * 64 + x0 + c;
        assert(sprite_covers(m.memory, m.i, x0, y0, n, p));
    }
}

/// `00E0` clears the display; any other `0nnn` but `00EE` is ignored. Both
/// move on to the next instruction and change nothing else.
pub proof fn lemma_system(m: Machine, op: int)
    requires
        executes(m, op),
        op / 0x1000 == 0,
        op != 0x00EE,
    ensures
        ({
            let (after, r) = step_machine(m);
            &&& r is Ok
            &&& after.pc == following(m.pc)
            &&& op == 0x00E0 ==> forall|p: int| 0 <= p < 2048 ==> !#[trigger] after.display[p]
            &&& op == 0x00E0 ==> after.display.len() == 2048
            &&& op != 0x00E0 ==> after.display == m.display
            &&& after == (Machine { display: after.display, pc: after.pc, ..m })
        }),
{
    lemma_cycle(m, op);
    let a = advanced(m);
    reveal(execute);
    assert(execute(a, op as u16) == exec_system(a, op as u16));
}

/// `00EE` returns to the address on top of the stack and pops it, or fails
/// with `StackUnderflow` (only moving past the instruction) when the stack
/// is empty.
pub proof fn lemma_return(m: Machine)
    requires
        executes(m, 0x00EE),
    ensures
        ({
            let (after, r) = step_machine(m);
            &&& m.sp == 0 ==> r == Err::<(), Chip8Error>(Chip8Error::StackUnderflow)
                && after == (Machine { pc: following(m.pc) as u16, ..m })
            &&& m.sp > 0 ==> r is Ok && after.pc == m.stack[m.sp - 1] && after.sp == m.sp - 1
                && after == (Machine { pc: after.pc, sp: after.sp, ..m })
        }),
{
    lemma_cycle(m, 0x00EE);
    let a = advanced(m);
    reveal(execute);
    assert(execute(a, 0x00EE) == exec_system(a, 0x00EE));
}

/// `2nnn` pushes the address of the next instruction and jumps to nnn, or
/// fails with `StackOverflow` (only moving past the instruction) when all
/// sixteen slots are in use.
pub proof fn lemma_call(m: Machine, op: int)
    requires
        executes(m, op),
        op / 0x1000 == 2,
    ensures
        ({
            let (after, r) = step_machine(m);
            &&& m.sp >= 16 ==> r == Err::<(), Chip8Error>(Chip8Error::StackOverflow)
                && after == (Machine { pc: following(m.pc) as u16, ..m })
            &&& m.sp < 16 ==> r is Ok && after.pc == op % 0x1000 && after.sp == m.sp + 1
                && after.stack == m.stack.update(m.sp as int, following(m.pc) as u16)
                && after == (Machine { pc: after.pc, sp: after.sp, stack: after.stack, ..m })
        }),
{
    lemma_cycle(m, op);
    let a = advanced(m);
    reveal(execute);
    assert(execute(a, op as u16) == exec_call(a, op_nnn(op as u16)));
}

/// `1nnn` jumps to nnn and `Bnnn` to nnn + V0 (within the 12-bit address
/// space); nothing else changes.
pub proof fn lemma_jumps(m: Machine, op: int)
    requires
        executes(m, op),
        op / 0x1000 == 1 || op / 0x1000 == 0xB,
    ensures
        ({
            let (after, r) = step_machine(m);
            &&& r is Ok
            &&& after.pc == (if op / 0x1000 == 1 { op % 0x1000 } else { (op % 0x1000 + m.v[0]) % 0x1000 })
            &&& after == (Machine { pc: after.pc, ..m })
        }),
{
    lemma_cycle(m, op);
    let a = advanced(m);
    reveal(execute);
    assert(execute(a, op as u16) == exec_branch(a, op as u16));
}

/// `6xkk` loads kk into Vx, `7xkk` adds kk to Vx modulo 256 leaving VF
/// alone, `Annn` loads nnn into I; nothing else but the program counter
/// changes.
pub proof fn lemma_immediates(m: Machine, op: int)
    requires
        executes(m, op),
        op / 0x1000 == 6 || op / 0x1000 == 7 || op / 0x1000 == 0xA,
    ensures
        ({
            let (after, r) = step_machine(m);
            let x = (op / 0x100) % 16;
            let kk = op % 0x100;
            &&& r is Ok
            &&& after.pc == following(m.pc)
            &&& op / 0x1000 == 6 ==> after == (Machine { v: m.v.update(x, kk as u8), pc: after.pc, ..m })
            &&& op / 0x1000 == 7 ==> after == (Machine {
                v: m.v.update(x, ((m.v[x] + kk) % 256) as u8),
                pc: after.pc,
                ..m
            })
            &&& op / 0x1000 == 0xA ==> after == (Machine { i: (op % 0x1000) as u16, pc: after.pc, ..m })
        }),
{
    lemma_cycle(m, op);
    let a = advanced(m);
    reveal(execute);
    assert(execute(a, op as u16) == Ok::<Machine, Chip8Error>(exec_load(a, op as u16)));
}

/// `8xy1`, `8xy2`, `8xy3` set Vx to the bitwise OR, AND, XOR of Vx and Vy;
/// every other register keeps its value.
pub proof fn lemma_logic(m: Machine, op: int)
    requires
        executes(m, op),
        op / 0x1000 == 8,
        1 <= op % 16 <= 3,
    ensures
        ({
            let (after, r) = step_machine(m);
            let x = (op / 0x100) % 16;
            let vx = m.v[x];
            let vy = m.v[(op / 0x10) % 16];
            &&& r is Ok
            &&& after.pc == following(m.pc)
            &&& after.v == m.v.update(x, if op % 16 == 1 { vx | vy } else if op % 16 == 2 { vx & vy } else { vx ^ vy })
            &&& same_but_registers(m, after)
        }),
{
    lemma_cycle(m, op);
    let a = advanced(m);
    reveal(execute);
    assert(execute(a, op as u16) == exec_alu(a, op as u16));
}

/// `8xy4`, `8xy5`, `8xy7`, `8xy6`, `8xyE` with a destination other than
/// VF: Vx and the flag VF (0 or 1) together hold the exact sum, difference
/// (VF = 1 when no borrow), reversed difference, halving (VF = the bit
/// shifted out) or doubling (VF = the bit shifted out); every other register
/// keeps its value.
pub proof fn lemma_arithmetic(m: Machine, op: int)
    requires
        executes(m, op),
        op / 0x1000 == 8,
        4 <= op % 16 <= 7 || op % 16 == 0xE,
        (op / 0x100) % 16 != 15,
    ensures
        ({
            let (after, r) = step_machine(m);
            let x = (op / 0x100) % 16;
            let vx = m.v[x] as int;
            let vy = m.v[(op / 0x10) % 16] as int;
            let n = op % 16;
            let rx = after.v[x] as int;
            let f = after.v[15] as int;
            &&& r is Ok
            &&& after.pc == following(m.pc)
            &&& same_but_registers(m, after)
            &&& after.v.len() == 16
            &&& forall|j: int| 0 <= j < 16 && j != x && j != 15 ==> #[trigger] after.v[j] == m.v[j]
            &&& 0 <= f <= 1
            &&& n == 4 ==> rx + 256 * f == vx + vy
            &&& n == 5 ==> rx - 256 * (1 - f) == vx - vy
            &&& n == 7 ==> rx - 256 * (1 - f) == vy - vx
            &&& n == 6 ==> 2 * rx + f == vx
            &&& n == 0xE ==> rx + 256 * f == 2 * vx
        }),
{
    lemma_cycle(m, op);
    let a = advanced(m);
    reveal(execute);
    assert(execute(a, op as u16) == exec_alu(a, op as u16));
    crate::laws::lemma_alu_flags(a, op as u16);
}

/// With VF as the destination of `8xy4`–`8xyE`, VF ends up holding the
/// flag, not the arithmetic result.
pub proof fn lemma_flag_wins(m: Machine, op: int)
    requires
        executes(m, op),
        op / 0x1000 == 8,
        4 <= op % 16 <= 7 || op % 16 == 0xE,
        (op / 0x100) % 16 == 15,
    ensures
        ({
            let (after, r) = step_machine(m);
            let vx = m.v[15] as int;
            let vy = m.v[(op / 0x10) % 16] as int;
            let n = op % 16;
            &&& r is Ok
            &&& after.v[15] == (if n == 4 {
                if vx + vy > 255 { 1int } else { 0 }
            } else if n == 5 {
                if vx >= vy { 1int } else { 0 }
            } else if n == 7 {
                if vy >= vx { 1int } else { 0 }
            } else if n == 6 {
                vx % 2
            } else {
                vx / 128
            })
        }),
{
    lemma_cycle(m, op);
    let a = advanced(m);
    reveal(execute);
    assert(execute(a, op as u16) == exec_alu(a, op as u16));
}

/// `Cxkk` advances the xorshift32 generator (shift left 13, right 17, left
/// 5, each XOR-ed in) and stores the top byte of its new state, masked by
/// kk, in Vx; nothing else but the program counter changes.
pub proof fn lemma_random(m: Machine, op: int)
    requires
        executes(m, op),
        op / 0x1000 == 0xC,
    ensures
        ({
            let (after, r) = step_machine(m);
            let x = (op / 0x100) % 16;
            let s0 = m.rng;
            let s1 = s0 ^ (s0 << 13u32);
            let s2 = s1 ^ (s1 >> 17u32);
            let s3 = s2 ^ (s2 << 5u32);
            &&& r is Ok
            &&& after.rng == s3
            &&& after.v == m.v.update(x, ((s3 >> 24u32) as u8) & ((op % 0x100) as u8))
            &&& after == (Machine { v: after.v, rng: after.rng, pc: following(m.pc) as u16, ..m })
        }),
{
    lemma_cycle(m, op);
    let a = advanced(m);
    reveal(execute);
    assert(execute(a, op as u16) == Ok::<Machine, Chip8Error>(exec_load(a, op as u16)));
}

/// `Fx07` reads the delay timer into Vx, `Fx15` and `Fx18` set the delay and
/// sound timers from Vx, `Fx0A` starts waiting for a key to store in Vx, and
/// `Fx29` points I at the five-byte font glyph (at 0x50) of the low nibble
/// of Vx; nothing else but the program counter changes.
pub proof fn lemma_timers_wait_and_font(m: Machine, op: int)
    requires
        executes(m, op),
        op / 0x1000 == 0xF,
        op % 0x100 == 0x07 || op % 0x100 == 0x0A || op % 0x100 == 0x15 || op % 0x100 == 0x18 || op
            % 0x100 == 0x29,
    ensures
        ({
            let (after, r) = step_machine(m);
            let x = (op / 0x100) % 16;
            let vx = m.v[x];
            let kk = op % 0x100;
            let next = following(m.pc) as u16;
            &&& r is Ok
            &&& kk == 0x07 ==> after == (Machine { v: m.v.update(x, m.delay_timer), pc: next, ..m })
            &&& kk == 0x0A ==> after == (Machine { waiting_for_key: Some(x as u8), pc: next, ..m })
            &&& kk == 0x15 ==> after == (Machine { delay_timer: vx, pc: next, ..m })
            &&& kk == 0x18 ==> after == (Machine { sound_timer: vx, pc: next, ..m })
            &&& kk == 0x29 ==> after == (Machine { i: (0x50 + 5 * (vx % 16)) as u16, pc: next, ..m })
        }),
{
    lemma_cycle(m, op);
    let a = advanced(m);
    reveal(execute);
    assert(execute(a, op as u16) == exec_misc(a, op as u16));
}

/// `Fx33` writes the hundreds, tens and units digits of Vx to I, I+1, I+2
/// (modulo the memory size) and leaves the rest of memory alone.
pub proof fn lemma_bcd(m: Machine, op: int)
    requires
        executes(m, op),
        op / 0x1000 == 0xF,
        op % 0x100 == 0x33,
    ensures
        ({
            let (after, r) = step_machine(m);
            let vx = m.v[(op / 0x100) % 16] as int;
            let i = m.i as int;
            &&& r is Ok
            &&& after.memory.len() == 4096
            &&& after.memory[i % 4096] < 10 && after.memory[(i + 1) % 4096] < 10
                && after.memory[(i + 2) % 4096] < 10
            &&& 100 * after.memory[i % 4096] + 10 * after.memory[(i + 1) % 4096] + after.memory[(i
                + 2) % 4096] == vx
            &&& forall|a: int|
                0 <= a < 4096 && a != i % 4096 && a != (i + 1) % 4096 && a != (i + 2) % 4096
                    ==> #[trigger] after.memory[a] == m.memory[a]
            &&& after == (Machine { memory: after.memory, pc: following(m.pc) as u16, ..m })
        }),
{
    lemma_cycle(m, op);
    let a = advanced(m);
    reveal(execute);
    assert(execute(a, op as u16) == exec_misc(a, op as u16));
    crate::laws::lemma_bcd_digits(a, m.v[(op / 0x100) % 16]);
}

/// `Fx55` writes V0..=Vx to memory from I onwards (modulo the memory size)
/// and leaves the rest of memory, I included, alone; `Fx65` reads V0..=Vx
/// back from there and leaves the other registers alone.
pub proof fn lemma_register_transfer(m: Machine, op: int)
    requires
        executes(m, op),
        op / 0x1000 == 0xF,
        op % 0x100 == 0x55 || op % 0x100 == 0x65,
    ensures
        ({
            let (after, r) = step_machine(m);
            let x = (op / 0x100) % 16;
            let i = m.i as int;
            &&& r is Ok
            &&& after.i == m.i
            &&& op % 0x100 == 0x55 ==> {
                &&& after.memory.len() == 4096
                &&& forall|j: int| 0 <= j <= x ==> #[trigger] after.memory[(i + j) % 4096] == m.v[j]
                &&& forall|a: int|
                    0 <= a < 4096 && (forall|j: int| 0 <= j <= x ==> a != #[trigger] ((i + j) % 4096))
                        ==> #[trigger] after.memory[a] == m.memory[a]
                &&& after == (Machine { memory: after.memory, pc: following(m.pc) as u16, ..m })
            }
            &&& op % 0x100 == 0x65 ==> {
                &&& after.v.len() == 16
                &&& forall|j: int| 0 <= j <= x ==> #[trigger] after.v[j] == m.memory[(i + j) % 4096]
                &&& forall|j: int| x < j < 16 ==> #[trigger] after.v[j] == m.v[j]
                &&& after == (Machine { v: after.v, pc: following(m.pc) as u16, ..m })
            }
        }),
{
    lemma_cycle(m, op);
    let a = advanced(m);
    reveal(execute);
    assert(execute(a, op as u16) == exec_misc(a, op as u16));
    let x = (op / 0x100) % 16;
    if op % 0x100 == 0x55 {
        let after = step_machine(m).0;
        assert forall|j: int| 0 <= j <= x implies #[trigger] after.memory[(m.i + j) % 4096] == m.v[j] by {
            crate::bits::lemma_offset_address((m.i + j) % 4096, m.i as int, j);
        }
        assert forall|b: int|
            0 <= b < 4096 && (forall|j: int| 0 <= j <= x ==> b != #[trigger] ((m.i + j) % 4096))
            implies #[trigger] after.memory[b] == m.memory[b] by {
            let off = (b - m.i) % 4096;
            crate::bits::lemma_offset_address(b, m.i as int, off);
            if off <= x {
                assert(b != (m.i + off) % 4096);
            }
        }
    }
}

/// The words that are CHIP-8 instructions.
pub open spec fn is_instruction(op: int) -> bool {
    let class = op / 0x1000;
    let n = op % 16;
    let kk = op % 0x100;
    ||| class == 0 || class == 1 || class == 2 || class == 3 || class == 4 || class == 6
    ||| class == 7 || class == 0xA || class == 0xB || class == 0xC || class == 0xD
    ||| (class == 5 || class == 9) && n == 0
    ||| class == 8 && (n <= 7 || n == 0xE)
    ||| class == 0xE && (kk == 0x9E || kk == 0xA1)
    ||| class == 0xF && (kk == 0x07 || kk == 0x0A || kk == 0x15 || kk == 0x18 || kk == 0x1E
        || kk == 0x29 || kk == 0x33 || kk == 0x55 || kk == 0x65)
}

/// A word that is not an instruction fails with `UnknownOpcode` carrying the
/// word, and the cycle only moves past it; an instruction never reports
/// `UnknownOpcode`.
pub proof fn lemma_unknown_opcode(m: Machine, op: int)
    requires
        executes(m, op),
    ensures
        !is_instruction(op) ==> step_machine(m).1 == Err::<(), Chip8Error>(
            Chip8Error::UnknownOpcode(op as u16),
        ) && step_machine(m).0 == (Machine { pc: following(m.pc) as u16, ..m }),
        is_instruction(op) ==> !(step_machine(m).1 matches Err(Chip8Error::UnknownOpcode(_))),
{
    lemma_cycle(m, op);
    reveal(execute);
}

/// The value of a hexadecimal digit character (upper case), or -1.
pub open spec fn digit_value(c: char) -> int {
    if '0' <= c <= '9' {
        c as int - '0' as int
    } else if 'A' <= c <= 'F' {
        c as int - 'A' as int + 10
    } else {
        -1
    }
}

/// The number that the decimal digits `s` spell.
pub open spec fn decimal_value(s: Seq<char>) -> int
    decreases s.len(),
{
    if s.len() == 0 {
        0
    } else {
        decimal_value(s.drop_last()) * 10 + digit_value(s.last())
    }
}

proof fn lemma_hex_char(d: int)
    requires
        0 <= d < 16,
    ensures
        digit_value(hex_char(d)) == d,
{
    if d < 10 {
        assert(hex_char(d) as int == '0' as int + d);
    } else {
        assert(hex_char(d) as int == 'A' as int + d - 10);
    }
}

proof fn lemma_hex_digits(w: int)
    requires
        0 <= w < 0x10000,
    ensures
        (w / 0x1000) * 4096 + ((w / 0x100) % 16) * 256 + ((w / 0x10) % 16) * 16 + w % 16 == w,
        0 <= w / 0x1000 < 16,
{
    assert((w / 0x1000) * 4096 + ((w / 0x100) % 16) * 256 + ((w / 0x10) % 16) * 16 + w % 16 == w)
        by (nonlinear_arith)
        requires
            0 <= w < 0x10000,
    ;
}

/// The opcode in an `UnknownOpcode` message reads back as the opcode: after
/// `"unknown opcode 0x"` come four upper-case hex digits, most significant
/// first.
pub proof fn lemma_opcode_message_reads_back(op: u16)
    ensures
        error_message(Chip8Error::UnknownOpcode(op)) == "unknown opcode "@ + hex_word(op),
        hex_word(op).len() == 6,
        hex_word(op)[0] == '0' && hex_word(op)[1] == 'x',
        forall|k: int| 2 <= k < 6 ==> 0 <= #[trigger] digit_value(hex_word(op)[k]) < 16,
        digit_value(hex_word(op)[2]) * 4096 + digit_value(hex_word(op)[3]) * 256 + digit_value(
            hex_word(op)[4],
        ) * 16 + digit_value(hex_word(op)[5]) == op,
{
    let w = op as int;
    let h = hex_word(op);
    lemma_hex_digits(w);
    lemma_hex_char(w / 0x1000);
    lemma_hex_char((w / 0x100) % 16);
    lemma_hex_char((w / 0x10) % 16);
    lemma_hex_char(w % 16);
    let d0 = digit_value(h[2]);
    let d1 = digit_value(h[3]);
    let d2 = digit_value(h[4]);
    let d3 = digit_value(h[5]);
    assert(d0 == w / 0x1000 && d1 == (w / 0x100) % 16 && d2 == (w / 0x10) % 16 && d3 == w % 16);
    assert forall|k: int| 2 <= k < 6 implies 0 <= #[trigger] digit_value(h[k]) < 16 by {
        if k == 2 {} else if k == 3 {} else if k == 4 {} else {}
    }
}

/// The size in a `RomTooLarge` message reads back as the size: it is
/// written in decimal digits without leading zeros.
pub proof fn lemma_size_reads_back(n: nat)
    ensures
        decimal(n).len() > 0,
        (decimal(n).len() == 1) == (n < 10),
        digit_value(decimal(n)[0]) == 0 ==> n == 0,
        forall|k: int| 0 <= k < decimal(n).len() ==> 0 <= #[trigger] digit_value(decimal(n)[k]) < 10,
        decimal(n).len() > 1 ==> decimal(n)[0] != '0',
        decimal_value(decimal(n)) == n,
    decreases n,
{
    lemma_hex_char((n % 10) as int);
    if n < 10 {
        lemma_hex_char(n as int);
        assert(decimal(n) == seq![hex_char(n as int)]);
        assert(decimal(n).drop_last() =~= Seq::<char>::empty());
        assert(decimal_value(Seq::<char>::empty()) == 0);
        assert(decimal_value(decimal(n)) == decimal_value(decimal(n).drop_last()) * 10
            + digit_value(decimal(n).last()));
    } else {
        lemma_size_reads_back(n / 10);
        let s = decimal(n);
        let t = decimal(n / 10);
        assert(s == t.push(hex_char((n % 10) as int)));
        assert(s.drop_last() =~= t);
        assert(s[0] == t[0]);
        assert(decimal_value(s) == decimal_value(t) * 10 + digit_value(s.last()));
        assert((n / 10) * 10 + n % 10 == n);
        assert forall|k: int| 0 <= k < s.len() implies 0 <= #[trigger] digit_value(s[k]) < 10 by {
            if k < s.len() - 1 {
                assert(s[k] == t[k]);
            }
        }
    }
}

/// A fresh machine starts at 0x200 with every register, timer, stack slot,
/// pixel and key cleared, the generator seeded (zero replaced by
/// 0x2A2A_2A2A), and memory empty but for the hexadecimal font at 0x50: the
/// sixteen glyphs 0–F, five rows each, drawn in the high nibble of each row.
pub proof fn lemma_fresh_machine(seed: u32)
    ensures
        ({
            let m = initial_machine(seed);
            &&& m.well_formed()
            &&& m.pc == 0x200 && m.i == 0 && m.sp == 0 && m.delay_timer == 0 && m.sound_timer == 0
            &&& m.waiting_for_key is None
            &&& m.rng == (if seed == 0 { 0x2A2A_2A2Au32 } else { seed })
            &&& forall|j: int| 0 <= j < 16 ==> #[trigger] m.v[j] == 0 && m.stack[j] == 0 && !m.keys[j]
            &&& forall|p: int| 0 <= p < 2048 ==> !#[trigger] m.display[p]
            &&& forall|a: int| 0 <= a < 4096 && !(0x50 <= a < 0xA0) ==> #[trigger] m.memory[a] == 0
            &&& forall|a: int| 0x50 <= a < 0xA0 ==> #[trigger] m.memory[a] & 0x0F == 0
            &&& m.memory.subrange(0x50, 0xA0) == seq![
                0xF0u8, 0x90, 0x90, 0x90, 0xF0, 0x20, 0x60, 0x20, 0x20, 0x70, // 0 1
                0xF0, 0x10, 0xF0, 0x80, 0xF0, 0xF0, 0x10, 0xF0, 0x10, 0xF0, // 2 3
                0x90, 0x90, 0xF0, 0x10, 0x10, 0xF0, 0x80, 0xF0, 0x10, 0xF0, // 4 5
                0xF0, 0x80, 0xF0, 0x90, 0xF0, 0xF0, 0x10, 0x20, 0x40, 0x40, // 6 7
                0xF0, 0x90, 0xF0, 0x90, 0xF0, 0xF0, 0x90, 0xF0, 0x10, 0xF0, // 8 9
                0xF0, 0x90, 0xF0, 0x90, 0x90, 0xE0, 0x90, 0xE0, 0x90, 0xE0, // A B
                0xF0, 0x80, 0x80, 0x80, 0xF0, 0xE0, 0x90, 0x90, 0x90, 0xE0, // C D
                0xF0, 0x80, 0xF0, 0x80, 0xF0, 0xF0, 0x80, 0xF0, 0x80, 0x80, // E F
            ]
        }),
{
    let m = initial_machine(seed);
    assert(m.memory.subrange(0x50, 0xA0) =~= crate::model::font());
    assert forall|a: int| 0x50 <= a < 0xA0 implies #[trigger] m.memory[a] & 0x0F == 0 by {
        let b = m.memory[a];
        assert(b == 0xF0 || b == 0x90 || b == 0x20 || b == 0x60 || b == 0x70 || b == 0x10
            || b == 0x80 || b == 0x40 || b == 0xE0);
        assert(b == 0xF0 || b == 0x90 || b == 0x20 || b == 0x60 || b == 0x70 || b == 0x10
            || b == 0x80 || b == 0x40 || b == 0xE0 ==> b & 0x0F == 0) by (bit_vector);
    }
}

} // verus!
