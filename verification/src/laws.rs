//! Properties of the machine that span instructions and operations.
use vstd::prelude::*;
use crate::model::{
    Machine, xorshift32, step_machine, execute, fetch, next_pc, op_class, press_key, release_key,
    tick, reset_machine, load_memory, load_result, initial_machine, exec_alu, exec_load, exec_draw, op_x, op_y,
    op_n, op_kk, set_v_flag, run_steps, run_frame, run_cycles, restart, store_bcd, store_registers, load_registers, random_byte,
};
use crate::draw::{draw_sprite, sprite_covers, sprite_collides};
use crate::bits::lemma_offset_address;
use crate::error::Chip8Error;

verus! {

/// The xorshift32 step never maps a nonzero state to zero, so a generator
/// seeded away from zero never reaches its fixed point.
pub proof fn lemma_xorshift_nonzero(x: u32)
    requires
        x != 0,
    ensures
        xorshift32(x) != 0,
{
    assert(x != 0 ==> {
        let a = x ^ (x << 13u32);
        let b = a ^ (a >> 17u32);
        b ^ (b << 5u32) != 0
    }) by (bit_vector);
}

/// Every fetch/decode/execute cycle keeps a well-formed machine
/// well-formed, so `step` can be called again on its result.
pub proof fn lemma_step_well_formed(m: Machine)
    requires
        m.well_formed(),
    ensures
        step_machine(m).0.well_formed(),
{
    reveal(step_machine);
    reveal(execute);
}

/// Every fetch/decode/execute cycle keeps a consistent machine consistent:
/// the program counter, the index register and the return addresses stay
/// 12-bit and the random generator stays away from zero.
pub proof fn lemma_step_consistent(m: Machine)
    requires
        m.consistent(),
    ensures
        step_machine(m).0.consistent(),
{
    reveal(step_machine);
    reveal(execute);
    lemma_step_well_formed(m);
    lemma_xorshift_nonzero(m.rng);
    let next = step_machine(m).0;
    assert forall|j: int| 0 <= j < next.sp implies #[trigger] next.stack[j] < 0x1000 by {
        if j < m.sp {
            assert(m.stack[j] < 0x1000);
        }
    }
}

/// The keypad, the timers, `reset` and loading a ROM keep a well-formed
/// machine well-formed and a consistent machine consistent.
pub proof fn lemma_controls_consistent(m: Machine, key: u8, rom: Seq<u8>)
    ensures
        m.well_formed() ==> press_key(m, key).well_formed(),
        m.well_formed() ==> release_key(m, key).well_formed(),
        m.well_formed() ==> tick(m).well_formed(),
        m.well_formed() ==> reset_machine(m).well_formed(),
        m.well_formed() ==> (Machine { memory: load_memory(m.memory, rom), ..m }).well_formed(),
        m.consistent() ==> press_key(m, key).consistent(),
        m.consistent() ==> release_key(m, key).consistent(),
        m.consistent() ==> tick(m).consistent(),
        m.consistent() ==> reset_machine(m).consistent(),
        m.consistent() ==> (Machine { memory: load_memory(m.memory, rom), ..m }).consistent(),
{
}

/// A freshly built machine is consistent, whatever the seed.
pub proof fn lemma_initial_consistent(seed: u32)
    ensures
        initial_machine(seed).consistent(),
{
}

/// While `Fx0A` waits for a key, a cycle changes nothing and succeeds, so
/// frontends can keep calling `step` at their normal rate.
pub proof fn lemma_waiting_step_is_noop(m: Machine)
    requires
        m.waiting_for_key is Some,
    ensures
        step_machine(m).0 == m,
        step_machine(m).1 == Ok::<(), crate::Chip8Error>(()),
{
    reveal(step_machine);
    reveal(execute);
}

/// A key press while `Fx0A` waits stores the key in the waiting register
/// and lets execution continue.
pub proof fn lemma_key_press_resumes(m: Machine, key: u8)
    requires
        m.well_formed(),
        m.waiting_for_key is Some,
        key < 16,
    ensures
        press_key(m, key).v[m.waiting_for_key->0 as int] == key,
        press_key(m, key).waiting_for_key is None,
        press_key(m, key).keys[key as int],
{
}

/// Keys outside the 16-key pad are ignored; a released key reads up.
pub proof fn lemma_keypad(m: Machine, key: u8)
    requires
        m.well_formed(),
    ensures
        key >= 16 ==> press_key(m, key) == m && release_key(m, key) == m,
        key < 16 ==> press_key(m, key).keys[key as int],
        key < 16 ==> !release_key(press_key(m, key), key).keys[key as int],
        key < 16 ==> release_key(press_key(m, key), key).keys == m.keys.update(key as int, false),
{
    if key < 16 {
        assert(release_key(press_key(m, key), key).keys =~= m.keys.update(key as int, false));
    }
}

/// `CALL` followed by `RET` resumes at the instruction after the `CALL`
/// with the stack as deep as before.
pub proof fn lemma_call_then_return(m: Machine)
    requires
        m.well_formed(),
        m.waiting_for_key is None,
        m.sp < 16,
        op_class(fetch(m)) == 2,
        fetch(step_machine(m).0) == 0x00EE,
    ensures
        step_machine(m).1 is Ok,
        step_machine(step_machine(m).0).1 is Ok,
        step_machine(step_machine(m).0).0.pc == next_pc(m.pc),
        step_machine(step_machine(m).0).0.sp == m.sp,
{
    reveal(step_machine);
    reveal(execute);
}

/// XOR drawing is its own inverse: the same sprite drawn twice at the same
/// place leaves the display as it was.
pub proof fn lemma_draw_sprite_involution(display: Seq<bool>, memory: Seq<u8>, i: u16, x0: int, y0: int, n: int)
    ensures
        draw_sprite(draw_sprite(display, memory, i, x0, y0, n), memory, i, x0, y0, n) == display,
{
    assert(draw_sprite(draw_sprite(display, memory, i, x0, y0, n), memory, i, x0, y0, n) =~= display);
}

/// Executing the same `Dxyn` twice (with Vx and Vy other than VF, which the
/// first draw overwrites) restores the display; on a blank display the first
/// draw reports no collision and the second reports one exactly when the
/// sprite lit a pixel.
pub proof fn lemma_redraw_erases(m: Machine, x: int, y: int, n: int)
    requires
        m.well_formed(),
        0 <= x < 15,
        0 <= y < 15,
        0 <= n < 16,
    ensures
        exec_draw(exec_draw(m, x, y, n), x, y, n).display == m.display,
        (forall|p: int| 0 <= p < 2048 ==> !#[trigger] m.display[p]) ==> {
            let x0 = (m.v[x] % 64) as int;
            let y0 = (m.v[y] % 32) as int;
            &&& exec_draw(m, x, y, n).v[15] == 0
            &&& exec_draw(exec_draw(m, x, y, n), x, y, n).v[15] == (if exists|p: int|
                #[trigger] sprite_covers(m.memory, m.i, x0, y0, n, p) {
                1u8
            } else {
                0u8
            })
        },
{
    let x0 = (m.v[x] % 64) as int;
    let y0 = (m.v[y] % 32) as int;
    let m1 = exec_draw(m, x, y, n);
    assert(m1.v[x] == m.v[x] && m1.v[y] == m.v[y]);
    lemma_draw_sprite_involution(m.display, m.memory, m.i, x0, y0, n);
    if forall|p: int| 0 <= p < 2048 ==> !#[trigger] m.display[p] {
        if sprite_collides(m.display, m.memory, m.i, x0, y0, n) {
            let q = choose|q: int| #[trigger] sprite_covers(m.memory, m.i, x0, y0, n, q) && m.display[q];
            assert(!m.display[q]);
        }
        if exists|p: int| #[trigger] sprite_covers(m.memory, m.i, x0, y0, n, p) {
            let q = choose|q: int| #[trigger] sprite_covers(m.memory, m.i, x0, y0, n, q);
            assert(m1.display[q]);
        }
    }
}

/// Drawing wraps only the start position: every pixel a sprite flips lies
/// at or right of its wrapped start column and at or below its wrapped start
/// row, within eight columns and `n` rows of it, so whatever hangs off the
/// right or bottom edge is clipped rather than wrapped.
pub proof fn lemma_draw_clips(m: Machine, x: int, y: int, n: int, p: int)
    requires
        m.well_formed(),
        0 <= x < 16,
        0 <= y < 16,
        sprite_covers(m.memory, m.i, (m.v[x] % 64) as int, (m.v[y] % 32) as int, n, p),
    ensures
        (m.v[x] % 64) as int <= p % 64 < (m.v[x] % 64) as int + 8,
        (m.v[y] % 32) as int <= p / 64 < (m.v[y] % 32) as int + n,
        exec_draw(m, x, y, n).display[p] != m.display[p],
{
}

/// The carry, borrow and shifted-out flags of the arithmetic instructions
/// complete the truncated result to the exact one (for a destination other
/// than VF).
#[verifier::rlimit(40)]
pub proof fn lemma_alu_flags(m: Machine, op: u16)
    requires
        m.well_formed(),
        op_class(op) == 8,
        op_x(op) != 15,
    ensures
        ({
            let x = op_x(op);
            let vx = m.v[x] as int;
            let vy = m.v[op_y(op)] as int;
            let n = op_n(op);
            let r = exec_alu(m, op);
            &&& n == 0x4 ==> r->Ok_0.v[x] + 256 * r->Ok_0.v[15] == vx + vy
            &&& n == 0x5 ==> r->Ok_0.v[x] - 256 * (1 - r->Ok_0.v[15]) == vx - vy
            &&& n == 0x7 ==> r->Ok_0.v[x] - 256 * (1 - r->Ok_0.v[15]) == vy - vx
            &&& n == 0x6 ==> 2 * r->Ok_0.v[x] + r->Ok_0.v[15] == vx
            &&& n == 0xE ==> r->Ok_0.v[x] + 256 * r->Ok_0.v[15] == 2 * vx
        }),
{
    let x = op_x(op);
    let vx = m.v[x] as int;
    let vy = m.v[op_y(op)] as int;
    let n = op_n(op);
    let r = exec_alu(m, op);
    if n == 0x4 {
        assert(r == Ok::<Machine, crate::Chip8Error>(set_v_flag(m, x, ((vx + vy) % 256) as u8, if vx + vy > 255 { 1 } else { 0 })));
        assert((vx + vy) % 256 + 256 * (if vx + vy > 255 { 1int } else { 0 }) == vx + vy);
    } else if n == 0x5 {
        assert(r == Ok::<Machine, crate::Chip8Error>(set_v_flag(m, x, ((vx - vy) % 256) as u8, if vx >= vy { 1 } else { 0 })));
        assert((vx - vy) % 256 - 256 * (1 - (if vx >= vy { 1int } else { 0 })) == vx - vy);
    } else if n == 0x7 {
        assert(r == Ok::<Machine, crate::Chip8Error>(set_v_flag(m, x, ((vy - vx) % 256) as u8, if vy >= vx { 1 } else { 0 })));
        assert((vy - vx) % 256 - 256 * (1 - (if vy >= vx { 1int } else { 0 })) == vy - vx);
    } else if n == 0xE {
        assert(r == Ok::<Machine, crate::Chip8Error>(set_v_flag(m, x, ((vx * 2) % 256) as u8, (vx / 128) as u8)));
        assert((vx * 2) % 256 + 256 * (vx / 128) == 2 * vx);
    }
}

/// `RND` never sets a bit of Vx outside its mask.
pub proof fn lemma_random_masked(m: Machine, op: u16)
    requires
        m.well_formed(),
        op_class(op) == 0xC,
    ensures
        exec_load(m, op).v[op_x(op)] & op_kk(op) == exec_load(m, op).v[op_x(op)],
{
    let b = random_byte(xorshift32(m.rng));
    let k = op_kk(op);
    assert((b & k) & k == b & k) by (bit_vector);
}

/// `Fx33` writes three decimal digits that spell Vx.
pub proof fn lemma_bcd_digits(m: Machine, value: u8)
    requires
        m.well_formed(),
    ensures
        ({
            let i = m.i as int;
            let mem = store_bcd(m, value);
            &&& mem[i % 4096] < 10 && mem[(i + 1) % 4096] < 10 && mem[(i + 2) % 4096] < 10
            &&& 100 * mem[i % 4096] + 10 * mem[(i + 1) % 4096] + mem[(i + 2) % 4096] == value
        }),
{
}

/// `Fx55` followed by `Fx65` with the same I and x gives back V0..=Vx.
pub proof fn lemma_store_then_load(m: Machine, x: int)
    requires
        m.well_formed(),
        0 <= x < 16,
    ensures
        load_registers(Machine { memory: store_registers(m, x), ..m }, x) == m.v,
{
    let stored = Machine { memory: store_registers(m, x), ..m };
    assert forall|r: int| 0 <= r <= x implies #[trigger] stored.memory[(m.i + r) % 4096] == m.v[r] by {
        lemma_offset_address((m.i + r) % 4096, m.i as int, r);
    }
    assert(load_registers(stored, x) =~= m.v);
}

/// A ROM reads back from 0x200 onwards after loading; nothing else changes.
pub proof fn lemma_load_reads_back(memory: Seq<u8>, rom: Seq<u8>)
    requires
        memory.len() == 4096,
        rom.len() <= 4096 - 0x200,
    ensures
        load_memory(memory, rom).subrange(0x200, 0x200 + rom.len() as int) == rom,
        load_memory(memory, rom).subrange(0, 0x200) == memory.subrange(0, 0x200),
        load_memory(memory, rom).subrange(0x200 + rom.len() as int, 4096) == memory.subrange(
            0x200 + rom.len() as int,
            4096,
        ),
{
    assert(load_memory(memory, rom).subrange(0x200, 0x200 + rom.len() as int) =~= rom);
    assert(load_memory(memory, rom).subrange(0, 0x200) =~= memory.subrange(0, 0x200));
    assert(load_memory(memory, rom).subrange(0x200 + rom.len() as int, 4096) =~= memory.subrange(
        0x200 + rom.len() as int,
        4096,
    ));
}

/// `reset` restarts the loaded program: memory and the random generator are
/// kept, execution resumes at 0x200 with an empty stack.
pub proof fn lemma_reset_restarts(m: Machine)
    ensures
        reset_machine(m).memory == m.memory,
        reset_machine(m).rng == m.rng,
        reset_machine(m).pc == 0x200,
        reset_machine(m).sp == 0,
        reset_machine(m).waiting_for_key is None,
{
}

/// `m` after `k` calls of `tick_timers`.
pub open spec fn tick_times(m: Machine, k: nat) -> Machine
    decreases k,
{
    if k == 0 {
        m
    } else {
        tick(tick_times(m, (k - 1) as nat))
    }
}

/// Each timer counts down once per tick and stops at zero: after `k` ticks
/// a timer that held `t` holds `t - k`, or zero once `k >= t`.
pub proof fn lemma_timers_count_down(m: Machine, k: nat)
    ensures
        tick_times(m, k).delay_timer == (if m.delay_timer >= k { m.delay_timer - k } else { 0 }),
        tick_times(m, k).sound_timer == (if m.sound_timer >= k { m.sound_timer - k } else { 0 }),
    decreases k,
{
    if k > 0 {
        lemma_timers_count_down(m, (k - 1) as nat);
    }
}

/// A call a frontend makes on a machine.
pub enum Call {
    LoadRom(Seq<u8>),
    Step,
    TickTimers,
    KeyDown(u8),
    KeyUp(u8),
    Reset,
}

/// The machine after `call` and what the call returns, as the contracts of
/// `load_rom`, `step`, `tick_timers`, `key_down`, `key_up` and `reset` state.
pub open spec fn apply_call(m: Machine, call: Call) -> (Machine, Result<(), Chip8Error>) {
    match call {
        Call::LoadRom(rom) => {
            let r = load_result(rom.len() as usize);
            (if r is Ok { Machine { memory: load_memory(m.memory, rom), ..m } } else { m }, r)
        },
        Call::Step => step_machine(m),
        Call::TickTimers => (tick(m), Ok(())),
        Call::KeyDown(key) => (press_key(m, key), Ok(())),
        Call::KeyUp(key) => (release_key(m, key), Ok(())),
        Call::Reset => (reset_machine(m), Ok(())),
    }
}

/// The machine after `calls`, in order, and what each call returned.
pub open spec fn run_calls(m: Machine, calls: Seq<Call>) -> (Machine, Seq<Result<(), Chip8Error>>)
    decreases calls.len(),
{
    if calls.len() == 0 {
        (m, seq![])
    } else {
        let (before, results) = run_calls(m, calls.drop_last());
        let (after, r) = apply_call(before, calls.last());
        (after, results.push(r))
    }
}

/// Runs are deterministic: two machines built with the same seed and given
/// the same calls end equal in every field, and each pair of corresponding
/// calls returns the same result, so `RND` too draws the same values.
pub proof fn lemma_same_seed_same_run(seed_a: u32, seed_b: u32, calls: Seq<Call>)
    requires
        seed_a == seed_b,
    ensures
        run_calls(initial_machine(seed_a), calls) == run_calls(initial_machine(seed_b), calls),
{
}

/// Seed zero stands for the seed 0x2A2A_2A2A: both give the same runs.
pub proof fn lemma_zero_seed_remapped(calls: Seq<Call>)
    ensures
        run_calls(initial_machine(0), calls) == run_calls(initial_machine(0x2A2A_2A2A), calls),
{
    assert(initial_machine(0) == initial_machine(0x2A2A_2A2A));
}

/// Whether the next cycle of `m` runs `Cxkk` (which advances the random
/// generator) or `Fx33`/`Fx55` (which write memory).
pub open spec fn writes_memory_or_random(m: Machine) -> bool {
    let op = fetch(m);
    &&& m.waiting_for_key is None
    &&& (op_class(op) == 0xC || (op_class(op) == 0xF && (op_kk(op) == 0x33 || op_kk(op) == 0x55)))
}

/// A cycle that runs none of `Cxkk`, `Fx33`, `Fx55` keeps memory and the
/// random generator.
pub proof fn lemma_step_keeps_memory_and_random(m: Machine)
    requires
        !writes_memory_or_random(m),
    ensures
        step_machine(m).0.memory == m.memory,
        step_machine(m).0.rng == m.rng,
{
    reveal(step_machine);
    reveal(execute);
}

/// Whether `call` only runs the program or drives its inputs.
pub open spec fn is_run_call(call: Call) -> bool {
    call is Step || call is TickTimers || call is KeyDown || call is KeyUp
}

/// `calls` only run the program and drive its inputs, and no cycle among
/// them runs `Cxkk`, `Fx33` or `Fx55`.
pub open spec fn run_without_writes(m: Machine, calls: Seq<Call>) -> bool {
    forall|i: int|
        0 <= i < calls.len() ==> {
            &&& is_run_call(#[trigger] calls[i])
            &&& (calls[i] is Step ==> !writes_memory_or_random(run_calls(m, calls.take(i)).0))
        }
}

/// Such calls keep memory and the random generator.
pub proof fn lemma_run_keeps_memory_and_random(m: Machine, calls: Seq<Call>)
    requires
        run_without_writes(m, calls),
    ensures
        run_calls(m, calls).0.memory == m.memory,
        run_calls(m, calls).0.rng == m.rng,
    decreases calls.len(),
{
    if calls.len() > 0 {
        let prefix = calls.drop_last();
        let last = (calls.len() - 1) as int;
        assert forall|i: int| 0 <= i < prefix.len() implies {
            &&& is_run_call(#[trigger] prefix[i])
            &&& (prefix[i] is Step ==> !writes_memory_or_random(run_calls(m, prefix.take(i)).0))
        } by {
            assert(prefix[i] == calls[i]);
            assert(prefix.take(i) =~= calls.take(i));
        }
        lemma_run_keeps_memory_and_random(m, prefix);
        assert(calls.take(last) =~= prefix);
        assert(is_run_call(calls[last]));
        let before = run_calls(m, prefix).0;
        if calls[last] is Step {
            lemma_step_keeps_memory_and_random(before);
        }
    }
}

/// `reset` restarts from scratch: a machine built with `seed` and loaded
/// with `rom`, then run through calls that execute no `Cxkk`, `Fx33` or
/// `Fx55`, is after `reset` equal in every field to a machine freshly built
/// with `seed` and loaded with `rom`.
pub proof fn lemma_reset_after_run_is_fresh(seed: u32, rom: Seq<u8>, calls: Seq<Call>)
    requires
        rom.len() <= 4096 - 0x200,
        run_without_writes(apply_call(initial_machine(seed), Call::LoadRom(rom)).0, calls),
    ensures
        apply_call(initial_machine(seed), Call::LoadRom(rom)).1 is Ok,
        reset_machine(run_calls(apply_call(initial_machine(seed), Call::LoadRom(rom)).0, calls).0)
            == apply_call(initial_machine(seed), Call::LoadRom(rom)).0,
{
    let loaded = apply_call(initial_machine(seed), Call::LoadRom(rom)).0;
    lemma_run_keeps_memory_and_random(loaded, calls);
    let after = run_calls(loaded, calls).0;
    assert(reset_machine(after) =~= loaded);
}

/// A timer after one tick: one less, stopping at zero.
pub open spec fn counted_down(t: u8, k: int) -> u8 {
    if t >= k { (t - k) as u8 } else { 0 }
}

/// How many of the cycle numbers `c`, `c + 1`, …, `c + k - 1` are multiples
/// of `t`.
pub open spec fn multiples_between(c: nat, k: nat, t: nat) -> nat
    decreases k,
{
    if k == 0 {
        0
    } else {
        (if c % t == 0 { 1nat } else { 0nat }) + multiples_between(c + 1, (k - 1) as nat, t)
    }
}

proof fn lemma_tick_times_shift(m: Machine, k: nat)
    ensures
        tick_times(tick(m), k) == tick_times(m, k + 1),
    decreases k,
{
    assert(tick_times(m, 1) == tick(tick_times(m, 0)));
    if k > 0 {
        lemma_tick_times_shift(m, (k - 1) as nat);
        assert(tick_times(tick(m), k) == tick(tick_times(tick(m), (k - 1) as nat)));
        assert(tick_times(m, k + 1) == tick(tick_times(m, k)));
    }
}

proof fn lemma_waiting_run_steps(m: Machine, k: nat)
    requires
        m.waiting_for_key is Some,
    ensures
        run_steps(m, k) == (m, Ok::<(), Chip8Error>(())),
    decreases k,
{
    reveal(step_machine);
    if k > 0 {
        lemma_waiting_run_steps(m, (k - 1) as nat);
    }
}

/// While `Fx0A` waits, a frame executes nothing: a paused frame changes
/// nothing and keeps the beeper off; a running frame ticks each timer down
/// once (stopping at zero), changes nothing else, and sounds the beeper
/// exactly when the sound timer is still running after the tick.
pub proof fn lemma_waiting_frame(m: Machine, k: nat)
    requires
        m.waiting_for_key is Some,
    ensures
        run_frame(m, k, true) == (m, Ok::<bool, Chip8Error>(false)),
        run_frame(m, k, false).0 == (Machine {
            delay_timer: counted_down(m.delay_timer, 1),
            sound_timer: counted_down(m.sound_timer, 1),
            ..m
        }),
        run_frame(m, k, false).1 == Ok::<bool, Chip8Error>(m.sound_timer > 1),
{
    lemma_waiting_run_steps(m, k);
}

proof fn lemma_waiting_cycles_from(m: Machine, c: nat, k: nat, t: nat)
    requires
        m.waiting_for_key is Some,
        t > 0,
    ensures
        run_cycles(m, c, k, t) == (tick_times(m, multiples_between(c, k, t)), Ok::<(), Chip8Error>(())),
    decreases k,
{
    reveal(step_machine);
    if k > 0 {
        let next = if c % t == 0 { tick(m) } else { m };
        lemma_waiting_cycles_from(next, c + 1, (k - 1) as nat, t);
        let rest = multiples_between(c + 1, (k - 1) as nat, t);
        if c % t == 0 {
            lemma_tick_times_shift(m, rest);
        }
    }
}

/// Headless cycles tick the timers after every cycle whose number is a
/// multiple of `tick_every`: while `Fx0A` waits, `k` cycles counted from
/// zero lower each timer by the number of such cycles (stopping at zero)
/// and change nothing else.
pub proof fn lemma_waiting_cycles(m: Machine, k: nat, tick_every: nat)
    requires
        m.waiting_for_key is Some,
        tick_every > 0,
    ensures
        ({
            let ticks = multiples_between(0, k, tick_every) as int;
            &&& run_cycles(m, 0, k, tick_every).1 is Ok
            &&& run_cycles(m, 0, k, tick_every).0 == (Machine {
                delay_timer: counted_down(m.delay_timer, ticks),
                sound_timer: counted_down(m.sound_timer, ticks),
                ..m
            })
        }),
{
    lemma_waiting_cycles_from(m, 0, k, tick_every);
    lemma_timers_count_down(m, multiples_between(0, k, tick_every));
    assert(tick_times(m, multiples_between(0, k, tick_every)) == (Machine {
        delay_timer: tick_times(m, multiples_between(0, k, tick_every)).delay_timer,
        sound_timer: tick_times(m, multiples_between(0, k, tick_every)).sound_timer,
        ..m
    })) by {
        lemma_tick_times_frame(m, multiples_between(0, k, tick_every));
    }
}

proof fn lemma_tick_times_frame(m: Machine, k: nat)
    ensures
        tick_times(m, k) == (Machine {
            delay_timer: tick_times(m, k).delay_timer,
            sound_timer: tick_times(m, k).sound_timer,
            ..m
        }),
    decreases k,
{
    if k > 0 {
        lemma_tick_times_frame(m, (k - 1) as nat);
    }
}

/// Restarting with a ROM that fits clears the registers, stack, timers,
/// display, keypad and any pending key wait, resumes at 0x200, keeps the
/// random generator, and puts the ROM at 0x200 over the memory it had; a
/// ROM that does not fit is refused after the reset.
pub proof fn lemma_restart(m: Machine, rom: Seq<u8>)
    requires
        m.well_formed(),
        rom.len() <= usize::MAX,
    ensures
        ({
            let (after, r) = restart(m, rom);
            &&& (r is Ok) == (rom.len() <= 4096 - 0x200)
            &&& after.pc == 0x200 && after.i == 0 && after.sp == 0
            &&& after.delay_timer == 0 && after.sound_timer == 0
            &&& after.waiting_for_key is None && after.rng == m.rng
            &&& forall|j: int| 0 <= j < 16 ==> #[trigger] after.v[j] == 0 && after.stack[j] == 0
                && !after.keys[j]
            &&& forall|p: int| 0 <= p < 2048 ==> !#[trigger] after.display[p]
            &&& forall|a: int| 0 <= a < 4096 ==> #[trigger] after.memory[a] == (if r is Ok && 0x200 <= a
                < 0x200 + rom.len() {
                rom[a - 0x200]
            } else {
                m.memory[a]
            })
        }),
{
}

} // verus!
