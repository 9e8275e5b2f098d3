//! The execution engine: register file, program counter, call stack and
//! timers, together with the fetch/decode/dispatch cycle and the execution
//! semantics of every opcode.
//!
//! The engine's behaviour is specified by [`step_rel`], a relation between
//! the machine state before and after one fetched instruction.  Each top
//! nibble of the opcode word has one handler and one clause of the relation;
//! the relation pins the post state down completely except for the random
//! byte drawn by opcode `0xC`, which is existentially quantified.
//!
//! Faults — call-stack overflow or underflow, a memory access past the 4096
//! bytes, a keypad index past 15 — are deliberate strengthenings of the
//! original hardware's undefined behaviour: the engine reports them loudly
//! through its result instead of corrupting state, and leaves every part of
//! the machine it did not already touch (the fetch advances the program
//! counter) exactly as it was.

use vstd::prelude::*;

use crate::display::{blank_display, Display};
use crate::draw::{bit_of, coll_upto, draw_coll, draw_post, draw_upto};
use crate::draw::{lemma_draw_row_clip, lemma_draw_rows_clip, lemma_draw_step, lemma_draw_zero};
use crate::instruction::{
    inst_fields_bounded, lemma_decode_bounded, spec_decode, spec_word, Instruction,
};
use crate::ram::{ENTRY_POINT, MEM_SIZE, RAM};

verus! {

/// Number of data registers.
pub const NUM_REGS: usize = 16;

/// Index of the register that doubles as the carry/borrow/collision flag.
pub const FLAG_REG: usize = 15;

/// Capacity of the call stack.
pub const STACK_CAP: usize = 12;

/// Instruction budget per second, divided over 60 driver ticks.
pub const INSTRUCTIONS_PER_SECOND: usize = 500;

/// Instructions executed in one driver tick.
pub const BURST_LEN: usize = INSTRUCTIONS_PER_SECOND / 60;

/// A fault that aborts the run: the original hardware left these cases
/// undefined, and this engine reports them instead of corrupting state.
#[derive(Clone, Copy, Debug, PartialEq, Eq, Structural)]
pub enum Fault {
    /// A call was pushed past the stack's capacity.
    StackOverflow,
    /// A return was popped from an empty stack.
    StackUnderflow,
    /// A fetch or data access would leave the 4096 addressable bytes.
    MemOutOfBounds,
    /// A keypad test used a register value past the 16 key states.
    KeyOutOfRange,
}

/// How one instruction went: executed, or an opcode with no defined handler,
/// which is reported and treated as a no-op.
#[derive(Clone, Copy, Debug, PartialEq, Eq, Structural)]
pub enum Step {
    Executed,
    UnknownOpcode,
}

/// Mathematical model of the engine's own state.
pub ghost struct CpuState {
    /// The sixteen 8-bit data registers.
    pub v: Seq<u8>,
    /// The 16-bit index register.
    pub i: u16,
    /// The program counter.
    pub pc: u16,
    /// The call stack slots.
    pub stack: Seq<u16>,
    /// The stack pointer: the next free slot.
    pub sp: int,
    /// The delay timer.
    pub delay: u8,
    /// The sound timer.
    pub sound: u8,
    /// The most recently fetched instruction.
    pub inst: Instruction,
}

/// The state's structural invariant: 16 registers, 12 stack slots, the
/// pointer inside `[0, capacity]`, and decoded fields inside their ranges.
pub open spec fn cs_wf(s: CpuState) -> bool {
    &&& s.v.len() == NUM_REGS
    &&& s.stack.len() == STACK_CAP
    &&& 0 <= s.sp <= STACK_CAP
    &&& inst_fields_bounded(s.inst)
}

/// The state at power-on: everything zero, the program counter at the
/// entry offset.
pub open spec fn init_state() -> CpuState {
    CpuState {
        v: Seq::new(NUM_REGS as nat, |k: int| 0u8),
        i: 0,
        pc: ENTRY_POINT,
        stack: Seq::new(STACK_CAP as nat, |k: int| 0u16),
        sp: 0,
        delay: 0,
        sound: 0,
        inst: spec_decode(0),
    }
}

/// The state with another program counter.
pub open spec fn cs_with_pc(s: CpuState, pc: u16) -> CpuState {
    CpuState { v: s.v, i: s.i, pc, stack: s.stack, sp: s.sp, delay: s.delay, sound: s.sound, inst: s.inst }
}

/// The state with another register file.
pub open spec fn cs_with_v(s: CpuState, v: Seq<u8>) -> CpuState {
    CpuState { v, i: s.i, pc: s.pc, stack: s.stack, sp: s.sp, delay: s.delay, sound: s.sound, inst: s.inst }
}

/// The state with another index register.
pub open spec fn cs_with_i(s: CpuState, i: u16) -> CpuState {
    CpuState { v: s.v, i, pc: s.pc, stack: s.stack, sp: s.sp, delay: s.delay, sound: s.sound, inst: s.inst }
}

/// The state with another delay timer.
pub open spec fn cs_with_delay(s: CpuState, delay: u8) -> CpuState {
    CpuState { v: s.v, i: s.i, pc: s.pc, stack: s.stack, sp: s.sp, delay, sound: s.sound, inst: s.inst }
}

/// The state with another sound timer.
pub open spec fn cs_with_sound(s: CpuState, sound: u8) -> CpuState {
    CpuState { v: s.v, i: s.i, pc: s.pc, stack: s.stack, sp: s.sp, delay: s.delay, sound, inst: s.inst }
}

/// The state after a return: the pointer steps back and the program counter
/// takes the saved address.
pub open spec fn cs_pop(s: CpuState) -> CpuState {
    CpuState {
        v: s.v,
        i: s.i,
        pc: s.stack[s.sp - 1],
        stack: s.stack,
        sp: s.sp - 1,
        delay: s.delay,
        sound: s.sound,
        inst: s.inst,
    }
}

/// The state after a call: the post-fetch program counter is saved at the
/// pointer, the pointer steps forward, and control moves to the target.
pub open spec fn cs_push(s: CpuState, target: u16) -> CpuState {
    CpuState {
        v: s.v,
        i: s.i,
        pc: target,
        stack: s.stack.update(s.sp, s.pc),
        sp: s.sp + 1,
        delay: s.delay,
        sound: s.sound,
        inst: s.inst,
    }
}

/// The state right after a fetch: the instruction decoded from the word at
/// the program counter, and the counter advanced by 2 before dispatch.
pub open spec fn fetched(s: CpuState, m: Seq<u8>) -> CpuState {
    CpuState {
        v: s.v,
        i: s.i,
        pc: (s.pc + 2) as u16,
        stack: s.stack,
        sp: s.sp,
        delay: s.delay,
        sound: s.sound,
        inst: spec_decode(spec_word(m[s.pc as int], m[s.pc as int + 1])),
    }
}

/// Whether both bytes of the next opcode word are inside memory.
pub open spec fn fetch_ok(s: CpuState) -> bool {
    s.pc as int + 1 < MEM_SIZE
}

/// One driver tick's timer update: each timer steps down by one exactly
/// when it is nonzero, and never goes below zero.
pub open spec fn timer_upd(s: CpuState) -> CpuState {
    CpuState {
        v: s.v,
        i: s.i,
        pc: s.pc,
        stack: s.stack,
        sp: s.sp,
        delay: if s.delay > 0 { (s.delay - 1) as u8 } else { 0 },
        sound: if s.sound > 0 { (s.sound - 1) as u8 } else { 0 },
        inst: s.inst,
    }
}

/// Addition on a register, wrapping modulo 256.
pub open spec fn wrap_add8(a: u8, b: u8) -> u8 {
    ((a + b) % 256) as u8
}

/// Subtraction on a register, wrapping modulo 256.
pub open spec fn wrap_sub8(a: u8, b: u8) -> u8 {
    ((a - b + 256) % 256) as u8
}

/// An instruction executed.
pub open spec fn ok_step() -> Result<Step, Fault> {
    Ok(Step::Executed)
}

/// An opcode with no defined handler: reported, state untouched.
pub open spec fn unknown_step() -> Result<Step, Fault> {
    Ok(Step::UnknownOpcode)
}

/// A fault report.
pub open spec fn faulted(f: Fault) -> Result<Step, Fault> {
    Err(f)
}

/// The program counter skipped over the next instruction when `cond` holds.
pub open spec fn cs_skip_if(s: CpuState, cond: bool) -> CpuState {
    cs_with_pc(s, if cond { (s.pc + 2) as u16 } else { s.pc })
}

/// The register file after one of the `0x8` arithmetic/logic sub-opcodes,
/// or `None` for a sub-selector with no defined handler.  The add takes
/// its named sum from the operands before the flag write; every other
/// operation writes the flag register first and reads its operands back
/// afterwards, so one whose `x` or `y` is the flag register sees the flag
/// it just wrote.
pub open spec fn alu(v: Seq<u8>, x: int, y: int, n: u8) -> Option<Seq<u8>> {
    if n == 0 {
        Some(v.update(x, v[y]))
    } else if n == 1 {
        Some(v.update(x, v[x] | v[y]).update(FLAG_REG as int, 0u8))
    } else if n == 2 {
        Some(v.update(x, v[x] & v[y]).update(FLAG_REG as int, 0u8))
    } else if n == 3 {
        Some(v.update(x, v[x] ^ v[y]).update(FLAG_REG as int, 0u8))
    } else if n == 4 {
        let v1 = v.update(FLAG_REG as int, if v[x] + v[y] > 255 { 1u8 } else { 0u8 });
        Some(v1.update(x, wrap_add8(v[x], v[y])))
    } else if n == 5 {
        let v1 = v.update(FLAG_REG as int, if v[y] <= v[x] { 1u8 } else { 0u8 });
        Some(v1.update(x, wrap_sub8(v1[x], v1[y])))
    } else if n == 6 {
        let v1 = v.update(FLAG_REG as int, (v[x] % 2) as u8);
        Some(v1.update(x, v1[x] / 2))
    } else if n == 7 {
        let v1 = v.update(FLAG_REG as int, if v[x] <= v[y] { 1u8 } else { 0u8 });
        Some(v1.update(x, wrap_sub8(v1[y], v1[x])))
    } else if n == 0xE {
        let v1 = v.update(FLAG_REG as int, (v[x] / 128) as u8);
        Some(v1.update(x, ((v1[x] * 2) % 256) as u8))
    } else {
        None
    }
}

/// The lowest pressed key at or above index `i`, if any.
pub open spec fn first_key_from(keys: Seq<bool>, i: int) -> Option<int>
    decreases 16 - i,
{
    if i < 0 || i >= 16 {
        None
    } else if keys[i] {
        Some(i)
    } else {
        first_key_from(keys, i + 1)
    }
}

/// The lowest pressed key, if any.
pub open spec fn first_key(keys: Seq<bool>) -> Option<int> {
    first_key_from(keys, 0)
}

/// Nibble `0x0`: clear the display, return from a call, or an unknown
/// sub-selector.
pub open spec fn rel_x00(
    c: CpuState,
    d0: Seq<bool>,
    post: CpuState,
    d1: Seq<bool>,
    r: Result<Step, Fault>,
) -> bool {
    if c.inst.nn == 0xE0 {
        post == c && d1 == blank_display() && r == ok_step()
    } else if c.inst.nn == 0xEE {
        if c.sp == 0 {
            post == c && d1 == d0 && r == faulted(Fault::StackUnderflow)
        } else {
            post == cs_pop(c) && d1 == d0 && r == ok_step()
        }
    } else {
        post == c && d1 == d0 && r == unknown_step()
    }
}

/// Nibble `0x2`: push the post-fetch program counter and jump, or overflow.
pub open spec fn rel_x02(c: CpuState, post: CpuState, r: Result<Step, Fault>) -> bool {
    if c.sp >= STACK_CAP {
        post == c && r == faulted(Fault::StackOverflow)
    } else {
        post == cs_push(c, c.inst.nnn) && r == ok_step()
    }
}

/// Nibble `0x8`: the arithmetic/logic group, by low nibble.
pub open spec fn rel_x08(c: CpuState, post: CpuState, r: Result<Step, Fault>) -> bool {
    match alu(c.v, c.inst.x as int, c.inst.y as int, c.inst.n) {
        Some(v2) => post == cs_with_v(c, v2) && r == ok_step(),
        None => post == c && r == unknown_step(),
    }
}

/// Nibble `0xC`: the register takes a random byte masked by `nn`.
pub open spec fn rel_x0c(c: CpuState, rnd: u8, post: CpuState) -> bool {
    post == cs_with_v(c, c.v.update(c.inst.x as int, rnd & c.inst.nn))
}

/// Nibble `0xD`: the sprite draw.  The origin wraps into the grid, rows
/// and columns clip at the edges, every covered pixel is XOR-toggled, and
/// the flag register reports whether any lit pixel met a set sprite bit.
/// A draw whose row bytes would be read past memory faults untouched.
pub open spec fn rel_x0d(
    c: CpuState,
    m0: Seq<u8>,
    d0: Seq<bool>,
    post: CpuState,
    d1: Seq<bool>,
    r: Result<Step, Fault>,
) -> bool {
    let ox = c.v[c.inst.x as int] as int % 64;
    let oy = c.v[c.inst.y as int] as int % 32;
    let n = c.inst.n as int;
    let rows = if n <= 32 - oy { n } else { 32 - oy };
    if rows > 0 && c.i + rows > MEM_SIZE {
        post == c && d1 == d0 && r == faulted(Fault::MemOutOfBounds)
    } else {
        &&& d1 == draw_post(d0, m0, c.i as int, ox, oy, n)
        &&& post == cs_with_v(
            c,
            c.v.update(
                FLAG_REG as int,
                if draw_coll(d0, m0, c.i as int, ox, oy, n) { 1u8 } else { 0u8 },
            ),
        )
        &&& r == ok_step()
    }
}

/// Nibble `0xE`: skip on a key state, or fault on a register value that is
/// no key index, or an unknown sub-selector.
pub open spec fn rel_x0e(
    c: CpuState,
    keys: Seq<bool>,
    post: CpuState,
    r: Result<Step, Fault>,
) -> bool {
    let vx = c.v[c.inst.x as int];
    if c.inst.nn == 0x9E {
        if vx >= 16 {
            post == c && r == faulted(Fault::KeyOutOfRange)
        } else {
            post == cs_skip_if(c, keys[vx as int]) && r == ok_step()
        }
    } else if c.inst.nn == 0xA1 {
        if vx >= 16 {
            post == c && r == faulted(Fault::KeyOutOfRange)
        } else {
            post == cs_skip_if(c, !keys[vx as int]) && r == ok_step()
        }
    } else {
        post == c && r == unknown_step()
    }
}

/// Memory after the bulk register store `0xFx55`.
pub open spec fn mem_store_regs(m0: Seq<u8>, v: Seq<u8>, base: int, x: int) -> Seq<u8> {
    Seq::new(m0.len(), |k: int| if base <= k <= base + x { v[k - base] } else { m0[k] })
}

/// Registers after the bulk register load `0xFx65`.
pub open spec fn regs_load_mem(v: Seq<u8>, m0: Seq<u8>, base: int, x: int) -> Seq<u8> {
    Seq::new(v.len(), |k: int| if k <= x { m0[base + k] } else { v[k] })
}

/// Nibble `0xF`: the timer, index-register, key-wait, binary-coded-decimal
/// and bulk transfer group, by `nn`.
pub open spec fn rel_x0f(
    c: CpuState,
    m0: Seq<u8>,
    keys: Seq<bool>,
    post: CpuState,
    m1: Seq<u8>,
    r: Result<Step, Fault>,
) -> bool {
    let x = c.inst.x as int;
    let nn = c.inst.nn;
    if nn == 0x0A {
        // Busy-poll key wait: the first pressed key lands in the register;
        // with none pressed the fetch is rewound so the same instruction
        // runs again next cycle.
        match first_key(keys) {
            Some(k) => post == cs_with_v(c, c.v.update(x, k as u8)) && m1 == m0 && r == ok_step(),
            None => post == cs_with_pc(c, (c.pc - 2) as u16) && m1 == m0 && r == ok_step(),
        }
    } else if nn == 0x07 {
        post == cs_with_v(c, c.v.update(x, c.delay)) && m1 == m0 && r == ok_step()
    } else if nn == 0x15 {
        post == cs_with_delay(c, c.v[x]) && m1 == m0 && r == ok_step()
    } else if nn == 0x18 {
        post == cs_with_sound(c, c.v[x]) && m1 == m0 && r == ok_step()
    } else if nn == 0x1E {
        post == cs_with_i(c, ((c.i + c.v[x]) % 0x10000) as u16) && m1 == m0 && r == ok_step()
    } else if nn == 0x29 {
        post == cs_with_i(c, (c.v[x] * 5) as u16) && m1 == m0 && r == ok_step()
    } else if nn == 0x33 {
        if c.i + 2 >= MEM_SIZE {
            post == c && m1 == m0 && r == faulted(Fault::MemOutOfBounds)
        } else {
            let val = c.v[x];
            &&& post == c
            &&& m1 == m0.update(c.i as int, (val / 100) as u8).update(
                c.i as int + 1,
                ((val / 10) % 10) as u8,
            ).update(c.i as int + 2, (val % 10) as u8)
            &&& r == ok_step()
        }
    } else if nn == 0x55 {
        if c.i + x >= MEM_SIZE {
            post == c && m1 == m0 && r == faulted(Fault::MemOutOfBounds)
        } else {
            post == c && m1 == mem_store_regs(m0, c.v, c.i as int, x) && r == ok_step()
        }
    } else if nn == 0x65 {
        if c.i + x >= MEM_SIZE {
            post == c && m1 == m0 && r == faulted(Fault::MemOutOfBounds)
        } else {
            post == cs_with_v(c, regs_load_mem(c.v, m0, c.i as int, x)) && m1 == m0 && r
                == ok_step()
        }
    } else {
        post == c && m1 == m0 && r == unknown_step()
    }
}

/// The dispatch relation: from the post-fetch state `c`, by top nibble.
pub open spec fn exec_rel(
    c: CpuState,
    m0: Seq<u8>,
    d0: Seq<bool>,
    keys: Seq<bool>,
    rnd: u8,
    post: CpuState,
    m1: Seq<u8>,
    d1: Seq<bool>,
    r: Result<Step, Fault>,
) -> bool {
    let nib = c.inst.opcode >> 12u16;
    if nib == 0x0 {
        rel_x00(c, d0, post, d1, r) && m1 == m0
    } else if nib == 0x1 {
        post == cs_with_pc(c, c.inst.nnn) && m1 == m0 && d1 == d0 && r == ok_step()
    } else if nib == 0x2 {
        rel_x02(c, post, r) && m1 == m0 && d1 == d0
    } else if nib == 0x3 {
        post == cs_skip_if(c, c.v[c.inst.x as int] == c.inst.nn) && m1 == m0 && d1 == d0 && r
            == ok_step()
    } else if nib == 0x4 {
        post == cs_skip_if(c, c.v[c.inst.x as int] != c.inst.nn) && m1 == m0 && d1 == d0 && r
            == ok_step()
    } else if nib == 0x5 {
        if c.inst.n != 0 {
            post == c && m1 == m0 && d1 == d0 && r == unknown_step()
        } else {
            post == cs_skip_if(c, c.v[c.inst.x as int] == c.v[c.inst.y as int]) && m1 == m0 && d1
                == d0 && r == ok_step()
        }
    } else if nib == 0x6 {
        post == cs_with_v(c, c.v.update(c.inst.x as int, c.inst.nn)) && m1 == m0 && d1 == d0 && r
            == ok_step()
    } else if nib == 0x7 {
        post == cs_with_v(
            c,
            c.v.update(c.inst.x as int, wrap_add8(c.v[c.inst.x as int], c.inst.nn)),
        ) && m1 == m0 && d1 == d0 && r == ok_step()
    } else if nib == 0x8 {
        rel_x08(c, post, r) && m1 == m0 && d1 == d0
    } else if nib == 0x9 {
        post == cs_skip_if(c, c.v[c.inst.x as int] != c.v[c.inst.y as int]) && m1 == m0 && d1 == d0
            && r == ok_step()
    } else if nib == 0xA {
        post == cs_with_i(c, c.inst.nnn) && m1 == m0 && d1 == d0 && r == ok_step()
    } else if nib == 0xB {
        post == cs_with_pc(c, (c.v[0] + c.inst.nnn) as u16) && m1 == m0 && d1 == d0 && r
            == ok_step()
    } else if nib == 0xC {
        rel_x0c(c, rnd, post) && m1 == m0 && d1 == d0 && r == ok_step()
    } else if nib == 0xD {
        rel_x0d(c, m0, d0, post, d1, r) && m1 == m0
    } else if nib == 0xE {
        rel_x0e(c, keys, post, r) && m1 == m0 && d1 == d0
    } else {
        rel_x0f(c, m0, keys, post, m1, r) && d1 == d0
    }
}

/// One full engine step: fetch the word at the program counter (a fetch
/// past memory faults with nothing changed), advance the counter, decode,
/// and dispatch.  `rnd` is the byte that opcode `0xC` would consume.
pub open spec fn step_rel(
    pre: CpuState,
    m0: Seq<u8>,
    d0: Seq<bool>,
    keys: Seq<bool>,
    rnd: u8,
    post: CpuState,
    m1: Seq<u8>,
    d1: Seq<bool>,
    r: Result<Step, Fault>,
) -> bool {
    if !fetch_ok(pre) {
        post == pre && m1 == m0 && d1 == d0 && r == faulted(Fault::MemOutOfBounds)
    } else {
        exec_rel(fetched(pre, m0), m0, d0, keys, rnd, post, m1, d1, r)
    }
}

/// How many unknown-opcode reports one step contributes.
pub open spec fn unk_of(s: Step) -> int {
    if s == Step::UnknownOpcode {
        1
    } else {
        0
    }
}

/// `n` successful engine steps in a row, from `pre` with memory `m0` and
/// display `d0` to `post` with `m1` and `d1`, `unk` of them reported as
/// unknown opcodes.
pub open spec fn steps_ok(
    pre: CpuState,
    m0: Seq<u8>,
    d0: Seq<bool>,
    keys: Seq<bool>,
    n: int,
    post: CpuState,
    m1: Seq<u8>,
    d1: Seq<bool>,
    unk: int,
) -> bool
    decreases n,
{
    if n <= 0 {
        post == pre && m1 == m0 && d1 == d0 && unk == 0
    } else {
        exists|mid: CpuState, mm: Seq<u8>, md: Seq<bool>, rnd: u8, s: Step|
            {
                &&& #[trigger] step_rel(pre, m0, d0, keys, rnd, mid, mm, md, Ok(s))
                &&& steps_ok(mid, mm, md, keys, n - 1, post, m1, d1, unk - unk_of(s))
            }
    }
}

/// A run of `n` successful steps followed by one more successful step is a
/// run of `n + 1`.
pub proof fn lemma_steps_ok_snoc(
    pre: CpuState,
    m0: Seq<u8>,
    d0: Seq<bool>,
    keys: Seq<bool>,
    n: int,
    mid: CpuState,
    mm: Seq<u8>,
    md: Seq<bool>,
    unk: int,
    rnd: u8,
    s: Step,
    post: CpuState,
    m1: Seq<u8>,
    d1: Seq<bool>,
)
    requires
        n >= 0,
        steps_ok(pre, m0, d0, keys, n, mid, mm, md, unk),
        step_rel(mid, mm, md, keys, rnd, post, m1, d1, Ok(s)),
    ensures
        steps_ok(pre, m0, d0, keys, n + 1, post, m1, d1, unk + unk_of(s)),
    decreases n,
{
    if n == 0 {
        assert(step_rel(pre, m0, d0, keys, rnd, post, m1, d1, Ok(s)));
        assert(steps_ok(post, m1, d1, keys, 0, post, m1, d1, 0));
        assert(steps_ok(pre, m0, d0, keys, 1, post, m1, d1, unk + unk_of(s)));
    } else {
        let (mid1, mm1, md1, rnd1, s1) = choose|
            mid1: CpuState,
            mm1: Seq<u8>,
            md1: Seq<bool>,
            rnd1: u8,
            s1: Step,
        |
            {
                &&& #[trigger] step_rel(pre, m0, d0, keys, rnd1, mid1, mm1, md1, Ok(s1))
                &&& steps_ok(mid1, mm1, md1, keys, n - 1, mid, mm, md, unk - unk_of(s1))
            };
        lemma_steps_ok_snoc(
            mid1,
            mm1,
            md1,
            keys,
            n - 1,
            mid,
            mm,
            md,
            unk - unk_of(s1),
            rnd,
            s,
            post,
            m1,
            d1,
        );
        assert(steps_ok(mid1, mm1, md1, keys, n, post, m1, d1, unk - unk_of(s1) + unk_of(s)));
        assert(steps_ok(pre, m0, d0, keys, n + 1, post, m1, d1, unk + unk_of(s)));
    }
}

/// One driver tick that completed its burst: a full burst of successful
/// steps from `pre` to some intermediate state, whose timers were then
/// updated once, with `unk` unknown-opcode reports along the way.
pub open spec fn tick_rel(
    pre: CpuState,
    m0: Seq<u8>,
    d0: Seq<bool>,
    keys: Seq<bool>,
    post: CpuState,
    m1: Seq<u8>,
    d1: Seq<bool>,
    unk: int,
) -> bool {
    exists|c2: CpuState|
        #[trigger] steps_ok(pre, m0, d0, keys, BURST_LEN as int, c2, m1, d1, unk) && post
            == timer_upd(c2)
}

/// One driver tick that aborted: some successful steps, then a step that
/// faulted with `f`; the timers were not updated.
pub open spec fn tick_fault_rel(
    pre: CpuState,
    m0: Seq<u8>,
    d0: Seq<bool>,
    keys: Seq<bool>,
    post: CpuState,
    m1: Seq<u8>,
    d1: Seq<bool>,
    f: Fault,
) -> bool {
    exists|k: int, c2: CpuState, mm: Seq<u8>, md: Seq<bool>, unk2: int, rnd: u8|
        {
            &&& 0 <= k < BURST_LEN
            &&& #[trigger] steps_ok(pre, m0, d0, keys, k, c2, mm, md, unk2)
            &&& #[trigger] step_rel(c2, mm, md, keys, rnd, post, m1, d1, Err(f))
        }
}

/// Relies on rand::random::<u8>: a byte drawn from the thread-local
/// generator.  Nothing is promised of its value.
#[verifier::external_body]
fn random_byte() -> u8 {
    rand::random::<u8>()
}

/// The execution engine.  It owns registers, program counter, call stack
/// and timers; memory, display and keypad are lent to it per call.
pub struct CPU {
    /// Data registers `V0`-`VF`; always exactly `NUM_REGS` of them.
    pub v: Vec<u8>,
    /// Index register, used as a memory pointer.
    pub i: u16,
    /// Program counter.
    pub pc: u16,
    /// Call stack of return addresses; always exactly `STACK_CAP` slots.
    pub stack: Vec<u16>,
    /// Stack pointer: the next free slot.
    pub stack_ptr: usize,
    /// Delay timer, stepping down at the driver rate while nonzero.
    pub delay_timer: u8,
    /// Sound timer, stepping down at the driver rate while nonzero; a tone
    /// plays while it is nonzero.
    pub sound_timer: u8,
    /// The most recently fetched instruction.
    pub current_inst: Instruction,
}

impl View for CPU {
    type V = CpuState;

    open spec fn view(&self) -> CpuState {
        CpuState {
            v: self.v@,
            i: self.i,
            pc: self.pc,
            stack: self.stack@,
            sp: self.stack_ptr as int,
            delay: self.delay_timer,
            sound: self.sound_timer,
            inst: self.current_inst,
        }
    }
}

impl CPU {
    /// A fresh engine: registers, stack and timers zero, the program
    /// counter at the entry offset.
    pub fn new() -> (r: CPU)
        ensures
            r@ == init_state(),
            cs_wf(r@),
    {
        let mut v: Vec<u8> = Vec::new();
        let mut k: usize = 0;
        while k < NUM_REGS
            invariant
                k <= NUM_REGS,
                v@.len() == k,
                forall|j: int| 0 <= j < k ==> v@[j] == 0u8,
            decreases NUM_REGS - k,
        {
            v.push(0);
            k += 1;
        }
        let mut stack: Vec<u16> = Vec::new();
        let mut k2: usize = 0;
        while k2 < STACK_CAP
            invariant
                k2 <= STACK_CAP,
                stack@.len() == k2,
                forall|j: int| 0 <= j < k2 ==> stack@[j] == 0u16,
            decreases STACK_CAP - k2,
        {
            stack.push(0);
            k2 += 1;
        }
        let r = CPU {
            v,
            i: 0,
            pc: ENTRY_POINT,
            stack,
            stack_ptr: 0,
            delay_timer: 0,
            sound_timer: 0,
            current_inst: Instruction::new(),
        };
        proof {
            assert(r@.v =~= init_state().v);
            assert(r@.stack =~= init_state().stack);
            lemma_decode_bounded(0);
        }
        r
    }

    /// One driver tick's timer update: each timer steps down by one exactly
    /// when it is nonzero, so neither ever goes below zero.
    pub fn update_timers(&mut self)
        ensures
            final(self)@ == timer_upd(old(self)@),
    {
        if self.delay_timer > 0 {
            self.delay_timer = self.delay_timer - 1;
        }
        if self.sound_timer > 0 {
            self.sound_timer = self.sound_timer - 1;
        }
    }

    /// Whether the tone should be sounding: exactly while the sound timer
    /// is nonzero.
    pub fn tone_on(&self) -> (r: bool)
        ensures
            r == (self@.sound > 0),
    {
        self.sound_timer > 0
    }

    /// Nibble `0x0`: clear screen, return from subroutine, or report an
    /// unknown sub-selector.
    fn x00(&mut self, display: &mut Display) -> (r: Result<Step, Fault>)
        requires
            cs_wf(old(self)@),
            old(display).wf(),
        ensures
            cs_wf(final(self)@),
            final(display).wf(),
            rel_x00(old(self)@, old(display)@, final(self)@, final(display)@, r),
    {
        if self.current_inst.nn == 0xE0 {
            display.clear();
            Ok(Step::Executed)
        } else if self.current_inst.nn == 0xEE {
            if self.stack_ptr == 0 {
                Err(Fault::StackUnderflow)
            } else {
                self.stack_ptr = self.stack_ptr - 1;
                self.pc = self.stack[self.stack_ptr];
                Ok(Step::Executed)
            }
        } else {
            Ok(Step::UnknownOpcode)
        }
    }

    /// Nibble `0x1`: absolute jump.
    fn x01(&mut self)
        requires
            cs_wf(old(self)@),
        ensures
            cs_wf(final(self)@),
            final(self)@ == cs_with_pc(old(self)@, old(self)@.inst.nnn),
    {
        self.pc = self.current_inst.nnn;
    }

    /// Nibble `0x2`: call — push the post-fetch program counter, then jump.
    fn x02(&mut self) -> (r: Result<Step, Fault>)
        requires
            cs_wf(old(self)@),
        ensures
            cs_wf(final(self)@),
            rel_x02(old(self)@, final(self)@, r),
    {
        if self.stack_ptr >= STACK_CAP {
            Err(Fault::StackOverflow)
        } else {
            self.stack.set(self.stack_ptr, self.pc);
            self.stack_ptr = self.stack_ptr + 1;
            self.pc = self.current_inst.nnn;
            Ok(Step::Executed)
        }
    }

    /// Nibble `0x3`: skip the next instruction if `V[x] == nn`.
    fn x03(&mut self)
        requires
            cs_wf(old(self)@),
            old(self).pc + 2 <= u16::MAX,
        ensures
            cs_wf(final(self)@),
            final(self)@ == cs_skip_if(
                old(self)@,
                old(self)@.v[old(self)@.inst.x as int] == old(self)@.inst.nn,
            ),
    {
        if self.v[self.current_inst.x] == self.current_inst.nn {
            self.pc = self.pc + 2;
        }
    }

    /// Nibble `0x4`: skip the next instruction if `V[x] != nn`.
    fn x04(&mut self)
        requires
            cs_wf(old(self)@),
            old(self).pc + 2 <= u16::MAX,
        ensures
            cs_wf(final(self)@),
            final(self)@ == cs_skip_if(
                old(self)@,
                old(self)@.v[old(self)@.inst.x as int] != old(self)@.inst.nn,
            ),
    {
        if self.v[self.current_inst.x] != self.current_inst.nn {
            self.pc = self.pc + 2;
        }
    }

    /// Nibble `0x5`: skip if `V[x] == V[y]`; a nonzero low nibble is a
    /// malformed opcode and is reported.
    fn x05(&mut self) -> (r: Result<Step, Fault>)
        requires
            cs_wf(old(self)@),
            old(self).pc + 2 <= u16::MAX,
        ensures
            cs_wf(final(self)@),
            ({
                let c = old(self)@;
                if c.inst.n != 0 {
                    final(self)@ == c && r == unknown_step()
                } else {
                    final(self)@ == cs_skip_if(c, c.v[c.inst.x as int] == c.v[c.inst.y as int])
                        && r == ok_step()
                }
            }),
    {
        if self.current_inst.n != 0 {
            return Ok(Step::UnknownOpcode);
        }
        if self.v[self.current_inst.x] == self.v[self.current_inst.y] {
            self.pc = self.pc + 2;
        }
        Ok(Step::Executed)
    }

    /// Nibble `0x6`: load the literal into the register.
    fn x06(&mut self)
        requires
            cs_wf(old(self)@),
        ensures
            cs_wf(final(self)@),
            final(self)@ == cs_with_v(
                old(self)@,
                old(self)@.v.update(old(self)@.inst.x as int, old(self)@.inst.nn),
            ),
    {
        self.v.set(self.current_inst.x, self.current_inst.nn);
    }

    /// Nibble `0x7`: add the literal to the register, wrapping modulo 256;
    /// the flag register is not a side effect of this opcode.
    fn x07(&mut self)
        requires
            cs_wf(old(self)@),
        ensures
            cs_wf(final(self)@),
            final(self)@ == cs_with_v(
                old(self)@,
                old(self)@.v.update(
                    old(self)@.inst.x as int,
                    wrap_add8(old(self)@.v[old(self)@.inst.x as int], old(self)@.inst.nn),
                ),
            ),
    {
        let x = self.current_inst.x;
        let sum: u16 = self.v[x] as u16 + self.current_inst.nn as u16;
        self.v.set(x, (sum % 256) as u8);
    }

    /// Nibble `0x8`: the arithmetic/logic group.
    fn x08(&mut self) -> (r: Result<Step, Fault>)
        requires
            cs_wf(old(self)@),
        ensures
            cs_wf(final(self)@),
            rel_x08(old(self)@, final(self)@, r),
    {
        let x = self.current_inst.x;
        let y = self.current_inst.y;
        let n = self.current_inst.n;
        if n == 0 {
            let vy = self.v[y];
            self.v.set(x, vy);
            Ok(Step::Executed)
        } else if n == 1 {
            let o = self.v[x] | self.v[y];
            self.v.set(x, o);
            self.v.set(FLAG_REG, 0);
            Ok(Step::Executed)
        } else if n == 2 {
            let a = self.v[x] & self.v[y];
            self.v.set(x, a);
            self.v.set(FLAG_REG, 0);
            Ok(Step::Executed)
        } else if n == 3 {
            let e = self.v[x] ^ self.v[y];
            self.v.set(x, e);
            self.v.set(FLAG_REG, 0);
            Ok(Step::Executed)
        } else if n == 4 {
            let sum: u16 = self.v[x] as u16 + self.v[y] as u16;
            let carry: u8 = if sum > 255 { 1 } else { 0 };
            self.v.set(FLAG_REG, carry);
            self.v.set(x, (sum % 256) as u8);
            Ok(Step::Executed)
        } else if n == 5 {
            let flag: u8 = if self.v[y] <= self.v[x] { 1 } else { 0 };
            self.v.set(FLAG_REG, flag);
            let diff: u16 = self.v[x] as u16 + 256 - self.v[y] as u16;
            self.v.set(x, (diff % 256) as u8);
            Ok(Step::Executed)
        } else if n == 6 {
            let low: u8 = self.v[x] % 2;
            self.v.set(FLAG_REG, low);
            let half: u8 = self.v[x] / 2;
            self.v.set(x, half);
            Ok(Step::Executed)
        } else if n == 7 {
            let flag: u8 = if self.v[x] <= self.v[y] { 1 } else { 0 };
            self.v.set(FLAG_REG, flag);
            let diff: u16 = self.v[y] as u16 + 256 - self.v[x] as u16;
            self.v.set(x, (diff % 256) as u8);
            Ok(Step::Executed)
        } else if n == 0xE {
            let high: u8 = self.v[x] / 128;
            self.v.set(FLAG_REG, high);
            let doubled: u16 = (self.v[x] as u16 * 2) % 256;
            self.v.set(x, doubled as u8);
            Ok(Step::Executed)
        } else {
            Ok(Step::UnknownOpcode)
        }
    }

    /// Nibble `0x9`: skip the next instruction if `V[x] != V[y]`.
    fn x09(&mut self)
        requires
            cs_wf(old(self)@),
            old(self).pc + 2 <= u16::MAX,
        ensures
            cs_wf(final(self)@),
            final(self)@ == cs_skip_if(
                old(self)@,
                old(self)@.v[old(self)@.inst.x as int] != old(self)@.v[old(self)@.inst.y as int],
            ),
    {
        if self.v[self.current_inst.x] != self.v[self.current_inst.y] {
            self.pc = self.pc + 2;
        }
    }

    /// Nibble `0xA`: load the 12-bit literal into the index register.
    fn x0a(&mut self)
        requires
            cs_wf(old(self)@),
        ensures
            cs_wf(final(self)@),
            final(self)@ == cs_with_i(old(self)@, old(self)@.inst.nnn),
    {
        self.i = self.current_inst.nnn;
    }

    /// Nibble `0xB`: jump to `V[0] + nnn`, the original fixed-register
    /// addressing mode.
    fn x0b(&mut self)
        requires
            cs_wf(old(self)@),
        ensures
            cs_wf(final(self)@),
            final(self)@ == cs_with_pc(
                old(self)@,
                (old(self)@.v[0] + old(self)@.inst.nnn) as u16,
            ),
    {
        self.pc = self.v[0] as u16 + self.current_inst.nnn;
    }

    /// Nibble `0xC`: load a random byte masked by `nn`.
    fn x0c(&mut self) -> (r: Result<Step, Fault>)
        requires
            cs_wf(old(self)@),
        ensures
            cs_wf(final(self)@),
            exists|rnd: u8| #[trigger] rel_x0c(old(self)@, rnd, final(self)@),
            r == ok_step(),
    {
        let rnd = random_byte();
        let masked = rnd & self.current_inst.nn;
        self.v.set(self.current_inst.x, masked);
        proof {
            assert(rel_x0c(old(self)@, rnd, self@));
        }
        Ok(Step::Executed)
    }

    /// Nibble `0xE`: skip on a pressed (`0x9E`) or released (`0xA1`) key.
    fn x0e(&mut self, keypad: &Vec<bool>) -> (r: Result<Step, Fault>)
        requires
            cs_wf(old(self)@),
            old(self).pc + 2 <= u16::MAX,
            keypad@.len() == 16,
        ensures
            cs_wf(final(self)@),
            rel_x0e(old(self)@, keypad@, final(self)@, r),
    {
        if self.current_inst.nn == 0x9E {
            let vx = self.v[self.current_inst.x];
            if vx >= 16 {
                return Err(Fault::KeyOutOfRange);
            }
            if keypad[vx as usize] {
                self.pc = self.pc + 2;
            }
            Ok(Step::Executed)
        } else if self.current_inst.nn == 0xA1 {
            let vx = self.v[self.current_inst.x];
            if vx >= 16 {
                return Err(Fault::KeyOutOfRange);
            }
            if !keypad[vx as usize] {
                self.pc = self.pc + 2;
            }
            Ok(Step::Executed)
        } else {
            Ok(Step::UnknownOpcode)
        }
    }

    /// Nibble `0xD`: draw an `n`-row sprite whose rows are read from memory
    /// at the index register, XOR-composited at origin
    /// `(V[x] mod 64, V[y] mod 32)`, clipped at the right and bottom edges.
    /// The flag register reports a collision.  A draw whose row bytes lie
    /// past memory faults with nothing changed.
    #[verifier::loop_isolation(false)]
    #[verifier::rlimit(60)]
    fn x0d(&mut self, ram: &RAM, display: &mut Display) -> (r: Result<Step, Fault>)
        requires
            cs_wf(old(self)@),
            ram.wf(),
            old(display).wf(),
        ensures
            cs_wf(final(self)@),
            final(display).wf(),
            rel_x0d(old(self)@, ram@, old(display)@, final(self)@, final(display)@, r),
    {
        let x = self.current_inst.x;
        let y = self.current_inst.y;
        let n: u8 = self.current_inst.n;
        let ox: u8 = self.v[x] % 64;
        let oy: u8 = self.v[y] % 32;
        let lim: u8 = 32 - oy;
        let rows: u8 = if n <= lim {
            n
        } else {
            lim
        };
        if rows > 0 && self.i as usize + rows as usize > MEM_SIZE {
            return Err(Fault::MemOutOfBounds);
        }
        let ghost d0 = display@;
        let ghost m = ram@;
        let ghost base = self.i as int;
        let ghost oxi = ox as int;
        let ghost oyi = oy as int;
        let ghost ni = n as int;
        self.v.set(FLAG_REG, 0);
        proof {
            lemma_draw_zero(d0, m, base, oxi, oyi, ni);
            assert(display@ =~= draw_upto(d0, m, base, oxi, oyi, ni, 0));
        }
        let mut row: u8 = 0;
        while row < rows
            invariant
                row <= rows,
                display@ == draw_upto(d0, m, base, oxi, oyi, ni, 8 * row as int),
                self@ == cs_with_v(
                    old(self)@,
                    old(self)@.v.update(
                        FLAG_REG as int,
                        if coll_upto(d0, m, base, oxi, oyi, ni, 8 * row as int) {
                            1u8
                        } else {
                            0u8
                        },
                    ),
                ),
            decreases rows - row,
        {
            let byte = ram.read(self.i as usize + row as usize);
            let ghost lbase = 8 * row as int;
            let cols: u8 = if ox <= 56 {
                8
            } else {
                64 - ox
            };
            let mut col: u8 = 0;
            while col < cols
                invariant
                    col <= cols,
                    display@ == draw_upto(d0, m, base, oxi, oyi, ni, lbase + col as int),
                    self@ == cs_with_v(
                        old(self)@,
                        old(self)@.v.update(
                            FLAG_REG as int,
                            if coll_upto(d0, m, base, oxi, oyi, ni, lbase + col as int) {
                                1u8
                            } else {
                                0u8
                            },
                        ),
                    ),
                decreases cols - col,
            {
                let px: u8 = ox + col;
                let py: u8 = oy + row;
                let idx: usize = py as usize * 64 + px as usize;
                proof {
                    lemma_draw_step(d0, m, base, oxi, oyi, ni, row as int, col as int);
                    assert(idx as int == (oyi + row as int) * 64 + (oxi + col as int));
                }
                let cur = display.read_pixel(idx);
                let shift: u8 = 7 - col;
                let sbit: bool = ((byte >> shift) & 1) == 1;
                proof {
                    assert(sbit == bit_of(m[base + row as int], col as int));
                    assert(cur == d0[idx as int]);
                }
                if sbit && cur {
                    self.v.set(FLAG_REG, 1);
                }
                let newp = if sbit {
                    !cur
                } else {
                    cur
                };
                display.write_pixel(idx, newp);
                proof {
                    let lnext = lbase + col as int + 1;
                    assert(self@.v =~= old(self)@.v.update(
                        FLAG_REG as int,
                        if coll_upto(d0, m, base, oxi, oyi, ni, lnext) {
                            1u8
                        } else {
                            0u8
                        },
                    ));
                    assert(display@ == draw_upto(d0, m, base, oxi, oyi, ni, lnext));
                }
                col = col + 1;
            }
            proof {
                if cols < 8 {
                    lemma_draw_row_clip(d0, m, base, oxi, oyi, ni, row as int, cols as int);
                }
            }
            row = row + 1;
        }
        proof {
            if rows < n {
                lemma_draw_rows_clip(d0, m, base, oxi, oyi, ni, rows as int);
            }
        }
        Ok(Step::Executed)
    }

    /// Nibble `0xF`: timers, index arithmetic, key wait, font lookup,
    /// binary-coded-decimal unpack, and bulk register transfer, by `nn`.
    #[verifier::loop_isolation(false)]
    fn x0f(&mut self, ram: &mut RAM, keypad: &Vec<bool>) -> (r: Result<Step, Fault>)
        requires
            cs_wf(old(self)@),
            old(ram).wf(),
            keypad@.len() == 16,
            old(self).pc >= 2,
        ensures
            cs_wf(final(self)@),
            final(ram).wf(),
            rel_x0f(old(self)@, old(ram)@, keypad@, final(self)@, final(ram)@, r),
    {
        let nn = self.current_inst.nn;
        let x = self.current_inst.x;
        if nn == 0x0A {
            let mut k: usize = 0;
            while k < 16
                invariant
                    k <= 16,
                    *self == *old(self),
                    first_key(keypad@) == first_key_from(keypad@, k as int),
                decreases 16 - k,
            {
                if keypad[k] {
                    self.v.set(x, k as u8);
                    proof {
                        assert(first_key_from(keypad@, k as int) == Some(k as int));
                    }
                    return Ok(Step::Executed);
                }
                proof {
                    assert(first_key_from(keypad@, k as int) == first_key_from(
                        keypad@,
                        k as int + 1,
                    ));
                }
                k += 1;
            }
            self.pc = self.pc - 2;
            Ok(Step::Executed)
        } else if nn == 0x07 {
            let d = self.delay_timer;
            self.v.set(x, d);
            Ok(Step::Executed)
        } else if nn == 0x15 {
            self.delay_timer = self.v[x];
            Ok(Step::Executed)
        } else if nn == 0x18 {
            self.sound_timer = self.v[x];
            Ok(Step::Executed)
        } else if nn == 0x1E {
            let widened: u32 = self.i as u32 + self.v[x] as u32;
            self.i = (widened % 0x10000) as u16;
            Ok(Step::Executed)
        } else if nn == 0x29 {
            self.i = self.v[x] as u16 * 5;
            Ok(Step::Executed)
        } else if nn == 0x33 {
            if self.i as usize + 2 >= MEM_SIZE {
                return Err(Fault::MemOutOfBounds);
            }
            let base = self.i as usize;
            let val = self.v[x];
            ram.write(base, val / 100);
            ram.write(base + 1, (val / 10) % 10);
            ram.write(base + 2, val % 10);
            Ok(Step::Executed)
        } else if nn == 0x55 {
            if self.i as usize + x >= MEM_SIZE {
                return Err(Fault::MemOutOfBounds);
            }
            let base = self.i as usize;
            let mut j: usize = 0;
            while j < x + 1
                invariant
                    j <= x + 1,
                    ram@.len() == MEM_SIZE,
                    forall|t: int| 0 <= t < j ==> ram@[base + t] == self@.v[t],
                    forall|t: int|
                        0 <= t < MEM_SIZE && !(base <= t < base + j) ==> ram@[t] == old(ram)@[t],
                decreases x + 1 - j,
            {
                let vj = self.v[j];
                ram.write(base + j, vj);
                j += 1;
            }
            proof {
                assert forall|t: int| 0 <= t < MEM_SIZE implies ram@[t] == mem_store_regs(
                    old(ram)@,
                    self@.v,
                    base as int,
                    x as int,
                )[t] by {
                    if base <= t <= base + x {
                        assert(ram@[base + (t - base)] == self@.v[t - base]);
                    }
                }
                assert(ram@ =~= mem_store_regs(old(ram)@, self@.v, base as int, x as int));
            }
            Ok(Step::Executed)
        } else if nn == 0x65 {
            if self.i as usize + x >= MEM_SIZE {
                return Err(Fault::MemOutOfBounds);
            }
            let base = self.i as usize;
            let mut j: usize = 0;
            while j < x + 1
                invariant
                    j <= x + 1,
                    self@ == cs_with_v(old(self)@, self@.v),
                    self@.v.len() == NUM_REGS,
                    forall|t: int| 0 <= t < j ==> self@.v[t] == ram@[base + t],
                    forall|t: int| j <= t < NUM_REGS ==> self@.v[t] == old(self)@.v[t],
                decreases x + 1 - j,
            {
                let b = ram.read(base + j);
                self.v.set(j, b);
                j += 1;
            }
            proof {
                assert(self@.v =~= regs_load_mem(old(self)@.v, ram@, base as int, x as int));
            }
            Ok(Step::Executed)
        } else {
            Ok(Step::UnknownOpcode)
        }
    }

    /// One engine step: fetch the opcode word at the program counter,
    /// advance the counter by 2, decode, and dispatch to the top nibble's
    /// handler.  The whole effect on engine, memory and display is pinned
    /// by [`step_rel`], up to the byte that opcode `0xC` draws.
    pub fn exec_instruction(
        &mut self,
        ram: &mut RAM,
        display: &mut Display,
        keypad: &Vec<bool>,
    ) -> (r: Result<Step, Fault>)
        requires
            cs_wf(old(self)@),
            old(ram).wf(),
            old(display).wf(),
            keypad@.len() == 16,
        ensures
            cs_wf(final(self)@),
            final(ram).wf(),
            final(display).wf(),
            exists|rnd: u8|
                #[trigger] step_rel(
                    old(self)@,
                    old(ram)@,
                    old(display)@,
                    keypad@,
                    rnd,
                    final(self)@,
                    final(ram)@,
                    final(display)@,
                    r,
                ),
    {
        if self.pc as usize + 1 >= MEM_SIZE {
            proof {
                assert(step_rel(
                    self@,
                    ram@,
                    display@,
                    keypad@,
                    0u8,
                    self@,
                    ram@,
                    display@,
                    Err::<Step, Fault>(Fault::MemOutOfBounds),
                ));
            }
            return Err(Fault::MemOutOfBounds);
        }
        let pc0 = self.pc as usize;
        let b0 = ram.read(pc0);
        let b1 = ram.read(pc0 + 1);
        self.current_inst = Instruction::from(b0, b1);
        self.pc = self.pc + 2;
        proof {
            lemma_decode_bounded(spec_word(b0, b1));
            assert(self@ == fetched(old(self)@, ram@));
        }
        let ghost c = self@;
        let opcode = self.current_inst.opcode;
        proof {
            assert(opcode >> 12u16 < 16) by (bit_vector);
        }
        let nib: u8 = (opcode >> 12u16) as u8;
        let r = if nib == 0x0 {
            self.x00(display)
        } else if nib == 0x1 {
            self.x01();
            Ok(Step::Executed)
        } else if nib == 0x2 {
            self.x02()
        } else if nib == 0x3 {
            self.x03();
            Ok(Step::Executed)
        } else if nib == 0x4 {
            self.x04();
            Ok(Step::Executed)
        } else if nib == 0x5 {
            self.x05()
        } else if nib == 0x6 {
            self.x06();
            Ok(Step::Executed)
        } else if nib == 0x7 {
            self.x07();
            Ok(Step::Executed)
        } else if nib == 0x8 {
            self.x08()
        } else if nib == 0x9 {
            self.x09();
            Ok(Step::Executed)
        } else if nib == 0xA {
            self.x0a();
            Ok(Step::Executed)
        } else if nib == 0xB {
            self.x0b();
            Ok(Step::Executed)
        } else if nib == 0xC {
            self.x0c()
        } else if nib == 0xD {
            self.x0d(ram, display)
        } else if nib == 0xE {
            self.x0e(keypad)
        } else {
            self.x0f(ram, keypad)
        };
        proof {
            if c.inst.opcode >> 12u16 == 0xC {
                let rnd = choose|rnd: u8| rel_x0c(c, rnd, self@);
                assert(step_rel(
                    old(self)@,
                    old(ram)@,
                    old(display)@,
                    keypad@,
                    rnd,
                    self@,
                    ram@,
                    display@,
                    r,
                ));
            } else {
                assert(step_rel(
                    old(self)@,
                    old(ram)@,
                    old(display)@,
                    keypad@,
                    0u8,
                    self@,
                    ram@,
                    display@,
                    r,
                ));
            }
        }
        r
    }

    /// One driver tick: a fixed burst of instruction executions, then
    /// exactly one timer update.  Returns how many instructions of the
    /// burst were reported as unknown opcodes; a fault aborts the burst at
    /// once, with the timers not yet updated, so the caller can stop the
    /// machine loudly.
    #[verifier::rlimit(80)]
    #[verifier::spinoff_prover]
    pub fn make_cycle(
        &mut self,
        ram: &mut RAM,
        display: &mut Display,
        keypad: &Vec<bool>,
    ) -> (r: Result<usize, Fault>)
        requires
            cs_wf(old(self)@),
            old(ram).wf(),
            old(display).wf(),
            keypad@.len() == 16,
        ensures
            cs_wf(final(self)@),
            final(ram).wf(),
            final(display).wf(),
            r matches Ok(unk) ==> tick_rel(
                old(self)@,
                old(ram)@,
                old(display)@,
                keypad@,
                final(self)@,
                final(ram)@,
                final(display)@,
                unk as int,
            ),
            r matches Err(f) ==> tick_fault_rel(
                old(self)@,
                old(ram)@,
                old(display)@,
                keypad@,
                final(self)@,
                final(ram)@,
                final(display)@,
                f,
            ),
    {
        let ghost pre = self@;
        let ghost m0 = ram@;
        let ghost dd0 = display@;
        let mut unk: usize = 0;
        let mut it: usize = 0;
        while it < BURST_LEN
            invariant
                it <= BURST_LEN,
                unk <= it,
                pre == old(self)@,
                m0 == old(ram)@,
                dd0 == old(display)@,
                cs_wf(self@),
                ram.wf(),
                display.wf(),
                keypad@.len() == 16,
                steps_ok(pre, m0, dd0, keypad@, it as int, self@, ram@, display@, unk as int),
            decreases BURST_LEN - it,
        {
            let ghost c2 = self@;
            let ghost mm = ram@;
            let ghost md = display@;
            let ghost uo = unk as int;
            match self.exec_instruction(ram, display, keypad) {
                Ok(s) => {
                    proof {
                        let rnd = choose|rnd: u8|
                            #[trigger] step_rel(
                                c2,
                                mm,
                                md,
                                keypad@,
                                rnd,
                                self@,
                                ram@,
                                display@,
                                Ok::<Step, Fault>(s),
                            );
                        lemma_steps_ok_snoc(
                            pre,
                            m0,
                            dd0,
                            keypad@,
                            it as int,
                            c2,
                            mm,
                            md,
                            uo,
                            rnd,
                            s,
                            self@,
                            ram@,
                            display@,
                        );
                    }
                    match s {
                        Step::UnknownOpcode => {
                            unk = unk + 1;
                        },
                        Step::Executed => {},
                    }
                },
                Err(f) => {
                    proof {
                        let rnd = choose|rnd: u8|
                            #[trigger] step_rel(
                                c2,
                                mm,
                                md,
                                keypad@,
                                rnd,
                                self@,
                                ram@,
                                display@,
                                Err::<Step, Fault>(f),
                            );
                        assert(steps_ok(
                            old(self)@,
                            old(ram)@,
                            old(display)@,
                            keypad@,
                            it as int,
                            c2,
                            mm,
                            md,
                            uo,
                        ));
                        assert(step_rel(c2, mm, md, keypad@, rnd, self@, ram@, display@, Err::<
                            Step,
                            Fault,
                        >(f)));
                        assert(tick_fault_rel(
                            old(self)@,
                            old(ram)@,
                            old(display)@,
                            keypad@,
                            self@,
                            ram@,
                            display@,
                            f,
                        ));
                    }
                    return Err(f);
                },
            }
            it = it + 1;
        }
        let ghost cburst = self@;
        self.update_timers();
        proof {
            assert(steps_ok(
                old(self)@,
                old(ram)@,
                old(display)@,
                keypad@,
                BURST_LEN as int,
                cburst,
                ram@,
                display@,
                unk as int,
            ));
            assert(self@ == timer_upd(cburst));
            assert(tick_rel(
                old(self)@,
                old(ram)@,
                old(display)@,
                keypad@,
                self@,
                ram@,
                display@,
                unk as int,
            ));
        }
        Ok(unk)
    }
}

} // verus!
