//! General laws of the machine, stated and proved once over the
//! specification: XOR draw idempotence, the call/return round trip, the
//! wrapping-add register law, and timer monotonicity.

use vstd::prelude::*;

use crate::cpu::{
    cs_wf, fetch_ok, fetched, ok_step, step_rel, timer_upd, wrap_add8, CpuState, STACK_CAP,
};
use crate::draw::{bit_of, draw_coll, draw_post, sprite_covers, sprite_pos};
use crate::instruction::spec_word;

verus! {

/// Drawing the same sprite at the same origin twice gives every affected
/// pixel back its prior state: XOR composition is its own inverse.  The
/// collision flag of the second draw is set exactly when the first draw
/// turned some pixel on — that is, some covered cell had its sprite bit
/// set and was previously off.
pub proof fn lemma_draw_twice_restores(
    d0: Seq<bool>,
    mem: Seq<u8>,
    base: int,
    ox: int,
    oy: int,
    n: int,
)
    requires
        d0.len() == 2048,
    ensures
        draw_post(draw_post(d0, mem, base, ox, oy, n), mem, base, ox, oy, n) == d0,
        draw_coll(draw_post(d0, mem, base, ox, oy, n), mem, base, ox, oy, n) == (exists|k: int|
            0 <= k < 2048 && #[trigger] sprite_covers(ox, oy, n, k) && bit_of(
                mem[base + (k / 64 - oy)],
                k % 64 - ox,
            ) && !d0[k]),
{
    let d1 = draw_post(d0, mem, base, ox, oy, n);
    let d2 = draw_post(d1, mem, base, ox, oy, n);
    assert forall|k: int|
        0 <= k < 2048 && #[trigger] sprite_covers(ox, oy, n, k) implies sprite_pos(ox, oy, k) < 8
        * n by {
        assert(k / 64 - oy < n && k % 64 - ox < 8);
    }
    assert(d2 =~= d0);
    if draw_coll(d1, mem, base, ox, oy, n) {
        let k = choose|k: int|
            0 <= k < d1.len() && #[trigger] sprite_covers(ox, oy, n, k) && sprite_pos(ox, oy, k)
                < 8 * n && d1[k] && bit_of(mem[base + (k / 64 - oy)], k % 64 - ox);
        assert(d1[k] == (d0[k] != bit_of(mem[base + (k / 64 - oy)], k % 64 - ox)));
        assert(!d0[k]);
    }
    if exists|k: int|
        0 <= k < 2048 && #[trigger] sprite_covers(ox, oy, n, k) && bit_of(
            mem[base + (k / 64 - oy)],
            k % 64 - ox,
        ) && !d0[k] {
        let k = choose|k: int|
            0 <= k < 2048 && #[trigger] sprite_covers(ox, oy, n, k) && bit_of(
                mem[base + (k / 64 - oy)],
                k % 64 - ox,
            ) && !d0[k];
        assert(d1[k]);
        assert(draw_coll(d1, mem, base, ox, oy, n));
    }
}

/// Call/return round trip: a step that executes opcode `0x2NNN`, followed
/// by a step at address `NNN` that executes `0x00EE`, returns the program
/// counter to the instruction immediately after the call; registers, the
/// index register, the stack pointer, the timers, memory and display are
/// all back to — or never left — their values before the call.
pub proof fn lemma_call_return_round_trip(
    pre: CpuState,
    m0: Seq<u8>,
    d0: Seq<bool>,
    keys: Seq<bool>,
    rnd1: u8,
    rnd2: u8,
    mid: CpuState,
    m1: Seq<u8>,
    d1: Seq<bool>,
    post: CpuState,
    m2: Seq<u8>,
    d2: Seq<bool>,
)
    requires
        cs_wf(pre),
        fetch_ok(pre),
        spec_word(m0[pre.pc as int], m0[pre.pc as int + 1]) >> 12u16 == 2,
        pre.sp < STACK_CAP,
        step_rel(pre, m0, d0, keys, rnd1, mid, m1, d1, ok_step()),
        spec_word(m1[mid.pc as int], m1[mid.pc as int + 1]) == 0x00EE,
        step_rel(mid, m1, d1, keys, rnd2, post, m2, d2, ok_step()),
    ensures
        post.pc == pre.pc + 2,
        post.sp == pre.sp,
        post.v == pre.v,
        post.i == pre.i,
        post.delay == pre.delay,
        post.sound == pre.sound,
        m2 == m0,
        d2 == d0,
{
    let w1 = spec_word(m0[pre.pc as int], m0[pre.pc as int + 1]);
    let c1 = fetched(pre, m0);
    assert(c1.inst.opcode == w1);
    assert(mid.pc == c1.inst.nnn && mid.sp == pre.sp + 1 && mid.stack == pre.stack.update(
        pre.sp,
        c1.pc,
    ));
    assert(m1 == m0 && d1 == d0);
    assert(fetch_ok(mid));
    let c2 = fetched(mid, m1);
    assert(c2.inst.opcode == 0x00EE);
    assert(0x00EEu16 >> 12u16 == 0) by (bit_vector);
    assert((0x00EEu16 & 0x00ff) as u8 == 0xEE) by (bit_vector);
    assert(c2.sp == pre.sp + 1 > 0);
    assert(post.pc == c2.stack[c2.sp - 1]);
    assert(post.pc == pre.stack.update(pre.sp, c1.pc)[pre.sp]);
    assert(post.pc == c1.pc);
}

/// The wrapping-add opcode law: adding a literal to a register leaves
/// every other register — the flag register included — untouched, and the
/// target holds the sum modulo 256.
pub proof fn lemma_add_literal(v: Seq<u8>, x: int, k: u8)
    requires
        v.len() == 16,
        0 <= x < 16,
    ensures
        v.update(x, wrap_add8(v[x], k))[x] == (v[x] + k) % 256,
        forall|r: int| 0 <= r < 16 && r != x ==> v.update(x, wrap_add8(v[x], k))[r] == v[r],
{
}

/// Timer monotonicity: a tick never drives a timer below zero, and
/// decrements it exactly when it is strictly positive.
pub proof fn lemma_timer_monotonic(s: CpuState)
    ensures
        timer_upd(s).delay <= s.delay,
        timer_upd(s).sound <= s.sound,
        s.delay > 0 ==> timer_upd(s).delay == s.delay - 1,
        s.sound > 0 ==> timer_upd(s).sound == s.sound - 1,
        s.delay == 0 ==> timer_upd(s).delay == 0,
        s.sound == 0 ==> timer_upd(s).sound == 0,
{
}

} // verus!
