//! Specification of the sprite draw opcode: XOR composition of sprite rows
//! onto the bitmap, clipped at the right and bottom edges, with a collision
//! flag that records whether any lit pixel was toggled off.
//!
//! A sprite is 8 pixels wide and `n` rows tall, one byte per row, most
//! significant bit leftmost.  The draw walks its cells row by row and, in a
//! row, column by column; the walk is indexed here by a single *position*
//! `row * 8 + col`, so that a partly finished draw is the draw up to some
//! position limit.

use vstd::prelude::*;

verus! {

/// Whether sprite row byte `b` has its pixel at column `j` set
/// (column 0 is the most significant bit).
pub open spec fn bit_of(b: u8, j: int) -> bool {
    (b >> ((7 - j) as u8)) & 1 == 1
}

/// Whether bitmap cell `k` is covered by a sprite of `n` rows whose origin
/// is `(ox, oy)`: inside the sprite rectangle, and not clipped away at the
/// right or bottom edge.
pub open spec fn sprite_covers(ox: int, oy: int, n: int, k: int) -> bool {
    let px = k % 64;
    let py = k / 64;
    &&& oy <= py < oy + n
    &&& py < 32
    &&& ox <= px < ox + 8
}

/// The walk position of a covered cell: its row offset times 8 plus its
/// column offset.
pub open spec fn sprite_pos(ox: int, oy: int, k: int) -> int {
    (k / 64 - oy) * 8 + (k % 64 - ox)
}

/// The bitmap after the draw has processed every covered cell whose walk
/// position is below `limit`: each one is XOR-toggled by its sprite bit,
/// taken from the row byte at `base + row offset` of memory `mem`.
pub open spec fn draw_upto(
    d0: Seq<bool>,
    mem: Seq<u8>,
    base: int,
    ox: int,
    oy: int,
    n: int,
    limit: int,
) -> Seq<bool> {
    Seq::new(
        d0.len(),
        |k: int|
            if sprite_covers(ox, oy, n, k) && sprite_pos(ox, oy, k) < limit {
                d0[k] != bit_of(mem[base + (k / 64 - oy)], k % 64 - ox)
            } else {
                d0[k]
            },
    )
}

/// Whether some covered cell with walk position below `limit` was lit and
/// met a set sprite bit: the collision condition.
pub open spec fn coll_upto(
    d0: Seq<bool>,
    mem: Seq<u8>,
    base: int,
    ox: int,
    oy: int,
    n: int,
    limit: int,
) -> bool {
    exists|k: int|
        0 <= k < d0.len() && #[trigger] sprite_covers(ox, oy, n, k) && sprite_pos(ox, oy, k)
            < limit && d0[k] && bit_of(mem[base + (k / 64 - oy)], k % 64 - ox)
}

/// The bitmap after the whole draw.
pub open spec fn draw_post(
    d0: Seq<bool>,
    mem: Seq<u8>,
    base: int,
    ox: int,
    oy: int,
    n: int,
) -> Seq<bool> {
    draw_upto(d0, mem, base, ox, oy, n, 8 * n)
}

/// The collision flag after the whole draw.
pub open spec fn draw_coll(
    d0: Seq<bool>,
    mem: Seq<u8>,
    base: int,
    ox: int,
    oy: int,
    n: int,
) -> bool {
    coll_upto(d0, mem, base, ox, oy, n, 8 * n)
}

/// A draw that has processed nothing leaves the bitmap as it was, and has
/// seen no collision.
pub proof fn lemma_draw_zero(d0: Seq<bool>, mem: Seq<u8>, base: int, ox: int, oy: int, n: int)
    ensures
        draw_upto(d0, mem, base, ox, oy, n, 0) == d0,
        !coll_upto(d0, mem, base, ox, oy, n, 0),
{
    assert(draw_upto(d0, mem, base, ox, oy, n, 0) =~= d0);
}

/// Exactly one cell has a given walk position: position determines the row
/// and column offsets, and those determine the cell.
proof fn lemma_pos_unique(ox: int, oy: int, n: int, k1: int, k2: int)
    requires
        0 <= ox < 64,
        0 <= oy < 32,
        0 <= k1 < 2048,
        0 <= k2 < 2048,
        sprite_covers(ox, oy, n, k1),
        sprite_covers(ox, oy, n, k2),
        sprite_pos(ox, oy, k1) == sprite_pos(ox, oy, k2),
    ensures
        k1 == k2,
{
    let a1 = k1 / 64 - oy;
    let b1 = k1 % 64 - ox;
    let a2 = k2 / 64 - oy;
    let b2 = k2 % 64 - ox;
    assert(0 <= b1 < 8 && 0 <= b2 < 8);
    assert(a1 * 8 + b1 == a2 * 8 + b2);
    assert(a1 == a2 && b1 == b2) by (nonlinear_arith)
        requires
            0 <= b1 < 8,
            0 <= b2 < 8,
            a1 * 8 + b1 == a2 * 8 + b2,
    ;
    assert(k1 == (k1 / 64) * 64 + k1 % 64);
    assert(k2 == (k2 / 64) * 64 + k2 % 64);
}

/// Processing the cell at walk position `r * 8 + c` toggles exactly that
/// cell, and extends the collision condition by exactly that cell's test.
pub proof fn lemma_draw_step(
    d0: Seq<bool>,
    mem: Seq<u8>,
    base: int,
    ox: int,
    oy: int,
    n: int,
    r: int,
    c: int,
)
    requires
        d0.len() == 2048,
        0 <= ox < 64,
        0 <= oy < 32,
        0 <= n <= 15,
        0 <= r < n,
        oy + r < 32,
        0 <= c < 8,
        ox + c < 64,
    ensures
        ({
            let k = (oy + r) * 64 + (ox + c);
            let l = r * 8 + c;
            &&& 0 <= k < 2048
            &&& sprite_covers(ox, oy, n, k)
            &&& sprite_pos(ox, oy, k) == l
            &&& draw_upto(d0, mem, base, ox, oy, n, l)[k] == d0[k]
            &&& draw_upto(d0, mem, base, ox, oy, n, l + 1) == draw_upto(
                d0,
                mem,
                base,
                ox,
                oy,
                n,
                l,
            ).update(k, d0[k] != bit_of(mem[base + r], c))
            &&& coll_upto(d0, mem, base, ox, oy, n, l + 1) == (coll_upto(
                d0,
                mem,
                base,
                ox,
                oy,
                n,
                l,
            ) || (d0[k] && bit_of(mem[base + r], c)))
        }),
{
    let k = (oy + r) * 64 + (ox + c);
    let l = r * 8 + c;
    assert(k / 64 == oy + r && k % 64 == ox + c) by (nonlinear_arith)
        requires
            k == (oy + r) * 64 + (ox + c),
            0 <= ox + c < 64,
            0 <= oy + r,
    ;
    assert(sprite_covers(ox, oy, n, k));
    assert(sprite_pos(ox, oy, k) == l);
    let before = draw_upto(d0, mem, base, ox, oy, n, l);
    let after = draw_upto(d0, mem, base, ox, oy, n, l + 1);
    assert forall|j: int| 0 <= j < 2048 implies after[j] == before.update(
        k,
        d0[k] != bit_of(mem[base + r], c),
    )[j] by {
        if j == k {
        } else {
            if sprite_covers(ox, oy, n, j) && sprite_pos(ox, oy, j) == l {
                lemma_pos_unique(ox, oy, n, j, k);
            }
        }
    }
    assert(after =~= before.update(k, d0[k] != bit_of(mem[base + r], c)));
    // Collision: the new position adds exactly cell k's test.
    let collb = coll_upto(d0, mem, base, ox, oy, n, l);
    let colla = coll_upto(d0, mem, base, ox, oy, n, l + 1);
    if colla {
        let j = choose|j: int|
            0 <= j < d0.len() && #[trigger] sprite_covers(ox, oy, n, j) && sprite_pos(ox, oy, j)
                < l + 1 && d0[j] && bit_of(mem[base + (j / 64 - oy)], j % 64 - ox);
        if sprite_pos(ox, oy, j) == l {
            lemma_pos_unique(ox, oy, n, j, k);
            assert(d0[k] && bit_of(mem[base + r], c));
        } else {
            assert(collb);
        }
    }
    if collb {
        assert(colla);
    }
    if d0[k] && bit_of(mem[base + r], c) {
        assert(colla);
    }
}

/// Once the walk has left the visible columns of a row, the rest of that
/// row changes nothing: no cell sits at the clipped positions.
pub proof fn lemma_draw_row_clip(
    d0: Seq<bool>,
    mem: Seq<u8>,
    base: int,
    ox: int,
    oy: int,
    n: int,
    r: int,
    c: int,
)
    requires
        d0.len() == 2048,
        0 <= ox < 64,
        0 <= oy < 32,
        0 <= n,
        0 <= r,
        0 <= c <= 8,
        ox + c >= 64,
    ensures
        draw_upto(d0, mem, base, ox, oy, n, r * 8 + c) == draw_upto(
            d0,
            mem,
            base,
            ox,
            oy,
            n,
            r * 8 + 8,
        ),
        coll_upto(d0, mem, base, ox, oy, n, r * 8 + c) == coll_upto(
            d0,
            mem,
            base,
            ox,
            oy,
            n,
            r * 8 + 8,
        ),
{
    assert forall|j: int|
        0 <= j < 2048 && #[trigger] sprite_covers(ox, oy, n, j) && sprite_pos(ox, oy, j) < r * 8
            + 8 implies sprite_pos(ox, oy, j) < r * 8 + c by {
        let a = j / 64 - oy;
        let b = j % 64 - ox;
        assert(0 <= b < 8);
        if sprite_pos(ox, oy, j) >= r * 8 + c {
            assert(a * 8 + b >= r * 8 + c && a * 8 + b < r * 8 + 8);
            assert(a == r && b >= c) by (nonlinear_arith)
                requires
                    0 <= b < 8,
                    0 <= c <= 8,
                    r * 8 + c <= a * 8 + b < r * 8 + 8,
            ;
            assert(j % 64 >= ox + c);
            assert(j % 64 < 64);
        }
    }
    assert(draw_upto(d0, mem, base, ox, oy, n, r * 8 + c) =~= draw_upto(
        d0,
        mem,
        base,
        ox,
        oy,
        n,
        r * 8 + 8,
    ));
}

/// Once the walk has left the visible rows, the remaining rows change
/// nothing: every cell there is clipped at the bottom edge.
pub proof fn lemma_draw_rows_clip(
    d0: Seq<bool>,
    mem: Seq<u8>,
    base: int,
    ox: int,
    oy: int,
    n: int,
    r: int,
)
    requires
        d0.len() == 2048,
        0 <= ox < 64,
        0 <= oy < 32,
        0 <= n,
        0 <= r <= n,
        oy + r >= 32,
    ensures
        draw_upto(d0, mem, base, ox, oy, n, r * 8) == draw_post(d0, mem, base, ox, oy, n),
        coll_upto(d0, mem, base, ox, oy, n, r * 8) == draw_coll(d0, mem, base, ox, oy, n),
{
    assert forall|j: int|
        0 <= j < 2048 && #[trigger] sprite_covers(ox, oy, n, j) && sprite_pos(ox, oy, j) < 8
            * n implies sprite_pos(ox, oy, j) < r * 8 by {
        let a = j / 64 - oy;
        let b = j % 64 - ox;
        assert(0 <= b < 8);
        if sprite_pos(ox, oy, j) >= r * 8 {
            assert(a >= r) by (nonlinear_arith)
                requires
                    0 <= b < 8,
                    a * 8 + b >= r * 8,
            ;
            assert(j / 64 >= oy + r);
            assert(j / 64 < 32);
        }
    }
    assert(draw_upto(d0, mem, base, ox, oy, n, r * 8) =~= draw_post(d0, mem, base, ox, oy, n));
}

} // verus!
