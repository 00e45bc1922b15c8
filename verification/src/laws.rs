//! Laws relating several steps of the interpreter.

use vstd::prelude::*;

use crate::semantics::bit_of;
use crate::semantics::draw_bits;
use crate::semantics::draw_rows;
use crate::semantics::spec_draw;
use crate::semantics::spec_step;
use crate::state::Chip8Error;
use crate::state::StepOutcome;
use crate::state::VmView;
use crate::state::fetch_op;
use crate::state::lemma_decode_bounds;
use crate::state::op_n;
use crate::state::op_nnn;
use crate::state::op_x;
use crate::state::op_y;
use crate::state::wf_view;
use vstd::arithmetic::div_mod::lemma_add_mod_noop;
use vstd::arithmetic::div_mod::lemma_mod_bound;
use vstd::arithmetic::div_mod::lemma_mod_multiples_vanish;
use vstd::arithmetic::div_mod::lemma_small_mod;

verus! {

/// Calls and returns are LIFO and round-trip: executing a call instruction
/// (2nnn) pushes exactly the caller's program counter, and executing the
/// return instruction (00EE) found at the call target pops it again, leaving
/// the stack as it was and resuming just past the call; memory, registers and
/// framebuffer are untouched by the pair.
pub proof fn lemma_call_return_round_trip(s: VmView, rnd1: u8, rnd2: u8)
    requires
        wf_view(s),
        s.pc + 1 < 4096,
        fetch_op(s) >> 12 == 0x2,
        s.stack.len() < 16,
        op_nnn(fetch_op(s)) + 1 < 4096,
        s.mem[op_nnn(fetch_op(s)) as int] == 0x00,
        s.mem[op_nnn(fetch_op(s)) as int + 1] == 0xEE,
    ensures
        ({
            let step1 = spec_step(s, rnd1);
            let step2 = spec_step(step1.1, rnd2);
            &&& step1.0 == Ok::<StepOutcome, Chip8Error>(StepOutcome::Executed)
            &&& step1.1.stack == s.stack.push(s.pc)
            &&& step1.1.pc == op_nnn(fetch_op(s))
            &&& step2.0 == Ok::<StepOutcome, Chip8Error>(StepOutcome::Executed)
            &&& step2.1.stack == s.stack
            &&& step2.1.pc == s.pc + 2
            &&& step2.1.mem == s.mem
            &&& step2.1.regs == s.regs
            &&& step2.1.disp == s.disp
        }),
{
    let op1 = fetch_op(s);
    let target = op_nnn(op1);
    let step1 = spec_step(s, rnd1);
    assert(op_nnn(op1) < 4096) by {
        crate::state::lemma_decode_bounds(op1);
    }
    let t2 = step1.1;
    assert(t2.pc == target);
    assert(t2.mem == s.mem);
    let op2 = fetch_op(t2);
    assert(op2 == ((0x00u8 as u16) << 8) | (0xEEu8 as u16));
    assert(((0x00u8 as u16) << 8) | (0xEEu8 as u16) == 0xEEu16) by (bit_vector);
    assert(op2 >> 12 == 0x0u16 && (op2 & 0xFF) == 0xEEu16 && (0xEEu16 & 0xFF) as u8 == 0xEEu8)
        by (bit_vector)
        requires
            op2 == 0xEEu16,
    ;
    assert(t2.stack.len() > 0);
    assert(t2.stack.last() == s.pc);
    assert(t2.stack.drop_last() =~= s.stack);
}

/// Shifting a nonnegative number by less than the modulus moves its residue.
proof fn lemma_mod_shift_distinct(a: int, d: int, m: int)
    requires
        0 <= a,
        0 < d < m,
    ensures
        a % m != (a + d) % m,
{
    let r = a % m;
    lemma_mod_bound(a, m);
    lemma_add_mod_noop(a, d, m);
    lemma_small_mod(d as nat, m as nat);
    if r + d < m {
        lemma_small_mod((r + d) as nat, m as nat);
    } else {
        lemma_mod_multiples_vanish(1, r + d - m, m);
        lemma_small_mod((r + d - m) as nat, m as nat);
    }
}

/// Whether one of sprite bits b..8 of a row lands on framebuffer index `idx`.
pub open spec fn row_hits(line: u8, x0: u8, py: int, b: int, idx: int) -> bool
    decreases 8 - b,
{
    if b < 0 || b >= 8 {
        false
    } else {
        (bit_of(line, b) && idx == py * 64 + (x0 + b) % 64) || row_hits(line, x0, py, b + 1, idx)
    }
}

/// A row only ever lands inside its own 64-pixel strip.
proof fn lemma_row_hits_in_row(line: u8, x0: u8, py: int, b: int, idx: int)
    requires
        0 <= b,
        row_hits(line, x0, py, b, idx),
    ensures
        py * 64 <= idx < py * 64 + 64,
    decreases 8 - b,
{
    if b < 8 {
        if bit_of(line, b) && idx == py * 64 + (x0 + b) % 64 {
            lemma_mod_bound(x0 + b, 64);
        } else {
            lemma_row_hits_in_row(line, x0, py, b + 1, idx);
        }
    }
}

/// Later bits of the same row never revisit the pixel that bit `b` targets.
proof fn lemma_row_no_hit_after(line: u8, x0: u8, py: int, b: int, b2: int, idx: int)
    requires
        0 <= b < 8,
        b < b2 <= 8,
        idx == py * 64 + (x0 + b) % 64,
    ensures
        !row_hits(line, x0, py, b2, idx),
    decreases 8 - b2,
{
    if b2 < 8 {
        lemma_mod_shift_distinct(x0 + b, b2 - b, 64);
        lemma_row_no_hit_after(line, x0, py, b, b2 + 1, idx);
    }
}

/// Pixel by pixel, one sprite row XOR-toggles exactly the pixels it hits.
proof fn lemma_draw_bits_pixelwise(disp: Seq<bool>, coll: bool, line: u8, x0: u8, py: int, b: int)
    requires
        disp.len() == 2048,
        0 <= py < 32,
        0 <= b <= 8,
    ensures
        ({
            let res = draw_bits(disp, coll, line, x0, py, b);
            &&& res.0.len() == 2048
            &&& forall|idx: int|
                0 <= idx < 2048 ==> res.0[idx] == (if row_hits(line, x0, py, b, idx) {
                    !disp[idx]
                } else {
                    disp[idx]
                })
        }),
    decreases 8 - b,
{
    if b < 8 {
        let px = (x0 + b) % 64;
        let tgt = py * 64 + px;
        lemma_mod_bound(x0 + b, 64);
        let set = bit_of(line, b);
        let d2 = if set {
            disp.update(tgt, !disp[tgt])
        } else {
            disp
        };
        let c2 = coll || (set && disp[tgt]);
        lemma_draw_bits_pixelwise(d2, c2, line, x0, py, b + 1);
        if set {
            lemma_row_no_hit_after(line, x0, py, b, b + 1, tgt);
        }
        assert(draw_bits(disp, coll, line, x0, py, b) == draw_bits(d2, c2, line, x0, py, b + 1));
        assert forall|idx: int| 0 <= idx < 2048 implies draw_bits(
            disp,
            coll,
            line,
            x0,
            py,
            b,
        ).0[idx] == (if row_hits(line, x0, py, b, idx) {
            !disp[idx]
        } else {
            disp[idx]
        }) by {
            if set && idx == tgt {
                assert(row_hits(line, x0, py, b, idx));
                assert(!row_hits(line, x0, py, b + 1, idx));
                assert(d2[idx] == !disp[idx]);
            } else {
                assert(d2[idx] == disp[idx]);
                assert(row_hits(line, x0, py, b, idx) == row_hits(line, x0, py, b + 1, idx));
            }
        }
    }
}

/// Whether one of sprite rows r..n lands on framebuffer index `idx`.
pub open spec fn rows_hit(mem: Seq<u8>, base: int, x0: u8, y0: u8, n: int, r: int, idx: int) -> bool
    decreases n - r,
{
    if r < 0 || r >= n {
        false
    } else {
        row_hits(mem[base + r], x0, (y0 + r) % 32, 0, idx) || rows_hit(
            mem,
            base,
            x0,
            y0,
            n,
            r + 1,
            idx,
        )
    }
}

/// The 64-pixel strip of screen row `py`.
spec fn in_strip(py: int, idx: int) -> bool {
    py * 64 <= idx < py * 64 + 64
}

/// A hit by one of rows r..n lies in the strip of one of those rows.
proof fn lemma_rows_hit_located(mem: Seq<u8>, base: int, x0: u8, y0: u8, n: int, r: int, idx: int)
    requires
        0 <= r,
        rows_hit(mem, base, x0, y0, n, r, idx),
    ensures
        exists|r2: int| r <= r2 < n && #[trigger] in_strip((y0 + r2) % 32, idx),
    decreases n - r,
{
    if r < n {
        if row_hits(mem[base + r], x0, (y0 + r) % 32, 0, idx) {
            lemma_row_hits_in_row(mem[base + r], x0, (y0 + r) % 32, 0, idx);
            assert(in_strip((y0 + r) % 32, idx));
        } else {
            lemma_rows_hit_located(mem, base, x0, y0, n, r + 1, idx);
            let r2 = choose|r2: int| r + 1 <= r2 < n && #[trigger] in_strip((y0 + r2) % 32, idx);
            assert(r <= r2 < n && in_strip((y0 + r2) % 32, idx));
        }
    }
}

/// Pixel by pixel, a sprite XOR-toggles exactly the pixels its rows hit:
/// rows land in pairwise distinct strips, so no pixel is toggled twice.
proof fn lemma_draw_rows_pixelwise(
    disp: Seq<bool>,
    coll: bool,
    mem: Seq<u8>,
    base: int,
    x0: u8,
    y0: u8,
    n: int,
    r: int,
)
    requires
        disp.len() == 2048,
        mem.len() == 4096,
        0 <= n <= 15,
        0 <= base,
        n > 0 ==> base + n <= 4096,
        0 <= r <= n,
    ensures
        ({
            let res = draw_rows(disp, coll, mem, base, x0, y0, n, r);
            &&& res.0.len() == 2048
            &&& forall|idx: int|
                0 <= idx < 2048 ==> res.0[idx] == (if rows_hit(mem, base, x0, y0, n, r, idx) {
                    !disp[idx]
                } else {
                    disp[idx]
                })
        }),
    decreases n - r,
{
    if r < n {
        let line = mem[base + r];
        let py = (y0 + r) % 32;
        lemma_mod_bound(y0 + r, 32);
        let rowres = draw_bits(disp, coll, line, x0, py, 0);
        lemma_draw_bits_pixelwise(disp, coll, line, x0, py, 0);
        lemma_draw_rows_pixelwise(rowres.0, rowres.1, mem, base, x0, y0, n, r + 1);
        assert forall|idx: int|
            0 <= idx < 2048 && row_hits(line, x0, py, 0, idx) implies !rows_hit(
            mem,
            base,
            x0,
            y0,
            n,
            r + 1,
            idx,
        ) by {
            lemma_row_hits_in_row(line, x0, py, 0, idx);
            if rows_hit(mem, base, x0, y0, n, r + 1, idx) {
                lemma_rows_hit_located(mem, base, x0, y0, n, r + 1, idx);
                let r2 = choose|r2: int|
                    r + 1 <= r2 < n && #[trigger] in_strip((y0 + r2) % 32, idx);
                lemma_mod_shift_distinct(y0 + r, r2 - r, 32);
                lemma_mod_bound(y0 + r2, 32);
                assert(false);
            }
        }
    }
}

/// Like the pixelwise lemma, but for the collision flag: since no pixel is
/// toggled twice, every toggle reads the display as it was before the draw,
/// so the flag records exactly whether some hit pixel was already lit.
proof fn lemma_draw_bits_collision(disp: Seq<bool>, coll: bool, line: u8, x0: u8, py: int, b: int)
    requires
        disp.len() == 2048,
        0 <= py < 32,
        0 <= b <= 8,
    ensures
        draw_bits(disp, coll, line, x0, py, b).1 == (coll || exists|idx: int|
            0 <= idx < 2048 && #[trigger] row_hits(line, x0, py, b, idx) && disp[idx]),
    decreases 8 - b,
{
    if b < 8 {
        let px = (x0 + b) % 64;
        let tgt = py * 64 + px;
        lemma_mod_bound(x0 + b, 64);
        let set = bit_of(line, b);
        let d2 = if set {
            disp.update(tgt, !disp[tgt])
        } else {
            disp
        };
        let c2 = coll || (set && disp[tgt]);
        lemma_draw_bits_collision(d2, c2, line, x0, py, b + 1);
        if set {
            lemma_row_no_hit_after(line, x0, py, b, b + 1, tgt);
        }
        if exists|idx: int| 0 <= idx < 2048 && #[trigger] row_hits(line, x0, py, b + 1, idx)
            && d2[idx] {
            let w = choose|idx: int|
                0 <= idx < 2048 && #[trigger] row_hits(line, x0, py, b + 1, idx) && d2[idx];
            assert(row_hits(line, x0, py, b, w) && disp[w]);
        }
        if set && disp[tgt] {
            assert(row_hits(line, x0, py, b, tgt) && disp[tgt]);
        }
        if exists|idx: int| 0 <= idx < 2048 && #[trigger] row_hits(line, x0, py, b, idx)
            && disp[idx] {
            let w = choose|idx: int|
                0 <= idx < 2048 && #[trigger] row_hits(line, x0, py, b, idx) && disp[idx];
            if set && w == tgt {
            } else {
                assert(row_hits(line, x0, py, b + 1, w) && d2[w]);
            }
        }
    }
}

/// The collision flag of a whole draw: rows land in disjoint strips, so every
/// toggle reads the original display, and the flag is exactly whether some
/// hit pixel was lit before the draw began.
proof fn lemma_draw_rows_collision(
    disp: Seq<bool>,
    coll: bool,
    mem: Seq<u8>,
    base: int,
    x0: u8,
    y0: u8,
    n: int,
    r: int,
)
    requires
        disp.len() == 2048,
        mem.len() == 4096,
        0 <= n <= 15,
        0 <= base,
        n > 0 ==> base + n <= 4096,
        0 <= r <= n,
    ensures
        draw_rows(disp, coll, mem, base, x0, y0, n, r).1 == (coll || exists|idx: int|
            0 <= idx < 2048 && #[trigger] rows_hit(mem, base, x0, y0, n, r, idx) && disp[idx]),
    decreases n - r,
{
    if r < n {
        let line = mem[base + r];
        let py = (y0 + r) % 32;
        lemma_mod_bound(y0 + r, 32);
        let rowres = draw_bits(disp, coll, line, x0, py, 0);
        lemma_draw_bits_pixelwise(disp, coll, line, x0, py, 0);
        lemma_draw_bits_collision(disp, coll, line, x0, py, 0);
        lemma_draw_rows_collision(rowres.0, rowres.1, mem, base, x0, y0, n, r + 1);
        assert forall|idx: int|
            0 <= idx < 2048 && rows_hit(mem, base, x0, y0, n, r + 1, idx) implies !row_hits(
            line,
            x0,
            py,
            0,
            idx,
        ) by {
            if row_hits(line, x0, py, 0, idx) {
                lemma_row_hits_in_row(line, x0, py, 0, idx);
                lemma_rows_hit_located(mem, base, x0, y0, n, r + 1, idx);
                let r2 = choose|r2: int|
                    r + 1 <= r2 < n && #[trigger] in_strip((y0 + r2) % 32, idx);
                lemma_mod_shift_distinct(y0 + r, r2 - r, 32);
                lemma_mod_bound(y0 + r2, 32);
                assert(false);
            }
        }
        if exists|idx: int|
            0 <= idx < 2048 && #[trigger] rows_hit(mem, base, x0, y0, n, r + 1, idx)
            && rowres.0[idx] {
            let w = choose|idx: int|
                0 <= idx < 2048 && #[trigger] rows_hit(mem, base, x0, y0, n, r + 1, idx)
                && rowres.0[idx];
            assert(rows_hit(mem, base, x0, y0, n, r, w) && disp[w]);
        }
        if exists|idx: int| 0 <= idx < 2048 && #[trigger] row_hits(line, x0, py, 0, idx)
            && disp[idx] {
            let w = choose|idx: int|
                0 <= idx < 2048 && #[trigger] row_hits(line, x0, py, 0, idx) && disp[idx];
            assert(rows_hit(mem, base, x0, y0, n, r, w) && disp[w]);
        }
        if exists|idx: int| 0 <= idx < 2048 && #[trigger] rows_hit(mem, base, x0, y0, n, r, idx)
            && disp[idx] {
            let w = choose|idx: int|
                0 <= idx < 2048 && #[trigger] rows_hit(mem, base, x0, y0, n, r, idx) && disp[idx];
            if row_hits(line, x0, py, 0, w) {
            } else {
                assert(rows_hit(mem, base, x0, y0, n, r + 1, w) && rowres.0[w]);
            }
        }
    }
}

/// The pixels a Dxyn instruction would touch, as decoded from the state.
pub open spec fn sprite_covers(s: VmView, op: u16, idx: int) -> bool {
    rows_hit(s.mem, s.index as int, s.regs[op_x(op)], s.regs[op_y(op)], op_n(op), 0, idx)
}

/// The flag register after a draw is exactly whether the sprite hit an
/// already-lit pixel.
pub proof fn lemma_draw_collision_flag(s: VmView, op: u16)
    requires
        wf_view(s),
        op_n(op) > 0 ==> s.index + op_n(op) <= 4096,
    ensures
        spec_draw(s, op).0 is Ok,
        spec_draw(s, op).1.regs[15] == (if exists|idx: int|
            0 <= idx < 2048 && #[trigger] sprite_covers(s, op, idx) && s.disp[idx] {
            1u8
        } else {
            0u8
        }),
{
    lemma_decode_bounds(op);
    let x0 = s.regs[op_x(op)];
    let y0 = s.regs[op_y(op)];
    let n = op_n(op);
    let base = s.index as int;
    lemma_draw_rows_collision(s.disp, false, s.mem, base, x0, y0, n, 0);
    if exists|idx: int| 0 <= idx < 2048 && #[trigger] rows_hit(s.mem, base, x0, y0, n, 0, idx)
        && s.disp[idx] {
        let w = choose|idx: int|
            0 <= idx < 2048 && #[trigger] rows_hit(s.mem, base, x0, y0, n, 0, idx) && s.disp[idx];
        assert(sprite_covers(s, op, w) && s.disp[w]);
    }
    if exists|idx: int| 0 <= idx < 2048 && #[trigger] sprite_covers(s, op, idx) && s.disp[idx] {
        let w = choose|idx: int|
            0 <= idx < 2048 && #[trigger] sprite_covers(s, op, idx) && s.disp[idx];
        assert(rows_hit(s.mem, base, x0, y0, n, 0, w) && s.disp[w]);
    }
}

/// Sprite drawing is XOR-idempotent: drawing the same sprite twice at the
/// same position restores the framebuffer exactly (the flag registers of the
/// two draws record the collisions of each pass; the sprite must not take its
/// position from the flag register itself, which the first draw rewrites).
pub proof fn lemma_draw_twice_restores_display(s: VmView, op: u16)
    requires
        wf_view(s),
        op_x(op) != 15,
        op_y(op) != 15,
        op_n(op) > 0 ==> s.index + op_n(op) <= 4096,
    ensures
        spec_draw(s, op).0 is Ok,
        spec_draw(spec_draw(s, op).1, op).0 is Ok,
        spec_draw(spec_draw(s, op).1, op).1.disp == s.disp,
{
    lemma_decode_bounds(op);
    let x0 = s.regs[op_x(op)];
    let y0 = s.regs[op_y(op)];
    let n = op_n(op);
    let base = s.index as int;
    let first = draw_rows(s.disp, false, s.mem, base, x0, y0, n, 0);
    let s1 = spec_draw(s, op).1;
    assert(s1.regs[op_x(op)] == x0 && s1.regs[op_y(op)] == y0);
    let second = draw_rows(first.0, false, s.mem, base, x0, y0, n, 0);
    lemma_draw_rows_pixelwise(s.disp, false, s.mem, base, x0, y0, n, 0);
    lemma_draw_rows_pixelwise(first.0, false, s.mem, base, x0, y0, n, 0);
    assert(second.0 =~= s.disp);
}

} // verus!
