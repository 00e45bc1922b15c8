//! The spec-level interpreter: one spec function per opcode family, composed
//! by `spec_step`, which pins down the whole effect of executing a single
//! instruction (timers, fetch, dispatch, program-counter advance) on the
//! mathematical view of the machine.

use vstd::prelude::*;

use crate::state::Chip8Error;
use crate::state::StepOutcome;
use crate::state::VmView;
use crate::state::advance;
use crate::state::add_wrap8;
use crate::state::add_wrap16;
use crate::state::sub_wrap8;
use crate::state::fetch_op;
use crate::state::op_kk;
use crate::state::op_n;
use crate::state::op_nnn;
use crate::state::op_x;
use crate::state::op_y;
use crate::state::tick_timers;
use crate::state::upd_reg;

verus! {

/// 00E0 clears the framebuffer; 00EE pops the stack into the program counter,
/// failing on an empty stack; any other low byte is an unknown sub-opcode.
pub open spec fn spec_clear_or_return(s: VmView, op: u16) -> (Result<
    StepOutcome,
    Chip8Error,
>, VmView) {
    let kk = op_kk(op);
    if kk == 0xE0 {
        (Ok(StepOutcome::Executed), VmView { disp: Seq::new(2048, |i: int| false), ..s })
    } else if kk == 0xEE {
        if s.stack.len() == 0 {
            (Err(Chip8Error::StackUnderflow), s)
        } else {
            (
                Ok(StepOutcome::Executed),
                VmView { pc: s.stack.last(), stack: s.stack.drop_last(), ..s },
            )
        }
    } else {
        (Ok(StepOutcome::UnknownOpcode), s)
    }
}

/// 1nnn: the program counter becomes nnn.
pub open spec fn spec_jump(s: VmView, op: u16) -> VmView {
    VmView { pc: op_nnn(op), ..s }
}

/// Bnnn: the program counter becomes nnn plus register 0.
pub open spec fn spec_jump_offset(s: VmView, op: u16) -> VmView {
    VmView { pc: (op_nnn(op) + s.regs[0]) as u16, ..s }
}

/// 2nnn: the current program counter is pushed and execution continues at
/// nnn; fails when the stack already holds 16 return addresses.
pub open spec fn spec_call(s: VmView, op: u16) -> (Result<StepOutcome, Chip8Error>, VmView) {
    if s.stack.len() >= 16 {
        (Err(Chip8Error::StackOverflow), s)
    } else {
        (Ok(StepOutcome::Executed), VmView { stack: s.stack.push(s.pc), pc: op_nnn(op), ..s })
    }
}

/// 3xkk: skip the next instruction when register x equals kk.
pub open spec fn spec_skip_eq_byte(s: VmView, op: u16) -> VmView {
    if s.regs[op_x(op)] == op_kk(op) {
        advance(s)
    } else {
        s
    }
}

/// 4xkk: skip the next instruction when register x differs from kk.
pub open spec fn spec_skip_ne_byte(s: VmView, op: u16) -> VmView {
    if s.regs[op_x(op)] != op_kk(op) {
        advance(s)
    } else {
        s
    }
}

/// 5xy0: skip the next instruction when registers x and y are equal.
pub open spec fn spec_skip_eq_reg(s: VmView, op: u16) -> VmView {
    if s.regs[op_x(op)] == s.regs[op_y(op)] {
        advance(s)
    } else {
        s
    }
}

/// 9xy0: skip the next instruction when registers x and y differ.
pub open spec fn spec_skip_ne_reg(s: VmView, op: u16) -> VmView {
    if s.regs[op_x(op)] != s.regs[op_y(op)] {
        advance(s)
    } else {
        s
    }
}

/// 6xkk: register x becomes kk.
pub open spec fn spec_load_byte(s: VmView, op: u16) -> VmView {
    upd_reg(s, op_x(op), op_kk(op))
}

/// 7xkk: register x gains kk modulo 256; the flag register is untouched.
pub open spec fn spec_add_byte(s: VmView, op: u16) -> VmView {
    upd_reg(s, op_x(op), add_wrap8(s.regs[op_x(op)], op_kk(op)))
}

/// The 8xy* family: moves, bitwise operations, wrapping arithmetic and
/// shifts. Operands are read from the state before any write, and where an
/// opcode sets the flag register it is written after the result, so the flag
/// wins when x is 15.
pub open spec fn spec_logical(s: VmView, op: u16) -> (StepOutcome, VmView) {
    let x = op_x(op);
    let vx = s.regs[x];
    let vy = s.regs[op_y(op)];
    let sub = op_n(op);
    if sub == 0x0 {
        (StepOutcome::Executed, upd_reg(s, x, vy))
    } else if sub == 0x1 {
        (StepOutcome::Executed, upd_reg(s, x, vx | vy))
    } else if sub == 0x2 {
        (StepOutcome::Executed, upd_reg(s, x, vx & vy))
    } else if sub == 0x3 {
        (StepOutcome::Executed, upd_reg(s, x, vx ^ vy))
    } else if sub == 0x4 {
        let flag: u8 = if vx + vy > 255 { 1 } else { 0 };
        (
            StepOutcome::Executed,
            VmView { regs: s.regs.update(x, add_wrap8(vx, vy)).update(15, flag), ..s },
        )
    } else if sub == 0x5 {
        let flag: u8 = if vx > vy { 1 } else { 0 };
        (
            StepOutcome::Executed,
            VmView { regs: s.regs.update(x, sub_wrap8(vx, vy)).update(15, flag), ..s },
        )
    } else if sub == 0x6 {
        (
            StepOutcome::Executed,
            VmView { regs: s.regs.update(x, vx >> 1).update(15, vx & 1), ..s },
        )
    } else if sub == 0x7 {
        let flag: u8 = if vy > vx { 1 } else { 0 };
        (
            StepOutcome::Executed,
            VmView { regs: s.regs.update(x, sub_wrap8(vy, vx)).update(15, flag), ..s },
        )
    } else if sub == 0xE {
        (
            StepOutcome::Executed,
            VmView {
                regs: s.regs.update(x, add_wrap8(vx, vx)).update(15, (vx & 0x80) >> 7),
                ..s
            },
        )
    } else {
        (StepOutcome::UnknownOpcode, s)
    }
}

/// Annn: the index register becomes nnn.
pub open spec fn spec_set_index(s: VmView, op: u16) -> VmView {
    VmView { index: op_nnn(op), ..s }
}

/// Cxkk: register x becomes the drawn byte masked with kk.
pub open spec fn spec_rand(s: VmView, op: u16, rnd: u8) -> VmView {
    upd_reg(s, op_x(op), rnd & op_kk(op))
}

/// Whether sprite bit `b` (most significant first) of a sprite row is set.
pub open spec fn bit_of(line: u8, b: int) -> bool {
    (line >> ((7 - b) as u8)) & 1 == 1
}

/// One sprite row, folded bit by bit from the most significant: each set bit
/// XOR-toggles the pixel at column (x0 + bit) mod 64 of row `py`, and the
/// collision flag absorbs any toggle of an already-lit pixel.
pub open spec fn draw_bits(disp: Seq<bool>, coll: bool, line: u8, x0: u8, py: int, b: int) -> (Seq<
    bool,
>, bool)
    decreases 8 - b,
{
    if b < 0 || b >= 8 {
        (disp, coll)
    } else {
        let px = (x0 + b) % 64;
        let idx = py * 64 + px;
        let set = bit_of(line, b);
        let d2 = if set {
            disp.update(idx, !disp[idx])
        } else {
            disp
        };
        let c2 = coll || (set && disp[idx]);
        draw_bits(d2, c2, line, x0, py, b + 1)
    }
}

/// The sprite rows in order: row `r` is the byte at index + r, drawn on
/// screen row (y0 + r) mod 32.
pub open spec fn draw_rows(
    disp: Seq<bool>,
    coll: bool,
    mem: Seq<u8>,
    base: int,
    x0: u8,
    y0: u8,
    n: int,
    r: int,
) -> (Seq<bool>, bool)
    decreases n - r,
{
    if r < 0 || r >= n {
        (disp, coll)
    } else {
        let row = draw_bits(disp, coll, mem[base + r], x0, (y0 + r) % 32, 0);
        draw_rows(row.0, row.1, mem, base, x0, y0, n, r + 1)
    }
}

/// Dxyn: draw the n-row sprite at memory[index..] at the screen position
/// given by registers x and y, wrapping on both axes; the flag register
/// becomes 1 exactly when a lit pixel was toggled off. Reading a sprite row
/// beyond memory is a fault that leaves the state alone.
pub open spec fn spec_draw(s: VmView, op: u16) -> (Result<StepOutcome, Chip8Error>, VmView) {
    let x0 = s.regs[op_x(op)];
    let y0 = s.regs[op_y(op)];
    let n = op_n(op);
    if n > 0 && s.index + n > 4096 {
        (Err(Chip8Error::MemoryFault), s)
    } else {
        let drawn = draw_rows(s.disp, false, s.mem, s.index as int, x0, y0, n, 0);
        (
            Ok(StepOutcome::Executed),
            VmView {
                disp: drawn.0,
                regs: s.regs.update(15, if drawn.1 { 1u8 } else { 0u8 }),
                ..s
            },
        )
    }
}

/// Ex9E skips when the current key is exactly register x; ExA1 skips when it
/// is not (in particular, whenever no key is pressed).
pub open spec fn spec_keyboard(s: VmView, op: u16) -> (StepOutcome, VmView) {
    let kk = op_kk(op);
    let vx = s.regs[op_x(op)];
    if kk == 0x9E {
        (StepOutcome::Executed, if s.key == Some(vx) { advance(s) } else { s })
    } else if kk == 0xA1 {
        (StepOutcome::Executed, if s.key != Some(vx) { advance(s) } else { s })
    } else {
        (StepOutcome::UnknownOpcode, s)
    }
}

/// Registers 0..=x written to memory at the index register, which then moves
/// past them.
pub open spec fn store_regs(mem: Seq<u8>, regs: Seq<u8>, base: int, i: int, x: int) -> Seq<u8>
    decreases x - i + 1,
{
    if i < 0 || i > x {
        mem
    } else {
        store_regs(mem.update(base + i, regs[i]), regs, base, i + 1, x)
    }
}

/// Registers 0..=x filled from memory at the index register, which then moves
/// past the bytes read.
pub open spec fn fill_regs(regs: Seq<u8>, mem: Seq<u8>, base: int, i: int, x: int) -> Seq<u8>
    decreases x - i + 1,
{
    if i < 0 || i > x {
        regs
    } else {
        fill_regs(regs.update(i, mem[base + i]), mem, base, i + 1, x)
    }
}

/// The Fx** family: timer reads and writes, key read, index arithmetic, the
/// font glyph offset, BCD, and the bulk register store/load. The memory
/// accesses of Fx33, Fx55 and Fx65 fault, leaving the state alone, when they
/// would reach at or beyond address 4096.
pub open spec fn spec_misc(s: VmView, op: u16) -> (Result<StepOutcome, Chip8Error>, VmView) {
    let x = op_x(op);
    let vx = s.regs[x];
    let kk = op_kk(op);
    if kk == 0x07 {
        (Ok(StepOutcome::Executed), upd_reg(s, x, s.delay))
    } else if kk == 0x0A {
        let k = match s.key {
            Some(k) => k,
            None => 0u8,
        };
        (Ok(StepOutcome::Executed), upd_reg(s, x, k))
    } else if kk == 0x15 {
        (Ok(StepOutcome::Executed), VmView { delay: vx, ..s })
    } else if kk == 0x18 {
        (Ok(StepOutcome::Executed), VmView { sound: vx, ..s })
    } else if kk == 0x1E {
        (Ok(StepOutcome::Executed), VmView { index: add_wrap16(s.index, vx as u16), ..s })
    } else if kk == 0x29 {
        (Ok(StepOutcome::Executed), VmView { index: (vx * 5) as u16, ..s })
    } else if kk == 0x33 {
        if s.index + 2 >= 4096 {
            (Err(Chip8Error::MemoryFault), s)
        } else {
            let base = s.index as int;
            (
                Ok(StepOutcome::Executed),
                VmView {
                    mem: s.mem.update(base, (vx / 100) as u8).update(
                        base + 1,
                        ((vx / 10) % 10) as u8,
                    ).update(base + 2, (vx % 10) as u8),
                    ..s
                },
            )
        }
    } else if kk == 0x55 {
        if s.index + x + 1 > 4096 {
            (Err(Chip8Error::MemoryFault), s)
        } else {
            (
                Ok(StepOutcome::Executed),
                VmView {
                    mem: store_regs(s.mem, s.regs, s.index as int, 0, x),
                    index: (s.index + x + 1) as u16,
                    ..s
                },
            )
        }
    } else if kk == 0x65 {
        if s.index + x + 1 > 4096 {
            (Err(Chip8Error::MemoryFault), s)
        } else {
            (
                Ok(StepOutcome::Executed),
                VmView {
                    regs: fill_regs(s.regs, s.mem, s.index as int, 0, x),
                    index: (s.index + x + 1) as u16,
                    ..s
                },
            )
        }
    } else {
        (Ok(StepOutcome::UnknownOpcode), s)
    }
}

/// After a successful handler the program counter advances past the
/// instruction, except for the three families that set it themselves.
pub open spec fn advance_if_ok(r: Result<StepOutcome, Chip8Error>, s: VmView) -> VmView {
    if r is Err {
        s
    } else {
        advance(s)
    }
}

/// Dispatch on the top nibble of the instruction word. The state handed in
/// has already had its timers ticked; `rnd` is the byte the Cxkk opcode
/// would consume.
pub open spec fn spec_exec(s: VmView, op: u16, rnd: u8) -> (Result<StepOutcome, Chip8Error>, VmView) {
    let fam = op >> 12;
    if fam == 0x0 {
        let r = spec_clear_or_return(s, op);
        (r.0, advance_if_ok(r.0, r.1))
    } else if fam == 0x1 {
        (Ok(StepOutcome::Executed), spec_jump(s, op))
    } else if fam == 0x2 {
        spec_call(s, op)
    } else if fam == 0x3 {
        (Ok(StepOutcome::Executed), advance(spec_skip_eq_byte(s, op)))
    } else if fam == 0x4 {
        (Ok(StepOutcome::Executed), advance(spec_skip_ne_byte(s, op)))
    } else if fam == 0x5 {
        (Ok(StepOutcome::Executed), advance(spec_skip_eq_reg(s, op)))
    } else if fam == 0x6 {
        (Ok(StepOutcome::Executed), advance(spec_load_byte(s, op)))
    } else if fam == 0x7 {
        (Ok(StepOutcome::Executed), advance(spec_add_byte(s, op)))
    } else if fam == 0x8 {
        let r = spec_logical(s, op);
        (Ok(r.0), advance(r.1))
    } else if fam == 0x9 {
        (Ok(StepOutcome::Executed), advance(spec_skip_ne_reg(s, op)))
    } else if fam == 0xA {
        (Ok(StepOutcome::Executed), advance(spec_set_index(s, op)))
    } else if fam == 0xB {
        (Ok(StepOutcome::Executed), spec_jump_offset(s, op))
    } else if fam == 0xC {
        (Ok(StepOutcome::Executed), advance(spec_rand(s, op, rnd)))
    } else if fam == 0xD {
        let r = spec_draw(s, op);
        (r.0, advance_if_ok(r.0, r.1))
    } else if fam == 0xE {
        let r = spec_keyboard(s, op);
        (Ok(r.0), advance(r.1))
    } else {
        let r = spec_misc(s, op);
        (r.0, advance_if_ok(r.0, r.1))
    }
}

/// One whole step: tick the timers, fetch (a fault when the program counter
/// has no two bytes left to read), then execute. On an error the returned
/// state has only the timers changed.
pub open spec fn spec_step(s: VmView, rnd: u8) -> (Result<StepOutcome, Chip8Error>, VmView) {
    let t = tick_timers(s);
    if s.pc + 1 >= 4096 {
        (Err(Chip8Error::MemoryFault), t)
    } else {
        spec_exec(t, fetch_op(t), rnd)
    }
}

} // verus!
