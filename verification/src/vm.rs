//! The executable machine. Every method's effect is stated against the ghost
//! view in `state` and the spec-level interpreter in `semantics`.

use vstd::prelude::*;

use crate::callstack::stack_len;
use crate::callstack::stack_model;
use crate::callstack::stack_new;
use crate::callstack::stack_pop;
use crate::callstack::stack_try_push;
use crate::semantics::draw_bits;
use crate::semantics::draw_rows;
use crate::semantics::fill_regs;
use crate::semantics::spec_call;
use crate::semantics::spec_clear_or_return;
use crate::semantics::spec_draw;
use crate::semantics::spec_jump;
use crate::semantics::spec_jump_offset;
use crate::semantics::spec_keyboard;
use crate::semantics::spec_load_byte;
use crate::semantics::spec_logical;
use crate::semantics::spec_misc;
use crate::semantics::spec_rand;
use crate::semantics::spec_set_index;
use crate::semantics::spec_skip_eq_byte;
use crate::semantics::spec_skip_eq_reg;
use crate::semantics::spec_skip_ne_byte;
use crate::semantics::spec_skip_ne_reg;
use crate::semantics::spec_step;
use crate::semantics::store_regs;
use crate::semantics::spec_add_byte;
use crate::state::Chip8Error;
use crate::state::StepOutcome;
use crate::state::VmView;
use crate::state::advance;
use crate::state::fetch_op;
use crate::state::font_seq;
use crate::state::init_view;
use crate::state::lemma_decode_bounds;
use crate::state::load_mem;
use crate::state::tick_timers;
use crate::state::wf_view;

verus! {

pub const SCREEN_WIDTH: u8 = 64;

pub const SCREEN_HEIGHT: u8 = 32;

/// The virtual machine: memory, registers, index register, program counter,
/// call stack, the two timers, the framebuffer, and the current key.
pub struct Chip8 {
    display: Vec<bool>,
    memory: Vec<u8>,
    registers: Vec<u8>,
    index: u16,
    program_counter: u16,
    stack: arrayvec::ArrayVec<u16, 16>,
    delay_timer: u8,
    sound_timer: u8,
    key: Option<u8>,
}

impl Chip8 {
    /// The machine as mathematics.
    pub closed spec fn view(&self) -> VmView {
        VmView {
            mem: self.memory@,
            regs: self.registers@,
            index: self.index,
            pc: self.program_counter,
            stack: stack_model(self.stack),
            delay: self.delay_timer,
            sound: self.sound_timer,
            disp: self.display@,
            key: self.key,
        }
    }

    /// The machine's invariant, established by `new` and kept by every method.
    pub open spec fn wf(&self) -> bool {
        wf_view(self@)
    }

    /// A fresh machine: memory zero except the font table at 0x050, program
    /// counter at 0x200, everything else cleared.
    pub fn new() -> (c: Chip8)
        ensures
            c.wf(),
            c@ == init_view(),
    {
        let mut memory: Vec<u8> = vec![0u8; 4096];
        let font = font_table();
        let mut i: usize = 0;
        while i < 80
            invariant
                i <= 80,
                memory@.len() == 4096,
                font@ == font_seq(),
                forall|j: int| 0x50 <= j < 0x50 + i ==> memory@[j] == font_seq()[j - 0x50],
                forall|j: int|
                    0 <= j < 4096 && !(0x50 <= j < 0x50 + i) ==> memory@[j] == 0u8,
            decreases 80 - i,
        {
            memory[0x50 + i] = font[i];
            i += 1;
        }
        let c = Chip8 {
            display: vec![false; 2048],
            memory,
            registers: vec![0u8; 16],
            index: 0,
            program_counter: 0x200,
            stack: stack_new(),
            delay_timer: 0,
            sound_timer: 0,
            key: None,
        };
        proof {
            assert(c@.mem =~= init_view().mem);
            assert(c@.regs =~= init_view().regs);
            assert(c@.disp =~= init_view().disp);
            assert(c@.stack =~= init_view().stack);
            assert(c@ =~= init_view());
        }
        c
    }

    /// Copy a program image into memory at 0x200 and report how many bytes
    /// were loaded; an image longer than 3584 bytes is rejected whole, with
    /// the machine untouched.
    pub fn load_rom(&mut self, rom: &Vec<u8>) -> (r: Result<usize, Chip8Error>)
        requires
            old(self).wf(),
        ensures
            final(self).wf(),
            rom@.len() > 3584 ==> r == Err::<usize, Chip8Error>(Chip8Error::RomTooLarge)
                && final(self)@ == old(self)@,
            rom@.len() <= 3584 ==> r == Ok::<usize, Chip8Error>(rom@.len() as usize)
                && final(self)@ == (VmView { mem: load_mem(old(self)@.mem, rom@), ..old(self)@ }),
    {
        let n = rom.len();
        if n > 3584 {
            return Err(Chip8Error::RomTooLarge);
        }
        let mut i: usize = 0;
        while i < n
            invariant
                i <= n,
                n == rom@.len() <= 3584,
                self.memory@.len() == 4096,
                forall|j: int| 0x200 <= j < 0x200 + i ==> self.memory@[j] == rom@[j - 0x200],
                forall|j: int|
                    0 <= j < 4096 && !(0x200 <= j < 0x200 + i) ==> self.memory@[j] == old(
                        self,
                    )@.mem[j],
                self.registers == old(self).registers,
                self.index == old(self).index,
                self.program_counter == old(self).program_counter,
                self.stack == old(self).stack,
                self.delay_timer == old(self).delay_timer,
                self.sound_timer == old(self).sound_timer,
                self.display == old(self).display,
                self.key == old(self).key,
            decreases n - i,
        {
            self.memory[0x200 + i] = rom[i];
            i += 1;
        }
        proof {
            assert(self@.mem =~= load_mem(old(self)@.mem, rom@));
            assert(self@ =~= (VmView { mem: load_mem(old(self)@.mem, rom@), ..old(self)@ }));
        }
        Ok(n)
    }

    /// The byte at `addr`, or a fault for an address at or beyond 4096.
    pub fn read_byte(&self, addr: u16) -> (r: Result<u8, Chip8Error>)
        requires
            self.wf(),
        ensures
            addr < 4096 ==> r == Ok::<u8, Chip8Error>(self@.mem[addr as int]),
            addr >= 4096 ==> r == Err::<u8, Chip8Error>(Chip8Error::MemoryFault),
    {
        if addr < 4096 {
            Ok(self.memory[addr as usize])
        } else {
            Err(Chip8Error::MemoryFault)
        }
    }

    /// Write a byte at `addr`, or fault for an address at or beyond 4096,
    /// leaving the machine untouched.
    pub fn write_byte(&mut self, addr: u16, value: u8) -> (r: Result<(), Chip8Error>)
        requires
            old(self).wf(),
        ensures
            final(self).wf(),
            addr < 4096 ==> r == Ok::<(), Chip8Error>(()) && final(self)@ == (VmView {
                mem: old(self)@.mem.update(addr as int, value),
                ..old(self)@
            }),
            addr >= 4096 ==> r == Err::<(), Chip8Error>(Chip8Error::MemoryFault) && final(self)@
                == old(self)@,
    {
        if addr < 4096 {
            self.memory[addr as usize] = value;
            Ok(())
        } else {
            Err(Chip8Error::MemoryFault)
        }
    }

    /// The pixel at column `x`, row `y`.
    pub fn pixel(&self, x: usize, y: usize) -> (b: bool)
        requires
            self.wf(),
            x < 64,
            y < 32,
        ensures
            b == self@.disp[y * 64 + x],
    {
        self.display[y * 64 + x]
    }

    /// Register `i`.
    pub fn register(&self, i: usize) -> (v: u8)
        requires
            self.wf(),
            i < 16,
        ensures
            v == self@.regs[i as int],
    {
        self.registers[i]
    }

    /// The index register.
    pub fn index_register(&self) -> (v: u16)
        ensures
            v == self@.index,
    {
        self.index
    }

    /// The program counter.
    pub fn pc(&self) -> (v: u16)
        ensures
            v == self@.pc,
    {
        self.program_counter
    }

    /// The delay timer.
    pub fn delay_timer(&self) -> (v: u8)
        ensures
            v == self@.delay,
    {
        self.delay_timer
    }

    /// The sound timer.
    pub fn sound_timer(&self) -> (v: u8)
        ensures
            v == self@.sound,
    {
        self.sound_timer
    }

    /// How many return addresses the call stack holds.
    pub fn stack_depth(&self) -> (n: usize)
        ensures
            n == self@.stack.len(),
    {
        stack_len(&self.stack)
    }

    /// Record the most recently pressed key (0..=15), or none on release.
    pub fn set_key(&mut self, key: Option<u8>)
        requires
            old(self).wf(),
            key matches Some(k) ==> k <= 15,
        ensures
            final(self).wf(),
            final(self)@ == (VmView { key, ..old(self)@ }),
    {
        self.key = key;
        proof {
            assert(self@ =~= (VmView { key, ..old(self)@ }));
        }
    }

    /// Both timers count down by one, floored at zero.
    fn decrement_timers(&mut self)
        requires
            old(self).wf(),
        ensures
            final(self).wf(),
            final(self)@ == tick_timers(old(self)@),
    {
        if self.delay_timer > 0 {
            self.delay_timer = self.delay_timer - 1;
        }
        if self.sound_timer > 0 {
            self.sound_timer = self.sound_timer - 1;
        }
        proof {
            assert(self@ =~= tick_timers(old(self)@));
        }
    }

    /// 00E0 clears the framebuffer; 00EE returns from the deepest call.
    pub fn clear_or_return(&mut self, op: u16) -> (r: Result<StepOutcome, Chip8Error>)
        requires
            old(self).wf(),
        ensures
            final(self).wf(),
            r == spec_clear_or_return(old(self)@, op).0,
            final(self)@ == spec_clear_or_return(old(self)@, op).1,
    {
        let kk = (op & 0xFF) as u8;
        if kk == 0xE0 {
            self.display = vec![false; 2048];
            proof {
                assert(self@.disp =~= Seq::new(2048, |i: int| false));
                assert(self@ =~= spec_clear_or_return(old(self)@, op).1);
            }
            Ok(StepOutcome::Executed)
        } else if kk == 0xEE {
            match stack_pop(&mut self.stack) {
                None => {
                    proof {
                        assert(self@ =~= old(self)@);
                    }
                    Err(Chip8Error::StackUnderflow)
                },
                Some(addr) => {
                    self.program_counter = addr;
                    proof {
                        assert(self@ =~= spec_clear_or_return(old(self)@, op).1);
                    }
                    Ok(StepOutcome::Executed)
                },
            }
        } else {
            Ok(StepOutcome::UnknownOpcode)
        }
    }

    /// 1nnn: jump.
    fn jump_addr(&mut self, op: u16)
        requires
            old(self).wf(),
        ensures
            final(self).wf(),
            final(self)@ == spec_jump(old(self)@, op),
    {
        self.program_counter = op & 0xFFF;
        proof {
            assert(self@ =~= spec_jump(old(self)@, op));
        }
    }

    /// Bnnn: jump to nnn plus register 0.
    fn jump_addr_offset(&mut self, op: u16)
        requires
            old(self).wf(),
        ensures
            final(self).wf(),
            final(self)@ == spec_jump_offset(old(self)@, op),
    {
        proof {
            lemma_decode_bounds(op);
        }
        self.program_counter = (op & 0xFFF) + (self.registers[0] as u16);
        proof {
            assert(self@ =~= spec_jump_offset(old(self)@, op));
        }
    }

    /// 2nnn: push the current program counter and jump to nnn.
    fn call_addr(&mut self, op: u16) -> (r: Result<StepOutcome, Chip8Error>)
        requires
            old(self).wf(),
            old(self)@.pc <= 4094,
        ensures
            final(self).wf(),
            r == spec_call(old(self)@, op).0,
            final(self)@ == spec_call(old(self)@, op).1,
    {
        let pushed = stack_try_push(&mut self.stack, self.program_counter);
        if !pushed {
            proof {
                assert(self@ =~= old(self)@);
            }
            Err(Chip8Error::StackOverflow)
        } else {
            self.program_counter = op & 0xFFF;
            proof {
                assert(self@ =~= spec_call(old(self)@, op).1);
            }
            Ok(StepOutcome::Executed)
        }
    }

    /// 3xkk: skip when register x equals kk.
    fn skip_eq_byte(&mut self, op: u16)
        requires
            old(self).wf(),
            old(self)@.pc <= 4094,
        ensures
            final(self).wf(),
            final(self)@ == spec_skip_eq_byte(old(self)@, op),
    {
        proof {
            lemma_decode_bounds(op);
        }
        let x = ((op >> 8) & 0xF) as usize;
        let kk = (op & 0xFF) as u8;
        if self.registers[x] == kk {
            self.program_counter = self.program_counter + 2;
        }
        proof {
            assert(self@ =~= spec_skip_eq_byte(old(self)@, op));
        }
    }

    /// 4xkk: skip when register x differs from kk.
    fn skip_ne_byte(&mut self, op: u16)
        requires
            old(self).wf(),
            old(self)@.pc <= 4094,
        ensures
            final(self).wf(),
            final(self)@ == spec_skip_ne_byte(old(self)@, op),
    {
        proof {
            lemma_decode_bounds(op);
        }
        let x = ((op >> 8) & 0xF) as usize;
        let kk = (op & 0xFF) as u8;
        if self.registers[x] != kk {
            self.program_counter = self.program_counter + 2;
        }
        proof {
            assert(self@ =~= spec_skip_ne_byte(old(self)@, op));
        }
    }

    /// 5xy0: skip when registers x and y are equal.
    fn skip_eq_reg(&mut self, op: u16)
        requires
            old(self).wf(),
            old(self)@.pc <= 4094,
        ensures
            final(self).wf(),
            final(self)@ == spec_skip_eq_reg(old(self)@, op),
    {
        proof {
            lemma_decode_bounds(op);
        }
        let x = ((op >> 8) & 0xF) as usize;
        let y = ((op >> 4) & 0xF) as usize;
        if self.registers[x] == self.registers[y] {
            self.program_counter = self.program_counter + 2;
        }
        proof {
            assert(self@ =~= spec_skip_eq_reg(old(self)@, op));
        }
    }

    /// 9xy0: skip when registers x and y differ.
    fn skip_ne_reg(&mut self, op: u16)
        requires
            old(self).wf(),
            old(self)@.pc <= 4094,
        ensures
            final(self).wf(),
            final(self)@ == spec_skip_ne_reg(old(self)@, op),
    {
        proof {
            lemma_decode_bounds(op);
        }
        let x = ((op >> 8) & 0xF) as usize;
        let y = ((op >> 4) & 0xF) as usize;
        if self.registers[x] != self.registers[y] {
            self.program_counter = self.program_counter + 2;
        }
        proof {
            assert(self@ =~= spec_skip_ne_reg(old(self)@, op));
        }
    }

    /// 6xkk: register x becomes kk.
    fn load_byte(&mut self, op: u16)
        requires
            old(self).wf(),
        ensures
            final(self).wf(),
            final(self)@ == spec_load_byte(old(self)@, op),
    {
        proof {
            lemma_decode_bounds(op);
        }
        let x = ((op >> 8) & 0xF) as usize;
        let kk = (op & 0xFF) as u8;
        self.registers[x] = kk;
        proof {
            assert(self@ =~= spec_load_byte(old(self)@, op));
        }
    }

    /// 7xkk: register x gains kk modulo 256; no flag is touched.
    fn add_byte(&mut self, op: u16)
        requires
            old(self).wf(),
        ensures
            final(self).wf(),
            final(self)@ == spec_add_byte(old(self)@, op),
    {
        proof {
            lemma_decode_bounds(op);
        }
        let x = ((op >> 8) & 0xF) as usize;
        let kk = (op & 0xFF) as u8;
        let sum = (self.registers[x] as u16) + (kk as u16);
        self.registers[x] = (sum % 256) as u8;
        proof {
            assert(self@ =~= spec_add_byte(old(self)@, op));
        }
    }

    /// The 8xy* family: moves, bitwise operations, wrapping arithmetic,
    /// shifts; where a flag is produced it is written after the result.
    fn logical_op(&mut self, op: u16) -> (r: StepOutcome)
        requires
            old(self).wf(),
        ensures
            final(self).wf(),
            r == spec_logical(old(self)@, op).0,
            final(self)@ == spec_logical(old(self)@, op).1,
    {
        proof {
            lemma_decode_bounds(op);
        }
        let x = ((op >> 8) & 0xF) as usize;
        let y = ((op >> 4) & 0xF) as usize;
        let vx = self.registers[x];
        let vy = self.registers[y];
        let sub = op & 0xF;
        if sub == 0x0 {
            self.registers[x] = vy;
        } else if sub == 0x1 {
            self.registers[x] = vx | vy;
        } else if sub == 0x2 {
            self.registers[x] = vx & vy;
        } else if sub == 0x3 {
            self.registers[x] = vx ^ vy;
        } else if sub == 0x4 {
            let sum = (vx as u16) + (vy as u16);
            self.registers[x] = (sum % 256) as u8;
            self.registers[15] = if sum > 255 { 1 } else { 0 };
        } else if sub == 0x5 {
            let diff = ((vx as u16) + 256 - (vy as u16)) % 256;
            self.registers[x] = diff as u8;
            self.registers[15] = if vx > vy { 1 } else { 0 };
        } else if sub == 0x6 {
            self.registers[x] = vx >> 1;
            self.registers[15] = vx & 1;
        } else if sub == 0x7 {
            let diff = ((vy as u16) + 256 - (vx as u16)) % 256;
            self.registers[x] = diff as u8;
            self.registers[15] = if vy > vx { 1 } else { 0 };
        } else if sub == 0xE {
            let dbl = (vx as u16) + (vx as u16);
            self.registers[x] = (dbl % 256) as u8;
            self.registers[15] = (vx & 0x80) >> 7;
        } else {
            proof {
                assert(self@ =~= spec_logical(old(self)@, op).1);
            }
            return StepOutcome::UnknownOpcode;
        }
        proof {
            assert(self@ =~= spec_logical(old(self)@, op).1);
        }
        StepOutcome::Executed
    }

    /// Annn: the index register becomes nnn.
    fn set_index(&mut self, op: u16)
        requires
            old(self).wf(),
        ensures
            final(self).wf(),
            final(self)@ == spec_set_index(old(self)@, op),
    {
        self.index = op & 0xFFF;
        proof {
            assert(self@ =~= spec_set_index(old(self)@, op));
        }
    }

    /// Cxkk: register x becomes the drawn byte masked with kk.
    fn rand_op(&mut self, op: u16, rnd: u8)
        requires
            old(self).wf(),
        ensures
            final(self).wf(),
            final(self)@ == spec_rand(old(self)@, op, rnd),
    {
        proof {
            lemma_decode_bounds(op);
        }
        let x = ((op >> 8) & 0xF) as usize;
        let kk = (op & 0xFF) as u8;
        self.registers[x] = rnd & kk;
        proof {
            assert(self@ =~= spec_rand(old(self)@, op, rnd));
        }
    }

    /// Dxyn: XOR-blit an n-row sprite with wraparound on both axes; the flag
    /// register records whether any lit pixel was toggled off.
    fn draw(&mut self, op: u16) -> (r: Result<StepOutcome, Chip8Error>)
        requires
            old(self).wf(),
        ensures
            final(self).wf(),
            r == spec_draw(old(self)@, op).0,
            final(self)@ == spec_draw(old(self)@, op).1,
    {
        proof {
            lemma_decode_bounds(op);
        }
        let x = ((op >> 8) & 0xF) as usize;
        let y = ((op >> 4) & 0xF) as usize;
        let n = (op & 0xF) as usize;
        let x0 = self.registers[x];
        let y0 = self.registers[y];
        if n > 0 && (self.index as usize) + n > 4096 {
            return Err(Chip8Error::MemoryFault);
        }
        let base = self.index as usize;
        let ghost d0 = self.display@;
        let ghost m = self.memory@;
        let mut collided = false;
        let mut row: usize = 0;
        while row < n
            invariant
                row <= n,
                n < 16,
                n > 0 ==> base + n <= 4096,
                base == old(self)@.index,
                self.memory@ == m,
                m.len() == 4096,
                self.display@.len() == 2048,
                self.registers@ == old(self)@.regs,
                self.index == old(self).index,
                self.program_counter == old(self).program_counter,
                self.stack == old(self).stack,
                self.delay_timer == old(self).delay_timer,
                self.sound_timer == old(self).sound_timer,
                self.key == old(self).key,
                draw_rows(self.display@, collided, m, base as int, x0, y0, n as int, row as int)
                    == draw_rows(d0, false, m, base as int, x0, y0, n as int, 0),
            decreases n - row,
        {
            let line = self.memory[base + row];
            let py = ((y0 as usize) + row) % 32;
            let ghost dr = self.display@;
            let ghost cr = collided;
            let mut w: usize = 0;
            while w < 8
                invariant
                    w <= 8,
                    py < 32,
                    py == ((y0 + row) % 32) as int,
                    row < n,
                    self.memory@ == m,
                    self.display@.len() == 2048,
                    self.registers@ == old(self)@.regs,
                    self.index == old(self).index,
                    self.program_counter == old(self).program_counter,
                    self.stack == old(self).stack,
                    self.delay_timer == old(self).delay_timer,
                    self.sound_timer == old(self).sound_timer,
                    self.key == old(self).key,
                    draw_bits(self.display@, collided, line, x0, py as int, w as int)
                        == draw_bits(dr, cr, line, x0, py as int, 0),
                decreases 8 - w,
            {
                let sh: u8 = (7 - w) as u8;
                let pixel = (line >> sh) & 1;
                if pixel == 1 {
                    let px = ((x0 as usize) + w) % 64;
                    let idx = py * 64 + px;
                    let cur = self.display[idx];
                    if cur {
                        collided = true;
                    }
                    self.display[idx] = !cur;
                }
                w += 1;
            }
            row += 1;
        }
        self.registers[15] = if collided {
            1
        } else {
            0
        };
        proof {
            assert(self@ =~= spec_draw(old(self)@, op).1);
        }
        Ok(StepOutcome::Executed)
    }

    /// Ex9E and ExA1: skip on the current key matching, or not matching,
    /// register x.
    fn keyboard_op(&mut self, op: u16) -> (r: StepOutcome)
        requires
            old(self).wf(),
            old(self)@.pc <= 4094,
        ensures
            final(self).wf(),
            r == spec_keyboard(old(self)@, op).0,
            final(self)@ == spec_keyboard(old(self)@, op).1,
    {
        proof {
            lemma_decode_bounds(op);
        }
        let x = ((op >> 8) & 0xF) as usize;
        let kk = (op & 0xFF) as u8;
        let vx = self.registers[x];
        let pressed = match self.key {
            Some(k) => k == vx,
            None => false,
        };
        if kk == 0x9E {
            if pressed {
                self.program_counter = self.program_counter + 2;
            }
            proof {
                assert(self@ =~= spec_keyboard(old(self)@, op).1);
            }
            StepOutcome::Executed
        } else if kk == 0xA1 {
            if !pressed {
                self.program_counter = self.program_counter + 2;
            }
            proof {
                assert(self@ =~= spec_keyboard(old(self)@, op).1);
            }
            StepOutcome::Executed
        } else {
            StepOutcome::UnknownOpcode
        }
    }

    /// The Fx** family: timers, key read, index arithmetic, glyph offset,
    /// BCD, and bulk register store/load.
    fn misc_op(&mut self, op: u16) -> (r: Result<StepOutcome, Chip8Error>)
        requires
            old(self).wf(),
        ensures
            final(self).wf(),
            r == spec_misc(old(self)@, op).0,
            final(self)@ == spec_misc(old(self)@, op).1,
    {
        proof {
            lemma_decode_bounds(op);
        }
        let x = ((op >> 8) & 0xF) as usize;
        let kk = (op & 0xFF) as u8;
        if kk == 0x07 {
            let v = self.delay_timer;
            self.registers[x] = v;
            proof {
                assert(self@ =~= spec_misc(old(self)@, op).1);
            }
            Ok(StepOutcome::Executed)
        } else if kk == 0x0A {
            let v = match self.key {
                Some(k) => k,
                None => 0,
            };
            self.registers[x] = v;
            proof {
                assert(self@ =~= spec_misc(old(self)@, op).1);
            }
            Ok(StepOutcome::Executed)
        } else if kk == 0x15 {
            self.delay_timer = self.registers[x];
            proof {
                assert(self@ =~= spec_misc(old(self)@, op).1);
            }
            Ok(StepOutcome::Executed)
        } else if kk == 0x18 {
            self.sound_timer = self.registers[x];
            proof {
                assert(self@ =~= spec_misc(old(self)@, op).1);
            }
            Ok(StepOutcome::Executed)
        } else if kk == 0x1E {
            let sum = (self.index as u32) + (self.registers[x] as u32);
            self.index = (sum % 65536) as u16;
            proof {
                assert(self@ =~= spec_misc(old(self)@, op).1);
            }
            Ok(StepOutcome::Executed)
        } else if kk == 0x29 {
            self.index = (self.registers[x] as u16) * 5;
            proof {
                assert(self@ =~= spec_misc(old(self)@, op).1);
            }
            Ok(StepOutcome::Executed)
        } else if kk == 0x33 {
            if self.index >= 4094 {
                return Err(Chip8Error::MemoryFault);
            }
            let base = self.index as usize;
            let vx = self.registers[x];
            self.memory[base] = vx / 100;
            self.memory[base + 1] = (vx / 10) % 10;
            self.memory[base + 2] = vx % 10;
            proof {
                assert(self@ =~= spec_misc(old(self)@, op).1);
            }
            Ok(StepOutcome::Executed)
        } else if kk == 0x55 {
            if (self.index as usize) + x + 1 > 4096 {
                return Err(Chip8Error::MemoryFault);
            }
            let base = self.index as usize;
            let ghost m0 = self.memory@;
            let mut i: usize = 0;
            while i <= x
                invariant
                    i <= x + 1,
                    x < 16,
                    base + x + 1 <= 4096,
                    base == old(self)@.index,
                    self.memory@.len() == 4096,
                    self.registers@ == old(self)@.regs,
                    self.registers@.len() == 16,
                    self.index == old(self).index,
                    self.program_counter == old(self).program_counter,
                    self.stack == old(self).stack,
                    self.delay_timer == old(self).delay_timer,
                    self.sound_timer == old(self).sound_timer,
                    self.display == old(self).display,
                    self.key == old(self).key,
                    store_regs(self.memory@, old(self)@.regs, base as int, i as int, x as int)
                        == store_regs(m0, old(self)@.regs, base as int, 0, x as int),
                decreases x + 1 - i,
            {
                self.memory[base + i] = self.registers[i];
                i += 1;
            }
            self.index = self.index + (x as u16) + 1;
            proof {
                assert(self@ =~= spec_misc(old(self)@, op).1);
            }
            Ok(StepOutcome::Executed)
        } else if kk == 0x65 {
            if (self.index as usize) + x + 1 > 4096 {
                return Err(Chip8Error::MemoryFault);
            }
            let base = self.index as usize;
            let ghost r0 = self.registers@;
            let mut i: usize = 0;
            while i <= x
                invariant
                    i <= x + 1,
                    x < 16,
                    base + x + 1 <= 4096,
                    base == old(self)@.index,
                    self.registers@.len() == 16,
                    self.memory@ == old(self)@.mem,
                    self.memory@.len() == 4096,
                    self.index == old(self).index,
                    self.program_counter == old(self).program_counter,
                    self.stack == old(self).stack,
                    self.delay_timer == old(self).delay_timer,
                    self.sound_timer == old(self).sound_timer,
                    self.display == old(self).display,
                    self.key == old(self).key,
                    fill_regs(self.registers@, old(self)@.mem, base as int, i as int, x as int)
                        == fill_regs(r0, old(self)@.mem, base as int, 0, x as int),
                decreases x + 1 - i,
            {
                self.registers[i] = self.memory[base + i];
                i += 1;
            }
            self.index = self.index + (x as u16) + 1;
            proof {
                assert(self@ =~= spec_misc(old(self)@, op).1);
            }
            Ok(StepOutcome::Executed)
        } else {
            Ok(StepOutcome::UnknownOpcode)
        }
    }

    /// Execute exactly one instruction, with the byte the Cxkk opcode would
    /// consume supplied by the caller; the whole effect is `spec_step`.
    pub fn handle_op_with_rand(&mut self, rnd: u8) -> (r: Result<StepOutcome, Chip8Error>)
        requires
            old(self).wf(),
        ensures
            final(self).wf(),
            r == spec_step(old(self)@, rnd).0,
            final(self)@ == spec_step(old(self)@, rnd).1,
    {
        self.decrement_timers();
        if self.program_counter >= 4095 {
            return Err(Chip8Error::MemoryFault);
        }
        let pc_us = self.program_counter as usize;
        let hi = self.memory[pc_us];
        let lo = self.memory[pc_us + 1];
        let op: u16 = ((hi as u16) << 8) | (lo as u16);
        proof {
            lemma_decode_bounds(op);
            assert(op == fetch_op(self@));
        }
        let fam = op >> 12;
        let mut jumped = false;
        let r: Result<StepOutcome, Chip8Error> = if fam == 0x0 {
            self.clear_or_return(op)
        } else if fam == 0x1 {
            jumped = true;
            self.jump_addr(op);
            Ok(StepOutcome::Executed)
        } else if fam == 0x2 {
            jumped = true;
            self.call_addr(op)
        } else if fam == 0x3 {
            self.skip_eq_byte(op);
            Ok(StepOutcome::Executed)
        } else if fam == 0x4 {
            self.skip_ne_byte(op);
            Ok(StepOutcome::Executed)
        } else if fam == 0x5 {
            self.skip_eq_reg(op);
            Ok(StepOutcome::Executed)
        } else if fam == 0x6 {
            self.load_byte(op);
            Ok(StepOutcome::Executed)
        } else if fam == 0x7 {
            self.add_byte(op);
            Ok(StepOutcome::Executed)
        } else if fam == 0x8 {
            Ok(self.logical_op(op))
        } else if fam == 0x9 {
            self.skip_ne_reg(op);
            Ok(StepOutcome::Executed)
        } else if fam == 0xA {
            self.set_index(op);
            Ok(StepOutcome::Executed)
        } else if fam == 0xB {
            jumped = true;
            self.jump_addr_offset(op);
            Ok(StepOutcome::Executed)
        } else if fam == 0xC {
            self.rand_op(op, rnd);
            Ok(StepOutcome::Executed)
        } else if fam == 0xD {
            self.draw(op)
        } else if fam == 0xE {
            Ok(self.keyboard_op(op))
        } else {
            self.misc_op(op)
        };
        if r.is_err() {
            return r;
        }
        if !jumped {
            let ghost mid = self@;
            assert(self.program_counter <= 4096);
            self.program_counter = self.program_counter + 2;
            proof {
                assert(self@ =~= advance(mid));
            }
        }
        r
    }

    /// Execute exactly one instruction, drawing the Cxkk byte from the
    /// host's random generator: for some byte, the effect is `spec_step`.
    pub fn handle_op(&mut self) -> (r: Result<StepOutcome, Chip8Error>)
        requires
            old(self).wf(),
        ensures
            final(self).wf(),
            exists|rnd: u8|
                #![auto]
                r == spec_step(old(self)@, rnd).0 && final(self)@ == spec_step(old(self)@, rnd).1,
    {
        let rnd: u8 = rand::random::<u8>();
        let r = self.handle_op_with_rand(rnd);
        r
    }
}

/// The 80-byte glyph table as bytes.
fn font_table() -> (v: Vec<u8>)
    ensures
        v@ == font_seq(),
{
    let mut v: Vec<u8> = Vec::new();
    v.push(0xF0);
    v.push(0x90);
    v.push(0x90);
    v.push(0x90);
    v.push(0xF0);
    v.push(0x20);
    v.push(0x60);
    v.push(0x20);
    v.push(0x20);
    v.push(0x70);
    v.push(0xF0);
    v.push(0x10);
    v.push(0xF0);
    v.push(0x80);
    v.push(0xF0);
    v.push(0xF0);
    v.push(0x10);
    v.push(0xF0);
    v.push(0x10);
    v.push(0xF0);
    v.push(0x90);
    v.push(0x90);
    v.push(0xF0);
    v.push(0x10);
    v.push(0x10);
    v.push(0xF0);
    v.push(0x80);
    v.push(0xF0);
    v.push(0x10);
    v.push(0xF0);
    v.push(0xF0);
    v.push(0x80);
    v.push(0xF0);
    v.push(0x90);
    v.push(0xF0);
    v.push(0xF0);
    v.push(0x10);
    v.push(0x20);
    v.push(0x40);
    v.push(0x40);
    v.push(0xF0);
    v.push(0x90);
    v.push(0xF0);
    v.push(0x90);
    v.push(0xF0);
    v.push(0xF0);
    v.push(0x90);
    v.push(0xF0);
    v.push(0x10);
    v.push(0xF0);
    v.push(0xF0);
    v.push(0x90);
    v.push(0xF0);
    v.push(0x90);
    v.push(0x90);
    v.push(0xE0);
    v.push(0x90);
    v.push(0xE0);
    v.push(0x90);
    v.push(0xE0);
    v.push(0xF0);
    v.push(0x80);
    v.push(0x80);
    v.push(0x80);
    v.push(0xF0);
    v.push(0xE0);
    v.push(0x90);
    v.push(0x90);
    v.push(0x90);
    v.push(0xE0);
    v.push(0xF0);
    v.push(0x80);
    v.push(0xF0);
    v.push(0x80);
    v.push(0xF0);
    v.push(0xF0);
    v.push(0x80);
    v.push(0xF0);
    v.push(0x80);
    v.push(0x80);
    proof {
        assert(v@ =~= font_seq());
    }
    v
}

} // verus!
