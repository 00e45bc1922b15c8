//! The mathematical model of the machine: a ghost view of the whole state,
//! its well-formedness, the fixed font table, and the instruction decode
//! helpers that the spec-level interpreter works with.

use vstd::prelude::*;

verus! {

/// Everything that can go wrong while loading or executing.
#[derive(Clone, Copy, Debug, PartialEq, Eq, Structural)]
pub enum Chip8Error {
    /// The program image does not fit between 0x200 and the end of memory.
    RomTooLarge,
    /// A read or write touched an address at or beyond 4096.
    MemoryFault,
    /// A call was made with the stack already holding 16 return addresses.
    StackOverflow,
    /// A return was executed with an empty stack.
    StackUnderflow,
}

/// What a successful step reports: either the instruction was executed, or it
/// was an unmapped sub-opcode, treated as a no-op with a visible warning.
#[derive(Clone, Copy, Debug, PartialEq, Eq, Structural)]
pub enum StepOutcome {
    Executed,
    UnknownOpcode,
}

/// The machine state as mathematics: plain sequences and integers.
#[verifier::ext_equal]
pub ghost struct VmView {
    /// 4096 bytes of memory.
    pub mem: Seq<u8>,
    /// The 16 general registers; index 15 doubles as the flag register.
    pub regs: Seq<u8>,
    /// The 16-bit index register.
    pub index: u16,
    /// The 16-bit program counter.
    pub pc: u16,
    /// Return addresses, most recent last; never more than 16.
    pub stack: Seq<u16>,
    /// Delay timer, decremented once per step, floored at zero.
    pub delay: u8,
    /// Sound timer, decremented once per step, floored at zero.
    pub sound: u8,
    /// The 64x32 framebuffer, row-major: pixel (x, y) is `disp[y * 64 + x]`.
    pub disp: Seq<bool>,
    /// The most recently reported pressed key (0..=15), or none.
    pub key: Option<u8>,
}

/// Well-formedness: the fixed sizes, the stack bound, and the fact that every
/// saved return address points at a fetchable instruction (so resuming after a
/// return can always advance the program counter without overflow).
pub open spec fn wf_view(s: VmView) -> bool {
    &&& s.mem.len() == 4096
    &&& s.regs.len() == 16
    &&& s.disp.len() == 2048
    &&& s.stack.len() <= 16
    &&& forall|i: int| 0 <= i < s.stack.len() ==> s.stack[i] <= 4094
}

/// The 80-byte glyph table: 16 glyphs (digits 0-F), 5 bytes each, placed at
/// 0x050 when the machine is constructed.
pub open spec fn font_seq() -> Seq<u8> {
    seq![
        0xF0u8, 0x90, 0x90, 0x90, 0xF0, // 0
        0x20, 0x60, 0x20, 0x20, 0x70, // 1
        0xF0, 0x10, 0xF0, 0x80, 0xF0, // 2
        0xF0, 0x10, 0xF0, 0x10, 0xF0, // 3
        0x90, 0x90, 0xF0, 0x10, 0x10, // 4
        0xF0, 0x80, 0xF0, 0x10, 0xF0, // 5
        0xF0, 0x80, 0xF0, 0x90, 0xF0, // 6
        0xF0, 0x10, 0x20, 0x40, 0x40, // 7
        0xF0, 0x90, 0xF0, 0x90, 0xF0, // 8
        0xF0, 0x90, 0xF0, 0x10, 0xF0, // 9
        0xF0, 0x90, 0xF0, 0x90, 0x90, // A
        0xE0, 0x90, 0xE0, 0x90, 0xE0, // B
        0xF0, 0x80, 0x80, 0x80, 0xF0, // C
        0xE0, 0x90, 0x90, 0x90, 0xE0, // D
        0xF0, 0x80, 0xF0, 0x80, 0xF0, // E
        0xF0, 0x80, 0xF0, 0x80, 0x80, // F
    ]
}

/// The state of a freshly constructed machine: memory zero except the font
/// table at 0x050, program counter at 0x200, everything else cleared.
pub open spec fn init_view() -> VmView {
    VmView {
        mem: Seq::new(4096, |i: int| if 0x50 <= i < 0xA0 { font_seq()[i - 0x50] } else { 0u8 }),
        regs: Seq::new(16, |i: int| 0u8),
        index: 0,
        pc: 0x200,
        stack: Seq::empty(),
        delay: 0,
        sound: 0,
        disp: Seq::new(2048, |i: int| false),
        key: None,
    }
}

/// Step one: both timers count down by one, floored at zero.
pub open spec fn tick_timers(s: VmView) -> VmView {
    VmView {
        delay: if s.delay > 0 { (s.delay - 1) as u8 } else { 0u8 },
        sound: if s.sound > 0 { (s.sound - 1) as u8 } else { 0u8 },
        ..s
    }
}

/// The big-endian two-byte instruction word at the program counter.
pub open spec fn fetch_op(s: VmView) -> u16 {
    ((s.mem[s.pc as int] as u16) << 8) | (s.mem[s.pc as int + 1] as u16)
}

/// The x register selector: bits 8..12 of the instruction word.
pub open spec fn op_x(op: u16) -> int {
    ((op >> 8) & 0xF) as int
}

/// The y register selector: bits 4..8 of the instruction word.
pub open spec fn op_y(op: u16) -> int {
    ((op >> 4) & 0xF) as int
}

/// The low nibble of the instruction word.
pub open spec fn op_n(op: u16) -> int {
    (op & 0xF) as int
}

/// The low byte of the instruction word.
pub open spec fn op_kk(op: u16) -> u8 {
    (op & 0xFF) as u8
}

/// The low 12 bits of the instruction word: an address.
pub open spec fn op_nnn(op: u16) -> u16 {
    op & 0xFFF
}

/// The decoded fields all lie in their natural ranges.
pub proof fn lemma_decode_bounds(op: u16)
    ensures
        0 <= op_x(op) < 16,
        0 <= op_y(op) < 16,
        0 <= op_n(op) < 16,
        op_nnn(op) < 4096,
        (op >> 12) < 16,
{
    assert(((op >> 8) & 0xF) < 16) by (bit_vector);
    assert(((op >> 4) & 0xF) < 16) by (bit_vector);
    assert((op & 0xF) < 16) by (bit_vector);
    assert((op & 0xFFF) < 4096) by (bit_vector);
    assert((op >> 12) < 16) by (bit_vector);
}

/// The program counter moves past the two instruction bytes.
pub open spec fn advance(s: VmView) -> VmView {
    VmView { pc: (s.pc + 2) as u16, ..s }
}

/// Register `x` takes the value `v`; nothing else moves.
pub open spec fn upd_reg(s: VmView, x: int, v: u8) -> VmView {
    VmView { regs: s.regs.update(x, v), ..s }
}

/// Memory after a program image is copied in at 0x200.
pub open spec fn load_mem(mem: Seq<u8>, rom: Seq<u8>) -> Seq<u8> {
    Seq::new(4096, |i: int| if 0x200 <= i < 0x200 + rom.len() { rom[i - 0x200] } else { mem[i] })
}

/// Addition modulo 256, the wraparound of the 8-bit registers.
pub open spec fn add_wrap8(a: u8, b: u8) -> u8 {
    ((a + b) % 256) as u8
}

/// Subtraction modulo 256; never underflows below zero.
pub open spec fn sub_wrap8(a: u8, b: u8) -> u8 {
    ((a - b + 256) % 256) as u8
}

/// Addition modulo 65536, the wraparound of the 16-bit index register.
pub open spec fn add_wrap16(a: u16, b: u16) -> u16 {
    ((a + b) % 65536) as u16
}

} // verus!
