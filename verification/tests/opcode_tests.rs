use chip8::Chip8;
use chip8::Chip8Error;
use chip8::StepOutcome;

fn boot(rom: Vec<u8>) -> Chip8 {
    let mut c = Chip8::new();
    c.load_rom(&rom).unwrap();
    c
}

fn step_n(c: &mut Chip8, n: usize) {
    let mut i = 0;
    while i < n {
        c.handle_op().unwrap();
        i += 1;
    }
}

#[test]
fn ld_byte_sets_register() {
    let mut c = boot(vec![0x6A, 0x3C]);
    assert_eq!(c.handle_op(), Ok(StepOutcome::Executed));
    assert_eq!(c.register(0xA), 0x3C);
    assert_eq!(c.pc(), 0x202);
}

#[test]
fn add_byte_wraps_without_flag() {
    let mut c = boot(vec![0x6A, 0xFF, 0x6F, 0x05, 0x7A, 0x01]);
    step_n(&mut c, 3);
    assert_eq!(c.register(0xA), 0x00);
    assert_eq!(c.register(0xF), 0x05);
}

#[test]
fn add_regs_sets_carry() {
    let mut c = boot(vec![0x61, 0xFF, 0x62, 0x01, 0x81, 0x24]);
    step_n(&mut c, 3);
    assert_eq!(c.register(1), 0x00);
    assert_eq!(c.register(0xF), 1);
}

#[test]
fn add_regs_no_carry() {
    let mut c = boot(vec![0x61, 0x01, 0x62, 0x02, 0x81, 0x24]);
    step_n(&mut c, 3);
    assert_eq!(c.register(1), 3);
    assert_eq!(c.register(0xF), 0);
}

#[test]
fn sub_regs_borrow_wraps() {
    let mut c = boot(vec![0x61, 0x05, 0x62, 0x0A, 0x81, 0x25]);
    step_n(&mut c, 3);
    assert_eq!(c.register(0xF), 0);
    assert_eq!(c.register(1), 251);
}

#[test]
fn sub_regs_no_borrow() {
    let mut c = boot(vec![0x61, 0x0A, 0x62, 0x05, 0x81, 0x25]);
    step_n(&mut c, 3);
    assert_eq!(c.register(1), 5);
    assert_eq!(c.register(0xF), 1);
}

#[test]
fn subn_regs_reverse_subtraction() {
    let mut c = boot(vec![0x61, 0x05, 0x62, 0x0A, 0x81, 0x27]);
    step_n(&mut c, 3);
    assert_eq!(c.register(1), 5);
    assert_eq!(c.register(0xF), 1);
}

#[test]
fn subn_regs_wraps_without_panic() {
    let mut c = boot(vec![0x61, 0x0A, 0x62, 0x05, 0x81, 0x27]);
    step_n(&mut c, 3);
    assert_eq!(c.register(1), 251);
    assert_eq!(c.register(0xF), 0);
}

#[test]
fn shr_captures_lsb() {
    let mut c = boot(vec![0x61, 0x03, 0x81, 0x06]);
    step_n(&mut c, 2);
    assert_eq!(c.register(0xF), 1);
    assert_eq!(c.register(1), 0x01);
}

#[test]
fn shl_captures_msb() {
    let mut c = boot(vec![0x61, 0x81, 0x81, 0x0E]);
    step_n(&mut c, 2);
    assert_eq!(c.register(1), 0x02);
    assert_eq!(c.register(0xF), 1);
}

#[test]
fn logical_move_or_and_xor() {
    let mut c = boot(vec![
        0x61, 0x0C, 0x62, 0x0A, 0x81, 0x21, // V1 = 0x0C | 0x0A = 0x0E
        0x63, 0x0C, 0x83, 0x22, // V3 = 0x0C & 0x0A = 0x08
        0x64, 0x0C, 0x84, 0x23, // V4 = 0x0C ^ 0x0A = 0x06
        0x85, 0x20, // V5 = V2 = 0x0A
    ]);
    step_n(&mut c, 8);
    assert_eq!(c.register(1), 0x0E);
    assert_eq!(c.register(3), 0x08);
    assert_eq!(c.register(4), 0x06);
    assert_eq!(c.register(5), 0x0A);
}

#[test]
fn unknown_logical_sub_opcode_is_no_op() {
    let mut c = boot(vec![0x61, 0x07, 0x81, 0x28]);
    step_n(&mut c, 1);
    assert_eq!(c.handle_op(), Ok(StepOutcome::UnknownOpcode));
    assert_eq!(c.register(1), 0x07);
    assert_eq!(c.pc(), 0x204);
}

#[test]
fn skip_eq_byte_taken_and_not() {
    let mut c = boot(vec![0x61, 0x07, 0x31, 0x07]);
    step_n(&mut c, 2);
    assert_eq!(c.pc(), 0x206);
    let mut d = boot(vec![0x61, 0x07, 0x31, 0x08]);
    step_n(&mut d, 2);
    assert_eq!(d.pc(), 0x204);
}

#[test]
fn skip_ne_byte_taken_and_not() {
    let mut c = boot(vec![0x61, 0x07, 0x41, 0x08]);
    step_n(&mut c, 2);
    assert_eq!(c.pc(), 0x206);
    let mut d = boot(vec![0x61, 0x07, 0x41, 0x07]);
    step_n(&mut d, 2);
    assert_eq!(d.pc(), 0x204);
}

#[test]
fn skip_reg_comparisons() {
    let mut c = boot(vec![0x61, 0x07, 0x62, 0x07, 0x51, 0x20]);
    step_n(&mut c, 3);
    assert_eq!(c.pc(), 0x208);
    let mut d = boot(vec![0x61, 0x07, 0x62, 0x08, 0x91, 0x20]);
    step_n(&mut d, 3);
    assert_eq!(d.pc(), 0x208);
    let mut e = boot(vec![0x61, 0x07, 0x62, 0x07, 0x91, 0x20]);
    step_n(&mut e, 3);
    assert_eq!(e.pc(), 0x206);
}

#[test]
fn jump_sets_pc() {
    let mut c = boot(vec![0x12, 0x34]);
    assert_eq!(c.handle_op(), Ok(StepOutcome::Executed));
    assert_eq!(c.pc(), 0x234);
}

#[test]
fn jump_offset_adds_register_zero() {
    let mut c = boot(vec![0x60, 0x10, 0xB2, 0x30]);
    step_n(&mut c, 2);
    assert_eq!(c.pc(), 0x240);
}

#[test]
fn set_index_register() {
    let mut c = boot(vec![0xA1, 0x23]);
    step_n(&mut c, 1);
    assert_eq!(c.index_register(), 0x123);
}

#[test]
fn rand_masked_with_zero_is_zero() {
    let mut c = boot(vec![0x6A, 0x55, 0xCA, 0x00]);
    step_n(&mut c, 2);
    assert_eq!(c.register(0xA), 0);
}

#[test]
fn rand_with_supplied_byte_is_masked() {
    let mut c = boot(vec![0xCA, 0x0F]);
    assert_eq!(c.handle_op_with_rand(0xAB), Ok(StepOutcome::Executed));
    assert_eq!(c.register(0xA), 0x0B);
}

#[test]
fn unknown_opcode_advances_pc_with_warning() {
    let mut c = boot(vec![0x00, 0x00]);
    assert_eq!(c.handle_op(), Ok(StepOutcome::UnknownOpcode));
    assert_eq!(c.pc(), 0x202);
}

#[test]
fn unknown_misc_sub_opcode_advances_pc() {
    let mut c = boot(vec![0xFA, 0xFF]);
    assert_eq!(c.handle_op(), Ok(StepOutcome::UnknownOpcode));
    assert_eq!(c.pc(), 0x202);
}

#[test]
fn glyph_offset_for_register_value() {
    let mut c = boot(vec![0x6A, 0x0A, 0xFA, 0x29]);
    step_n(&mut c, 2);
    assert_eq!(c.index_register(), 50);
    // Glyph 'A' starts at the font base plus that offset.
    assert_eq!(c.read_byte(0x50 + 50), Ok(0xF0));
    assert_eq!(c.read_byte(0x50 + 51), Ok(0x90));
}

#[test]
fn bcd_of_123() {
    let mut c = boot(vec![0x6A, 0x7B, 0xA3, 0x00, 0xFA, 0x33]);
    step_n(&mut c, 3);
    assert_eq!(c.read_byte(0x300), Ok(1));
    assert_eq!(c.read_byte(0x301), Ok(2));
    assert_eq!(c.read_byte(0x302), Ok(3));
}

#[test]
fn index_add_register() {
    let mut c = boot(vec![0x6A, 0x05, 0xA0, 0x10, 0xFA, 0x1E]);
    step_n(&mut c, 3);
    assert_eq!(c.index_register(), 0x15);
}

#[test]
fn store_registers_to_memory() {
    let mut c = boot(vec![0x60, 0x11, 0x61, 0x22, 0x62, 0x33, 0xA3, 0x00, 0xF2, 0x55]);
    step_n(&mut c, 5);
    assert_eq!(c.read_byte(0x300), Ok(0x11));
    assert_eq!(c.read_byte(0x301), Ok(0x22));
    assert_eq!(c.read_byte(0x302), Ok(0x33));
    assert_eq!(c.index_register(), 0x303);
}

#[test]
fn load_registers_from_memory() {
    let mut c = boot(vec![0xA3, 0x00, 0xF2, 0x65]);
    c.write_byte(0x300, 0xAA).unwrap();
    c.write_byte(0x301, 0xBB).unwrap();
    c.write_byte(0x302, 0xCC).unwrap();
    step_n(&mut c, 2);
    assert_eq!(c.register(0), 0xAA);
    assert_eq!(c.register(1), 0xBB);
    assert_eq!(c.register(2), 0xCC);
    assert_eq!(c.index_register(), 0x303);
}

#[test]
fn store_faults_past_end_of_memory() {
    let mut c = boot(vec![0xAF, 0xFF, 0xF2, 0x55]);
    step_n(&mut c, 1);
    assert_eq!(c.handle_op(), Err(Chip8Error::MemoryFault));
}

#[test]
fn bcd_faults_past_end_of_memory() {
    let mut c = boot(vec![0xAF, 0xFF, 0xFA, 0x33]);
    step_n(&mut c, 1);
    assert_eq!(c.handle_op(), Err(Chip8Error::MemoryFault));
}
