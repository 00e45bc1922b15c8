use chip8::Chip8;
use chip8::Chip8Error;
use chip8::StepOutcome;

fn start(rom: Vec<u8>) -> Chip8 {
    let mut c = Chip8::new();
    c.load_rom(&rom).unwrap();
    c
}

fn steps(c: &mut Chip8, n: usize) {
    let mut i = 0;
    while i < n {
        c.handle_op().unwrap();
        i += 1;
    }
}

fn font() -> Vec<u8> {
    vec![
        0xF0, 0x90, 0x90, 0x90, 0xF0, 0x20, 0x60, 0x20, 0x20, 0x70, 0xF0, 0x10, 0xF0, 0x80, 0xF0,
        0xF0, 0x10, 0xF0, 0x10, 0xF0, 0x90, 0x90, 0xF0, 0x10, 0x10, 0xF0, 0x80, 0xF0, 0x10, 0xF0,
        0xF0, 0x80, 0xF0, 0x90, 0xF0, 0xF0, 0x10, 0x20, 0x40, 0x40, 0xF0, 0x90, 0xF0, 0x90, 0xF0,
        0xF0, 0x90, 0xF0, 0x10, 0xF0, 0xF0, 0x90, 0xF0, 0x90, 0x90, 0xE0, 0x90, 0xE0, 0x90, 0xE0,
        0xF0, 0x80, 0x80, 0x80, 0xF0, 0xE0, 0x90, 0x90, 0x90, 0xE0, 0xF0, 0x80, 0xF0, 0x80, 0xF0,
        0xF0, 0x80, 0xF0, 0x80, 0x80,
    ]
}

#[test]
fn font_table_present_after_construction() {
    let c = Chip8::new();
    let glyphs = font();
    let mut i: u16 = 0;
    while i < 80 {
        assert_eq!(c.read_byte(0x50 + i), Ok(glyphs[i as usize]));
        i += 1;
    }
    assert_eq!(c.read_byte(0x4F), Ok(0));
    assert_eq!(c.read_byte(0xA0), Ok(0));
    assert_eq!(c.pc(), 0x200);
    assert_eq!(c.index_register(), 0);
    assert_eq!(c.delay_timer(), 0);
    assert_eq!(c.sound_timer(), 0);
    assert_eq!(c.stack_depth(), 0);
}

#[test]
fn load_copies_bytes_at_0x200() {
    let mut c = Chip8::new();
    assert_eq!(c.load_rom(&vec![1, 2, 3]), Ok(3));
    assert_eq!(c.read_byte(0x200), Ok(1));
    assert_eq!(c.read_byte(0x201), Ok(2));
    assert_eq!(c.read_byte(0x202), Ok(3));
    assert_eq!(c.read_byte(0x203), Ok(0));
}

#[test]
fn load_accepts_empty_image() {
    let mut c = Chip8::new();
    assert_eq!(c.load_rom(&Vec::new()), Ok(0));
    assert_eq!(c.read_byte(0x200), Ok(0));
}

#[test]
fn zero_height_sprite_draws_nothing() {
    let mut c = start(vec![0x6F, 0x01, 0xA2, 0x50, 0xD0, 0x00]);
    steps(&mut c, 3);
    assert_eq!(c.register(0xF), 0);
    let mut x = 0;
    while x < 64 {
        assert!(!c.pixel(x, 0));
        x += 1;
    }
}

#[test]
fn load_accepts_maximum_image() {
    let mut c = Chip8::new();
    let rom = vec![7u8; 3584];
    assert_eq!(c.load_rom(&rom), Ok(3584));
    assert_eq!(c.read_byte(0xFFF), Ok(7));
    assert_eq!(c.read_byte(0x200), Ok(7));
}

#[test]
fn load_rejects_oversized_image_unchanged() {
    let mut c = Chip8::new();
    let rom = vec![7u8; 3585];
    assert_eq!(c.load_rom(&rom), Err(Chip8Error::RomTooLarge));
    assert_eq!(c.read_byte(0x200), Ok(0));
    assert_eq!(c.read_byte(0xFFF), Ok(0));
    assert_eq!(c.read_byte(0x50), Ok(0xF0));
}

#[test]
fn sixteen_calls_succeed_seventeenth_overflows() {
    // At 0x200 + 2i: a call to the next instruction, 17 times over.
    let mut rom: Vec<u8> = Vec::new();
    let mut i: u16 = 0;
    while i < 17 {
        let target = 0x202 + 2 * i;
        rom.push(0x20 | (target >> 8) as u8);
        rom.push((target & 0xFF) as u8);
        i += 1;
    }
    let mut c = start(rom);
    let mut k = 0;
    while k < 16 {
        assert_eq!(c.handle_op(), Ok(StepOutcome::Executed));
        k += 1;
    }
    assert_eq!(c.stack_depth(), 16);
    assert_eq!(c.pc(), 0x220);
    assert_eq!(c.handle_op(), Err(Chip8Error::StackOverflow));
    assert_eq!(c.stack_depth(), 16);
    assert_eq!(c.pc(), 0x220);
}

#[test]
fn return_with_empty_stack_underflows() {
    let mut c = start(vec![0x00, 0xEE]);
    assert_eq!(c.handle_op(), Err(Chip8Error::StackUnderflow));
}

#[test]
fn calls_and_returns_are_lifo() {
    let mut rom = vec![0u8; 10];
    rom[0] = 0x22; // 0x200: call 0x204
    rom[1] = 0x04;
    rom[4] = 0x22; // 0x204: call 0x208
    rom[5] = 0x08;
    rom[6] = 0x00; // 0x206: return
    rom[7] = 0xEE;
    rom[8] = 0x00; // 0x208: return
    rom[9] = 0xEE;
    let mut c = start(rom);
    steps(&mut c, 1);
    assert_eq!(c.pc(), 0x204);
    assert_eq!(c.stack_depth(), 1);
    steps(&mut c, 1);
    assert_eq!(c.pc(), 0x208);
    assert_eq!(c.stack_depth(), 2);
    steps(&mut c, 1);
    // The most recent call (from 0x204) returns first.
    assert_eq!(c.pc(), 0x206);
    assert_eq!(c.stack_depth(), 1);
    steps(&mut c, 1);
    assert_eq!(c.pc(), 0x202);
    assert_eq!(c.stack_depth(), 0);
}

#[test]
fn draw_twice_clears_and_reports_collision() {
    let mut rom = vec![0u8; 0x55];
    rom[0] = 0xA2; // index = 0x250
    rom[1] = 0x50;
    rom[2] = 0xD0; // draw V0,V0 height 5
    rom[3] = 0x05;
    rom[4] = 0xD0;
    rom[5] = 0x05;
    let glyph = [0xF0u8, 0x90, 0x90, 0x90, 0xF0];
    let mut i = 0;
    while i < 5 {
        rom[0x50 + i] = glyph[i];
        i += 1;
    }
    let mut c = start(rom);
    steps(&mut c, 2);
    assert_eq!(c.register(0xF), 0);
    // 0xF0: the four leftmost pixels of row 0 are lit.
    assert!(c.pixel(0, 0));
    assert!(c.pixel(1, 0));
    assert!(c.pixel(2, 0));
    assert!(c.pixel(3, 0));
    assert!(!c.pixel(4, 0));
    // 0x90 rows: only the outer pixels.
    assert!(c.pixel(0, 1));
    assert!(!c.pixel(1, 1));
    assert!(!c.pixel(2, 1));
    assert!(c.pixel(3, 1));
    assert!(c.pixel(0, 4));
    assert!(c.pixel(3, 4));
    // Drawing the same glyph again toggles every pixel off and collides.
    steps(&mut c, 1);
    assert_eq!(c.register(0xF), 1);
    let mut y = 0;
    while y < 32 {
        let mut x = 0;
        while x < 64 {
            assert!(!c.pixel(x, y));
            x += 1;
        }
        y += 1;
    }
}

#[test]
fn draw_wraps_around_both_axes() {
    let mut rom = vec![0u8; 0x52];
    rom[0] = 0x60; // V0 = 63
    rom[1] = 0x3F;
    rom[2] = 0x61; // V1 = 31
    rom[3] = 0x1F;
    rom[4] = 0xA2; // index = 0x250
    rom[5] = 0x50;
    rom[6] = 0xD0; // draw V0,V1 height 2
    rom[7] = 0x12;
    rom[0x50] = 0xC0; // two leftmost sprite bits
    rom[0x51] = 0x80; // one sprite bit
    let mut c = start(rom);
    steps(&mut c, 4);
    assert!(c.pixel(63, 31));
    assert!(c.pixel(0, 31)); // wrapped column
    assert!(c.pixel(63, 0)); // wrapped row
    assert!(!c.pixel(1, 31));
    assert!(!c.pixel(0, 0));
    assert_eq!(c.register(0xF), 0);
}

#[test]
fn clear_screen_blanks_framebuffer() {
    let mut rom = vec![0u8; 0x52];
    rom[0] = 0xA2;
    rom[1] = 0x50;
    rom[2] = 0xD0;
    rom[3] = 0x01;
    rom[4] = 0x00;
    rom[5] = 0xE0;
    rom[0x50] = 0xFF;
    let mut c = start(rom);
    steps(&mut c, 2);
    assert!(c.pixel(0, 0));
    steps(&mut c, 1);
    let mut x = 0;
    while x < 64 {
        assert!(!c.pixel(x, 0));
        x += 1;
    }
    assert_eq!(c.pc(), 0x206);
}

#[test]
fn delay_timer_counts_down_and_floors_at_zero() {
    let mut c = start(vec![0x6A, 0x01, 0xFA, 0x15, 0x60, 0x00, 0x60, 0x00]);
    steps(&mut c, 2);
    assert_eq!(c.delay_timer(), 1);
    steps(&mut c, 1);
    assert_eq!(c.delay_timer(), 0);
    steps(&mut c, 1);
    assert_eq!(c.delay_timer(), 0);
}

#[test]
fn sound_timer_set_and_ticks() {
    let mut c = start(vec![0x6A, 0x02, 0xFA, 0x18, 0x60, 0x00]);
    steps(&mut c, 2);
    assert_eq!(c.sound_timer(), 2);
    steps(&mut c, 1);
    assert_eq!(c.sound_timer(), 1);
}

#[test]
fn delay_timer_read_after_tick() {
    let mut c = start(vec![0x6A, 0x03, 0xFA, 0x15, 0xF0, 0x07]);
    steps(&mut c, 3);
    // The read happens after the step's own tick has taken 3 to 2.
    assert_eq!(c.register(0), 2);
}

#[test]
fn skip_when_key_matches_register() {
    let mut c = start(vec![0x60, 0x05, 0xE0, 0x9E]);
    c.set_key(Some(5));
    steps(&mut c, 2);
    assert_eq!(c.pc(), 0x206);
}

#[test]
fn no_skip_when_key_absent() {
    let mut c = start(vec![0x60, 0x00, 0xE0, 0x9E]);
    steps(&mut c, 2);
    assert_eq!(c.pc(), 0x204);
}

#[test]
fn skip_when_key_differs() {
    let mut c = start(vec![0x60, 0x05, 0xE0, 0xA1]);
    c.set_key(Some(4));
    steps(&mut c, 2);
    assert_eq!(c.pc(), 0x206);
    let mut d = start(vec![0x60, 0x05, 0xE0, 0xA1]);
    d.set_key(Some(5));
    steps(&mut d, 2);
    assert_eq!(d.pc(), 0x204);
}

#[test]
fn key_read_into_register() {
    let mut c = start(vec![0xFA, 0x0A]);
    c.set_key(Some(0xC));
    steps(&mut c, 1);
    assert_eq!(c.register(0xA), 0xC);
    let mut d = start(vec![0x6A, 0x55, 0xFA, 0x0A]);
    steps(&mut d, 2);
    assert_eq!(d.register(0xA), 0);
}

#[test]
fn key_release_overwrites_state() {
    let mut c = start(vec![0x60, 0x05, 0xE0, 0x9E]);
    c.set_key(Some(5));
    c.set_key(None);
    steps(&mut c, 2);
    assert_eq!(c.pc(), 0x204);
}

#[test]
fn fetch_at_end_of_memory_faults() {
    let mut c = start(vec![0x1F, 0xFF]);
    steps(&mut c, 1);
    assert_eq!(c.pc(), 0xFFF);
    assert_eq!(c.handle_op(), Err(Chip8Error::MemoryFault));
}

#[test]
fn sprite_read_past_memory_faults() {
    let mut c = start(vec![0xAF, 0xFF, 0xD0, 0x05]);
    steps(&mut c, 1);
    assert_eq!(c.handle_op(), Err(Chip8Error::MemoryFault));
}

#[test]
fn byte_access_bounds() {
    let mut c = Chip8::new();
    assert_eq!(c.read_byte(4096), Err(Chip8Error::MemoryFault));
    assert_eq!(c.write_byte(4096, 1), Err(Chip8Error::MemoryFault));
    assert_eq!(c.write_byte(0x300, 0x42), Ok(()));
    assert_eq!(c.read_byte(0x300), Ok(0x42));
}

#[test]
fn index_add_wraps_at_sixteen_bits() {
    let mut c = start(vec![0x6A, 0xFF, 0xAF, 0xFF, 0xFA, 0x1E, 0xFA, 0x1E, 0xFA, 0x1E]);
    // 0xFFF + 0xFF * 3 = 0x12FC, no 16-bit wrap; check plain accumulation.
    steps(&mut c, 5);
    assert_eq!(c.index_register(), 0x12FC);
}
