use chip8::keymap::{apply_key, key_index};
use chip8::semantics::{START_ADDRESS, VIDEO_WIDTH};
use chip8::{Chip8, Chip8Error};

fn machine(program: &[u16]) -> Chip8 {
    let mut rom = Vec::new();
    for w in program {
        rom.push((w >> 8) as u8);
        rom.push((w & 0xFF) as u8);
    }
    let mut chip = Chip8::new();
    chip.load_ROM(&rom).unwrap();
    chip
}

fn run(chip: &mut Chip8, cycles: usize) {
    for _ in 0..cycles {
        chip.cycle().unwrap();
    }
}

#[test]
fn new_machine_starts_at_program_with_font() {
    let chip = Chip8::new();
    assert_eq!(chip.pc(), 0x200);
    assert_eq!(chip.index(), 0);
    assert_eq!(chip.sp(), 0);
    assert_eq!(chip.memory_at(0x50), 0xF0);
    assert_eq!(chip.memory_at(0x55), 0x20);
    assert_eq!(chip.memory_at(0x9F), 0x80);
    assert_eq!(chip.memory_at(0xA0), 0);
    assert_eq!(chip.memory_at(0x4F), 0);
    for i in 0..16 {
        assert_eq!(chip.register(i), 0);
        assert!(!chip.keypad[i]);
    }
    assert!(chip.video.iter().all(|p| !p));
}

#[test]
fn default_machine_is_all_zero() {
    let chip = Chip8::default();
    assert_eq!(chip.pc(), 0);
    assert_eq!(chip.memory_at(0x50), 0);
}

#[test]
fn load_copies_program_verbatim() {
    let chip = machine(&[0x1234, 0xABCD]);
    assert_eq!(chip.memory_at(0x200), 0x12);
    assert_eq!(chip.memory_at(0x201), 0x34);
    assert_eq!(chip.memory_at(0x202), 0xAB);
    assert_eq!(chip.memory_at(0x203), 0xCD);
    assert_eq!(chip.memory_at(0x204), 0);
}

#[test]
fn load_rejects_program_too_large() {
    let mut chip = Chip8::new();
    let max = vec![0x11u8; 4096 - START_ADDRESS as usize];
    assert_eq!(chip.load_ROM(&max), Ok(()));
    assert_eq!(chip.memory_at(0xFFF), 0x11);
    let mut fresh = Chip8::new();
    let too_big = vec![0x22u8; 4096 - START_ADDRESS as usize + 1];
    assert_eq!(fresh.load_ROM(&too_big), Err(Chip8Error::RomTooLarge));
    assert_eq!(fresh.memory_at(0x200), 0);
}

#[test]
fn jump_sets_pc_to_address() {
    let mut chip = machine(&[0x1ABC]);
    run(&mut chip, 1);
    assert_eq!(chip.pc(), 0xABC);
    let mut chip = machine(&[0x1208, 0x0001, 0x0001, 0x0001, 0x1345]);
    run(&mut chip, 2);
    assert_eq!(chip.pc(), 0x345);
}

#[test]
fn add_with_carry() {
    let mut chip = machine(&[0x60C8, 0x6164, 0x8014]);
    run(&mut chip, 3);
    assert_eq!(chip.register(0), 44);
    assert_eq!(chip.register(0xF), 1);
}

#[test]
fn add_without_carry_clears_flag() {
    let mut chip = machine(&[0x6F07, 0x6010, 0x6120, 0x8014]);
    run(&mut chip, 4);
    assert_eq!(chip.register(0), 0x30);
    assert_eq!(chip.register(0xF), 0);
}

#[test]
fn subtract_with_borrow() {
    let mut chip = machine(&[0x600A, 0x6114, 0x8015]);
    run(&mut chip, 3);
    assert_eq!(chip.register(0xF), 0);
    assert_eq!(chip.register(0), 246);
}

#[test]
fn subtract_without_borrow() {
    let mut chip = machine(&[0x6014, 0x610A, 0x8015]);
    run(&mut chip, 3);
    assert_eq!(chip.register(0xF), 1);
    assert_eq!(chip.register(0), 10);
}

#[test]
fn reverse_subtract() {
    let mut chip = machine(&[0x600A, 0x6114, 0x8017, 0x6214, 0x630A, 0x8237]);
    run(&mut chip, 3);
    assert_eq!(chip.register(0), 10);
    assert_eq!(chip.register(0xF), 1);
    run(&mut chip, 3);
    assert_eq!(chip.register(2), 246);
    assert_eq!(chip.register(0xF), 0);
}

#[test]
fn shifts_save_the_shifted_out_bit() {
    let mut chip = machine(&[0x6081, 0x8006, 0x6181, 0x811E]);
    run(&mut chip, 2);
    assert_eq!(chip.register(0), 0x40);
    assert_eq!(chip.register(0xF), 1);
    run(&mut chip, 2);
    assert_eq!(chip.register(1), 0x02);
    assert_eq!(chip.register(0xF), 1);
}

#[test]
fn logic_operations() {
    let mut chip = machine(&[0x60F0, 0x613C, 0x8011, 0x62F0, 0x8212, 0x63F0, 0x8313, 0x8410]);
    run(&mut chip, 8);
    assert_eq!(chip.register(0), 0xFC);
    assert_eq!(chip.register(2), 0x30);
    assert_eq!(chip.register(3), 0xCC);
    assert_eq!(chip.register(4), 0x3C);
}

#[test]
fn add_immediate_wraps_and_keeps_flag() {
    let mut chip = machine(&[0x6F05, 0x60FF, 0x7002]);
    run(&mut chip, 3);
    assert_eq!(chip.register(0), 1);
    assert_eq!(chip.register(0xF), 5);
}

#[test]
fn font_glyph_address() {
    let mut chip = machine(&[0x630A, 0xF329]);
    run(&mut chip, 2);
    assert_eq!(chip.index(), 0x50 + 50);
    assert_eq!(chip.memory_at(chip.index() as usize), 0xF0);
}

#[test]
fn drawing_twice_erases_and_reports_collision() {
    let mut chip = machine(&[0x600A, 0x6105, 0xA050, 0xD015, 0xD015]);
    run(&mut chip, 4);
    assert_eq!(chip.register(0xF), 0);
    // Glyph 0 row 0 is 0xF0: four pixels from column 10 on row 5.
    for c in 10..14 {
        assert!(chip.pixel(c, 5));
    }
    assert!(!chip.pixel(14, 5));
    assert!(chip.pixel(10, 6) && !chip.pixel(11, 6) && chip.pixel(13, 6));
    let lit = chip.video.iter().filter(|p| **p).count();
    assert_eq!(lit, 14);
    run(&mut chip, 1);
    assert_eq!(chip.register(0xF), 1);
    assert!(chip.video.iter().all(|p| !p));
}

#[test]
fn draw_origin_wraps_but_sprite_is_clipped() {
    // x = 70 wraps to 6; y = 33 wraps to 1; at x = 62 only two columns are visible.
    let mut chip = machine(&[0x6046, 0x6121, 0xA050, 0xD011, 0x623E, 0xD211]);
    run(&mut chip, 4);
    assert!(chip.pixel(6, 1) && chip.pixel(9, 1) && !chip.pixel(10, 1));
    run(&mut chip, 2);
    assert!(chip.pixel(62, 1) && chip.pixel(63, 1));
    assert!(!chip.pixel(0, 2) && !chip.pixel(0, 1));
    assert_eq!(chip.video.iter().filter(|p| **p).count(), 6);
    assert_eq!(chip.video[1 * VIDEO_WIDTH + 62], true);
}

#[test]
fn clear_screen() {
    let mut chip = machine(&[0xA050, 0xD005, 0x00E0]);
    run(&mut chip, 2);
    assert!(chip.video.iter().any(|p| *p));
    run(&mut chip, 1);
    assert!(chip.video.iter().all(|p| !p));
}

#[test]
fn wait_for_key_spins_until_pressed() {
    let mut chip = machine(&[0xF30A]);
    run(&mut chip, 1);
    assert_eq!(chip.pc(), 0x200);
    run(&mut chip, 1);
    assert_eq!(chip.pc(), 0x200);
    chip.keypad[5] = true;
    run(&mut chip, 1);
    assert_eq!(chip.register(3), 5);
    assert_eq!(chip.pc(), 0x202);
}

#[test]
fn wait_for_key_takes_lowest_held() {
    let mut chip = machine(&[0xF10A]);
    chip.keypad[9] = true;
    chip.keypad[4] = true;
    run(&mut chip, 1);
    assert_eq!(chip.register(1), 4);
}

#[test]
fn store_then_load_restores_registers() {
    // I points at the program itself, so memory there held other bytes.
    let mut chip = machine(&[0x6001, 0x6102, 0x6203, 0xA200, 0xF255, 0xF265]);
    run(&mut chip, 6);
    assert_eq!(chip.register(0), 1);
    assert_eq!(chip.register(1), 2);
    assert_eq!(chip.register(2), 3);
    assert_eq!(chip.memory_at(0x200), 1);
    assert_eq!(chip.memory_at(0x201), 2);
    assert_eq!(chip.memory_at(0x202), 3);
    assert_eq!(chip.memory_at(0x203), 0x02);
}

#[test]
fn load_registers_from_memory() {
    let mut chip = machine(&[0xA050, 0xF165]);
    run(&mut chip, 2);
    assert_eq!(chip.register(0), 0xF0);
    assert_eq!(chip.register(1), 0x90);
    assert_eq!(chip.register(2), 0);
}

#[test]
fn delay_timer_counts_down_to_zero() {
    let mut chip = machine(&[0x6002, 0xF015, 0x8008, 0x8008, 0x8008]);
    run(&mut chip, 2);
    assert_eq!(chip.delay_timer(), 1);
    run(&mut chip, 3);
    assert_eq!(chip.delay_timer(), 0);
    assert_eq!(chip.pc(), 0x20A);
}

#[test]
fn delay_timer_reads_back() {
    let mut chip = machine(&[0x6005, 0xF015, 0xF107]);
    run(&mut chip, 3);
    assert_eq!(chip.register(1), 4);
}

#[test]
fn sound_timer_sets_tone() {
    let mut chip = machine(&[0x6002, 0xF018, 0x8008, 0x8008]);
    run(&mut chip, 2);
    assert!(chip.sound_on());
    assert_eq!(chip.sound_timer(), 1);
    run(&mut chip, 1);
    assert!(!chip.sound_on());
    run(&mut chip, 1);
    assert_eq!(chip.sound_timer(), 0);
}

#[test]
fn bcd_digits() {
    let mut chip = machine(&[0x60FE, 0xA300, 0xF033]);
    run(&mut chip, 3);
    assert_eq!(chip.memory_at(0x300), 2);
    assert_eq!(chip.memory_at(0x301), 5);
    assert_eq!(chip.memory_at(0x302), 4);
}

#[test]
fn skips() {
    let mut chip = machine(&[0x6007, 0x3007, 0x0001, 0x4007, 0x5010, 0x0001, 0x9010]);
    run(&mut chip, 2);
    assert_eq!(chip.pc(), 0x206);
    run(&mut chip, 1);
    assert_eq!(chip.pc(), 0x208);
    run(&mut chip, 1);
    assert_eq!(chip.pc(), 0x20A);
    run(&mut chip, 2);
    assert_eq!(chip.pc(), 0x210);
    let mut chip = machine(&[0x6107, 0x4100, 0x0001, 0x5010]);
    run(&mut chip, 2);
    assert_eq!(chip.pc(), 0x206);
    run(&mut chip, 1);
    assert_eq!(chip.pc(), 0x208);
}

#[test]
fn key_skips() {
    let mut chip = machine(&[0x6004, 0xE09E, 0x0001, 0xE0A1]);
    run(&mut chip, 2);
    assert_eq!(chip.pc(), 0x204);
    chip.keypad[4] = true;
    let mut chip2 = machine(&[0x6004, 0xE09E, 0x0001, 0xE0A1]);
    chip2.keypad[4] = true;
    run(&mut chip2, 2);
    assert_eq!(chip2.pc(), 0x206);
    run(&mut chip2, 1);
    assert_eq!(chip2.pc(), 0x208);
}

#[test]
fn key_skip_on_register_beyond_keypad() {
    let mut chip = machine(&[0x6020, 0xE0A1]);
    run(&mut chip, 2);
    assert_eq!(chip.pc(), 0x206);
}

#[test]
fn call_and_return() {
    let mut chip = machine(&[0x2206, 0x6001, 0x0001, 0x6102, 0x00EE]);
    run(&mut chip, 1);
    assert_eq!(chip.pc(), 0x206);
    assert_eq!(chip.sp(), 1);
    run(&mut chip, 2);
    assert_eq!(chip.pc(), 0x202);
    assert_eq!(chip.sp(), 0);
    assert_eq!(chip.register(1), 2);
}

#[test]
fn stack_overflow_is_fatal() {
    let mut chip = machine(&[0x2200]);
    run(&mut chip, 16);
    assert_eq!(chip.sp(), 16);
    assert_eq!(chip.cycle(), Err(Chip8Error::StackOverflow));
    assert_eq!(chip.sp(), 16);
    assert_eq!(chip.pc(), 0x200);
}

#[test]
fn stack_underflow_is_fatal() {
    let mut chip = machine(&[0x00EE]);
    assert_eq!(chip.cycle(), Err(Chip8Error::StackUnderflow));
    assert_eq!(chip.pc(), 0x200);
}

#[test]
fn index_past_memory_is_fatal() {
    let mut chip = machine(&[0xAFFF, 0xF033]);
    run(&mut chip, 1);
    assert_eq!(chip.cycle(), Err(Chip8Error::MemoryOutOfBounds));
    let mut chip = machine(&[0xAFFE, 0xF255]);
    run(&mut chip, 1);
    assert_eq!(chip.cycle(), Err(Chip8Error::MemoryOutOfBounds));
    let mut chip = machine(&[0xAFFE, 0xF155]);
    run(&mut chip, 2);
    assert_eq!(chip.memory_at(0xFFF), 0);
    let mut chip = machine(&[0xAFFE, 0xF265]);
    run(&mut chip, 1);
    assert_eq!(chip.cycle(), Err(Chip8Error::MemoryOutOfBounds));
    let mut chip = machine(&[0xAFFF, 0xD002]);
    run(&mut chip, 1);
    assert_eq!(chip.cycle(), Err(Chip8Error::MemoryOutOfBounds));
    let mut chip = machine(&[0xAFFF, 0xD001]);
    run(&mut chip, 2);
    assert_eq!(chip.pc(), 0x204);
}

#[test]
fn fetch_past_memory_is_fatal() {
    let mut chip = machine(&[0x1FFF]);
    run(&mut chip, 1);
    assert_eq!(chip.cycle(), Err(Chip8Error::MemoryOutOfBounds));
    assert_eq!(chip.pc(), 0xFFF);
}

#[test]
fn index_arithmetic() {
    let mut chip = machine(&[0xA123, 0x6010, 0xF01E, 0x6105, 0xB300]);
    run(&mut chip, 3);
    assert_eq!(chip.index(), 0x133);
    run(&mut chip, 2);
    assert_eq!(chip.pc(), 0x310);
}

#[test]
fn index_addition_wraps_at_sixteen_bits() {
    // Three hundred additions of 0xFF to 0xFFF: the index wraps instead of failing.
    let mut program = vec![0xAFFF, 0x60FF];
    for _ in 0..300 {
        program.push(0xF01E);
    }
    let mut chip = machine(&program);
    run(&mut chip, 2 + 300);
    assert_eq!(chip.index(), ((0xFFFu32 + 300 * 0xFF) % 0x10000) as u16);
}

#[test]
fn undefined_instructions_do_nothing() {
    let mut chip = machine(&[0x6A33, 0x0001, 0x8AB8, 0xE0F0, 0xF0FF, 0x5AB1]);
    run(&mut chip, 5);
    assert_eq!(chip.register(0xA), 0x33);
    assert_eq!(chip.pc(), 0x20A);
}

#[test]
fn random_byte_is_masked() {
    let mut chip = machine(&[0xC0FF, 0xC10F]);
    assert_eq!(chip.step(0xAB), Ok(()));
    assert_eq!(chip.register(0), 0xAB);
    assert_eq!(chip.step(0xAB), Ok(()));
    assert_eq!(chip.register(1), 0x0B);
    let mut chip = machine(&[0xC200, 0xC30F]);
    run(&mut chip, 2);
    assert_eq!(chip.register(2), 0);
    assert!(chip.register(3) <= 0x0F);
    assert_eq!(chip.opcode(), 0xC30F);
}

#[test]
fn keymap_layout() {
    assert_eq!(key_index('x'), Some(0));
    assert_eq!(key_index('1'), Some(1));
    assert_eq!(key_index('w'), Some(5));
    assert_eq!(key_index('z'), Some(0xA));
    assert_eq!(key_index('4'), Some(0xC));
    assert_eq!(key_index('v'), Some(0xF));
    assert_eq!(key_index('p'), None);
    let mut keys = [false; 16];
    apply_key(&mut keys, 'w', true);
    assert!(keys[5]);
    apply_key(&mut keys, 'p', true);
    assert_eq!(keys.iter().filter(|k| **k).count(), 1);
    apply_key(&mut keys, 'w', false);
    assert!(!keys[5]);
}
