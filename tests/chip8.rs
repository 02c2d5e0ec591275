use chip8::{Chip8, CHIP8_VIDEO_HEIGHT, CHIP8_VIDEO_WIDTH};

fn machine_with(rom: &[u8]) -> Chip8 {
    let mut chip8 = Chip8::new().unwrap();
    chip8.load_rom(rom).unwrap();
    chip8
}

fn run(chip8: &mut Chip8, cycles: usize) {
    for _ in 0..cycles {
        chip8.cycle_with_random(0);
    }
}

fn lit_pixels(chip8: &Chip8) -> usize {
    let mut count = 0;
    for row in 0..CHIP8_VIDEO_HEIGHT {
        for col in 0..CHIP8_VIDEO_WIDTH {
            if chip8.pixel(row, col) == 1 {
                count += 1;
            }
        }
    }
    count
}

#[test]
fn starts_at_program_start() {
    let chip8 = Chip8::new().unwrap();
    assert_eq!(chip8.program_counter(), 0x200);
    let chip8 = machine_with(&[0x12, 0x34, 0x56]);
    assert_eq!(chip8.program_counter(), 0x200);
    assert_eq!(chip8.memory_at(0x200), 0x12);
    assert_eq!(chip8.memory_at(0x202), 0x56);
    assert_eq!(chip8.memory_at(0x203), 0);
}

#[test]
fn font_is_in_low_memory() {
    let chip8 = Chip8::new().unwrap();
    assert_eq!(chip8.memory_at(0), 0xF0);
    assert_eq!(chip8.memory_at(5), 0x20);
    assert_eq!(chip8.memory_at(79), 0x80);
    assert_eq!(chip8.memory_at(80), 0);
    assert_eq!(chip8.stack_pointer(), 0);
    assert_eq!(chip8.index_register(), 0);
}

#[test]
fn load_rom_refuses_oversized_image() {
    let mut chip8 = Chip8::new().unwrap();
    let too_big = vec![0xAAu8; 4096 - 512 + 1];
    assert!(chip8.load_rom(&too_big).is_err());
    assert_eq!(chip8.memory_at(0x200), 0);
    let exact = vec![0xAAu8; 4096 - 512];
    assert!(chip8.load_rom(&exact).is_ok());
    assert_eq!(chip8.memory_at(4095), 0xAA);
    assert_eq!(chip8.program_counter(), 0x200);
}

#[test]
fn load_byte_into_register() {
    let mut chip8 = machine_with(&[0x6A, 0x12]);
    let state = chip8.cycle_with_random(0);
    assert!(!state.video_draw);
    assert_eq!(chip8.register(10), 0x12);
    assert_eq!(chip8.program_counter(), 0x202);
}

#[test]
fn bcd_of_157() {
    // V5 = 157, I = 0x300, store BCD of V5.
    let mut chip8 = machine_with(&[0x65, 157, 0xA3, 0x00, 0xF5, 0x33]);
    run(&mut chip8, 3);
    assert_eq!(chip8.memory_at(0x300), 1);
    assert_eq!(chip8.memory_at(0x301), 5);
    assert_eq!(chip8.memory_at(0x302), 7);
    assert_eq!(chip8.index_register(), 0x300);
    assert_eq!(chip8.program_counter(), 0x206);
}

#[test]
fn add_sets_carry() {
    let mut chip8 = machine_with(&[0x60, 200, 0x61, 100, 0x80, 0x14]);
    run(&mut chip8, 3);
    assert_eq!(chip8.register(0), 44);
    assert_eq!(chip8.register(15), 1);

    let mut chip8 = machine_with(&[0x60, 100, 0x61, 100, 0x80, 0x14]);
    run(&mut chip8, 3);
    assert_eq!(chip8.register(0), 200);
    assert_eq!(chip8.register(15), 0);

    let mut chip8 = machine_with(&[0x60, 255, 0x61, 1, 0x80, 0x14]);
    run(&mut chip8, 3);
    assert_eq!(chip8.register(0), 0);
    assert_eq!(chip8.register(15), 1);
}

#[test]
fn add_into_flag_register_keeps_flag() {
    // VF = 200, V1 = 100, VF += V1: the flag wins.
    let mut chip8 = machine_with(&[0x6F, 200, 0x61, 100, 0x8F, 0x14]);
    run(&mut chip8, 3);
    assert_eq!(chip8.register(15), 1);
}

#[test]
fn sub_sets_no_borrow() {
    let mut chip8 = machine_with(&[0x60, 10, 0x61, 20, 0x80, 0x15]);
    run(&mut chip8, 3);
    assert_eq!(chip8.register(0), 246);
    assert_eq!(chip8.register(15), 0);

    let mut chip8 = machine_with(&[0x60, 20, 0x61, 10, 0x80, 0x15]);
    run(&mut chip8, 3);
    assert_eq!(chip8.register(0), 10);
    assert_eq!(chip8.register(15), 1);

    let mut chip8 = machine_with(&[0x60, 7, 0x61, 7, 0x80, 0x15]);
    run(&mut chip8, 3);
    assert_eq!(chip8.register(0), 0);
    assert_eq!(chip8.register(15), 1);
}

#[test]
fn subn_sets_no_borrow() {
    let mut chip8 = machine_with(&[0x60, 20, 0x61, 10, 0x80, 0x17]);
    run(&mut chip8, 3);
    assert_eq!(chip8.register(0), 246);
    assert_eq!(chip8.register(15), 0);

    let mut chip8 = machine_with(&[0x60, 10, 0x61, 20, 0x80, 0x17]);
    run(&mut chip8, 3);
    assert_eq!(chip8.register(0), 10);
    assert_eq!(chip8.register(15), 1);
}

#[test]
fn shifts_use_vx_only() {
    // V0 = 0x81, V1 = 0x02; SHR V0 {, V1}
    let mut chip8 = machine_with(&[0x60, 0x81, 0x61, 0x02, 0x80, 0x16]);
    run(&mut chip8, 3);
    assert_eq!(chip8.register(0), 0x40);
    assert_eq!(chip8.register(15), 1);

    // SHL V0 {, V1}
    let mut chip8 = machine_with(&[0x60, 0x81, 0x61, 0x02, 0x80, 0x1E]);
    run(&mut chip8, 3);
    assert_eq!(chip8.register(0), 0x02);
    assert_eq!(chip8.register(15), 1);

    let mut chip8 = machine_with(&[0x60, 0x42, 0x80, 0x0E]);
    run(&mut chip8, 2);
    assert_eq!(chip8.register(0), 0x84);
    assert_eq!(chip8.register(15), 0);
}

#[test]
fn logic_ops_reset_flag() {
    let mut chip8 = machine_with(&[0x6F, 9, 0x60, 0x0C, 0x61, 0x0A, 0x80, 0x11]);
    run(&mut chip8, 4);
    assert_eq!(chip8.register(0), 0x0E);
    assert_eq!(chip8.register(15), 0);

    let mut chip8 = machine_with(&[0x6F, 9, 0x60, 0x0C, 0x61, 0x0A, 0x80, 0x12]);
    run(&mut chip8, 4);
    assert_eq!(chip8.register(0), 0x08);
    assert_eq!(chip8.register(15), 0);

    let mut chip8 = machine_with(&[0x6F, 9, 0x60, 0x0C, 0x61, 0x0A, 0x80, 0x13]);
    run(&mut chip8, 4);
    assert_eq!(chip8.register(0), 0x06);
    assert_eq!(chip8.register(15), 0);
}

#[test]
fn add_byte_wraps_without_flag() {
    let mut chip8 = machine_with(&[0x6F, 5, 0x60, 250, 0x70, 10, 0x81, 0x00]);
    run(&mut chip8, 4);
    assert_eq!(chip8.register(0), 4);
    assert_eq!(chip8.register(1), 4);
    assert_eq!(chip8.register(15), 5);
}

#[test]
fn draw_twice_restores_framebuffer() {
    // V0 = 10, V1 = 5, I = glyph of digit V2 (= 0), draw 5 rows twice.
    let mut chip8 = machine_with(&[0x60, 10, 0x61, 5, 0xF2, 0x29, 0xD0, 0x15, 0xD0, 0x15]);
    run(&mut chip8, 3);
    assert_eq!(chip8.index_register(), 0);
    let state = chip8.cycle_with_random(0);
    assert!(state.video_draw);
    assert_eq!(state.video[5][10], 1);
    assert_eq!(state.video[6][10], 1);
    assert_eq!(state.video[6][11], 0);
    assert_eq!(chip8.register(15), 0);
    // The glyph of 0 has 14 pixels.
    assert_eq!(lit_pixels(&chip8), 14);

    let state = chip8.cycle_with_random(0);
    assert!(state.video_draw);
    assert_eq!(chip8.register(15), 1);
    assert_eq!(lit_pixels(&chip8), 0);
}

#[test]
fn draw_wraps_around_edges() {
    // V0 = 62, V1 = 31, I = glyph of 0, draw two rows (0xF0, 0x90).
    let mut chip8 = machine_with(&[0x60, 62, 0x61, 31, 0xA0, 0x00, 0xD0, 0x12]);
    run(&mut chip8, 4);
    assert_eq!(chip8.pixel(31, 62), 1);
    assert_eq!(chip8.pixel(31, 63), 1);
    assert_eq!(chip8.pixel(31, 0), 1);
    assert_eq!(chip8.pixel(31, 1), 1);
    assert_eq!(chip8.pixel(31, 2), 0);
    assert_eq!(chip8.pixel(0, 62), 1);
    assert_eq!(chip8.pixel(0, 63), 0);
    assert_eq!(chip8.pixel(0, 1), 1);
    assert_eq!(lit_pixels(&chip8), 6);
    assert_eq!(chip8.register(15), 0);
}

#[test]
fn draw_with_zero_rows_changes_no_pixel() {
    let mut chip8 = machine_with(&[0x6F, 1, 0xD0, 0x00]);
    run(&mut chip8, 1);
    let state = chip8.cycle_with_random(0);
    assert!(state.video_draw);
    assert_eq!(lit_pixels(&chip8), 0);
    assert_eq!(chip8.register(15), 0);
}

#[test]
fn cls_clears_every_pixel() {
    let mut chip8 = machine_with(&[0xD0, 0x15, 0x00, 0xE0]);
    run(&mut chip8, 1);
    assert!(lit_pixels(&chip8) > 0);
    let state = chip8.cycle_with_random(0);
    assert!(state.video_draw);
    for row in 0..CHIP8_VIDEO_HEIGHT {
        for col in 0..CHIP8_VIDEO_WIDTH {
            assert_eq!(state.video[row][col], 0);
        }
    }
    assert_eq!(chip8.program_counter(), 0x204);
}

#[test]
fn cls_on_blank_screen_reports_change() {
    let mut chip8 = machine_with(&[0x00, 0xE0]);
    let state = chip8.cycle_with_random(0);
    assert!(state.video_draw);
    assert_eq!(lit_pixels(&chip8), 0);
}

#[test]
fn change_is_reported_once() {
    let mut chip8 = machine_with(&[0x00, 0xE0, 0x60, 0x01]);
    assert!(chip8.cycle_with_random(0).video_draw);
    assert!(!chip8.cycle_with_random(0).video_draw);
}

#[test]
fn store_then_load_round_trip() {
    let rom = [
        0x60, 11, 0x61, 22, 0x62, 33, 0x63, 44, // V0..V3
        0xA4, 0x00, // I = 0x400
        0xF3, 0x55, // store V0..V3
        0x60, 0, 0x61, 0, 0x62, 0, 0x63, 0, // clobber V0..V3
        0xA4, 0x00, // I = 0x400 again
        0xF3, 0x65, // load V0..V3
    ];
    let mut chip8 = machine_with(&rom);
    run(&mut chip8, 6);
    assert_eq!(chip8.index_register(), 0x404);
    assert_eq!(chip8.memory_at(0x400), 11);
    assert_eq!(chip8.memory_at(0x403), 44);
    assert_eq!(chip8.memory_at(0x404), 0);
    run(&mut chip8, 6);
    assert_eq!(chip8.register(0), 11);
    assert_eq!(chip8.register(1), 22);
    assert_eq!(chip8.register(2), 33);
    assert_eq!(chip8.register(3), 44);
    assert_eq!(chip8.index_register(), 0x404);
}

#[test]
fn store_wraps_around_memory_end() {
    // I = 0xFFF via I = 0xFFE, I += 1; store V0..V1.
    let mut chip8 = machine_with(&[0x60, 7, 0x61, 9, 0xAF, 0xFE, 0x62, 1, 0xF2, 0x1E, 0xF1, 0x55]);
    run(&mut chip8, 6);
    assert_eq!(chip8.memory_at(0xFFF), 7);
    assert_eq!(chip8.memory_at(0), 9);
    assert_eq!(chip8.index_register(), 0x1001);
}

#[test]
fn return_on_empty_stack_moves_on() {
    let mut chip8 = machine_with(&[0x00, 0xEE]);
    run(&mut chip8, 1);
    assert_eq!(chip8.program_counter(), 0x202);
    assert_eq!(chip8.stack_pointer(), 0);
}

#[test]
fn call_and_return() {
    let mut chip8 = machine_with(&[0x22, 0x06, 0x00, 0x00, 0x00, 0x00, 0x00, 0xEE]);
    run(&mut chip8, 1);
    assert_eq!(chip8.program_counter(), 0x206);
    assert_eq!(chip8.stack_pointer(), 1);
    run(&mut chip8, 1);
    assert_eq!(chip8.program_counter(), 0x202);
    assert_eq!(chip8.stack_pointer(), 0);
}

#[test]
fn call_on_full_stack_moves_on() {
    // CALL 0x200 calls itself.
    let mut chip8 = machine_with(&[0x22, 0x00]);
    run(&mut chip8, 15);
    assert_eq!(chip8.stack_pointer(), 15);
    assert_eq!(chip8.program_counter(), 0x200);
    run(&mut chip8, 1);
    assert_eq!(chip8.stack_pointer(), 15);
    assert_eq!(chip8.program_counter(), 0x202);
}

#[test]
fn jumps() {
    let mut chip8 = machine_with(&[0x13, 0x45]);
    run(&mut chip8, 1);
    assert_eq!(chip8.program_counter(), 0x345);

    let mut chip8 = machine_with(&[0x60, 0x10, 0xB3, 0x00]);
    run(&mut chip8, 2);
    assert_eq!(chip8.program_counter(), 0x310);
}

#[test]
fn skips() {
    // SE V0, 5 with V0 = 5: skip.
    let mut chip8 = machine_with(&[0x60, 5, 0x30, 5]);
    run(&mut chip8, 2);
    assert_eq!(chip8.program_counter(), 0x206);
    // SNE V0, 5 with V0 = 5: no skip.
    let mut chip8 = machine_with(&[0x60, 5, 0x40, 5]);
    run(&mut chip8, 2);
    assert_eq!(chip8.program_counter(), 0x204);
    // SE V0, V1 with V0 == V1 == 0: skip.
    let mut chip8 = machine_with(&[0x50, 0x10]);
    run(&mut chip8, 1);
    assert_eq!(chip8.program_counter(), 0x204);
    // SNE V0, V1 with V0 == V1: no skip.
    let mut chip8 = machine_with(&[0x90, 0x10]);
    run(&mut chip8, 1);
    assert_eq!(chip8.program_counter(), 0x202);
}

#[test]
fn unknown_instruction_only_advances() {
    let mut chip8 = machine_with(&[0x50, 0x11, 0x80, 0x18, 0xF0, 0xFF]);
    run(&mut chip8, 3);
    assert_eq!(chip8.program_counter(), 0x206);
    assert_eq!(chip8.register(0), 0);
    assert_eq!(chip8.register(15), 0);
}

#[test]
fn fetch_past_memory_end_is_a_no_op() {
    let mut chip8 = machine_with(&[0x1F, 0xFF]);
    run(&mut chip8, 1);
    assert_eq!(chip8.program_counter(), 0xFFF);
    run(&mut chip8, 1);
    assert_eq!(chip8.program_counter(), 0x1001);
}

#[test]
fn keys_and_skips() {
    // V0 = 4; SKP V0; then SKNP V0.
    let mut chip8 = machine_with(&[0x60, 4, 0xE0, 0x9E, 0x00, 0x00, 0xE0, 0xA1]);
    chip8.set_key(4, true);
    run(&mut chip8, 2);
    assert_eq!(chip8.program_counter(), 0x206);
    run(&mut chip8, 1);
    assert_eq!(chip8.program_counter(), 0x208);

    let mut chip8 = machine_with(&[0x60, 4, 0xE0, 0xA1]);
    run(&mut chip8, 2);
    assert_eq!(chip8.program_counter(), 0x206);
}

#[test]
fn key_value_beyond_keypad_is_not_held() {
    let mut chip8 = machine_with(&[0x60, 200, 0xE0, 0x9E]);
    chip8.set_key(8, true);
    run(&mut chip8, 2);
    assert_eq!(chip8.program_counter(), 0x204);

    let mut chip8 = machine_with(&[0x60, 200, 0xE0, 0xA1]);
    run(&mut chip8, 2);
    assert_eq!(chip8.program_counter(), 0x206);
}

#[test]
fn wait_for_key_holds_pc() {
    let mut chip8 = machine_with(&[0xF3, 0x0A]);
    run(&mut chip8, 3);
    assert_eq!(chip8.program_counter(), 0x200);
    chip8.set_key(9, true);
    chip8.set_key(5, true);
    run(&mut chip8, 1);
    assert_eq!(chip8.register(3), 5);
    assert_eq!(chip8.program_counter(), 0x202);
}

#[test]
fn timers_count_down_to_zero() {
    let mut chip8 = machine_with(&[0x60, 2, 0xF0, 0x15, 0x61, 1, 0xF1, 0x18, 0xF2, 0x07]);
    run(&mut chip8, 4);
    assert_eq!(chip8.delay_timer(), 2);
    assert_eq!(chip8.sound_timer(), 1);
    chip8.update_timers();
    assert_eq!(chip8.delay_timer(), 1);
    assert_eq!(chip8.sound_timer(), 0);
    run(&mut chip8, 1);
    assert_eq!(chip8.register(2), 1);
    chip8.update_timers();
    chip8.update_timers();
    assert_eq!(chip8.delay_timer(), 0);
    assert_eq!(chip8.sound_timer(), 0);
}

#[test]
fn index_arithmetic() {
    // I = font glyph of 15, then I = 0xFFF + 2.
    let mut chip8 = machine_with(&[0x60, 0x0F, 0xF0, 0x29, 0xAF, 0xFF, 0x61, 0x02, 0xF1, 0x1E]);
    run(&mut chip8, 2);
    assert_eq!(chip8.index_register(), 75);
    run(&mut chip8, 3);
    assert_eq!(chip8.index_register(), 0x1001);
}

#[test]
fn random_byte_is_masked() {
    let mut chip8 = machine_with(&[0xC0, 0x0F]);
    chip8.cycle_with_random(0xAB);
    assert_eq!(chip8.register(0), 0x0B);
    assert_eq!(chip8.program_counter(), 0x202);

    let mut chip8 = machine_with(&[0xC0, 0x0F, 0xC1, 0x00]);
    chip8.cycle();
    assert!(chip8.register(0) <= 0x0F);
    chip8.cycle();
    assert_eq!(chip8.register(1), 0);
    assert_eq!(chip8.program_counter(), 0x204);
}
