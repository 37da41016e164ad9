use rusty_chips::ops::Op;
use rusty_chips::state::Chip8Error;
use rusty_chips::state::ChipEight;

fn assert_all_pixels_off(m: &ChipEight) {
    let fb = m.framebuffer();
    assert_eq!(fb.len(), 2048);
    for i in 0..2048 {
        assert!(!fb[i]);
    }
}

#[test]
fn new_machine_state() {
    let m = ChipEight::new();
    assert_eq!(m.program_counter(), 0x200);
    assert_eq!(m.index_register(), 0);
    assert_eq!(m.stack_depth(), 0);
    assert_eq!(m.delay_value(), 0);
    assert_eq!(m.sound_value(), 0);
    assert!(!m.sound_active());
    for x in 0..16 {
        assert_eq!(m.register(x), 0);
    }
    assert_all_pixels_off(&m);
    // the font: glyph 0 starts with 0xF0, glyph F ends with 0x80
    assert_eq!(m.memory_at(0), 0xF0);
    assert_eq!(m.memory_at(79), 0x80);
    assert_eq!(m.memory_at(80), 0);
    assert_eq!(m.memory_at(0x200), 0);
}

#[test]
fn load_memory_places_bytes() {
    let mut m = ChipEight::new();
    let prog = vec![1u8, 2, 3];
    assert_eq!(m.load_memory(&prog), Ok(()));
    assert_eq!(m.memory_at(0x200), 1);
    assert_eq!(m.memory_at(0x201), 2);
    assert_eq!(m.memory_at(0x202), 3);
    assert_eq!(m.memory_at(0x203), 0);
}

#[test]
fn load_memory_rejects_oversized_image() {
    let mut m = ChipEight::new();
    let too_big = vec![0u8; 4096 - 0x200 + 1];
    assert_eq!(m.load_memory(&too_big), Err(Chip8Error::OutOfMemory));
    // nothing was written
    assert_eq!(m.memory_at(0x200), 0);
    let just_fits = vec![7u8; 4096 - 0x200];
    assert_eq!(m.load_memory(&just_fits), Ok(()));
    assert_eq!(m.memory_at(4095), 7);
}

#[test]
fn load_memory_at_alternate_base() {
    let mut m = ChipEight::new();
    let prog = vec![9u8, 8];
    assert_eq!(m.load_memory_at(&prog, 0x600), Ok(()));
    assert_eq!(m.memory_at(0x600), 9);
    assert_eq!(m.memory_at(0x601), 8);
    let too_big = vec![0u8; 4096 - 0x600 + 1];
    assert_eq!(m.load_memory_at(&too_big, 0x600), Err(Chip8Error::OutOfMemory));
}

#[test]
fn decode_covers_the_opcode_families() {
    assert_eq!(rusty_chips::ops::decode(0x00E0), Op::ClearScreen);
    assert_eq!(rusty_chips::ops::decode(0x00EE), Op::Return);
    assert_eq!(rusty_chips::ops::decode(0x1ABC), Op::Jump(0xABC));
    assert_eq!(rusty_chips::ops::decode(0x2123), Op::Call(0x123));
    assert_eq!(rusty_chips::ops::decode(0x3A42), Op::SkipEqImm(0xA, 0x42));
    assert_eq!(rusty_chips::ops::decode(0x4A42), Op::SkipNeImm(0xA, 0x42));
    assert_eq!(rusty_chips::ops::decode(0x5120), Op::SkipEqReg(1, 2));
    assert_eq!(rusty_chips::ops::decode(0x5121), Op::Unknown(0x5121));
    assert_eq!(rusty_chips::ops::decode(0x6A42), Op::SetImm(0xA, 0x42));
    assert_eq!(rusty_chips::ops::decode(0x7A42), Op::AddImm(0xA, 0x42));
    assert_eq!(rusty_chips::ops::decode(0x8120), Op::Assign(1, 2));
    assert_eq!(rusty_chips::ops::decode(0x8121), Op::OrReg(1, 2));
    assert_eq!(rusty_chips::ops::decode(0x8122), Op::AndReg(1, 2));
    assert_eq!(rusty_chips::ops::decode(0x8123), Op::XorReg(1, 2));
    assert_eq!(rusty_chips::ops::decode(0x8124), Op::AddReg(1, 2));
    assert_eq!(rusty_chips::ops::decode(0x8125), Op::SubReg(1, 2));
    assert_eq!(rusty_chips::ops::decode(0x8126), Op::ShiftRight(1));
    assert_eq!(rusty_chips::ops::decode(0x8127), Op::SubFrom(1, 2));
    assert_eq!(rusty_chips::ops::decode(0x812E), Op::ShiftLeft(1));
    assert_eq!(rusty_chips::ops::decode(0x8128), Op::Unknown(0x8128));
    assert_eq!(rusty_chips::ops::decode(0x9120), Op::SkipNeReg(1, 2));
    assert_eq!(rusty_chips::ops::decode(0xA20A), Op::SetIndex(0x20A));
    assert_eq!(rusty_chips::ops::decode(0xB123), Op::JumpPlusV0(0x123));
    assert_eq!(rusty_chips::ops::decode(0xC2F0), Op::Random(2, 0xF0));
    assert_eq!(rusty_chips::ops::decode(0xD125), Op::Draw(1, 2, 5));
    assert_eq!(rusty_chips::ops::decode(0xE19E), Op::SkipKeyPressed(1));
    assert_eq!(rusty_chips::ops::decode(0xE1A1), Op::SkipKeyNotPressed(1));
    assert_eq!(rusty_chips::ops::decode(0xF107), Op::ReadDelay(1));
    assert_eq!(rusty_chips::ops::decode(0xF10A), Op::WaitKey(1));
    assert_eq!(rusty_chips::ops::decode(0xF115), Op::SetDelay(1));
    assert_eq!(rusty_chips::ops::decode(0xF118), Op::SetSound(1));
    assert_eq!(rusty_chips::ops::decode(0xF11E), Op::AddIndex(1));
    assert_eq!(rusty_chips::ops::decode(0xF129), Op::FontChar(1));
    assert_eq!(rusty_chips::ops::decode(0xF133), Op::StoreBcd(1));
    assert_eq!(rusty_chips::ops::decode(0xF155), Op::StoreRegs(1));
    assert_eq!(rusty_chips::ops::decode(0xF165), Op::LoadRegs(1));
    assert_eq!(rusty_chips::ops::decode(0xF1FF), Op::Unknown(0xF1FF));
    assert_eq!(rusty_chips::ops::decode(0x0123), Op::Unknown(0x0123));
}

#[test]
fn pc_advances_by_two_on_plain_opcodes() {
    let mut m = ChipEight::new();
    assert_eq!(m.execute_op(Op::SetImm(0, 5), 0), Ok(()));
    assert_eq!(m.program_counter(), 0x202);
    assert_eq!(m.execute_op(Op::SetIndex(0x300), 0), Ok(()));
    assert_eq!(m.program_counter(), 0x204);
    assert_eq!(m.execute_op(Op::AddImm(0, 1), 0), Ok(()));
    assert_eq!(m.program_counter(), 0x206);
    assert_eq!(m.execute_op(Op::ClearScreen, 0), Ok(()));
    assert_eq!(m.program_counter(), 0x208);
}

#[test]
fn add_imm_wraps_and_keeps_flag() {
    let mut m = ChipEight::new();
    assert_eq!(m.execute_op(Op::SetImm(0, 250), 0), Ok(()));
    assert_eq!(m.execute_op(Op::AddImm(0, 10), 0), Ok(()));
    assert_eq!(m.register(0), 4);
    assert_eq!(m.register(15), 0);
}

#[test]
fn add_reg_sets_carry_exactly_on_overflow() {
    let mut m = ChipEight::new();
    assert_eq!(m.execute_op(Op::SetImm(1, 200), 0), Ok(()));
    assert_eq!(m.execute_op(Op::SetImm(2, 100), 0), Ok(()));
    assert_eq!(m.execute_op(Op::AddReg(1, 2), 0), Ok(()));
    assert_eq!(m.register(1), 44);
    assert_eq!(m.register(15), 1);
    assert_eq!(m.execute_op(Op::SetImm(3, 5), 0), Ok(()));
    assert_eq!(m.execute_op(Op::SetImm(4, 10), 0), Ok(()));
    assert_eq!(m.execute_op(Op::AddReg(3, 4), 0), Ok(()));
    assert_eq!(m.register(3), 15);
    assert_eq!(m.register(15), 0);
}

#[test]
fn sub_reg_sets_flag_exactly_when_no_borrow() {
    let mut m = ChipEight::new();
    assert_eq!(m.execute_op(Op::SetImm(1, 10), 0), Ok(()));
    assert_eq!(m.execute_op(Op::SetImm(2, 5), 0), Ok(()));
    assert_eq!(m.execute_op(Op::SubReg(1, 2), 0), Ok(()));
    assert_eq!(m.register(1), 5);
    assert_eq!(m.register(15), 1);
    let mut m2 = ChipEight::new();
    assert_eq!(m2.execute_op(Op::SetImm(1, 5), 0), Ok(()));
    assert_eq!(m2.execute_op(Op::SetImm(2, 10), 0), Ok(()));
    assert_eq!(m2.execute_op(Op::SubReg(1, 2), 0), Ok(()));
    assert_eq!(m2.register(1), 251);
    assert_eq!(m2.register(15), 0);
}

#[test]
fn sub_from_reverses_the_operands() {
    let mut m = ChipEight::new();
    assert_eq!(m.execute_op(Op::SetImm(1, 5), 0), Ok(()));
    assert_eq!(m.execute_op(Op::SetImm(2, 10), 0), Ok(()));
    assert_eq!(m.execute_op(Op::SubFrom(1, 2), 0), Ok(()));
    assert_eq!(m.register(1), 5);
    assert_eq!(m.register(15), 1);
}

#[test]
fn shifts_report_the_shifted_out_bit() {
    let mut m = ChipEight::new();
    assert_eq!(m.execute_op(Op::SetImm(0, 5), 0), Ok(()));
    assert_eq!(m.execute_op(Op::ShiftRight(0), 0), Ok(()));
    assert_eq!(m.register(0), 2);
    assert_eq!(m.register(15), 1);
    assert_eq!(m.execute_op(Op::SetImm(1, 0x81), 0), Ok(()));
    assert_eq!(m.execute_op(Op::ShiftLeft(1), 0), Ok(()));
    assert_eq!(m.register(1), 2);
    assert_eq!(m.register(15), 1);
}

#[test]
fn bitwise_alu_ops() {
    let mut m = ChipEight::new();
    assert_eq!(m.execute_op(Op::SetImm(1, 0b1100), 0), Ok(()));
    assert_eq!(m.execute_op(Op::SetImm(2, 0b1010), 0), Ok(()));
    assert_eq!(m.execute_op(Op::OrReg(1, 2), 0), Ok(()));
    assert_eq!(m.register(1), 0b1110);
    assert_eq!(m.execute_op(Op::SetImm(1, 0b1100), 0), Ok(()));
    assert_eq!(m.execute_op(Op::AndReg(1, 2), 0), Ok(()));
    assert_eq!(m.register(1), 0b1000);
    assert_eq!(m.execute_op(Op::SetImm(1, 0b1100), 0), Ok(()));
    assert_eq!(m.execute_op(Op::XorReg(1, 2), 0), Ok(()));
    assert_eq!(m.register(1), 0b0110);
    assert_eq!(m.execute_op(Op::Assign(3, 2), 0), Ok(()));
    assert_eq!(m.register(3), 0b1010);
}

#[test]
fn skips_move_pc_by_four_when_taken() {
    let mut m = ChipEight::new();
    assert_eq!(m.execute_op(Op::SetImm(0, 7), 0), Ok(()));
    let pc = m.program_counter();
    assert_eq!(m.execute_op(Op::SkipEqImm(0, 7), 0), Ok(()));
    assert_eq!(m.program_counter(), pc + 4);
    let pc = m.program_counter();
    assert_eq!(m.execute_op(Op::SkipEqImm(0, 8), 0), Ok(()));
    assert_eq!(m.program_counter(), pc + 2);
    let pc = m.program_counter();
    assert_eq!(m.execute_op(Op::SkipNeImm(0, 8), 0), Ok(()));
    assert_eq!(m.program_counter(), pc + 4);
    assert_eq!(m.execute_op(Op::SetImm(1, 7), 0), Ok(()));
    let pc = m.program_counter();
    assert_eq!(m.execute_op(Op::SkipEqReg(0, 1), 0), Ok(()));
    assert_eq!(m.program_counter(), pc + 4);
    let pc = m.program_counter();
    assert_eq!(m.execute_op(Op::SkipNeReg(0, 1), 0), Ok(()));
    assert_eq!(m.program_counter(), pc + 2);
}

#[test]
fn jump_and_jump_plus_v0() {
    let mut m = ChipEight::new();
    assert_eq!(m.execute_op(Op::Jump(0x456), 0), Ok(()));
    assert_eq!(m.program_counter(), 0x456);
    assert_eq!(m.execute_op(Op::SetImm(0, 4), 0), Ok(()));
    assert_eq!(m.execute_op(Op::JumpPlusV0(0x300), 0), Ok(()));
    assert_eq!(m.program_counter(), 0x304);
}

#[test]
fn call_then_return_lands_just_past_the_call() {
    let mut m = ChipEight::new();
    // 0x200: call 0x204; 0x204: return
    let prog = vec![0x22u8, 0x04, 0x00, 0x00, 0x00, 0xEE];
    assert_eq!(m.load_memory(&prog), Ok(()));
    assert_eq!(m.emulate_cycle(), Ok(()));
    assert_eq!(m.program_counter(), 0x204);
    assert_eq!(m.stack_depth(), 1);
    assert_eq!(m.emulate_cycle(), Ok(()));
    assert_eq!(m.program_counter(), 0x202);
    assert_eq!(m.stack_depth(), 0);
}

#[test]
fn stack_holds_sixteen_calls_and_no_more() {
    let mut m = ChipEight::new();
    for _ in 0..16 {
        assert_eq!(m.execute_op(Op::Call(0x200), 0), Ok(()));
    }
    assert_eq!(m.stack_depth(), 16);
    assert_eq!(m.execute_op(Op::Call(0x200), 0), Err(Chip8Error::StackOverflow));
    assert_eq!(m.stack_depth(), 16);
}

#[test]
fn return_on_empty_stack_underflows() {
    let mut m = ChipEight::new();
    assert_eq!(m.execute_op(Op::Return, 0), Err(Chip8Error::StackUnderflow));
    assert_eq!(m.program_counter(), 0x200);
}

#[test]
fn timers_saturate_at_zero() {
    let mut m = ChipEight::new();
    assert_eq!(m.delay_value(), 0);
    m.tick_timers();
    assert_eq!(m.delay_value(), 0);
    assert_eq!(m.sound_value(), 0);
    assert_eq!(m.execute_op(Op::SetImm(0, 2), 0), Ok(()));
    assert_eq!(m.execute_op(Op::SetDelay(0), 0), Ok(()));
    assert_eq!(m.execute_op(Op::SetSound(0), 0), Ok(()));
    assert_eq!(m.delay_value(), 2);
    assert_eq!(m.sound_value(), 2);
    assert!(m.sound_active());
    m.tick_timers();
    assert_eq!(m.delay_value(), 1);
    m.tick_timers();
    assert_eq!(m.delay_value(), 0);
    assert_eq!(m.sound_value(), 0);
    assert!(!m.sound_active());
    m.tick_timers();
    assert_eq!(m.delay_value(), 0);
}

#[test]
fn read_delay_into_register() {
    let mut m = ChipEight::new();
    assert_eq!(m.execute_op(Op::SetImm(0, 9), 0), Ok(()));
    assert_eq!(m.execute_op(Op::SetDelay(0), 0), Ok(()));
    assert_eq!(m.execute_op(Op::ReadDelay(3), 0), Ok(()));
    assert_eq!(m.register(3), 9);
}

#[test]
fn clear_screen_clears_and_requests_redraw() {
    let mut m = ChipEight::new();
    m.set_pixel(10, 10, true);
    assert!(m.pixel(10, 10));
    assert_eq!(m.execute_op(Op::ClearScreen, 0), Ok(()));
    assert_all_pixels_off(&m);
    assert!(m.take_redraw_flag());
    assert!(!m.take_redraw_flag());
}

#[test]
fn scenario_clear_screen_program() {
    // load `00 E0`, set a pixel by hand, one cycle: everything off, redraw set
    let mut m = ChipEight::new();
    let prog = vec![0x00u8, 0xE0];
    assert_eq!(m.load_memory(&prog), Ok(()));
    m.set_pixel(10, 10, true);
    assert_eq!(m.emulate_cycle(), Ok(()));
    assert_all_pixels_off(&m);
    assert!(m.take_redraw_flag());
    assert_eq!(m.program_counter(), 0x202);
}

#[test]
fn scenario_set_index_then_register() {
    // `A2 0A 60 05`: ANNN with NNN = 0x20A, then V0 := 5
    let mut m = ChipEight::new();
    let prog = vec![0xA2u8, 0x0A, 0x60, 0x05];
    assert_eq!(m.load_memory(&prog), Ok(()));
    assert_eq!(m.emulate_cycle(), Ok(()));
    assert_eq!(m.emulate_cycle(), Ok(()));
    assert_eq!(m.index_register(), 0x20A);
    assert_eq!(m.register(0), 5);
    assert_eq!(m.program_counter(), 0x204);
}

#[test]
fn draw_reports_no_collision_on_blank_area() {
    let mut m = ChipEight::new();
    // glyph 0 lives at address 0: rows F0 90 90 90 F0
    assert_eq!(m.execute_op(Op::SetIndex(0), 0), Ok(()));
    assert_eq!(m.execute_op(Op::Draw(1, 2, 5), 0), Ok(()));
    assert_eq!(m.register(15), 0);
    assert!(m.take_redraw_flag());
    // top row 0xF0: pixels (0..4, 0) on, (4, 0) off
    assert!(m.pixel(0, 0));
    assert!(m.pixel(1, 0));
    assert!(m.pixel(2, 0));
    assert!(m.pixel(3, 0));
    assert!(!m.pixel(4, 0));
    // second row 0x90: only columns 0 and 3
    assert!(m.pixel(0, 1));
    assert!(!m.pixel(1, 1));
    assert!(!m.pixel(2, 1));
    assert!(m.pixel(3, 1));
}

#[test]
fn drawing_twice_toggles_everything_back() {
    let mut m = ChipEight::new();
    assert_eq!(m.execute_op(Op::SetIndex(0), 0), Ok(()));
    assert_eq!(m.execute_op(Op::Draw(1, 2, 5), 0), Ok(()));
    assert_eq!(m.register(15), 0);
    assert_eq!(m.execute_op(Op::Draw(1, 2, 5), 0), Ok(()));
    // the second draw collides with the first draw's pixels and wipes them
    assert_eq!(m.register(15), 1);
    assert_all_pixels_off(&m);
}

#[test]
fn draw_collides_only_with_previously_lit_pixels() {
    let mut m = ChipEight::new();
    m.set_pixel(0, 0, true);
    assert_eq!(m.execute_op(Op::SetIndex(0), 0), Ok(()));
    assert_eq!(m.execute_op(Op::Draw(1, 2, 5), 0), Ok(()));
    assert_eq!(m.register(15), 1);
    // the lit pixel under a sprite pixel was toggled off
    assert!(!m.pixel(0, 0));
    let mut m2 = ChipEight::new();
    m2.set_pixel(20, 20, true);
    assert_eq!(m2.execute_op(Op::SetIndex(0), 0), Ok(()));
    assert_eq!(m2.execute_op(Op::Draw(1, 2, 5), 0), Ok(()));
    assert_eq!(m2.register(15), 0);
    assert!(m2.pixel(20, 20));
}

#[test]
fn draw_wraps_around_the_grid_edges() {
    let mut m = ChipEight::new();
    // one row 0x80: a single pixel at the start position
    assert_eq!(m.execute_op(Op::SetImm(0, 63), 0), Ok(()));
    assert_eq!(m.execute_op(Op::SetImm(1, 31), 0), Ok(()));
    assert_eq!(m.execute_op(Op::SetImm(2, 0xF0), 0), Ok(()));
    assert_eq!(m.execute_op(Op::SetIndex(0x300), 0), Ok(()));
    assert_eq!(m.execute_op(Op::StoreBcd(2), 0), Ok(()));
    // memory at 0x300 now holds 2, 4, 0; write a 0x80 row via registers
    assert_eq!(m.execute_op(Op::SetImm(3, 0x80), 0), Ok(()));
    assert_eq!(m.execute_op(Op::Assign(0, 3), 0), Ok(()));
    // store V0..V0 (the byte 0x80) at 0x310
    assert_eq!(m.execute_op(Op::SetIndex(0x310), 0), Ok(()));
    assert_eq!(m.execute_op(Op::StoreRegs(0), 0), Ok(()));
    assert_eq!(m.memory_at(0x310), 0x80);
    // draw that single pixel at (63, 31); then at (63 + 1, 31 + 1) wrapped
    assert_eq!(m.execute_op(Op::SetImm(4, 63), 0), Ok(()));
    assert_eq!(m.execute_op(Op::SetImm(5, 31), 0), Ok(()));
    assert_eq!(m.execute_op(Op::Draw(4, 5, 1), 0), Ok(()));
    assert!(m.pixel(63, 31));
    assert_eq!(m.execute_op(Op::SetImm(4, 64), 0), Ok(()));
    assert_eq!(m.execute_op(Op::SetImm(5, 32), 0), Ok(()));
    assert_eq!(m.execute_op(Op::Draw(4, 5, 1), 0), Ok(()));
    // (64 mod 64, 32 mod 32) lands on (0, 0)
    assert!(m.pixel(0, 0));
    assert_eq!(m.register(15), 0);
}

#[test]
fn draw_out_of_bounds_sprite_is_fatal_and_harmless() {
    let mut m = ChipEight::new();
    assert_eq!(m.execute_op(Op::SetIndex(0xFFF), 0), Ok(()));
    let pc = m.program_counter();
    assert_eq!(m.execute_op(Op::Draw(0, 0, 2), 0), Err(Chip8Error::OutOfBoundsAccess));
    assert_eq!(m.program_counter(), pc);
    assert_all_pixels_off(&m);
}

#[test]
fn store_bcd_writes_three_digits() {
    let mut m = ChipEight::new();
    assert_eq!(m.execute_op(Op::SetImm(2, 159), 0), Ok(()));
    assert_eq!(m.execute_op(Op::SetIndex(0x300), 0), Ok(()));
    assert_eq!(m.execute_op(Op::StoreBcd(2), 0), Ok(()));
    assert_eq!(m.memory_at(0x300), 1);
    assert_eq!(m.memory_at(0x301), 5);
    assert_eq!(m.memory_at(0x302), 9);
}

#[test]
fn store_bcd_out_of_bounds_is_fatal() {
    let mut m = ChipEight::new();
    assert_eq!(m.execute_op(Op::SetIndex(0xFFE), 0), Ok(()));
    assert_eq!(m.execute_op(Op::StoreBcd(0), 0), Err(Chip8Error::OutOfBoundsAccess));
}

#[test]
fn store_and_load_registers_round_trip() {
    let mut m = ChipEight::new();
    assert_eq!(m.execute_op(Op::SetImm(0, 11), 0), Ok(()));
    assert_eq!(m.execute_op(Op::SetImm(1, 22), 0), Ok(()));
    assert_eq!(m.execute_op(Op::SetImm(2, 33), 0), Ok(()));
    assert_eq!(m.execute_op(Op::SetIndex(0x400), 0), Ok(()));
    assert_eq!(m.execute_op(Op::StoreRegs(2), 0), Ok(()));
    assert_eq!(m.memory_at(0x400), 11);
    assert_eq!(m.memory_at(0x401), 22);
    assert_eq!(m.memory_at(0x402), 33);
    assert_eq!(m.memory_at(0x403), 0);
    assert_eq!(m.execute_op(Op::SetImm(0, 0), 0), Ok(()));
    assert_eq!(m.execute_op(Op::SetImm(1, 0), 0), Ok(()));
    assert_eq!(m.execute_op(Op::SetImm(2, 0), 0), Ok(()));
    assert_eq!(m.execute_op(Op::SetImm(3, 44), 0), Ok(()));
    assert_eq!(m.execute_op(Op::LoadRegs(2), 0), Ok(()));
    assert_eq!(m.register(0), 11);
    assert_eq!(m.register(1), 22);
    assert_eq!(m.register(2), 33);
    // V3 is past X and untouched
    assert_eq!(m.register(3), 44);
}

#[test]
fn bulk_copy_out_of_bounds_is_fatal() {
    let mut m = ChipEight::new();
    assert_eq!(m.execute_op(Op::SetIndex(0xFFD), 0), Ok(()));
    assert_eq!(m.execute_op(Op::StoreRegs(3), 0), Err(Chip8Error::OutOfBoundsAccess));
    assert_eq!(m.execute_op(Op::LoadRegs(3), 0), Err(Chip8Error::OutOfBoundsAccess));
    assert_eq!(m.execute_op(Op::StoreRegs(2), 0), Ok(()));
}

#[test]
fn font_char_points_into_the_font() {
    let mut m = ChipEight::new();
    assert_eq!(m.execute_op(Op::SetImm(0, 0xA), 0), Ok(()));
    assert_eq!(m.execute_op(Op::FontChar(0), 0), Ok(()));
    assert_eq!(m.index_register(), 50);
    // the glyph A starts with row 0xF0
    assert_eq!(m.memory_at(50), 0xF0);
}

#[test]
fn add_index_wraps_at_sixteen_bits() {
    let mut m = ChipEight::new();
    assert_eq!(m.execute_op(Op::SetImm(0, 255), 0), Ok(()));
    assert_eq!(m.execute_op(Op::SetIndex(0xFFF), 0), Ok(()));
    for _ in 0..241 {
        assert_eq!(m.execute_op(Op::AddIndex(0), 0), Ok(()));
    }
    // 0xFFF + 241 * 255 = 65550, which wraps to 14
    assert_eq!(m.index_register(), 14);
}

#[test]
fn random_masks_with_the_immediate() {
    let mut m = ChipEight::new();
    assert_eq!(m.execute_op(Op::Random(1, 0x0F), 0xAB), Ok(()));
    assert_eq!(m.register(1), 0x0B);
    assert_eq!(m.execute_op(Op::Random(2, 0x00), 0xFF), Ok(()));
    assert_eq!(m.register(2), 0);
}

#[test]
fn random_through_a_cycle_respects_the_mask() {
    let mut m = ChipEight::new();
    // CXNN with NN = 0: whatever byte was drawn, V0 becomes 0
    let prog = vec![0xC0u8, 0x00];
    assert_eq!(m.load_memory(&prog), Ok(()));
    assert_eq!(m.emulate_cycle(), Ok(()));
    assert_eq!(m.register(0), 0);
    assert_eq!(m.program_counter(), 0x202);
}

#[test]
fn key_skips_consult_the_keypad() {
    let mut m = ChipEight::new();
    assert_eq!(m.execute_op(Op::SetImm(0, 7), 0), Ok(()));
    m.set_key(7, true);
    let pc = m.program_counter();
    assert_eq!(m.execute_op(Op::SkipKeyPressed(0), 0), Ok(()));
    assert_eq!(m.program_counter(), pc + 4);
    let pc = m.program_counter();
    assert_eq!(m.execute_op(Op::SkipKeyNotPressed(0), 0), Ok(()));
    assert_eq!(m.program_counter(), pc + 2);
    m.set_key(7, false);
    let pc = m.program_counter();
    assert_eq!(m.execute_op(Op::SkipKeyPressed(0), 0), Ok(()));
    assert_eq!(m.program_counter(), pc + 2);
}

#[test]
fn wait_key_retries_until_a_key_arrives() {
    let mut m = ChipEight::new();
    let prog = vec![0xF1u8, 0x0A];
    assert_eq!(m.load_memory(&prog), Ok(()));
    assert_eq!(m.emulate_cycle(), Ok(()));
    // no key pressed: the instruction is retried, nothing moved
    assert_eq!(m.program_counter(), 0x200);
    assert_eq!(m.emulate_cycle(), Ok(()));
    assert_eq!(m.program_counter(), 0x200);
    m.set_key(9, true);
    m.set_key(12, true);
    assert_eq!(m.emulate_cycle(), Ok(()));
    // the lowest pressed key is reported
    assert_eq!(m.register(1), 9);
    assert_eq!(m.program_counter(), 0x202);
}

#[test]
fn unknown_opcode_is_reported_and_skipped() {
    let mut m = ChipEight::new();
    let prog = vec![0x0Fu8, 0xFF, 0x60, 0x09];
    assert_eq!(m.load_memory(&prog), Ok(()));
    assert_eq!(m.emulate_cycle(), Err(Chip8Error::UnknownOpcode(0x0FFF)));
    // PC advanced past the garbage word, the run goes on
    assert_eq!(m.program_counter(), 0x202);
    assert_eq!(m.emulate_cycle(), Ok(()));
    assert_eq!(m.register(0), 9);
}

#[test]
fn fetch_at_the_memory_edge_is_fatal() {
    let mut m = ChipEight::new();
    assert_eq!(m.execute_op(Op::Jump(0xFFF), 0), Ok(()));
    assert_eq!(m.emulate_cycle(), Err(Chip8Error::OutOfBoundsAccess));
    assert_eq!(m.program_counter(), 0xFFF);
}
