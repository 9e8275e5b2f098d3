use chip8::cpu::{Fault, Step, CPU};
use chip8::display::Display;
use chip8::ram::RAM;

fn setup() -> (CPU, RAM, Display, Vec<bool>) {
    (CPU::new(), RAM::new(), Display::new(), vec![false; 16])
}

fn put_word(ram: &mut RAM, addr: usize, w: u16) {
    ram.write(addr, (w >> 8) as u8);
    ram.write(addr + 1, (w & 0xff) as u8);
}

/// Writes the opcode word at the current program counter and executes it.
fn exec(
    cpu: &mut CPU,
    ram: &mut RAM,
    d: &mut Display,
    keys: &Vec<bool>,
    w: u16,
) -> Result<Step, Fault> {
    let pc = cpu.pc as usize;
    put_word(ram, pc, w);
    cpu.exec_instruction(ram, d, keys)
}

#[test]
fn op_6xnn_sets_register_only() {
    let (mut cpu, mut ram, mut d, keys) = setup();
    let pc0 = cpu.pc;
    assert_eq!(cpu.v[0xA], 0);
    let r = exec(&mut cpu, &mut ram, &mut d, &keys, 0x6A3F);
    assert_eq!(r, Ok(Step::Executed));
    assert_eq!(cpu.v[0xA], 0x3F);
    assert_eq!(cpu.pc, pc0 + 2);
    for i in 0..16 {
        if i != 0xA {
            assert_eq!(cpu.v[i], 0);
        }
    }
}

#[test]
fn op_7xnn_wraps_and_leaves_flag() {
    let (mut cpu, mut ram, mut d, keys) = setup();
    cpu.v[3] = 250;
    cpu.v[15] = 7;
    let r = exec(&mut cpu, &mut ram, &mut d, &keys, 0x730A);
    assert_eq!(r, Ok(Step::Executed));
    assert_eq!(cpu.v[3], 4); // (250 + 10) mod 256
    assert_eq!(cpu.v[15], 7); // no flag side effect
}

#[test]
fn op_8xy4_overflow_sets_carry() {
    let (mut cpu, mut ram, mut d, keys) = setup();
    cpu.v[1] = 250;
    cpu.v[2] = 10;
    let r = exec(&mut cpu, &mut ram, &mut d, &keys, 0x8124);
    assert_eq!(r, Ok(Step::Executed));
    assert_eq!(cpu.v[1], 4); // 260 mod 256
    assert_eq!(cpu.v[15], 1); // 260 > 255
}

#[test]
fn op_8xy4_no_overflow_clears_carry() {
    let (mut cpu, mut ram, mut d, keys) = setup();
    cpu.v[1] = 100;
    cpu.v[2] = 50;
    cpu.v[15] = 1;
    exec(&mut cpu, &mut ram, &mut d, &keys, 0x8124).unwrap();
    assert_eq!(cpu.v[1], 150);
    assert_eq!(cpu.v[15], 0);
}

#[test]
fn op_8xy5_borrow_clears_flag() {
    let (mut cpu, mut ram, mut d, keys) = setup();
    cpu.v[1] = 10;
    cpu.v[2] = 250;
    let r = exec(&mut cpu, &mut ram, &mut d, &keys, 0x8125);
    assert_eq!(r, Ok(Step::Executed));
    assert_eq!(cpu.v[1], 16); // (10 - 250) mod 256
    assert_eq!(cpu.v[15], 0); // V[y] > V[x]
}

#[test]
fn op_8xy5_no_borrow_sets_flag() {
    let (mut cpu, mut ram, mut d, keys) = setup();
    cpu.v[1] = 250;
    cpu.v[2] = 10;
    exec(&mut cpu, &mut ram, &mut d, &keys, 0x8125).unwrap();
    assert_eq!(cpu.v[1], 240);
    assert_eq!(cpu.v[15], 1);
}

#[test]
fn op_8xy0_copies() {
    let (mut cpu, mut ram, mut d, keys) = setup();
    cpu.v[2] = 99;
    exec(&mut cpu, &mut ram, &mut d, &keys, 0x8120).unwrap();
    assert_eq!(cpu.v[1], 99);
}

#[test]
fn op_8xy1_or_forces_flag_zero() {
    let (mut cpu, mut ram, mut d, keys) = setup();
    cpu.v[1] = 0b1010_0000;
    cpu.v[2] = 0b0000_0101;
    cpu.v[15] = 1;
    exec(&mut cpu, &mut ram, &mut d, &keys, 0x8121).unwrap();
    assert_eq!(cpu.v[1], 0b1010_0101);
    assert_eq!(cpu.v[15], 0);
}

#[test]
fn op_8xy2_and_forces_flag_zero() {
    let (mut cpu, mut ram, mut d, keys) = setup();
    cpu.v[1] = 0b1100_1100;
    cpu.v[2] = 0b1010_1010;
    cpu.v[15] = 1;
    exec(&mut cpu, &mut ram, &mut d, &keys, 0x8122).unwrap();
    assert_eq!(cpu.v[1], 0b1000_1000);
    assert_eq!(cpu.v[15], 0);
}

#[test]
fn op_8xy3_xor_forces_flag_zero() {
    let (mut cpu, mut ram, mut d, keys) = setup();
    cpu.v[1] = 0b1100_1100;
    cpu.v[2] = 0b1010_1010;
    cpu.v[15] = 1;
    exec(&mut cpu, &mut ram, &mut d, &keys, 0x8123).unwrap();
    assert_eq!(cpu.v[1], 0b0110_0110);
    assert_eq!(cpu.v[15], 0);
}

#[test]
fn op_8xy6_shifts_right_flag_low_bit() {
    let (mut cpu, mut ram, mut d, keys) = setup();
    cpu.v[1] = 0b0000_0101;
    exec(&mut cpu, &mut ram, &mut d, &keys, 0x8126).unwrap();
    assert_eq!(cpu.v[1], 0b0000_0010);
    assert_eq!(cpu.v[15], 1);
}

#[test]
fn op_8xy7_reverse_subtract() {
    let (mut cpu, mut ram, mut d, keys) = setup();
    cpu.v[1] = 10;
    cpu.v[2] = 250;
    exec(&mut cpu, &mut ram, &mut d, &keys, 0x8127).unwrap();
    assert_eq!(cpu.v[1], 240); // 250 - 10
    assert_eq!(cpu.v[15], 1); // V[x] <= V[y]
}

#[test]
fn op_8xye_shifts_left_flag_high_bit() {
    let (mut cpu, mut ram, mut d, keys) = setup();
    cpu.v[1] = 0b1100_0000;
    exec(&mut cpu, &mut ram, &mut d, &keys, 0x812E).unwrap();
    assert_eq!(cpu.v[1], 0b1000_0000);
    assert_eq!(cpu.v[15], 1);
}

#[test]
fn op_8xy4_flag_register_as_target() {
    // With x = 0xF the sum is taken before the flag write, and the sum's
    // write lands last, overwriting the carry.
    let (mut cpu, mut ram, mut d, keys) = setup();
    cpu.v[0xF] = 200;
    cpu.v[0xE] = 100;
    exec(&mut cpu, &mut ram, &mut d, &keys, 0x8FE4).unwrap();
    assert_eq!(cpu.v[0xF], 44); // (200 + 100) mod 256
}

#[test]
fn op_8xy5_flag_register_as_operand() {
    // Every other arithmetic sub-opcode writes the flag first and reads
    // its operands back afterwards.
    let (mut cpu, mut ram, mut d, keys) = setup();
    cpu.v[1] = 10;
    cpu.v[0xF] = 3;
    exec(&mut cpu, &mut ram, &mut d, &keys, 0x81F5).unwrap();
    // flag = (3 <= 10) = 1 is written first; then V[1] = 10 - 1 = 9.
    assert_eq!(cpu.v[1], 9);
    assert_eq!(cpu.v[0xF], 1);
}

#[test]
fn op_8_unknown_sub_selector_reported() {
    let (mut cpu, mut ram, mut d, keys) = setup();
    let r = exec(&mut cpu, &mut ram, &mut d, &keys, 0x8129);
    assert_eq!(r, Ok(Step::UnknownOpcode));
}

#[test]
fn op_3xnn_skips_on_equal() {
    let (mut cpu, mut ram, mut d, keys) = setup();
    cpu.v[1] = 0x42;
    let pc0 = cpu.pc;
    exec(&mut cpu, &mut ram, &mut d, &keys, 0x3142).unwrap();
    assert_eq!(cpu.pc, pc0 + 4);
    let pc1 = cpu.pc;
    exec(&mut cpu, &mut ram, &mut d, &keys, 0x3143).unwrap();
    assert_eq!(cpu.pc, pc1 + 2);
}

#[test]
fn op_4xnn_skips_on_not_equal() {
    let (mut cpu, mut ram, mut d, keys) = setup();
    cpu.v[1] = 0x42;
    let pc0 = cpu.pc;
    exec(&mut cpu, &mut ram, &mut d, &keys, 0x4142).unwrap();
    assert_eq!(cpu.pc, pc0 + 2);
    let pc1 = cpu.pc;
    exec(&mut cpu, &mut ram, &mut d, &keys, 0x4143).unwrap();
    assert_eq!(cpu.pc, pc1 + 4);
}

#[test]
fn op_5xy0_skips_on_register_equal() {
    let (mut cpu, mut ram, mut d, keys) = setup();
    cpu.v[1] = 7;
    cpu.v[2] = 7;
    let pc0 = cpu.pc;
    exec(&mut cpu, &mut ram, &mut d, &keys, 0x5120).unwrap();
    assert_eq!(cpu.pc, pc0 + 4);
}

#[test]
fn op_5xy_nonzero_low_nibble_reported() {
    let (mut cpu, mut ram, mut d, keys) = setup();
    let pc0 = cpu.pc;
    let r = exec(&mut cpu, &mut ram, &mut d, &keys, 0x5121);
    assert_eq!(r, Ok(Step::UnknownOpcode));
    assert_eq!(cpu.pc, pc0 + 2); // no skip, just the fetch advance
}

#[test]
fn op_9xy0_skips_on_register_not_equal() {
    let (mut cpu, mut ram, mut d, keys) = setup();
    cpu.v[1] = 7;
    cpu.v[2] = 8;
    let pc0 = cpu.pc;
    exec(&mut cpu, &mut ram, &mut d, &keys, 0x9120).unwrap();
    assert_eq!(cpu.pc, pc0 + 4);
}

#[test]
fn op_1nnn_jumps() {
    let (mut cpu, mut ram, mut d, keys) = setup();
    exec(&mut cpu, &mut ram, &mut d, &keys, 0x1ABC).unwrap();
    assert_eq!(cpu.pc, 0xABC);
}

#[test]
fn op_annn_loads_index() {
    let (mut cpu, mut ram, mut d, keys) = setup();
    exec(&mut cpu, &mut ram, &mut d, &keys, 0xA123).unwrap();
    assert_eq!(cpu.i, 0x123);
}

#[test]
fn op_bnnn_jumps_with_v0_offset() {
    let (mut cpu, mut ram, mut d, keys) = setup();
    cpu.v[0] = 5;
    exec(&mut cpu, &mut ram, &mut d, &keys, 0xB300).unwrap();
    assert_eq!(cpu.pc, 0x305);
}

#[test]
fn op_cxnn_result_is_masked() {
    let (mut cpu, mut ram, mut d, keys) = setup();
    exec(&mut cpu, &mut ram, &mut d, &keys, 0xC10F).unwrap();
    assert_eq!(cpu.v[1] & 0xF0, 0);
}

#[test]
fn op_cx00_mask_zero_gives_zero() {
    let (mut cpu, mut ram, mut d, keys) = setup();
    cpu.v[1] = 0xAB;
    exec(&mut cpu, &mut ram, &mut d, &keys, 0xC100).unwrap();
    assert_eq!(cpu.v[1], 0);
}

#[test]
fn call_return_round_trip() {
    let (mut cpu, mut ram, mut d, keys) = setup();
    let pc0 = cpu.pc;
    put_word(&mut ram, 0x400, 0x00EE);
    exec(&mut cpu, &mut ram, &mut d, &keys, 0x2400).unwrap();
    assert_eq!(cpu.pc, 0x400);
    assert_eq!(cpu.stack_ptr, 1);
    let r = cpu.exec_instruction(&mut ram, &mut d, &keys);
    assert_eq!(r, Ok(Step::Executed));
    assert_eq!(cpu.pc, pc0 + 2); // back to the instruction after the call
    assert_eq!(cpu.stack_ptr, 0);
}

#[test]
fn op_ex9e_skips_on_pressed_key() {
    let (mut cpu, mut ram, mut d, mut keys) = setup();
    cpu.v[1] = 5;
    keys[5] = true;
    let pc0 = cpu.pc;
    exec(&mut cpu, &mut ram, &mut d, &keys, 0xE19E).unwrap();
    assert_eq!(cpu.pc, pc0 + 4);
}

#[test]
fn op_exa1_skips_on_released_key() {
    let (mut cpu, mut ram, mut d, keys) = setup();
    cpu.v[1] = 5;
    let pc0 = cpu.pc;
    exec(&mut cpu, &mut ram, &mut d, &keys, 0xE1A1).unwrap();
    assert_eq!(cpu.pc, pc0 + 4);
}

#[test]
fn op_fx0a_rewinds_without_key() {
    let (mut cpu, mut ram, mut d, keys) = setup();
    let pc0 = cpu.pc;
    exec(&mut cpu, &mut ram, &mut d, &keys, 0xF10A).unwrap();
    assert_eq!(cpu.pc, pc0); // busy-poll: same instruction next cycle
}

#[test]
fn op_fx0a_takes_first_pressed_key() {
    let (mut cpu, mut ram, mut d, mut keys) = setup();
    keys[3] = true;
    keys[9] = true;
    let pc0 = cpu.pc;
    exec(&mut cpu, &mut ram, &mut d, &keys, 0xF10A).unwrap();
    assert_eq!(cpu.v[1], 3); // lowest index wins
    assert_eq!(cpu.pc, pc0 + 2);
}

#[test]
fn op_fx07_15_18_move_timers() {
    let (mut cpu, mut ram, mut d, keys) = setup();
    cpu.v[1] = 42;
    exec(&mut cpu, &mut ram, &mut d, &keys, 0xF115).unwrap();
    assert_eq!(cpu.delay_timer, 42);
    exec(&mut cpu, &mut ram, &mut d, &keys, 0xF118).unwrap();
    assert_eq!(cpu.sound_timer, 42);
    assert!(cpu.tone_on());
    exec(&mut cpu, &mut ram, &mut d, &keys, 0xF207).unwrap();
    assert_eq!(cpu.v[2], 42);
}

#[test]
fn op_fx1e_adds_to_index() {
    let (mut cpu, mut ram, mut d, keys) = setup();
    cpu.i = 0x100;
    cpu.v[1] = 0x20;
    exec(&mut cpu, &mut ram, &mut d, &keys, 0xF11E).unwrap();
    assert_eq!(cpu.i, 0x120);
}

#[test]
fn op_fx29_points_at_glyph() {
    let (mut cpu, mut ram, mut d, keys) = setup();
    cpu.v[1] = 4;
    exec(&mut cpu, &mut ram, &mut d, &keys, 0xF129).unwrap();
    assert_eq!(cpu.i, 20); // glyphs are 5 bytes each
}

#[test]
fn op_fx33_bcd_unpack() {
    let (mut cpu, mut ram, mut d, keys) = setup();
    cpu.v[1] = 234;
    cpu.i = 0x300;
    exec(&mut cpu, &mut ram, &mut d, &keys, 0xF133).unwrap();
    assert_eq!(ram.read(0x300), 2);
    assert_eq!(ram.read(0x301), 3);
    assert_eq!(ram.read(0x302), 4);
}

#[test]
fn op_fx55_fx65_round_trip() {
    let (mut cpu, mut ram, mut d, keys) = setup();
    for i in 0..4 {
        cpu.v[i] = (10 + i as u8) * 2;
    }
    cpu.i = 0x300;
    exec(&mut cpu, &mut ram, &mut d, &keys, 0xF355).unwrap();
    assert_eq!(ram.read(0x300), 20);
    assert_eq!(ram.read(0x303), 26);
    assert_eq!(ram.read(0x304), 0); // one past V[x] untouched
    for i in 0..16 {
        cpu.v[i] = 0;
    }
    exec(&mut cpu, &mut ram, &mut d, &keys, 0xF365).unwrap();
    assert_eq!(cpu.v[0], 20);
    assert_eq!(cpu.v[1], 22);
    assert_eq!(cpu.v[2], 24);
    assert_eq!(cpu.v[3], 26);
    assert_eq!(cpu.v[4], 0);
}

#[test]
fn op_dxyn_draws_glyph_rows() {
    let (mut cpu, mut ram, mut d, keys) = setup();
    // Sprite 0xF0, 0x90: a two-row box top at origin (0, 0).
    ram.write(0x300, 0xF0);
    ram.write(0x301, 0x90);
    cpu.i = 0x300;
    exec(&mut cpu, &mut ram, &mut d, &keys, 0xD012).unwrap();
    // Row 0: 1111 0000.
    for x in 0..4 {
        assert!(d.read_pixel(x));
    }
    for x in 4..8 {
        assert!(!d.read_pixel(x));
    }
    // Row 1: 1001 0000.
    assert!(d.read_pixel(64));
    assert!(!d.read_pixel(65));
    assert!(!d.read_pixel(66));
    assert!(d.read_pixel(67));
    assert_eq!(cpu.v[15], 0); // nothing was lit before
}

#[test]
fn op_dxyn_drawing_twice_restores_and_collides() {
    let (mut cpu, mut ram, mut d, keys) = setup();
    ram.write(0x300, 0xF0);
    ram.write(0x301, 0x90);
    cpu.i = 0x300;
    cpu.v[1] = 12;
    cpu.v[2] = 7;
    exec(&mut cpu, &mut ram, &mut d, &keys, 0xD122).unwrap();
    assert_eq!(cpu.v[15], 0);
    assert!(d.read_pixel(7 * 64 + 12));
    exec(&mut cpu, &mut ram, &mut d, &keys, 0xD122).unwrap();
    assert_eq!(cpu.v[15], 1); // the second draw toggles lit pixels off
    for k in 0..2048 {
        assert!(!d.read_pixel(k)); // every affected pixel is back off
    }
}

#[test]
fn op_dxyn_clips_at_right_edge() {
    let (mut cpu, mut ram, mut d, keys) = setup();
    ram.write(0x300, 0xFF);
    cpu.i = 0x300;
    cpu.v[1] = 60;
    cpu.v[2] = 0;
    exec(&mut cpu, &mut ram, &mut d, &keys, 0xD121).unwrap();
    for x in 60..64 {
        assert!(d.read_pixel(x));
    }
    // No wraparound into the next row.
    for x in 0..8 {
        assert!(!d.read_pixel(64 + x));
    }
    assert!(!d.read_pixel(0));
}

#[test]
fn op_dxyn_origin_wraps_into_grid() {
    let (mut cpu, mut ram, mut d, keys) = setup();
    ram.write(0x300, 0x80);
    cpu.i = 0x300;
    cpu.v[1] = 64; // 64 mod 64 = 0
    cpu.v[2] = 33; // 33 mod 32 = 1
    exec(&mut cpu, &mut ram, &mut d, &keys, 0xD121).unwrap();
    assert!(d.read_pixel(64));
}

#[test]
fn op_00e0_clears_display() {
    let (mut cpu, mut ram, mut d, keys) = setup();
    d.write_pixel(100, true);
    exec(&mut cpu, &mut ram, &mut d, &keys, 0x00E0).unwrap();
    for k in 0..2048 {
        assert!(!d.read_pixel(k));
    }
}

#[test]
fn update_timers_decrements_only_when_positive() {
    let mut cpu = CPU::new();
    cpu.delay_timer = 5;
    cpu.sound_timer = 0;
    cpu.update_timers();
    assert_eq!(cpu.delay_timer, 4);
    assert_eq!(cpu.sound_timer, 0); // never goes below zero
    cpu.delay_timer = 0;
    cpu.sound_timer = 1;
    cpu.update_timers();
    assert_eq!(cpu.delay_timer, 0);
    assert_eq!(cpu.sound_timer, 0);
    assert!(!cpu.tone_on());
}
