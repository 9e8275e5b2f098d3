use chip8::cpu::{Fault, Step, CPU};
use chip8::display::Display;
use chip8::instruction::Instruction;
use chip8::ram::RAM;

fn setup() -> (CPU, RAM, Display, Vec<bool>) {
    (CPU::new(), RAM::new(), Display::new(), vec![false; 16])
}

fn put_word(ram: &mut RAM, addr: usize, w: u16) {
    ram.write(addr, (w >> 8) as u8);
    ram.write(addr + 1, (w & 0xff) as u8);
}

fn exec(
    cpu: &mut CPU,
    ram: &mut RAM,
    d: &mut Display,
    keys: &Vec<bool>,
    w: u16,
) -> Result<Step, Fault> {
    let pc = cpu.pc as usize;
    put_word(ram, pc, w);
    cpu.exec_instruction(ram, d, keys)
}

#[test]
fn instruction_from_splits_fields() {
    let inst = Instruction::from(0xAB, 0xCD);
    assert_eq!(inst.opcode, 0xABCD);
    assert_eq!(inst.nnn, 0xBCD);
    assert_eq!(inst.nn, 0xCD);
    assert_eq!(inst.n, 0xD);
    assert_eq!(inst.x, 0xB);
    assert_eq!(inst.y, 0xC);
}

#[test]
fn instruction_new_is_all_zero() {
    let inst = Instruction::new();
    assert_eq!(inst.opcode, 0);
    assert_eq!(inst.nnn, 0);
    assert_eq!(inst.nn, 0);
    assert_eq!(inst.n, 0);
    assert_eq!(inst.x, 0);
    assert_eq!(inst.y, 0);
}

#[test]
fn cpu_new_starts_at_entry_point() {
    let cpu = CPU::new();
    assert_eq!(cpu.pc, 0x200);
    assert_eq!(cpu.i, 0);
    assert_eq!(cpu.stack_ptr, 0);
    assert_eq!(cpu.delay_timer, 0);
    assert_eq!(cpu.sound_timer, 0);
    for i in 0..16 {
        assert_eq!(cpu.v[i], 0);
    }
}

#[test]
fn stack_overflow_on_thirteenth_call() {
    let (mut cpu, mut ram, mut d, keys) = setup();
    // A call to the call's own address: each execution pushes once.
    put_word(&mut ram, 0x200, 0x2200);
    for _ in 0..12 {
        let r = cpu.exec_instruction(&mut ram, &mut d, &keys);
        assert_eq!(r, Ok(Step::Executed));
    }
    assert_eq!(cpu.stack_ptr, 12);
    let r = cpu.exec_instruction(&mut ram, &mut d, &keys);
    assert_eq!(r, Err(Fault::StackOverflow));
    assert_eq!(cpu.stack_ptr, 12); // nothing was corrupted
}

#[test]
fn stack_underflow_on_return_without_call() {
    let (mut cpu, mut ram, mut d, keys) = setup();
    let r = exec(&mut cpu, &mut ram, &mut d, &keys, 0x00EE);
    assert_eq!(r, Err(Fault::StackUnderflow));
    assert_eq!(cpu.stack_ptr, 0);
}

#[test]
fn fetch_past_memory_faults_untouched() {
    let (mut cpu, mut ram, mut d, keys) = setup();
    cpu.pc = 4095;
    let r = cpu.exec_instruction(&mut ram, &mut d, &keys);
    assert_eq!(r, Err(Fault::MemOutOfBounds));
    assert_eq!(cpu.pc, 4095); // a fetch fault changes nothing
}

#[test]
fn bcd_past_memory_faults() {
    let (mut cpu, mut ram, mut d, keys) = setup();
    cpu.i = 4094;
    cpu.v[1] = 77;
    let r = exec(&mut cpu, &mut ram, &mut d, &keys, 0xF133);
    assert_eq!(r, Err(Fault::MemOutOfBounds));
    assert_eq!(ram.read(4094), 0);
    assert_eq!(ram.read(4095), 0);
}

#[test]
fn register_store_past_memory_faults() {
    let (mut cpu, mut ram, mut d, keys) = setup();
    cpu.i = 4094;
    let r = exec(&mut cpu, &mut ram, &mut d, &keys, 0xF255);
    assert_eq!(r, Err(Fault::MemOutOfBounds));
}

#[test]
fn register_load_past_memory_faults() {
    let (mut cpu, mut ram, mut d, keys) = setup();
    cpu.i = 4095;
    let r = exec(&mut cpu, &mut ram, &mut d, &keys, 0xF165);
    assert_eq!(r, Err(Fault::MemOutOfBounds));
}

#[test]
fn draw_rows_past_memory_fault() {
    let (mut cpu, mut ram, mut d, keys) = setup();
    cpu.i = 4095;
    let r = exec(&mut cpu, &mut ram, &mut d, &keys, 0xD012);
    assert_eq!(r, Err(Fault::MemOutOfBounds));
    for k in 0..2048 {
        assert!(!d.read_pixel(k)); // nothing was drawn
    }
}

#[test]
fn key_test_with_bad_register_value_faults() {
    let (mut cpu, mut ram, mut d, keys) = setup();
    cpu.v[1] = 99;
    let r = exec(&mut cpu, &mut ram, &mut d, &keys, 0xE19E);
    assert_eq!(r, Err(Fault::KeyOutOfRange));
    let (mut cpu2, mut ram2, mut d2, keys2) = setup();
    cpu2.v[1] = 16;
    let r2 = exec(&mut cpu2, &mut ram2, &mut d2, &keys2, 0xE1A1);
    assert_eq!(r2, Err(Fault::KeyOutOfRange));
}

#[test]
fn unknown_selectors_are_reported_not_fatal() {
    let (mut cpu, mut ram, mut d, keys) = setup();
    assert_eq!(exec(&mut cpu, &mut ram, &mut d, &keys, 0x0123), Ok(Step::UnknownOpcode));
    assert_eq!(exec(&mut cpu, &mut ram, &mut d, &keys, 0xE1FF), Ok(Step::UnknownOpcode));
    assert_eq!(exec(&mut cpu, &mut ram, &mut d, &keys, 0xF1FF), Ok(Step::UnknownOpcode));
    // Execution continued: three fetches advanced the counter.
    assert_eq!(cpu.pc, 0x206);
}
