use chip8::cpu::{Step, CPU};
use chip8::display::Display;
use chip8::machine::{key_to_pad, Machine, State, QUIT_KEY};
use chip8::ram::{RomError, RAM};

#[test]
fn machine_new_is_paused_and_blank() {
    let m = Machine::new();
    assert_eq!(m.state, State::Paused);
    assert_eq!(m.cpu.pc, 0x200);
    assert_eq!(m.keypad.len(), 16);
    assert_eq!(m.ram.read(0), 0);
}

#[test]
fn init_loads_font_and_rom_and_runs() {
    let mut m = Machine::new();
    let rom: Vec<u8> = vec![0x12, 0x00, 0xAB];
    assert_eq!(m.init(&rom), Ok(()));
    assert_eq!(m.state, State::Running);
    // The standard glyph table, bit for bit, at the bottom of memory.
    let font_head = [0xF0, 0x90, 0x90, 0x90, 0xF0, 0x20, 0x60, 0x20, 0x20, 0x70];
    for (k, b) in font_head.iter().enumerate() {
        assert_eq!(m.ram.read(k), *b);
    }
    let font_tail = [0xF0, 0x80, 0xF0, 0x80, 0x80];
    for (k, b) in font_tail.iter().enumerate() {
        assert_eq!(m.ram.read(75 + k), *b);
    }
    // The image verbatim from the entry offset.
    assert_eq!(m.ram.read(0x200), 0x12);
    assert_eq!(m.ram.read(0x201), 0x00);
    assert_eq!(m.ram.read(0x202), 0xAB);
    assert_eq!(m.ram.read(0x203), 0);
}

#[test]
fn init_rejects_oversize_rom_untouched() {
    let mut m = Machine::new();
    let rom: Vec<u8> = vec![0xFF; 3585];
    assert_eq!(m.init(&rom), Err(RomError::TooLarge(3585, 3584)));
    assert_eq!(m.state, State::Paused); // the machine did not start
    assert_eq!(m.ram.read(0), 0); // not even the font was written
    assert_eq!(m.ram.read(0x200), 0);
}

#[test]
fn init_accepts_largest_rom() {
    let mut m = Machine::new();
    let rom: Vec<u8> = vec![0x77; 3584];
    assert_eq!(m.init(&rom), Ok(()));
    assert_eq!(m.ram.read(4095), 0x77);
}

#[test]
fn clear_and_jump_rom_loops_quietly() {
    // Clear screen, then jump back to the entry offset, forever.
    let mut m = Machine::new();
    let rom: Vec<u8> = vec![0x00, 0xE0, 0x12, 0x00];
    m.init(&rom).unwrap();
    for _ in 0..10 {
        let r = m.tick(None, None);
        assert_eq!(r, Ok(0)); // no malformed dispatch was ever reported
        assert!(m.cpu.pc == 0x200 || m.cpu.pc == 0x202);
        for k in 0..2048 {
            assert!(!m.display.read_pixel(k));
        }
    }
}

#[test]
fn tick_updates_timers_once_per_call() {
    let mut m = Machine::new();
    // A jump-to-self ROM keeps the burst harmless.
    let rom: Vec<u8> = vec![0x12, 0x00];
    m.init(&rom).unwrap();
    m.cpu.delay_timer = 3;
    m.cpu.sound_timer = 1;
    m.tick(None, None).unwrap();
    assert_eq!(m.cpu.delay_timer, 2); // one decrement per tick, not per instruction
    assert_eq!(m.cpu.sound_timer, 0);
    m.tick(None, None).unwrap();
    m.tick(None, None).unwrap();
    m.tick(None, None).unwrap();
    assert_eq!(m.cpu.delay_timer, 0);
    assert_eq!(m.cpu.sound_timer, 0); // timers never go negative
}

#[test]
fn handle_input_presses_and_releases_keys() {
    let mut m = Machine::new();
    m.handle_input(Some('1'), None);
    assert!(m.keypad[0x1]);
    m.handle_input(Some('4'), None);
    assert!(m.keypad[0xC]);
    m.handle_input(Some('x'), None);
    assert!(m.keypad[0x0]);
    m.handle_input(None, Some('1'));
    assert!(!m.keypad[0x1]);
    m.handle_input(Some('!'), None); // not a keypad key: nothing changes
    let pressed: Vec<usize> = (0..16).filter(|&k| m.keypad[k]).collect();
    assert_eq!(pressed, vec![0x0, 0xC]);
    assert_eq!(m.state, State::Paused);
}

#[test]
fn quit_key_quits() {
    let mut m = Machine::new();
    let rom: Vec<u8> = vec![0x12, 0x00];
    m.init(&rom).unwrap();
    assert_eq!(m.state, State::Running);
    m.handle_input(Some(QUIT_KEY), None);
    assert_eq!(m.state, State::Quit);
}

#[test]
fn key_map_covers_the_classic_block() {
    assert_eq!(key_to_pad('1'), Some(0x1));
    assert_eq!(key_to_pad('2'), Some(0x2));
    assert_eq!(key_to_pad('3'), Some(0x3));
    assert_eq!(key_to_pad('4'), Some(0xC));
    assert_eq!(key_to_pad('q'), Some(0x4));
    assert_eq!(key_to_pad('w'), Some(0x5));
    assert_eq!(key_to_pad('e'), Some(0x6));
    assert_eq!(key_to_pad('r'), Some(0xD));
    assert_eq!(key_to_pad('a'), Some(0x7));
    assert_eq!(key_to_pad('s'), Some(0x8));
    assert_eq!(key_to_pad('d'), Some(0x9));
    assert_eq!(key_to_pad('f'), Some(0xE));
    assert_eq!(key_to_pad('z'), Some(0xA));
    assert_eq!(key_to_pad('x'), Some(0x0));
    assert_eq!(key_to_pad('c'), Some(0xB));
    assert_eq!(key_to_pad('v'), Some(0xF));
    assert_eq!(key_to_pad('p'), None);
}

#[test]
fn display_reads_writes_and_clears() {
    let mut d = Display::new();
    assert_eq!(d.get_size(), 2048);
    assert!(!d.read_pixel(0));
    d.write_pixel(0, true);
    d.write_pixel(2047, true);
    assert!(d.read_pixel(0));
    assert!(d.read_pixel(2047));
    d.clear();
    assert!(!d.read_pixel(0));
    assert!(!d.read_pixel(2047));
}

#[test]
fn ram_reads_back_writes() {
    let mut ram = RAM::new();
    ram.write(0x123, 0xAB);
    assert_eq!(ram.read(0x123), 0xAB);
    assert_eq!(ram.read(0x124), 0);
}

#[test]
fn wait_for_key_rom_busy_polls_across_ticks() {
    // Wait for a key, then jump to self.
    let mut m = Machine::new();
    let rom: Vec<u8> = vec![0xF1, 0x0A, 0x12, 0x02];
    m.init(&rom).unwrap();
    m.tick(None, None).unwrap();
    assert_eq!(m.cpu.pc, 0x200); // still waiting on the same instruction
    assert_eq!(m.cpu.v[1], 0);
    m.tick(Some('w'), None).unwrap(); // key 5 pressed this tick
    assert_eq!(m.cpu.v[1], 5);
    assert_eq!(m.cpu.pc, 0x202);
}

#[test]
fn burst_runs_eight_instructions_per_tick() {
    // A counting ROM: add 1 to V0, then jump back to the add.
    let mut m = Machine::new();
    let rom: Vec<u8> = vec![0x70, 0x01, 0x12, 0x00];
    m.init(&rom).unwrap();
    m.tick(None, None).unwrap();
    // 8 instructions per tick alternate add and jump: 4 adds.
    assert_eq!(m.cpu.v[0], 4);
}

#[test]
fn tick_counts_unknown_opcode_reports() {
    // Eight words of 0x0123: every instruction is an unknown sub-selector.
    let mut bytes: Vec<u8> = Vec::new();
    for _ in 0..8 {
        bytes.push(0x01);
        bytes.push(0x23);
    }
    let mut m = Machine::new();
    m.init(&bytes).unwrap();
    let r = m.tick(None, None);
    assert_eq!(r, Ok(8)); // every instruction of the burst was reported
}

#[test]
fn step_values_compare() {
    assert_eq!(Step::Executed, Step::Executed);
    assert_ne!(Step::Executed, Step::UnknownOpcode);
    let cpu = CPU::new();
    assert_eq!(cpu.stack.len(), 12);
}
