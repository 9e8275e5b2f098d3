//! The enclosing machine: memory, display, keypad and engine, with ROM
//! loading and the per-tick decision step that the outer driver loop calls.

use vstd::prelude::*;

use crate::cpu::{cs_wf, init_state, tick_fault_rel, tick_rel, Fault, CPU};
use crate::display::{blank_display, Display};
use crate::ram::{with_rom, RomError, MAX_ROM_SIZE, MEM_SIZE, RAM};

verus! {

/// The machine's run state; only the input layer moves it to `Quit`.
#[derive(Clone, Copy, Debug, PartialEq, Eq, Structural)]
pub enum State {
    Quit,
    Running,
    Paused,
}

/// The key that quits the machine: the escape control character.
pub const QUIT_KEY: char = '\u{1b}';

/// The keypad slot a host key drives, if any: the classic 4x4 block of
/// `1234` / `qwer` / `asdf` / `zxcv` mapped onto the hexadecimal keypad.
pub open spec fn spec_key_to_pad(c: char) -> Option<u8> {
    if c == '1' {
        Some(0x1u8)
    } else if c == '2' {
        Some(0x2u8)
    } else if c == '3' {
        Some(0x3u8)
    } else if c == '4' {
        Some(0xCu8)
    } else if c == 'q' {
        Some(0x4u8)
    } else if c == 'w' {
        Some(0x5u8)
    } else if c == 'e' {
        Some(0x6u8)
    } else if c == 'r' {
        Some(0xDu8)
    } else if c == 'a' {
        Some(0x7u8)
    } else if c == 's' {
        Some(0x8u8)
    } else if c == 'd' {
        Some(0x9u8)
    } else if c == 'f' {
        Some(0xEu8)
    } else if c == 'z' {
        Some(0xAu8)
    } else if c == 'x' {
        Some(0x0u8)
    } else if c == 'c' {
        Some(0xBu8)
    } else if c == 'v' {
        Some(0xFu8)
    } else {
        None
    }
}

/// The keypad after a press event: the driven slot, if any, turns on.
pub open spec fn pad_pressed(pad: Seq<bool>, key: Option<char>) -> Seq<bool> {
    match key {
        Some(c) => match spec_key_to_pad(c) {
            Some(k) => pad.update(k as int, true),
            None => pad,
        },
        None => pad,
    }
}

/// The keypad after a release event: the driven slot, if any, turns off.
pub open spec fn pad_released(pad: Seq<bool>, key: Option<char>) -> Seq<bool> {
    match key {
        Some(c) => match spec_key_to_pad(c) {
            Some(k) => pad.update(k as int, false),
            None => pad,
        },
        None => pad,
    }
}

/// The run state after a press event: the quit key quits, everything else
/// leaves it alone.
pub open spec fn state_after_input(st: State, pressed: Option<char>) -> State {
    if pressed == Some(QUIT_KEY) {
        State::Quit
    } else {
        st
    }
}

/// The keypad slot a host key drives, if any.
pub fn key_to_pad(c: char) -> (r: Option<u8>)
    ensures
        r == spec_key_to_pad(c),
{
    match c {
        '1' => Some(0x1),
        '2' => Some(0x2),
        '3' => Some(0x3),
        '4' => Some(0xC),
        'q' => Some(0x4),
        'w' => Some(0x5),
        'e' => Some(0x6),
        'r' => Some(0xD),
        'a' => Some(0x7),
        's' => Some(0x8),
        'd' => Some(0x9),
        'f' => Some(0xE),
        'z' => Some(0xA),
        'x' => Some(0x0),
        'c' => Some(0xB),
        'v' => Some(0xF),
        _ => None,
    }
}

/// The simulated computer: engine, memory, display and keypad.
pub struct Machine {
    /// The run state.
    pub state: State,
    /// The 4096-byte memory.
    pub ram: RAM,
    /// The 64x32 bitmap.
    pub display: Display,
    /// The execution engine.
    pub cpu: CPU,
    /// The 16 key states, driven by the input layer; always exactly 16.
    pub keypad: Vec<bool>,
}

impl Machine {
    /// Every component holds its structural invariant.
    pub open spec fn wf(&self) -> bool {
        &&& cs_wf(self.cpu@)
        &&& self.ram.wf()
        &&& self.display.wf()
        &&& self.keypad@.len() == 16
    }

    /// A fresh, paused machine with zeroed memory, display, keypad and
    /// engine.
    pub fn new() -> (r: Machine)
        ensures
            r.wf(),
            r.state == State::Paused,
            r.cpu@ == init_state(),
            r.ram@ == Seq::new(MEM_SIZE as nat, |k: int| 0u8),
            r.display@ == blank_display(),
            r.keypad@ == Seq::new(16, |k: int| false),
    {
        let mut keypad: Vec<bool> = Vec::new();
        let mut k: usize = 0;
        while k < 16
            invariant
                k <= 16,
                keypad@.len() == k,
                forall|j: int| 0 <= j < k ==> !keypad@[j],
            decreases 16 - k,
        {
            keypad.push(false);
            k += 1;
        }
        let r = Machine {
            state: State::Paused,
            ram: RAM::new(),
            display: Display::new(),
            cpu: CPU::new(),
            keypad,
        };
        proof {
            assert(r.keypad@ =~= Seq::new(16, |k: int| false));
        }
        r
    }

    /// Loads a ROM image and starts the machine: on success memory holds
    /// the font table and the image and the state is `Running`; an
    /// oversize image is rejected with its byte count and the capacity,
    /// and the machine is left exactly as it was.
    pub fn init(&mut self, rom: &Vec<u8>) -> (r: Result<(), RomError>)
        requires
            old(self).wf(),
        ensures
            final(self).wf(),
            rom@.len() > MAX_ROM_SIZE ==> {
                &&& r == Err::<(), RomError>(
                    RomError::TooLarge(rom@.len() as usize, MAX_ROM_SIZE),
                )
                &&& final(self).ram@ == old(self).ram@
                &&& final(self).state == old(self).state
                &&& final(self).cpu == old(self).cpu
                &&& final(self).display == old(self).display
                &&& final(self).keypad == old(self).keypad
            },
            rom@.len() <= MAX_ROM_SIZE ==> {
                &&& r == Ok::<(), RomError>(())
                &&& final(self).ram@ == with_rom(old(self).ram@, rom@)
                &&& final(self).state == State::Running
                &&& final(self).cpu == old(self).cpu
                &&& final(self).display == old(self).display
                &&& final(self).keypad == old(self).keypad
            },
    {
        match self.ram.load_rom(rom) {
            Ok(()) => {
                self.state = State::Running;
                Ok(())
            },
            Err(e) => Err(e),
        }
    }

    /// Applies one press and one release event: the quit key moves the
    /// state to `Quit`; a keypad key turns its slot on or off; anything
    /// else changes nothing.
    pub fn handle_input(&mut self, pressed: Option<char>, released: Option<char>)
        requires
            old(self).wf(),
        ensures
            final(self).wf(),
            final(self).keypad@ == pad_released(
                pad_pressed(old(self).keypad@, pressed),
                released,
            ),
            final(self).state == state_after_input(old(self).state, pressed),
            final(self).cpu == old(self).cpu,
            final(self).ram == old(self).ram,
            final(self).display == old(self).display,
    {
        match pressed {
            Some(c) => {
                if c == QUIT_KEY {
                    self.state = State::Quit;
                } else {
                    match key_to_pad(c) {
                        Some(k) => {
                            self.keypad.set(k as usize, true);
                        },
                        None => {},
                    }
                }
            },
            None => {},
        }
        match released {
            Some(c) => {
                match key_to_pad(c) {
                    Some(k) => {
                        self.keypad.set(k as usize, false);
                    },
                    None => {},
                }
            },
            None => {},
        }
    }

    /// One driver tick: apply the input events, then run the engine's
    /// burst and timer update against the machine's own memory, display
    /// and keypad.  A fault is handed to the caller, which must stop the
    /// machine loudly.
    pub fn tick(&mut self, pressed: Option<char>, released: Option<char>) -> (r: Result<
        usize,
        Fault,
    >)
        requires
            old(self).wf(),
        ensures
            final(self).wf(),
            final(self).keypad@ == pad_released(
                pad_pressed(old(self).keypad@, pressed),
                released,
            ),
            final(self).state == state_after_input(old(self).state, pressed),
            r matches Ok(unk) ==> tick_rel(
                old(self).cpu@,
                old(self).ram@,
                old(self).display@,
                final(self).keypad@,
                final(self).cpu@,
                final(self).ram@,
                final(self).display@,
                unk as int,
            ),
            r matches Err(f) ==> tick_fault_rel(
                old(self).cpu@,
                old(self).ram@,
                old(self).display@,
                final(self).keypad@,
                final(self).cpu@,
                final(self).ram@,
                final(self).display@,
                f,
            ),
    {
        self.handle_input(pressed, released);
        self.cpu.make_cycle(&mut self.ram, &mut self.display, &self.keypad)
    }
}

} // verus!
