//! The flat 4096-byte memory, its font table, and ROM loading.

use vstd::prelude::*;

verus! {

/// Number of addressable bytes.
pub const MEM_SIZE: usize = 4096;
/// Length of the built-in font table: 16 glyphs of 5 bytes each.
pub const FONT_SET_LEN: usize = 80;
/// Address where loaded program code begins; everything below is reserved
/// for the font table.
pub const ENTRY_POINT: u16 = 0x200;
/// Largest ROM that fits between the entry offset and the end of memory.
pub const MAX_ROM_SIZE: usize = 3584;

/// A ROM image that does not fit in memory was rejected at load time;
/// the fields carry the byte count offered and the capacity available.
#[derive(Clone, Copy, Debug, PartialEq, Eq, Structural)]
pub enum RomError {
    TooLarge(usize, usize),
}

/// The standard hexadecimal-digit glyph table, 5 bytes per glyph,
/// reproduced bit for bit so that sprite lookups render correctly.
pub open spec fn font_set() -> Seq<u8> {
    seq![
        0xf0u8, 0x90, 0x90, 0x90, 0xf0, // 0
        0x20, 0x60, 0x20, 0x20, 0x70, // 1
        0xf0, 0x10, 0xf0, 0x80, 0xf0, // 2
        0xf0, 0x10, 0xf0, 0x10, 0xf0, // 3
        0x90, 0x90, 0xf0, 0x10, 0x10, // 4
        0xf0, 0x80, 0xf0, 0x10, 0xf0, // 5
        0xf0, 0x80, 0xf0, 0x90, 0xf0, // 6
        0xf0, 0x10, 0x20, 0x40, 0x40, // 7
        0xf0, 0x90, 0xf0, 0x90, 0xf0, // 8
        0xf0, 0x90, 0xf0, 0x10, 0xf0, // 9
        0xf0, 0x90, 0xf0, 0x90, 0x90, // A
        0xe0, 0x90, 0xe0, 0x90, 0xe0, // B
        0xf0, 0x80, 0x80, 0x80, 0xf0, // C
        0xe0, 0x90, 0x90, 0x90, 0xe0, // D
        0xf0, 0x80, 0xf0, 0x80, 0xf0, // E
        0xf0, 0x80, 0xf0, 0x80, 0x80, // F
    ]
}

/// Memory after the font table has been written over the low addresses.
pub open spec fn with_font(m: Seq<u8>) -> Seq<u8> {
    Seq::new(MEM_SIZE as nat, |k: int| if k < FONT_SET_LEN { font_set()[k] } else { m[k] })
}

/// Memory after a successful ROM load: the font table at the bottom, the
/// ROM image verbatim from the entry offset, the rest untouched.
pub open spec fn with_rom(m: Seq<u8>, rom: Seq<u8>) -> Seq<u8> {
    Seq::new(
        MEM_SIZE as nat,
        |k: int|
            if k < FONT_SET_LEN {
                font_set()[k]
            } else if ENTRY_POINT <= k < ENTRY_POINT + rom.len() {
                rom[k - ENTRY_POINT]
            } else {
                m[k]
            },
    )
}

/// The flat byte-addressable store.
pub struct RAM {
    /// The bytes; always exactly `MEM_SIZE` of them.
    pub space: Vec<u8>,
}

impl View for RAM {
    type V = Seq<u8>;

    open spec fn view(&self) -> Seq<u8> {
        self.space@
    }
}

impl RAM {
    /// Memory holds exactly one byte per address.
    pub open spec fn wf(&self) -> bool {
        self@.len() == MEM_SIZE
    }

    /// A fresh memory with every byte zero.
    pub fn new() -> (r: RAM)
        ensures
            r.wf(),
            r@ == Seq::new(MEM_SIZE as nat, |k: int| 0u8),
    {
        let mut space: Vec<u8> = Vec::new();
        let mut k: usize = 0;
        while k < MEM_SIZE
            invariant
                k <= MEM_SIZE,
                space@.len() == k,
                forall|j: int| 0 <= j < k ==> space@[j] == 0u8,
            decreases MEM_SIZE - k,
        {
            space.push(0);
            k += 1;
        }
        let r = RAM { space };
        proof {
            assert(r@ =~= Seq::new(MEM_SIZE as nat, |k: int| 0u8));
        }
        r
    }

    /// Reads the byte at an address.
    pub fn read(&self, addr: usize) -> (r: u8)
        requires
            self.wf(),
            addr < MEM_SIZE,
        ensures
            r == self@[addr as int],
    {
        self.space[addr]
    }

    /// Writes the byte at an address.
    pub fn write(&mut self, addr: usize, val: u8)
        requires
            old(self).wf(),
            addr < MEM_SIZE,
        ensures
            final(self).wf(),
            final(self)@ == old(self)@.update(addr as int, val),
    {
        self.space.set(addr, val);
    }

    /// Copies the built-in font table into the reserved low addresses.
    pub fn load_font(&mut self)
        requires
            old(self).wf(),
        ensures
            final(self).wf(),
            final(self)@ == with_font(old(self)@),
    {
        let glyphs: Vec<u8> = font_vec();
        let mut k: usize = 0;
        while k < FONT_SET_LEN
            invariant
                k <= FONT_SET_LEN,
                glyphs@ == font_set(),
                self@.len() == MEM_SIZE,
                forall|j: int| 0 <= j < k ==> self@[j] == font_set()[j],
                forall|j: int| k <= j < MEM_SIZE ==> self@[j] == old(self)@[j],
            decreases FONT_SET_LEN - k,
        {
            self.space.set(k, glyphs[k]);
            k += 1;
        }
        proof {
            assert(self@ =~= with_font(old(self)@));
        }
    }

    /// Loads a ROM image: the font table is rewritten, the image is checked
    /// against the available capacity, and only a fitting image is copied in,
    /// verbatim, from the entry offset on.  An oversize image is rejected
    /// with the byte count and the capacity, and memory is left untouched,
    /// so the machine never starts partially loaded.
    pub fn load_rom(&mut self, rom: &Vec<u8>) -> (r: Result<(), RomError>)
        requires
            old(self).wf(),
        ensures
            final(self).wf(),
            rom@.len() > MAX_ROM_SIZE ==> r == Err::<(), RomError>(
                RomError::TooLarge(rom@.len() as usize, MAX_ROM_SIZE),
            ) && final(self)@ == old(self)@,
            rom@.len() <= MAX_ROM_SIZE ==> r == Ok::<(), RomError>(())
                && final(self)@ == with_rom(old(self)@, rom@),
    {
        if rom.len() > MAX_ROM_SIZE {
            return Err(RomError::TooLarge(rom.len(), MAX_ROM_SIZE));
        }
        self.load_font();
        let ghost after_font = self@;
        let mut k: usize = 0;
        while k < rom.len()
            invariant
                k <= rom@.len(),
                rom@.len() <= MAX_ROM_SIZE,
                self@.len() == MEM_SIZE,
                forall|j: int| 0 <= j < k ==> self@[ENTRY_POINT + j] == rom@[j],
                forall|j: int|
                    0 <= j < MEM_SIZE && !(ENTRY_POINT <= j < ENTRY_POINT + k)
                        ==> self@[j] == after_font[j],
            decreases rom@.len() - k,
        {
            self.space.set(ENTRY_POINT as usize + k, rom[k]);
            k += 1;
        }
        proof {
            assert forall|j: int| 0 <= j < MEM_SIZE implies self@[j] == with_rom(
                old(self)@,
                rom@,
            )[j] by {
                if ENTRY_POINT <= j < ENTRY_POINT + rom@.len() {
                    assert(self@[ENTRY_POINT + (j - ENTRY_POINT)] == rom@[j - ENTRY_POINT]);
                } else {
                    assert(self@[j] == after_font[j]);
                }
            }
            assert(self@ =~= with_rom(old(self)@, rom@));
        }
        Ok(())
    }
}

/// The font table as an executable vector, equal byte for byte to
/// [`font_set`].
fn font_vec() -> (r: Vec<u8>)
    ensures
        r@ == font_set(),
{
    let mut g: Vec<u8> = Vec::new();
    g.push(0xf0); g.push(0x90); g.push(0x90); g.push(0x90); g.push(0xf0);
    g.push(0x20); g.push(0x60); g.push(0x20); g.push(0x20); g.push(0x70);
    g.push(0xf0); g.push(0x10); g.push(0xf0); g.push(0x80); g.push(0xf0);
    g.push(0xf0); g.push(0x10); g.push(0xf0); g.push(0x10); g.push(0xf0);
    g.push(0x90); g.push(0x90); g.push(0xf0); g.push(0x10); g.push(0x10);
    g.push(0xf0); g.push(0x80); g.push(0xf0); g.push(0x10); g.push(0xf0);
    g.push(0xf0); g.push(0x80); g.push(0xf0); g.push(0x90); g.push(0xf0);
    g.push(0xf0); g.push(0x10); g.push(0x20); g.push(0x40); g.push(0x40);
    g.push(0xf0); g.push(0x90); g.push(0xf0); g.push(0x90); g.push(0xf0);
    g.push(0xf0); g.push(0x90); g.push(0xf0); g.push(0x10); g.push(0xf0);
    g.push(0xf0); g.push(0x90); g.push(0xf0); g.push(0x90); g.push(0x90);
    g.push(0xe0); g.push(0x90); g.push(0xe0); g.push(0x90); g.push(0xe0);
    g.push(0xf0); g.push(0x80); g.push(0x80); g.push(0x80); g.push(0xf0);
    g.push(0xe0); g.push(0x90); g.push(0x90); g.push(0x90); g.push(0xe0);
    g.push(0xf0); g.push(0x80); g.push(0xf0); g.push(0x80); g.push(0xf0);
    g.push(0xf0); g.push(0x80); g.push(0xf0); g.push(0x80); g.push(0x80);
    proof {
        assert(g@ =~= font_set());
    }
    g
}

} // verus!
