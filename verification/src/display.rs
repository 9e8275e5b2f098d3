//! The 64x32 monochrome framebuffer.

use vstd::prelude::*;

verus! {

/// Width of the bitmap in pixels.
pub const WIDTH: u8 = 64;
/// Height of the bitmap in pixels.
pub const HEIGHT: u8 = 32;
/// Number of cells in the bitmap: `WIDTH * HEIGHT`.
pub const DISPLAY_SIZE: usize = 2048;

/// A fixed-size bitmap of boolean pixels, addressed by `y * 64 + x`.
/// The execution engine mutates it only through XOR-with-sprite-bit
/// composition during draw, or a bulk clear.
pub struct Display {
    /// The pixel cells, row-major; always exactly `DISPLAY_SIZE` of them.
    pub display: Vec<bool>,
}

impl View for Display {
    type V = Seq<bool>;

    open spec fn view(&self) -> Seq<bool> {
        self.display@
    }
}

/// The bitmap with every cell off.
pub open spec fn blank_display() -> Seq<bool> {
    Seq::new(DISPLAY_SIZE as nat, |k: int| false)
}

impl Display {
    /// The bitmap holds exactly one cell per pixel of the 64x32 grid.
    pub open spec fn wf(&self) -> bool {
        self@.len() == DISPLAY_SIZE
    }

    /// A fresh bitmap with every pixel off.
    pub fn new() -> (r: Display)
        ensures
            r.wf(),
            r@ == blank_display(),
    {
        let mut cells: Vec<bool> = Vec::new();
        let mut k: usize = 0;
        while k < DISPLAY_SIZE
            invariant
                k <= DISPLAY_SIZE,
                cells@.len() == k,
                forall|j: int| 0 <= j < k ==> !cells@[j],
            decreases DISPLAY_SIZE - k,
        {
            cells.push(false);
            k += 1;
        }
        let r = Display { display: cells };
        proof {
            assert(r@ =~= blank_display());
        }
        r
    }

    /// Turns every pixel off.
    pub fn clear(&mut self)
        requires
            old(self).wf(),
        ensures
            final(self).wf(),
            final(self)@ == blank_display(),
    {
        let mut k: usize = 0;
        while k < DISPLAY_SIZE
            invariant
                k <= DISPLAY_SIZE,
                self@.len() == DISPLAY_SIZE,
                forall|j: int| 0 <= j < k ==> !self@[j],
            decreases DISPLAY_SIZE - k,
        {
            self.display.set(k, false);
            k += 1;
        }
        proof {
            assert(self@ =~= blank_display());
        }
    }

    /// Reads the pixel at a flat cell address.
    pub fn read_pixel(&mut self, addr: usize) -> (r: bool)
        requires
            old(self).wf(),
            addr < DISPLAY_SIZE,
        ensures
            *final(self) == *old(self),
            r == final(self)@[addr as int],
    {
        self.display[addr]
    }

    /// Writes the pixel at a flat cell address.
    pub fn write_pixel(&mut self, addr: usize, pixel: bool)
        requires
            old(self).wf(),
            addr < DISPLAY_SIZE,
        ensures
            final(self).wf(),
            final(self)@ == old(self)@.update(addr as int, pixel),
    {
        self.display.set(addr, pixel);
    }

    /// The number of cells in the bitmap.
    pub fn get_size(&self) -> (r: usize)
        requires
            self.wf(),
        ensures
            r == DISPLAY_SIZE,
    {
        self.display.len()
    }
}

} // verus!
