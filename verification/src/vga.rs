//! The bare-metal kernel's VGA text console: an 80 x 25 screen of cells,
//! each a colour byte and a character byte, written at a cursor.
use vstd::prelude::*;
use vstd::string::StringSliceAdditionalSpecFns;

verus! {

/// Columns of the text screen.
pub const VGA_WIDTH: usize = 80;

/// Rows of the text screen.
pub const VGA_HEIGHT: usize = 25;

/// White on black.
pub const WHITE: u8 = 0x0F;

/// Bright cyan on black.
pub const BRIGHT_CYAN: u8 = 0x0B;

/// Light red on red, the panic colours.
pub const PANIC_COLOR: u8 = 0x4C;

/// The cell that shows byte `b` in colour `color`.
pub open spec fn cell(color: u8, b: u8) -> u16 {
    (color as nat * 256 + b as nat) as u16
}

/// The value of the console: cursor row and column, colour, screen cells
/// (row by row).
pub struct VgaView {
    pub row: nat,
    pub col: nat,
    pub color: u8,
    pub screen: Seq<u16>,
}

/// The console after writing byte `b`: a line feed moves to the start of
/// the next line, a carriage return to the start of this one; any other
/// byte is put at the cursor, which moves right, and on to the next line
/// after the last column. Past the last row the cursor goes back to the
/// first (there is no scrolling).
pub open spec fn step(v: VgaView, b: u8) -> VgaView {
    let (row, col, screen) = if b == 10 {
        (v.row + 1, 0nat, v.screen)
    } else if b == 13 {
        (v.row, 0nat, v.screen)
    } else {
        let screen = v.screen.update((v.row * 80 + v.col) as int, cell(v.color, b));
        if v.col + 1 >= 80 {
            (v.row + 1, 0nat, screen)
        } else {
            (v.row, (v.col + 1) as nat, screen)
        }
    };
    VgaView { row: if row >= 25 { 0 } else { row }, col, color: v.color, screen }
}

/// The console after writing the bytes `bs` in order.
pub open spec fn steps(v: VgaView, bs: Seq<u8>) -> VgaView
    decreases bs.len(),
{
    if bs.len() == 0 {
        v
    } else {
        step(steps(v, bs.drop_last()), bs.last())
    }
}

/// The console's invariant: a full screen and the cursor on it.
pub open spec fn vga_ok(v: VgaView) -> bool {
    v.screen.len() == 2000 && v.row < 25 && v.col < 80
}

/// Writing keeps the cursor on the screen.
pub proof fn law_steps_keep_cursor_on_screen(v: VgaView, bs: Seq<u8>)
    requires
        vga_ok(v),
    ensures
        vga_ok(steps(v, bs)),
    decreases bs.len(),
{
    if bs.len() > 0 {
        law_steps_keep_cursor_on_screen(v, bs.drop_last());
    }
}

/// The text console.
pub struct VgaWriter {
    pub row: usize,
    pub col: usize,
    pub color: u8,
    screen: Vec<u16>,
}

impl VgaWriter {
    /// The value of the console.
    pub closed spec fn view(&self) -> VgaView {
        VgaView { row: self.row as nat, col: self.col as nat, color: self.color, screen: self.screen@ }
    }

    /// The cursor at the top left, writing white; the screen blank.
    pub fn new() -> (r: Self)
        ensures
            vga_ok(r.view()),
            r.view().row == 0,
            r.view().col == 0,
            r.view().color == WHITE,
            r.view().screen == Seq::new(2000, |i: int| 0u16),
    {
        let mut screen: Vec<u16> = Vec::new();
        let mut i: usize = 0;
        while i < VGA_WIDTH * VGA_HEIGHT
            invariant
                i <= 2000,
                screen@ == Seq::new(i as nat, |k: int| 0u16),
            decreases 2000 - i,
        {
            screen.push(0);
            assert(screen@ =~= Seq::new(i as nat + 1, |k: int| 0u16));
            i = i + 1;
        }
        VgaWriter { row: 0, col: 0, color: WHITE, screen }
    }

    /// Fills the screen with white blanks and puts the cursor at the top left.
    pub fn clear(&mut self)
        requires
            vga_ok(old(self).view()),
        ensures
            vga_ok(final(self).view()),
            final(self).view().row == 0,
            final(self).view().col == 0,
            final(self).view().color == old(self).view().color,
            final(self).view().screen == Seq::new(2000, |i: int| 0x0F00u16),
    {
        let mut i: usize = 0;
        while i < VGA_WIDTH * VGA_HEIGHT
            invariant
                i <= 2000,
                self.screen@.len() == 2000,
                self.color == old(self).color,
                forall|k: int| 0 <= k < i ==> self.screen@[k] == 0x0F00u16,
            decreases 2000 - i,
        {
            self.screen.set(i, 0x0F00);
            i = i + 1;
        }
        self.row = 0;
        self.col = 0;
        assert(self.view().screen =~= Seq::new(2000, |i: int| 0x0F00u16));
    }

    /// Sets the colour of what is written next.
    pub fn set_color(&mut self, color: u8)
        ensures
            final(self).view() == (VgaView { color, ..old(self).view() }),
    {
        self.color = color;
    }

    /// The cell at `i` (row by row).
    pub fn cell_at(&self, i: usize) -> (r: u16)
        requires
            i < self.view().screen.len(),
        ensures
            r == self.view().screen[i as int],
    {
        self.screen[i]
    }

    /// Writes one byte.
    pub fn write_byte(&mut self, b: u8)
        requires
            vga_ok(old(self).view()),
        ensures
            final(self).view() == step(old(self).view(), b),
            vga_ok(final(self).view()),
    {
        if b == 10 {
            self.col = 0;
            self.row = self.row + 1;
        } else if b == 13 {
            self.col = 0;
        } else {
            let entry: u16 = (self.color as u16) << 8u16 | b as u16;
            let c = self.color;
            assert(entry == cell(c, b)) by (bit_vector)
                requires
                    entry == (c as u16) << 8u16 | b as u16,
            ;
            self.screen.set(self.row * VGA_WIDTH + self.col, entry);
            self.col = self.col + 1;
            if self.col >= VGA_WIDTH {
                self.col = 0;
                self.row = self.row + 1;
            }
        }
        if self.row >= VGA_HEIGHT {
            self.row = 0;
        }
    }

    /// Writes the bytes of `s` in order.
    pub fn write_str(&mut self, s: &str)
        requires
            vga_ok(old(self).view()),
        ensures
            final(self).view() == steps(old(self).view(), s.spec_bytes()),
            vga_ok(final(self).view()),
    {
        let bs = s.as_bytes();
        let mut i: usize = 0;
        while i < bs.len()
            invariant
                i <= bs.len(),
                bs@ == s.spec_bytes(),
                vga_ok(self.view()),
                self.view() == steps(old(self).view(), bs@.take(i as int)),
            decreases bs.len() - i,
        {
            assert(bs@.take(i as int + 1).drop_last() =~= bs@.take(i as int));
            self.write_byte(bs[i]);
            i = i + 1;
        }
        assert(bs@.take(i as int) =~= bs@);
    }
}

/// Writing `a` then `b` is writing `a + b`.
pub proof fn lemma_steps_concat(v: VgaView, a: Seq<u8>, b: Seq<u8>)
    ensures
        steps(v, a + b) == steps(steps(v, a), b),
    decreases b.len(),
{
    if b.len() == 0 {
        assert(a + b =~= a);
    } else {
        assert((a + b).drop_last() =~= a + b.drop_last());
        lemma_steps_concat(v, a, b.drop_last());
    }
}

/// A cleared screen with the cursor at the top left, writing in `color`.
pub open spec fn cleared(color: u8) -> VgaView {
    VgaView { row: 0, col: 0, color, screen: Seq::new(2000, |i: int| 0x0F00u16) }
}

/// The banner the kernel shows in bright cyan.
pub open spec fn banner_bytes() -> Seq<u8> {
    "========================================\n".spec_bytes() + "   HAAVK OS · MANDLE BARE METAL KERNEL\n".spec_bytes()
        + "   sky belongs to haavk\n".spec_bytes() + "   new world is at your ears\n".spec_bytes()
        + "========================================\n".spec_bytes() + "\n".spec_bytes()
}

/// The status lines the kernel shows in white.
pub open spec fn status_bytes() -> Seq<u8> {
    "Mandel Core v0.9 (bare-metal x86_64)\n".spec_bytes() + "Kernel entry: _start @ 0x100000\n".spec_bytes()
        + "VGA text mode initialized: 80x25\n".spec_bytes() + "CPU: x86_64 (long mode)\n".spec_bytes()
        + "\n".spec_bytes() + ">>> HAAVK kernel ready. halting...\n".spec_bytes()
}

/// The console as the kernel leaves it after booting: cleared, the banner
/// written in bright cyan, then the status lines in white.
pub fn boot_console() -> (r: VgaWriter)
    ensures
        r.view() == steps(
            VgaView { color: WHITE, ..steps(cleared(BRIGHT_CYAN), banner_bytes()) },
            status_bytes(),
        ),
        vga_ok(r.view()),
{
    let mut vga = VgaWriter::new();
    vga.clear();
    vga.set_color(BRIGHT_CYAN);
    let ghost v0 = vga.view();
    assert(v0 == cleared(BRIGHT_CYAN));
    vga.write_str("========================================\n");
    vga.write_str("   HAAVK OS · MANDLE BARE METAL KERNEL\n");
    vga.write_str("   sky belongs to haavk\n");
    vga.write_str("   new world is at your ears\n");
    vga.write_str("========================================\n");
    vga.write_str("\n");
    proof {
        let b1 = "========================================\n".spec_bytes();
        let b2 = "   HAAVK OS · MANDLE BARE METAL KERNEL\n".spec_bytes();
        let b3 = "   sky belongs to haavk\n".spec_bytes();
        let b4 = "   new world is at your ears\n".spec_bytes();
        let b6 = "\n".spec_bytes();
        lemma_steps_concat(v0, b1, b2);
        lemma_steps_concat(v0, b1 + b2, b3);
        lemma_steps_concat(v0, b1 + b2 + b3, b4);
        lemma_steps_concat(v0, b1 + b2 + b3 + b4, b1);
        lemma_steps_concat(v0, b1 + b2 + b3 + b4 + b1, b6);
    }
    vga.set_color(WHITE);
    let ghost w0 = vga.view();
    vga.write_str("Mandel Core v0.9 (bare-metal x86_64)\n");
    vga.write_str("Kernel entry: _start @ 0x100000\n");
    vga.write_str("VGA text mode initialized: 80x25\n");
    vga.write_str("CPU: x86_64 (long mode)\n");
    vga.write_str("\n");
    vga.write_str(">>> HAAVK kernel ready. halting...\n");
    proof {
        let c1 = "Mandel Core v0.9 (bare-metal x86_64)\n".spec_bytes();
        let c2 = "Kernel entry: _start @ 0x100000\n".spec_bytes();
        let c3 = "VGA text mode initialized: 80x25\n".spec_bytes();
        let c4 = "CPU: x86_64 (long mode)\n".spec_bytes();
        let c5 = "\n".spec_bytes();
        let c6 = ">>> HAAVK kernel ready. halting...\n".spec_bytes();
        lemma_steps_concat(w0, c1, c2);
        lemma_steps_concat(w0, c1 + c2, c3);
        lemma_steps_concat(w0, c1 + c2 + c3, c4);
        lemma_steps_concat(w0, c1 + c2 + c3 + c4, c5);
        lemma_steps_concat(w0, c1 + c2 + c3 + c4 + c5, c6);
    }
    vga
}

/// The console after a kernel panic: the panic message written in the
/// panic colours on a fresh console.
pub fn panic_console() -> (r: VgaWriter)
    ensures
        r.view() == steps(
            VgaView { row: 0, col: 0, color: PANIC_COLOR, screen: Seq::new(2000, |i: int| 0u16) },
            "\n*** KERNEL PANIC ***\n".spec_bytes(),
        ),
{
    let mut vga = VgaWriter::new();
    vga.set_color(PANIC_COLOR);
    vga.write_str("\n*** KERNEL PANIC ***\n");
    vga
}

} // verus!
