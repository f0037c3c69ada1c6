use vstd::prelude::*;
use vstd::string::StringSliceAdditionalSpecFns;
use crate::vga_text::{next_line, vga_cell, MAX, NEWLINE_CHAR, SPACE_CHAR};

verus! {

/// White on black, the attribute the boot console prints in.
pub const BOOT_COLOR: u8 = 0x0F;
/// How far a scroll moves the boot console's cursor back.
pub const BOOT_SCROLL_BACK: usize = 25;

/// The screen moved up one row, with a last row blank in the boot console's attribute.
pub open spec fn boot_scrolled(cells: Seq<u16>) -> Seq<u16> {
    Seq::new(2000, |i: int| if i < 1920 { cells[i + 80] } else { vga_cell(SPACE_CHAR, BOOT_COLOR) })
}

/// The boot console after printing byte `b` with the cursor at `latest`: a cursor past
/// the screen scrolls first and moves back 25 cells; a newline moves to the next row;
/// any other byte is written at the cursor, visibly only when the cursor is on the
/// screen, and the cursor advances.
pub open spec fn boot_print_step(cells: Seq<u16>, latest: int, b: u8) -> (Seq<u16>, int) {
    let (c1, l1) = if latest > 2000 {
        (boot_scrolled(cells), latest - 25)
    } else {
        (cells, latest)
    };
    if b == NEWLINE_CHAR {
        (c1, next_line(l1))
    } else if l1 < 2000 {
        (c1.update(l1, vga_cell(b, BOOT_COLOR)), l1 + 1)
    } else {
        (c1, l1 + 1)
    }
}

/// The boot console after printing `bytes` in order.
pub open spec fn boot_print_run(cells: Seq<u16>, latest: int, bytes: Seq<u8>) -> (Seq<u16>, int)
    decreases bytes.len(),
{
    if bytes.len() == 0 {
        (cells, latest)
    } else {
        let prev = boot_print_run(cells, latest, bytes.drop_last());
        boot_print_step(prev.0, prev.1, bytes.last())
    }
}

/// The early boot console: the visible 80x25 text screen and a cursor that may run
/// past its end, where writes land in video memory that is not shown.
pub struct BootConsole {
    cells: Vec<u16>,
    latest: usize,
}

impl BootConsole {
    pub closed spec fn cells(&self) -> Seq<u16> {
        self.cells@
    }

    pub closed spec fn cursor(&self) -> int {
        self.latest as int
    }

    /// A screen of 2000 cells. The cursor may lie anywhere, also past the screen's end.
    pub open spec fn wf(&self) -> bool {
        self.cells().len() == 2000
    }

    /// The console over a screen showing `cells`, with the cursor at the top left.
    pub fn from_screen(cells: Vec<u16>) -> (c: BootConsole)
        requires
            cells@.len() == 2000,
        ensures
            c.wf(),
            c.cells() == cells@,
            c.cursor() == 0,
    {
        BootConsole { cells, latest: 0 }
    }

    /// The cell at position `i`.
    pub fn cell(&self, i: usize) -> (r: u16)
        requires
            i < self.cells().len(),
        ensures
            r == self.cells()[i as int],
    {
        self.cells[i]
    }

    /// The cursor position.
    pub fn cursor_position(&self) -> (r: usize)
        ensures
            r == self.cursor(),
    {
        self.latest
    }
}

/// Writes byte `a` at the cursor in white on black and advances the cursor; past the
/// end of the screen the byte lands in video memory that is not shown.
pub fn char_to_vga(console: &mut BootConsole, a: u8)
    requires
        old(console).wf(),
        old(console).cursor() < usize::MAX,
    ensures
        final(console).wf(),
        final(console).cells() == (if old(console).cursor() < 2000 {
            old(console).cells().update(old(console).cursor(), vga_cell(a, BOOT_COLOR))
        } else {
            old(console).cells()
        }),
        final(console).cursor() == old(console).cursor() + 1,
{
    let pos = console.latest;
    if pos < MAX {
        let c = a as u16 + (BOOT_COLOR as u16) * 256;
        console.cells.set(pos, c);
    }
    console.latest = pos + 1;
}

/// Prints `s` at the cursor: newlines move to the next row, and once the cursor is past
/// the screen the screen scrolls up a row and the cursor moves back 25 cells before the
/// next byte. A cursor at most 80 cells past the screen's end stays so.
pub fn str_to_vga(console: &mut BootConsole, s: &str)
    requires
        old(console).wf(),
        old(console).cursor() <= 2080 || old(console).cursor() + 80 * s.spec_bytes().len() + 80 <= usize::MAX,
    ensures
        final(console).wf(),
        old(console).cursor() <= 2080 ==> final(console).cursor() <= 2080,
        (final(console).cells(), final(console).cursor()) == boot_print_run(old(console).cells(), old(console).cursor(), s.spec_bytes()),
{
    let v = s.as_bytes();
    let ghost bytes = v@;
    let mut i: usize = 0;
    while i < v.len()
        invariant
            i <= bytes.len(),
            bytes == v@,
            console.wf(),
            old(console).cursor() <= 2080 ==> console.cursor() <= 2080,
            old(console).cursor() > 2080 ==> console.cursor() <= old(console).cursor() + 80 * i
                && old(console).cursor() + 80 * bytes.len() + 80 <= usize::MAX,
            (console.cells(), console.cursor()) == boot_print_run(old(console).cells(), old(console).cursor(), bytes.take(i as int)),
        decreases bytes.len() - i,
    {
        proof {
            assert(bytes.take(i + 1).drop_last() =~= bytes.take(i as int));
            assert(bytes.take(i + 1).last() == bytes[i as int]);
        }
        if console.latest > MAX {
            scroll(console);
        }
        if v[i] == NEWLINE_CHAR {
            let l = console.latest;
            assert((l / 80 + 1) * 80 <= l + 80) by (nonlinear_arith);
            assert(l <= 2055 ==> l / 80 <= 25);
            console.latest = (l / 80 + 1) * 80;
        } else {
            char_to_vga(console, v[i]);
        }
        i = i + 1;
    }
    proof {
        assert(bytes.take(bytes.len() as int) =~= bytes);
    }
}

/// Moves the screen up one row, blanks the last row and moves the cursor back 25 cells.
pub fn scroll(console: &mut BootConsole)
    requires
        old(console).wf(),
        old(console).cursor() >= 25,
    ensures
        final(console).wf(),
        final(console).cells() == boot_scrolled(old(console).cells()),
        final(console).cursor() == old(console).cursor() - 25,
{
    let ghost c0 = console.cells@;
    let mut i: usize = 80;
    while i < MAX
        invariant
            80 <= i <= 2000,
            console.cells@.len() == 2000,
            console.latest == old(console).latest,
            c0 == old(console).cells@,
            forall|k: int| 0 <= k < i - 80 ==> #[trigger] console.cells@[k] == c0[k + 80],
            forall|k: int| i - 80 <= k < 2000 ==> #[trigger] console.cells@[k] == c0[k],
        decreases 2000 - i,
    {
        let v = console.cells[i];
        console.cells.set(i - 80, v);
        i = i + 1;
    }
    let b = SPACE_CHAR as u16 + (BOOT_COLOR as u16) * 256;
    let mut j: usize = MAX - 80;
    while j < MAX
        invariant
            1920 <= j <= 2000,
            console.cells@.len() == 2000,
            console.latest == old(console).latest,
            b == vga_cell(SPACE_CHAR, BOOT_COLOR),
            forall|k: int| 0 <= k < 1920 ==> #[trigger] console.cells@[k] == c0[k + 80],
            forall|k: int| 1920 <= k < j ==> #[trigger] console.cells@[k] == vga_cell(SPACE_CHAR, BOOT_COLOR),
        decreases 2000 - j,
    {
        console.cells.set(j, b);
        j = j + 1;
    }
    console.latest = console.latest - BOOT_SCROLL_BACK;
    assert(console.cells@ =~= boot_scrolled(c0));
}

} // verus!
