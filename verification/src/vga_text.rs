use vstd::prelude::*;
use vstd::string::StringSliceAdditionalSpecFns;

verus! {

pub const ROWS: usize = 25;
pub const COLS: usize = 80;
pub const MAX: usize = 2000;
/// Light gray on black, the attribute the console prints in.
pub const COLOR: u8 = 0x07;
pub const SPACE_CHAR: u8 = 32;
pub const NEWLINE_CHAR: u8 = 10;

/// The sixteen colours of VGA text mode.
#[derive(Debug, Clone, Copy, PartialEq, Eq, Structural)]
pub enum VgaColor {
    Black,
    Blue,
    Green,
    Cyan,
    Red,
    Magenta,
    Brown,
    LightGray,
    DarkGray,
    LightBlue,
    LightGreen,
    LightCyan,
    LightRed,
    Pink,
    Yellow,
    White,
}

/// The colour's number in the VGA palette.
pub open spec fn color_number(c: VgaColor) -> u8 {
    match c {
        VgaColor::Black => 0,
        VgaColor::Blue => 1,
        VgaColor::Green => 2,
        VgaColor::Cyan => 3,
        VgaColor::Red => 4,
        VgaColor::Magenta => 5,
        VgaColor::Brown => 6,
        VgaColor::LightGray => 7,
        VgaColor::DarkGray => 8,
        VgaColor::LightBlue => 9,
        VgaColor::LightGreen => 10,
        VgaColor::LightCyan => 11,
        VgaColor::LightRed => 12,
        VgaColor::Pink => 13,
        VgaColor::Yellow => 14,
        VgaColor::White => 15,
    }
}

impl VgaColor {
    /// The colour's number in the VGA palette.
    pub fn number(&self) -> (r: u8)
        ensures
            r == color_number(*self),
    {
        match self {
            VgaColor::Black => 0,
            VgaColor::Blue => 1,
            VgaColor::Green => 2,
            VgaColor::Cyan => 3,
            VgaColor::Red => 4,
            VgaColor::Magenta => 5,
            VgaColor::Brown => 6,
            VgaColor::LightGray => 7,
            VgaColor::DarkGray => 8,
            VgaColor::LightBlue => 9,
            VgaColor::LightGreen => 10,
            VgaColor::LightCyan => 11,
            VgaColor::LightRed => 12,
            VgaColor::Pink => 13,
            VgaColor::Yellow => 14,
            VgaColor::White => 15,
        }
    }
}

/// The attribute byte for foreground `fg` on background `bg`.
pub open spec fn spec_make_color(fg: VgaColor, bg: VgaColor) -> u8 {
    (color_number(bg) * 16 + color_number(fg)) as u8
}

/// The attribute byte for foreground `fg` on background `bg`: background in the high
/// nibble, foreground in the low one.
pub fn make_color(fg: VgaColor, bg: VgaColor) -> (r: u8)
    ensures
        r == spec_make_color(fg, bg),
{
    let b = bg.number();
    let f = fg.number();
    let r = (b << 4u8) | f;
    assert((b << 4u8) | f == b * 16 + f) by (bit_vector)
        requires
            b < 16,
            f < 16,
    ;
    r
}

/// A text-mode cell: the character in the low byte, the attribute in the high one.
pub open spec fn vga_cell(ch: u8, color: u8) -> u16 {
    (ch as int + 256 * color as int) as u16
}

/// A blank cell in the given attribute.
pub open spec fn blank(color: u8) -> u16 {
    vga_cell(SPACE_CHAR, color)
}

fn make_cell(ch: u8, color: u8) -> (r: u16)
    ensures
        r == vga_cell(ch, color),
{
    ch as u16 + (color as u16) * 256
}

/// The screen moved up one row, with a blank last row.
pub open spec fn scrolled(cells: Seq<u16>) -> Seq<u16> {
    Seq::new(2000, |i: int| if i < 1920 { cells[i + 80] } else { blank(COLOR) })
}

/// Where a newline moves the cursor: the start of the next row.
pub open spec fn next_line(latest: int) -> int {
    (latest / 80 + 1) * 80
}

/// The console after printing byte `b` with the cursor at `latest`: a full screen
/// scrolls first; a newline moves to the next row; any other byte is written at the
/// cursor, which advances. A cursor still past the screen after the scroll writes
/// outside the 2000 screen cells, which stay as they are.
pub open spec fn print_step(cells: Seq<u16>, latest: int, b: u8) -> (Seq<u16>, int) {
    let (c1, l1) = if latest >= 2000 {
        (scrolled(cells), latest - 80)
    } else {
        (cells, latest)
    };
    if b == NEWLINE_CHAR {
        (c1, next_line(l1))
    } else if l1 < 2000 {
        (c1.update(l1, vga_cell(b, COLOR)), l1 + 1)
    } else {
        (c1, l1 + 1)
    }
}

/// The console after printing `bytes` in order.
pub open spec fn print_run(cells: Seq<u16>, latest: int, bytes: Seq<u8>) -> (Seq<u16>, int)
    decreases bytes.len(),
{
    if bytes.len() == 0 {
        (cells, latest)
    } else {
        let prev = print_run(cells, latest, bytes.drop_last());
        print_step(prev.0, prev.1, bytes.last())
    }
}

/// Where byte `i` of `bytes` is written when the console prints them from `latest`: the
/// cursor after the bytes before it, moved up a row by the scroll of a full screen.
pub open spec fn write_position(cells: Seq<u16>, latest: int, bytes: Seq<u8>, i: int) -> int {
    let l = print_run(cells, latest, bytes.take(i)).1;
    if l >= 2000 {
        l - 80
    } else {
        l
    }
}

/// A newline always moves the cursor to the start of the next row, also from the start
/// of a row: printed after `bytes`, with the cursor then at `l` (moved up a row first
/// when the screen is full), it leaves the cursor at `(l / 80 + 1) * 80` and the screen
/// as the scroll left it.
pub proof fn lemma_newline_starts_next_row(cells: Seq<u16>, latest: int, bytes: Seq<u8>)
    ensures
        ({
            let (c, l) = print_run(cells, latest, bytes);
            let after = print_run(cells, latest, bytes.push(10u8));
            &&& after.1 == (if l >= 2000 { ((l - 80) / 80 + 1) * 80 } else { (l / 80 + 1) * 80 })
            &&& after.0 == (if l >= 2000 { scrolled(c) } else { c })
        }),
{
    assert(bytes.push(10u8).drop_last() =~= bytes);
    assert(bytes.push(10u8).last() == 10u8);
}

/// Printing `a` and then `b` leaves the same screen and cursor as printing `a`
/// followed by `b` in one go.
pub proof fn lemma_print_concat(cells: Seq<u16>, latest: int, a: Seq<u8>, b: Seq<u8>)
    ensures
        print_run(cells, latest, a + b) == print_run(print_run(cells, latest, a).0, print_run(cells, latest, a).1, b),
    decreases b.len(),
{
    if b.len() == 0 {
        assert(a + b =~= a);
    } else {
        assert((a + b).drop_last() =~= a + b.drop_last());
        assert((a + b).last() == b.last());
        lemma_print_concat(cells, latest, a, b.drop_last());
    }
}

/// From a cursor on the screen or just past its end, printing keeps the cursor there
/// and writes every byte other than a newline inside the 2000 screen cells.
pub proof fn lemma_print_stays_on_screen(cells: Seq<u16>, latest: int, bytes: Seq<u8>)
    requires
        0 <= latest <= 2000,
    ensures
        0 <= print_run(cells, latest, bytes).1 <= 2000,
        forall|i: int| 0 <= i < bytes.len() ==> 0 <= #[trigger] write_position(cells, latest, bytes, i) < 2000,
    decreases bytes.len(),
{
    if bytes.len() > 0 {
        let prev = bytes.drop_last();
        lemma_print_stays_on_screen(cells, latest, prev);
        let l = print_run(cells, latest, prev).1;
        let l1 = if l >= 2000 { l - 80 } else { l };
        assert(l1 < 2000 ==> l1 / 80 <= 24);
        assert(0 <= l1 ==> (l1 / 80 + 1) * 80 <= 2000 || l1 >= 2000) by (nonlinear_arith)
            requires l1 < 2000 ==> l1 / 80 <= 24;
        assert forall|i: int| 0 <= i < bytes.len() implies 0 <= #[trigger] write_position(cells, latest, bytes, i) < 2000 by {
            if i < prev.len() {
                assert(bytes.take(i) =~= prev.take(i));
                assert(write_position(cells, latest, bytes, i) == write_position(cells, latest, prev, i));
            } else {
                assert(bytes.take(i) =~= prev);
            }
        }
    }
}

/// The screen after `bytes` are written from row `row`, column `col` in attribute
/// `color`, stopping at the end of the screen; unchanged when the start lies off it.
pub open spec fn written_at(cells: Seq<u16>, row: int, col: int, bytes: Seq<u8>, color: u8) -> Seq<u16> {
    let start = row * 80 + col;
    Seq::new(
        cells.len(),
        |p: int|
            if row < 25 && col < 80 && start <= p < start + bytes.len() && p < 2000 {
                vga_cell(bytes[p - start], color)
            } else {
                cells[p]
            },
    )
}

/// The screen with row `row` blanked in attribute `color`; unchanged for rows off it.
pub open spec fn row_cleared(cells: Seq<u16>, row: int, color: u8) -> Seq<u16> {
    Seq::new(
        cells.len(),
        |p: int| if row < 25 && row * 80 <= p < row * 80 + 80 { blank(color) } else { cells[p] },
    )
}

/// The 80x25 text screen and the console cursor, as a position counted in cells from
/// the top left corner.
pub struct TextBuffer {
    cells: Vec<u16>,
    latest: usize,
}

impl TextBuffer {
    pub closed spec fn cells(&self) -> Seq<u16> {
        self.cells@
    }

    pub closed spec fn cursor(&self) -> int {
        self.latest as int
    }

    /// A screen of 2000 cells. The cursor may lie anywhere, also past the screen's end.
    pub open spec fn wf(&self) -> bool {
        self.cells().len() == 2000
    }

    /// A blank screen with the cursor at the top left, as text mode starts.
    pub fn new() -> (t: TextBuffer)
        ensures
            t.wf(),
            t.cursor() == 0,
            forall|i: int| 0 <= i < 2000 ==> #[trigger] t.cells()[i] == blank(COLOR),
    {
        let mut cells: Vec<u16> = Vec::new();
        let mut i: usize = 0;
        let c = make_cell(SPACE_CHAR, COLOR);
        while i < MAX
            invariant
                i <= 2000,
                cells@.len() == i,
                c == blank(COLOR),
                forall|k: int| 0 <= k < i ==> #[trigger] cells@[k] == blank(COLOR),
            decreases 2000 - i,
        {
            cells.push(c);
            i = i + 1;
        }
        TextBuffer { cells, latest: 0 }
    }

    /// The cell at position `i`.
    pub fn cell(&self, i: usize) -> (r: u16)
        requires
            i < self.cells().len(),
        ensures
            r == self.cells()[i as int],
    {
        self.cells[i]
    }

    /// The cursor position.
    pub fn cursor_position(&self) -> (r: usize)
        ensures
            r == self.cursor(),
    {
        self.latest
    }
}

/// Writes byte `a` at the cursor in the console's attribute and advances the cursor.
/// A cursor past the screen writes outside its 2000 cells, which stay as they are.
pub fn char_to_vga(screen: &mut TextBuffer, a: u8)
    requires
        old(screen).wf(),
        old(screen).cursor() < usize::MAX,
    ensures
        final(screen).wf(),
        old(screen).cursor() < 2000 ==> final(screen).cells() == old(screen).cells().update(
            old(screen).cursor(),
            vga_cell(a, COLOR),
        ),
        old(screen).cursor() >= 2000 ==> final(screen).cells() == old(screen).cells(),
        final(screen).cursor() == old(screen).cursor() + 1,
{
    let c = make_cell(a, COLOR);
    let pos = screen.latest;
    if pos < MAX {
        screen.cells.set(pos, c);
    }
    screen.latest = pos + 1;
}

/// Prints `s` at the cursor: newlines move to the next row, and a full screen scrolls
/// up a row before the next byte. A cursor on the screen or just past its end stays so.
pub fn str_to_vga(screen: &mut TextBuffer, s: &str)
    requires
        old(screen).wf(),
        old(screen).cursor() <= 2000 || old(screen).cursor() + 80 * s.spec_bytes().len() + 80 <= usize::MAX,
    ensures
        final(screen).wf(),
        (final(screen).cells(), final(screen).cursor()) == print_run(old(screen).cells(), old(screen).cursor(), s.spec_bytes()),
        old(screen).cursor() <= 2000 ==> final(screen).cursor() <= 2000,
{
    let v = s.as_bytes();
    let ghost bytes = v@;
    let mut i: usize = 0;
    while i < v.len()
        invariant
            i <= bytes.len(),
            bytes == v@,
            screen.wf(),
            old(screen).cursor() <= 2000 ==> screen.cursor() <= 2000,
            old(screen).cursor() > 2000 ==> screen.cursor() <= old(screen).cursor() + 80 * i
                && old(screen).cursor() + 80 * bytes.len() + 80 <= usize::MAX,
            (screen.cells(), screen.cursor()) == print_run(old(screen).cells(), old(screen).cursor(), bytes.take(i as int)),
        decreases bytes.len() - i,
    {
        proof {
            assert(bytes.take(i + 1).drop_last() =~= bytes.take(i as int));
            assert(bytes.take(i + 1).last() == bytes[i as int]);
        }
        if screen.latest >= MAX {
            scroll(screen);
        }
        if v[i] == NEWLINE_CHAR {
            let l = screen.latest;
            assert((l / 80 + 1) * 80 <= l + 80) by (nonlinear_arith);
            assert(l < 2000 ==> l / 80 <= 24);
            screen.latest = (l / COLS + 1) * COLS;
        } else {
            char_to_vga(screen, v[i]);
        }
        i = i + 1;
    }
    proof {
        assert(bytes.take(bytes.len() as int) =~= bytes);
    }
}

/// Moves the screen up one row, blanks the last row and moves the cursor up a row.
pub fn scroll(screen: &mut TextBuffer)
    requires
        old(screen).wf(),
        old(screen).cursor() >= 80,
    ensures
        final(screen).wf(),
        final(screen).cells() == scrolled(old(screen).cells()),
        final(screen).cursor() == old(screen).cursor() - 80,
{
    let ghost c0 = screen.cells@;
    let mut i: usize = COLS;
    while i < MAX
        invariant
            80 <= i <= 2000,
            screen.cells@.len() == 2000,
            screen.latest == old(screen).latest,
            c0 == old(screen).cells@,
            forall|k: int| 0 <= k < i - 80 ==> #[trigger] screen.cells@[k] == c0[k + 80],
            forall|k: int| i - 80 <= k < 2000 ==> #[trigger] screen.cells@[k] == c0[k],
        decreases 2000 - i,
    {
        let v = screen.cells[i];
        screen.cells.set(i - COLS, v);
        i = i + 1;
    }
    let b = make_cell(SPACE_CHAR, COLOR);
    let mut j: usize = MAX - COLS;
    while j < MAX
        invariant
            1920 <= j <= 2000,
            screen.cells@.len() == 2000,
            screen.latest == old(screen).latest,
            b == blank(COLOR),
            forall|k: int| 0 <= k < 1920 ==> #[trigger] screen.cells@[k] == c0[k + 80],
            forall|k: int| 1920 <= k < j ==> #[trigger] screen.cells@[k] == blank(COLOR),
        decreases 2000 - j,
    {
        screen.cells.set(j, b);
        j = j + 1;
    }
    screen.latest = screen.latest - COLS;
    assert(screen.cells@ =~= scrolled(c0));
}

/// Blanks the whole screen in the console's attribute and moves the cursor home.
pub fn clear_screen(screen: &mut TextBuffer)
    requires
        old(screen).wf(),
    ensures
        final(screen).wf(),
        final(screen).cursor() == 0,
        forall|i: int| 0 <= i < 2000 ==> #[trigger] final(screen).cells()[i] == blank(COLOR),
{
    let b = make_cell(SPACE_CHAR, COLOR);
    let mut i: usize = 0;
    while i < MAX
        invariant
            i <= 2000,
            screen.cells@.len() == 2000,
            b == blank(COLOR),
            forall|k: int| 0 <= k < i ==> #[trigger] screen.cells@[k] == blank(COLOR),
        decreases 2000 - i,
    {
        screen.cells.set(i, b);
        i = i + 1;
    }
    screen.latest = 0;
}

/// Writes `s` from row `row`, column `col` in attribute `color`, stopping at the end
/// of the screen; does nothing when the start lies off the screen. The cursor stays.
pub fn write_at(screen: &mut TextBuffer, row: usize, col: usize, s: &str, color: u8)
    requires
        old(screen).wf(),
    ensures
        final(screen).wf(),
        final(screen).cursor() == old(screen).cursor(),
        final(screen).cells() == written_at(old(screen).cells(), row as int, col as int, s.spec_bytes(), color),
{
    let ghost c0 = screen.cells@;
    if row >= ROWS || col >= COLS {
        assert(screen.cells@ =~= written_at(c0, row as int, col as int, s.spec_bytes(), color));
        return;
    }
    let bytes = s.as_bytes();
    let start = row * COLS + col;
    let mut i: usize = 0;
    while i < bytes.len()
        invariant
            i <= bytes@.len(),
            start == row * 80 + col,
            start < 2000,
            start + i <= 2000,
            row < 25,
            col < 80,
            screen.cells@.len() == 2000,
            screen.latest == old(screen).latest,
            c0 == old(screen).cells@,
            forall|p: int| 0 <= p < 2000 ==> #[trigger] screen.cells@[p] == (if start <= p < start + i {
                vga_cell(bytes@[p - start], color)
            } else {
                c0[p]
            }),
        ensures
            i == bytes@.len() || start + i == 2000,
            forall|p: int| 0 <= p < 2000 ==> #[trigger] screen.cells@[p] == (if start <= p < start + i {
                vga_cell(bytes@[p - start], color)
            } else {
                c0[p]
            }),
        decreases bytes@.len() - i,
    {
        let pos = start + i;
        if pos >= MAX {
            break;
        }
        let c = make_cell(bytes[i], color);
        screen.cells.set(pos, c);
        i = i + 1;
    }
    assert(screen.cells@ =~= written_at(c0, row as int, col as int, s.spec_bytes(), color));
}

/// Blanks row `row` in attribute `color`; does nothing for rows off the screen.
pub fn clear_row(screen: &mut TextBuffer, row: usize, color: u8)
    requires
        old(screen).wf(),
    ensures
        final(screen).wf(),
        final(screen).cursor() == old(screen).cursor(),
        final(screen).cells() == row_cleared(old(screen).cells(), row as int, color),
{
    let ghost c0 = screen.cells@;
    if row >= ROWS {
        assert(screen.cells@ =~= row_cleared(c0, row as int, color));
        return;
    }
    let b = make_cell(SPACE_CHAR, color);
    let mut col: usize = 0;
    while col < COLS
        invariant
            col <= 80,
            row < 25,
            b == blank(color),
            screen.cells@.len() == 2000,
            screen.latest == old(screen).latest,
            c0 == old(screen).cells@,
            forall|p: int| 0 <= p < 2000 ==> #[trigger] screen.cells@[p] == (if row * 80 <= p < row * 80 + col {
                blank(color)
            } else {
                c0[p]
            }),
        decreases 80 - col,
    {
        let pos = row * COLS + col;
        screen.cells.set(pos, b);
        col = col + 1;
    }
    assert(screen.cells@ =~= row_cleared(c0, row as int, color));
}

/// Moves the cursor to row `row`, column `col`, on the screen or off it.
pub fn set_cursor(screen: &mut TextBuffer, row: usize, col: usize)
    requires
        old(screen).wf(),
        row * 80 + col <= usize::MAX,
    ensures
        final(screen).wf(),
        final(screen).cells() == old(screen).cells(),
        final(screen).cursor() == row * 80 + col,
{
    screen.latest = row * COLS + col;
}

} // verus!
