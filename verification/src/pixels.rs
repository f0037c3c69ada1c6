use vstd::prelude::*;

verus! {

pub const PIXEL_WIDTH: usize = 320;
pub const PIXEL_HEIGHT: usize = 200;
pub const PIXEL_COUNT: usize = 64000;

/// The 320x200 screen of 256-colour graphics mode, one palette index per pixel, row by row.
pub struct PixelScreen {
    pixels: Vec<u8>,
}

/// The screen with `width` pixels from offset `start` set to `color`.
pub open spec fn span_filled(pixels: Seq<u8>, start: int, width: int, color: u8) -> Seq<u8> {
    Seq::new(pixels.len(), |i: int| if start <= i < start + width { color } else { pixels[i] })
}

/// The screen after filling `k` rows of a rectangle: row `r` for `r` from `y` up to
/// `y + k` gets `width` pixels from offset `320 * r + x`.
pub open spec fn rect_filled(pixels: Seq<u8>, x: int, y: int, width: int, k: nat, color: u8) -> Seq<u8>
    decreases k,
{
    if k == 0 {
        pixels
    } else {
        span_filled(rect_filled(pixels, x, y, width, (k - 1) as nat, color), 320 * (y + k - 1) + x, width, color)
    }
}

impl PixelScreen {
    pub closed spec fn pixels(&self) -> Seq<u8> {
        self.pixels@
    }

    /// A screen of 64000 pixels.
    pub open spec fn wf(&self) -> bool {
        self.pixels().len() == 64000
    }

    /// A screen filled with palette index 0.
    pub fn new() -> (s: PixelScreen)
        ensures
            s.wf(),
            forall|i: int| 0 <= i < 64000 ==> #[trigger] s.pixels()[i] == 0,
    {
        let mut pixels: Vec<u8> = Vec::new();
        let mut i: usize = 0;
        while i < PIXEL_COUNT
            invariant
                i <= 64000,
                pixels@.len() == i,
                forall|k: int| 0 <= k < i ==> #[trigger] pixels@[k] == 0,
            decreases 64000 - i,
        {
            pixels.push(0);
            i = i + 1;
        }
        PixelScreen { pixels }
    }

    /// The palette index of the pixel at offset `i`.
    pub fn pixel(&self, i: usize) -> (r: u8)
        requires
            i < self.pixels().len(),
        ensures
            r == self.pixels()[i as int],
    {
        self.pixels[i]
    }
}

/// Sets the pixel at column `x`, row `y`: the byte at offset `320 * y + x`.
pub fn put_pixel(screen: &mut PixelScreen, x: usize, y: usize, color: u8)
    requires
        old(screen).wf(),
        y * 320 + x < 64000,
    ensures
        final(screen).wf(),
        final(screen).pixels() == old(screen).pixels().update(y * 320 + x, color),
{
    let offset = y * PIXEL_WIDTH + x;
    screen.pixels.set(offset, color);
}

/// Fills the whole screen with `color`.
pub fn clear_screen_pixel(screen: &mut PixelScreen, color: u8)
    requires
        old(screen).wf(),
    ensures
        final(screen).wf(),
        forall|i: int| 0 <= i < 64000 ==> #[trigger] final(screen).pixels()[i] == color,
{
    let mut i: usize = 0;
    while i < PIXEL_COUNT
        invariant
            i <= 64000,
            screen.pixels@.len() == 64000,
            forall|k: int| 0 <= k < i ==> #[trigger] screen.pixels@[k] == color,
        decreases 64000 - i,
    {
        screen.pixels.set(i, color);
        i = i + 1;
    }
}

/// Fills the rectangle of `width` by `height` pixels whose top left corner is at
/// column `x`, row `y`: each of its rows is `width` consecutive pixels from that row's
/// offset for column `x`.
pub fn draw_rect(screen: &mut PixelScreen, x: usize, y: usize, width: usize, height: usize, color: u8)
    requires
        old(screen).wf(),
        x + width <= usize::MAX,
        y + height <= usize::MAX,
        width > 0 && height > 0 ==> 320 * (y + height - 1) + x + width <= 64000,
    ensures
        final(screen).wf(),
        final(screen).pixels() == rect_filled(old(screen).pixels(), x as int, y as int, width as int, height as nat, color),
{
    let ghost p0 = screen.pixels@;
    if width == 0 {
        proof {
            lemma_empty_rect(p0, x as int, y as int, height as nat, color);
        }
        return;
    }
    let mut row: usize = y;
    while row < y + height
        invariant
            y <= row <= y + height,
            width > 0,
            x + width <= usize::MAX,
            y + height <= usize::MAX,
            height > 0 ==> 320 * (y + height - 1) + x + width <= 64000,
            screen.pixels@.len() == 64000,
            p0 == old(screen).pixels@,
            screen.pixels@ == rect_filled(p0, x as int, y as int, width as int, (row - y) as nat, color),
        decreases y + height - row,
    {
        let ghost before = screen.pixels@;
        assert(320 * row + x + width <= 64000) by (nonlinear_arith)
            requires
                row < y + height,
                320 * (y + height - 1) + x + width <= 64000,
        ;
        let start = row * PIXEL_WIDTH + x;
        let mut col: usize = 0;
        while col < width
            invariant
                col <= width,
                start == 320 * row + x,
                start + width <= 64000,
                screen.pixels@.len() == 64000,
                screen.pixels@ == span_filled(before, start as int, col as int, color),
            decreases width - col,
        {
            screen.pixels.set(start + col, color);
            col = col + 1;
            assert(screen.pixels@ =~= span_filled(before, start as int, col as int, color));
        }
        row = row + 1;
    }
}

/// A rectangle of no width leaves the screen as it was.
proof fn lemma_empty_rect(pixels: Seq<u8>, x: int, y: int, k: nat, color: u8)
    ensures
        rect_filled(pixels, x, y, 0, k, color) == pixels,
    decreases k,
{
    if k > 0 {
        lemma_empty_rect(pixels, x, y, (k - 1) as nat, color);
        assert(span_filled(pixels, 320 * (y + k - 1) + x, 0, color) =~= pixels);
    }
}

} // verus!
