//! The framegrab picture: the framebuffer scaled up into an RGB image with a
//! margin and a one-pixel grid between cells.
use vstd::prelude::*;

verus! {

/// Screen pixels per framebuffer pixel, in each direction.
pub const SCALE: usize = 12;

/// Background border around the scaled framebuffer, in screen pixels.
pub const MARGIN: usize = 28;

/// Width of the picture: `DISPLAY_WIDTH * SCALE + 2 * MARGIN`.
pub const IMAGE_WIDTH: usize = 824;

/// Height of the picture: `DISPLAY_HEIGHT * SCALE + 2 * MARGIN`.
pub const IMAGE_HEIGHT: usize = 440;

/// Bytes of the RGB picture: three per screen pixel.
pub const IMAGE_BYTES: usize = 1087680;

pub open spec fn lit_color() -> Seq<u8> {
    seq![0xF5u8, 0xA7, 0x3B]
}

/// The one-pixel edge of a lit cell.
pub open spec fn dimmed_color() -> Seq<u8> {
    seq![0x8Au8, 0x60, 0x25]
}

/// An unlit cell, slightly lifted from the background for the pixel grid.
pub open spec fn unlit_color() -> Seq<u8> {
    seq![0x1Eu8, 0x24, 0x19]
}

pub open spec fn background_color() -> Seq<u8> {
    seq![0x12u8, 0x16, 0x0F]
}

/// The colour of screen pixel (`x`, `y`): the margin and the grid lines are
/// background, each framebuffer pixel is a 12×12 cell whose last row and
/// column are grid (dimmed when the cell is lit).
pub open spec fn pixel_color(display: Seq<bool>, x: int, y: int) -> Seq<u8> {
    if 28 <= x < 824 - 28 && 28 <= y < 440 - 28 {
        let on = display[((y - 28) / 12) * 64 + (x - 28) / 12];
        let inner = (x - 28) % 12 < 11 && (y - 28) % 12 < 11;
        if on && inner {
            lit_color()
        } else if on {
            dimmed_color()
        } else if inner {
            unlit_color()
        } else {
            background_color()
        }
    } else {
        background_color()
    }
}

/// Byte `k` of the row-major RGB picture.
pub open spec fn image_byte(display: Seq<bool>, k: int) -> u8 {
    pixel_color(display, (k / 3) % 824, (k / 3) / 824)[k % 3]
}

proof fn lemma_image_index(x: int, y: int, c: int)
    requires
        0 <= x < 824,
        0 <= y < 440,
        0 <= c < 3,
    ensures
        ((y * 824 + x) * 3 + c) / 3 == y * 824 + x,
        ((y * 824 + x) * 3 + c) % 3 == c,
        (y * 824 + x) % 824 == x,
        (y * 824 + x) / 824 == y,
{
    assert(((y * 824 + x) * 3 + c) / 3 == y * 824 + x) by (nonlinear_arith)
        requires 0 <= c < 3, 0 <= y * 824 + x;
    assert(((y * 824 + x) * 3 + c) % 3 == c) by (nonlinear_arith)
        requires 0 <= c < 3, 0 <= y * 824 + x;
    assert((y * 824 + x) % 824 == x) by (nonlinear_arith)
        requires 0 <= x < 824, 0 <= y;
    assert((y * 824 + x) / 824 == y) by (nonlinear_arith)
        requires 0 <= x < 824, 0 <= y;
}

/// The colour of screen pixel (`x`, `y`), computed.
fn screen_pixel(display: &[bool; 2048], x: usize, y: usize) -> (r: [u8; 3])
    requires
        x < 824,
        y < 440,
    ensures
        r@ == pixel_color(display@, x as int, y as int),
{
    if x >= MARGIN && x < IMAGE_WIDTH - MARGIN && y >= MARGIN && y < IMAGE_HEIGHT - MARGIN {
        let cx = (x - MARGIN) / SCALE;
        let cy = (y - MARGIN) / SCALE;
        // 1px gap between cells for a subtle pixel-grid feel
        let inner_x = (x - MARGIN) % SCALE;
        let inner_y = (y - MARGIN) % SCALE;
        let on = display[cy * 64 + cx];
        let r = if on && inner_x < SCALE - 1 && inner_y < SCALE - 1 {
            [0xF5, 0xA7, 0x3B]
        } else if on {
            [0x8a, 0x60, 0x25] // dimmed edge
        } else if inner_x < SCALE - 1 && inner_y < SCALE - 1 {
            [0x1E, 0x24, 0x19]
        } else {
            [0x12, 0x16, 0x0F]
        };
        assert(r@ =~= pixel_color(display@, x as int, y as int));
        r
    } else {
        let r = [0x12, 0x16, 0x0F];
        assert(r@ =~= pixel_color(display@, x as int, y as int));
        r
    }
}

/// The framebuffer as an `IMAGE_WIDTH`×`IMAGE_HEIGHT` RGB picture, row by
/// row, three bytes per pixel.
pub fn framegrab_image(display: &[bool; 2048]) -> (buf: Vec<u8>)
    ensures
        buf@.len() == IMAGE_BYTES,
        forall|k: int| 0 <= k < IMAGE_BYTES ==> #[trigger] buf@[k] == image_byte(display@, k),
{
    let mut buf: Vec<u8> = Vec::new();
    let mut y: usize = 0;
    while y < IMAGE_HEIGHT
        invariant
            y <= 440,
            buf@.len() == y * 824 * 3,
            forall|k: int| 0 <= k < buf@.len() ==> #[trigger] buf@[k] == image_byte(display@, k),
        decreases 440 - y,
    {
        let mut x: usize = 0;
        while x < IMAGE_WIDTH
            invariant
                y < 440,
                x <= 824,
                buf@.len() == (y * 824 + x) * 3,
                forall|k: int| 0 <= k < buf@.len() ==> #[trigger] buf@[k] == image_byte(display@, k),
            decreases 824 - x,
        {
            let color = screen_pixel(display, x, y);
            proof {
                lemma_image_index(x as int, y as int, 0);
                lemma_image_index(x as int, y as int, 1);
                lemma_image_index(x as int, y as int, 2);
            }
            buf.push(color[0]);
            buf.push(color[1]);
            buf.push(color[2]);
            x += 1;
        }
        y += 1;
    }
    buf
}

/// The RGB picture shows each framebuffer pixel (`cx`, `cy`) as a 12×12
/// cell whose top-left corner is at (28 + 12·cx, 28 + 12·cy): its first 11
/// rows and columns are amber (F5 A7 3B) when the pixel is lit and dark
/// green (1E 24 19) when not; its last row and column form the grid, dimmed
/// amber (8A 60 25) for a lit pixel and background (12 16 0F) otherwise.
/// Everything outside the cells is background.
pub proof fn lemma_picture(display: Seq<bool>, x: int, y: int, c: int)
    requires
        display.len() == 2048,
        0 <= x < 824,
        0 <= y < 440,
        0 <= c < 3,
    ensures
        ({
            let byte = image_byte(display, (y * 824 + x) * 3 + c);
            let in_cells = 28 <= x < 28 + 12 * 64 && 28 <= y < 28 + 12 * 32;
            let cx = (x - 28) / 12;
            let cy = (y - 28) / 12;
            let ix = x - 28 - 12 * cx;
            let iy = y - 28 - 12 * cy;
            let lit = display[cy * 64 + cx];
            &&& in_cells ==> 0 <= cx < 64 && 0 <= cy < 32 && 0 <= ix < 12 && 0 <= iy < 12
            &&& !in_cells ==> byte == seq![0x12u8, 0x16, 0x0F][c]
            &&& in_cells && lit && ix < 11 && iy < 11 ==> byte == seq![0xF5u8, 0xA7, 0x3B][c]
            &&& in_cells && lit && !(ix < 11 && iy < 11) ==> byte == seq![0x8Au8, 0x60, 0x25][c]
            &&& in_cells && !lit && ix < 11 && iy < 11 ==> byte == seq![0x1Eu8, 0x24, 0x19][c]
            &&& in_cells && !lit && !(ix < 11 && iy < 11) ==> byte == seq![0x12u8, 0x16, 0x0F][c]
        }),
{
    lemma_image_index(x, y, c);
}

} // verus!
