//! A software framebuffer: everything is drawn here, then handed to the windowing system whole.

use vstd::arithmetic::div_mod::{
    lemma_div_multiples_vanish_fancy, lemma_fundamental_div_mod, lemma_mod_multiples_vanish,
};
use vstd::prelude::*;

verus! {

/// A decoded picture: four bytes a pixel, red, green, blue and how opaque it is, rows top to
/// bottom.
#[derive(Debug, PartialEq, Eq)]
pub struct Rgba {
    pub width: usize,
    pub height: usize,
    pub data: Vec<u8>,
}

impl Rgba {
    /// Whether there are four bytes for each pixel.
    pub open spec fn wf(self) -> bool {
        self.data.len() == self.width * self.height * 4
    }
}

/// Pixels, `0x00RRGGBB`, rows top to bottom.
#[derive(Debug, PartialEq, Eq)]
pub struct Canvas {
    pub width: usize,
    pub height: usize,
    pub pixels: Vec<u32>,
}

/// A pixel's red, green and blue.
pub open spec fn channels(pixel: u32) -> (int, int, int) {
    ((pixel as int / 65536) % 256, (pixel as int / 256) % 256, pixel as int % 256)
}

/// The pixel of a red, a green and a blue.
pub open spec fn packed(r: int, g: int, b: int) -> u32 {
    (r * 65536 + g * 256 + b) as u32
}

/// One channel of a colour over another, by how opaque it is out of 256.
pub open spec fn mixed(under: int, over: int, alpha: int) -> int {
    (under * (256 - alpha) + over * alpha) / 256
}

/// A pixel over another, by how opaque it is out of 256.
pub open spec fn blended(under: u32, over: u32, alpha: u32) -> u32 {
    if alpha >= 256 {
        over
    } else if alpha == 0 {
        under
    } else {
        let (u, o) = (channels(under), channels(over));
        packed(
            mixed(u.0, o.0, alpha as int),
            mixed(u.1, o.1, alpha as int),
            mixed(u.2, o.2, alpha as int),
        )
    }
}

/// A pixel's red, green and blue.
pub fn unpack(pixel: u32) -> (parts: (u32, u32, u32))
    ensures
        (parts.0 as int, parts.1 as int, parts.2 as int) == channels(pixel),
        parts.0 < 256,
        parts.1 < 256,
        parts.2 < 256,
{
    ((pixel / 65536) % 256, (pixel / 256) % 256, pixel % 256)
}

fn mix(under: u32, over: u32, alpha: u32) -> (value: u32)
    requires
        under < 256,
        over < 256,
        alpha <= 256,
    ensures
        value == mixed(under as int, over as int, alpha as int),
        value < 256,
{
    assert(under * (256 - alpha) <= 255 * (256 - alpha) && over * alpha <= 255 * alpha && 0
        <= under * (256 - alpha) && 0 <= over * alpha) by (nonlinear_arith)
        requires
            0 <= under < 256,
            0 <= over < 256,
            0 <= alpha <= 256,
    ;
    (under * (256 - alpha) + over * alpha) / 256
}

/// `over` blended onto `under` by `alpha`, out of 256.
pub fn blend(under: u32, over: u32, alpha: u32) -> (pixel: u32)
    ensures
        pixel == blended(under, over, alpha),
{
    if alpha >= 256 {
        return over;
    }
    if alpha == 0 {
        return under;
    }
    let (ur, ug, ub): (u32, u32, u32) = unpack(under);
    let (or, og, ob): (u32, u32, u32) = unpack(over);
    mix(ur, or, alpha) * 65536 + mix(ug, og, alpha) * 256 + mix(ub, ob, alpha)
}

/// A blended channel lies between the two that it is blended of.
pub proof fn blending_stays_between(under: int, over: int, alpha: int)
    requires
        0 <= under < 256,
        0 <= over < 256,
        0 <= alpha <= 256,
    ensures
        under <= over ==> under <= mixed(under, over, alpha) <= over,
        over <= under ==> over <= mixed(under, over, alpha) <= under,
{
    let sum = under * (256 - alpha) + over * alpha;
    if under <= over {
        assert(256 * under <= sum <= 256 * over) by (nonlinear_arith)
            requires
                sum == under * (256 - alpha) + over * alpha,
                0 <= alpha <= 256,
                under <= over,
        ;
    } else {
        assert(256 * over <= sum <= 256 * under) by (nonlinear_arith)
            requires
                sum == under * (256 - alpha) + over * alpha,
                0 <= alpha <= 256,
                over <= under,
        ;
    }
}

/// A rectangle of pixels, exclusive at the end.
#[derive(Debug, Clone, Copy, PartialEq, Eq, Structural)]
pub struct Bounds {
    pub x0: usize,
    pub y0: usize,
    pub x1: usize,
    pub y1: usize,
}

impl Bounds {
    /// Whether the pixel at a place, in rows of `width`, is inside.
    pub open spec fn holds(self, at: int, width: int) -> bool {
        &&& self.x0 <= at % width < self.x1
        &&& self.y0 <= at / width < self.y1
    }
}

proof fn place_of(x: int, y: int, width: int)
    requires
        0 <= x < width,
        0 <= y,
    ensures
        (y * width + x) % width == x,
        (y * width + x) / width == y,
{
    lemma_mod_multiples_vanish(y, x, width);
    lemma_div_multiples_vanish_fancy(y, x, width);
    vstd::arithmetic::mul::lemma_mul_is_commutative(y, width);
    assert((y * width + x) / width == y) by (nonlinear_arith)
        requires
            0 <= x < width,
            0 <= y,
    ;
    assert(x % width == x) by (nonlinear_arith)
        requires
            0 <= x < width,
    ;
}

proof fn places_in_row(at: int, y: int, width: int)
    requires
        width > 0,
        y * width <= at < (y + 1) * width,
    ensures
        at / width == y,
        at % width == at - y * width,
{
    assert(at / width == y && at % width == at - y * width) by (nonlinear_arith)
        requires
            width > 0,
            y * width <= at < (y + 1) * width,
    ;
}

impl Canvas {
    /// Whether there is one pixel for each place.
    pub open spec fn wf(self) -> bool {
        self.pixels.len() == self.width * self.height
    }

    /// Whether a rectangle is within the canvas.
    pub open spec fn contains(self, bounds: Bounds) -> bool {
        bounds.x1 <= self.width && bounds.y1 <= self.height
    }

    /// A black canvas.
    pub fn new(width: usize, height: usize) -> (canvas: Canvas)
        requires
            width * height <= usize::MAX,
        ensures
            canvas.wf(),
            canvas.width == width,
            canvas.height == height,
            forall|i: int| 0 <= i < canvas.pixels.len() ==> #[trigger] canvas.pixels@[i] == 0,
    {
        let count: usize = width * height;
        let mut pixels: Vec<u32> = Vec::new();
        let mut i: usize = 0;
        while i < count
            invariant
                i <= count,
                pixels.len() == i,
                forall|j: int| 0 <= j < i ==> #[trigger] pixels@[j] == 0,
            decreases count - i,
        {
            pixels.push(0);
            i += 1;
        }
        Canvas { width, height, pixels }
    }

    /// Make the canvas another size, and black.
    pub fn resize(&mut self, width: usize, height: usize)
        requires
            width * height <= usize::MAX,
        ensures
            final(self).wf(),
            final(self).width == width,
            final(self).height == height,
            forall|i: int|
                0 <= i < final(self).pixels.len() ==> #[trigger] final(self).pixels@[i] == 0,
    {
        *self = Canvas::new(width, height);
    }

    /// Make every pixel this.
    pub fn clear(&mut self, pixel: u32)
        ensures
            final(self).width == old(self).width,
            final(self).height == old(self).height,
            final(self).pixels.len() == old(self).pixels.len(),
            forall|i: int|
                0 <= i < final(self).pixels.len() ==> #[trigger] final(self).pixels@[i] == pixel,
    {
        let mut i: usize = 0;
        while i < self.pixels.len()
            invariant
                i <= self.pixels.len(),
                self.width == old(self).width,
                self.height == old(self).height,
                self.pixels.len() == old(self).pixels.len(),
                forall|j: int| 0 <= j < i ==> #[trigger] self.pixels@[j] == pixel,
            decreases self.pixels.len() - i,
        {
            self.pixels[i] = pixel;
            i += 1;
        }
    }

    /// Blend a pixel by `alpha`, out of 256. Nothing happens outside the canvas.
    pub fn blend_pixel(&mut self, x: usize, y: usize, color: u32, alpha: u32)
        requires
            old(self).wf(),
        ensures
            final(self).width == old(self).width,
            final(self).height == old(self).height,
            final(self).pixels@ == if x < old(self).width && y < old(self).height {
                old(self).pixels@.update(
                    y * old(self).width + x,
                    blended(old(self).pixels@[y * old(self).width + x], color, alpha),
                )
            } else {
                old(self).pixels@
            },
    {
        if x < self.width && y < self.height {
            assert(0 <= y * self.width && y * self.width + x < self.width * self.height)
                by (nonlinear_arith)
                requires
                    x < self.width,
                    y < self.height,
            ;
            let at: usize = y * self.width + x;
            self.pixels[at] = blend(self.pixels[at], color, alpha);
        }
    }

    /// Blend a colour onto a rectangle by `alpha`, out of 256.
    pub fn fill(&mut self, bounds: Bounds, over: u32, alpha: u32)
        requires
            old(self).wf(),
            old(self).contains(bounds),
        ensures
            final(self).wf(),
            final(self).width == old(self).width,
            final(self).height == old(self).height,
            forall|i: int|
                0 <= i < old(self).pixels.len() ==> #[trigger] final(self).pixels@[i]
                    == if bounds.holds(i, old(self).width as int) {
                    blended(old(self).pixels@[i], over, alpha)
                } else {
                    old(self).pixels@[i]
                },
    {
        let ghost before = self.pixels@;
        let width: usize = self.width;
        let mut y: usize = bounds.y0;
        if bounds.x0 >= bounds.x1 || bounds.y0 >= bounds.y1 {
            return;
        }
        let ghost done = y as int * width as int;
        proof {
            assert forall|i: int| 0 <= i < before.len() && i < done implies !bounds.holds(
                i,
                width as int,
            ) by {
                if bounds.holds(i, width as int) {
                    lemma_fundamental_div_mod(i, width as int);
                    assert(i >= bounds.y0 * width) by (nonlinear_arith)
                        requires
                            i == width * (i / (width as int)) + i % (width as int),
                            i / (width as int) >= bounds.y0,
                            i % (width as int) >= 0,
                            width > 0,
                    ;
                }
            }
        }
        while y < bounds.y1
            invariant
                bounds.y0 <= y <= bounds.y1,
                bounds.x0 < bounds.x1 <= width,
                bounds.y1 <= self.height,
                width == self.width,
                self.width == old(self).width,
                self.height == old(self).height,
                before == old(self).pixels@,
                before.len() == self.pixels.len(),
                self.pixels.len() == width * self.height,
                forall|i: int|
                    0 <= i < before.len() ==> #[trigger] self.pixels@[i] == if bounds.holds(
                        i,
                        width as int,
                    ) && i < y * width {
                        blended(before[i], over, alpha)
                    } else {
                        before[i]
                    },
            decreases bounds.y1 - y,
        {
            proof {
                row_fits(y as int, width as int, self.height as int);
            }
            let row: usize = y * width;
            let mut x: usize = bounds.x0;
            proof {
                assert((y + 1) * width == row + width) by (nonlinear_arith)
                    requires
                        row == y * width,
                ;
                assert forall|i: int|
                    0 <= i < before.len() && row <= i < row + bounds.x0 implies !bounds.holds(
                    i,
                    width as int,
                ) by {
                    places_in_row(i, y as int, width as int);
                }
            }
            while x < bounds.x1
                invariant
                    bounds.x0 <= x <= bounds.x1 <= width,
                    bounds.y0 <= y < bounds.y1 <= self.height,
                    row == y * width,
                    row + width <= before.len(),
                    width == self.width,
                    self.width == old(self).width,
                    self.height == old(self).height,
                    before.len() == self.pixels.len(),
                    self.pixels.len() == width * self.height,
                    forall|i: int|
                        0 <= i < before.len() ==> #[trigger] self.pixels@[i] == if bounds.holds(
                            i,
                            width as int,
                        ) && i < row + x {
                            blended(before[i], over, alpha)
                        } else {
                            before[i]
                        },
                decreases bounds.x1 - x,
            {
                let at: usize = row + x;
                proof {
                    place_of(x as int, y as int, width as int);
                }
                self.pixels[at] = blend(self.pixels[at], over, alpha);
                x += 1;
            }
            proof {
                assert((y + 1) * width == row + width) by (nonlinear_arith)
                    requires
                        row == y * width,
                ;
                assert forall|i: int|
                    0 <= i < before.len() && row + bounds.x1 <= i < (y + 1) * width implies !bounds.holds(
                    i,
                    width as int,
                ) by {
                    places_in_row(i, y as int, width as int);
                }
            }
            y += 1;
        }
        proof {
            assert forall|i: int| 0 <= i < before.len() && i >= y * width implies !bounds.holds(
                i,
                width as int,
            ) by {
                if bounds.holds(i, width as int) {
                    lemma_fundamental_div_mod(i, width as int);
                    assert(i < y * width) by (nonlinear_arith)
                        requires
                            i == width * (i / (width as int)) + i % (width as int),
                            i / (width as int) + 1 <= y,
                            i % (width as int) < width,
                            width > 0,
                    ;
                }
            }
        }
    }
}

/// What a channel of some source pixels weighs together, each by how opaque it is: the pixels
/// of `count` columns from `column` on, in one row.
pub open spec fn row_weight(
    picture: Rgba,
    channel: int,
    row: int,
    column: int,
    count: int,
) -> int
    decreases count,
{
    if count <= 0 {
        0
    } else {
        let at = 4 * (row * picture.width + column + count - 1);
        row_weight(picture, channel, row, column, count - 1) + if channel == 3 {
            picture.data@[at + 3] as int
        } else {
            picture.data@[at + channel] * picture.data@[at + 3]
        }
    }
}

/// What a channel of a block of source pixels weighs together: of `rows` rows from `row` on.
pub open spec fn block_weight(
    picture: Rgba,
    channel: int,
    row: int,
    rows: int,
    column: int,
    columns: int,
) -> int
    decreases rows,
{
    if rows <= 0 {
        0
    } else {
        block_weight(picture, channel, row, rows - 1, column, columns) + row_weight(
            picture,
            channel,
            row + rows - 1,
            column,
            columns,
        )
    }
}

/// A canvas pixel under the average of a block of source pixels.
pub open spec fn averaged(
    under: u32,
    picture: Rgba,
    across: (usize, usize),
    down: (usize, usize),
) -> u32 {
    let columns = across.1 - across.0;
    let rows = down.1 - down.0;
    let opacity = block_weight(
        picture,
        3,
        down.0 as int,
        rows,
        across.0 as int,
        columns,
    );
    if opacity == 0 {
        under
    } else {
        let channel = |c: int|
            block_weight(picture, c, down.0 as int, rows, across.0 as int, columns) / opacity;
        blended(
            under,
            packed(channel(0), channel(1), channel(2)),
            (opacity * 256 / (rows * columns * 255)) as u32,
        )
    }
}

/// Whether each span is of some of the first `most`.
pub open spec fn spans_within(spans: Seq<(usize, usize)>, most: int) -> bool {
    forall|i: int| 0 <= i < spans.len() ==> (#[trigger] spans[i]).0 < spans[i].1 <= most
}

proof fn row_fits(y: int, width: int, height: int)
    requires
        0 <= y < height,
        0 <= width,
    ensures
        0 <= y * width,
        y * width + width <= width * height,
{
    assert(0 <= y * width && y * width + width <= width * height) by (nonlinear_arith)
        requires
            0 <= y < height,
            0 <= width,
    ;
}

proof fn row_weights_are_bounded(
    picture: Rgba,
    channel: int,
    row: int,
    column: int,
    count: int,
)
    requires
        0 <= channel < 3,
        0 <= count,
    ensures
        0 <= row_weight(picture, channel, row, column, count) <= 255 * row_weight(
            picture,
            3,
            row,
            column,
            count,
        ),
        0 <= row_weight(picture, 3, row, column, count) <= 255 * count,
    decreases count,
{
    if count > 0 {
        row_weights_are_bounded(picture, channel, row, column, count - 1);
        let at = 4 * (row * picture.width + column + count - 1);
        let value = picture.data@[at + channel] as int;
        let alpha = picture.data@[at + 3] as int;
        assert(0 <= value * alpha <= 255 * alpha) by (nonlinear_arith)
            requires
                0 <= value <= 255,
                0 <= alpha <= 255,
        ;
    }
}

proof fn block_weights_are_bounded(
    picture: Rgba,
    channel: int,
    row: int,
    rows: int,
    column: int,
    columns: int,
)
    requires
        0 <= channel < 3,
        0 <= rows,
        0 <= columns,
    ensures
        0 <= block_weight(picture, channel, row, rows, column, columns) <= 255 * block_weight(
            picture,
            3,
            row,
            rows,
            column,
            columns,
        ),
        0 <= block_weight(picture, 3, row, rows, column, columns) <= 255 * (rows * columns),
    decreases rows,
{
    if rows > 0 {
        block_weights_are_bounded(picture, channel, row, rows - 1, column, columns);
        row_weights_are_bounded(picture, channel, row + rows - 1, column, columns);
        assert(255 * ((rows - 1) * columns) + 255 * columns == 255 * (rows * columns))
            by (nonlinear_arith);
    } else {
        assert(rows * columns == 0) by (nonlinear_arith)
            requires
                rows == 0,
        ;
    }
}

/// What a row of source pixels weighs: each channel, and how opaque they are.
fn weigh_row(picture: &Rgba, row: usize, across: (usize, usize)) -> (weights: (
    u64,
    u64,
    u64,
    u64,
))
    requires
        picture.wf(),
        picture.width * picture.height <= u32::MAX,
        row < picture.height,
        across.0 < across.1 <= picture.width,
    ensures
        weights.0 == row_weight(*picture, 0, row as int, across.0 as int, across.1 - across.0),
        weights.1 == row_weight(*picture, 1, row as int, across.0 as int, across.1 - across.0),
        weights.2 == row_weight(*picture, 2, row as int, across.0 as int, across.1 - across.0),
        weights.3 == row_weight(*picture, 3, row as int, across.0 as int, across.1 - across.0),
{
    let (mut r, mut g, mut b, mut a): (u64, u64, u64, u64) = (0, 0, 0, 0);
    proof {
        row_fits(row as int, picture.width as int, picture.height as int);
        assert(picture.width <= picture.width * picture.height) by (nonlinear_arith)
            requires
                picture.height >= 1,
        ;
    }
    let start: usize = row * picture.width;
    let mut x: usize = across.0;
    while x < across.1
        invariant
            across.0 <= x <= across.1 <= picture.width,
            picture.width <= u32::MAX,
            picture.data.len() == picture.width * picture.height * 4,
            picture.width * picture.height <= u32::MAX,
            start == row * picture.width,
            start + picture.width <= picture.width * picture.height,
            r == row_weight(*picture, 0, row as int, across.0 as int, x - across.0),
            g == row_weight(*picture, 1, row as int, across.0 as int, x - across.0),
            b == row_weight(*picture, 2, row as int, across.0 as int, x - across.0),
            a == row_weight(*picture, 3, row as int, across.0 as int, x - across.0),
            a <= 255 * (x - across.0),
            r <= 65025 * (x - across.0),
            g <= 65025 * (x - across.0),
            b <= 65025 * (x - across.0),
        decreases across.1 - x,
    {
        let at: usize = 4 * (start + x);
        let alpha: u64 = picture.data[at + 3] as u64;
        let (red, green, blue): (u64, u64, u64) = (
            picture.data[at] as u64,
            picture.data[at + 1] as u64,
            picture.data[at + 2] as u64,
        );
        assert(red * alpha <= 65025 && green * alpha <= 65025 && blue * alpha <= 65025 && 0 <= red
            * alpha && 0 <= green * alpha && 0 <= blue * alpha) by (nonlinear_arith)
            requires
                red <= 255,
                green <= 255,
                blue <= 255,
                alpha <= 255,
        ;
        r = r + red * alpha;
        g = g + green * alpha;
        b = b + blue * alpha;
        a = a + alpha;
        x += 1;
    }
    (r, g, b, a)
}

/// A canvas pixel under the average of a block of source pixels.
fn average(under: u32, picture: &Rgba, across: (usize, usize), down: (usize, usize)) -> (pixel: u32)
    requires
        picture.wf(),
        picture.width * picture.height <= u32::MAX,
        across.0 < across.1 <= picture.width,
        down.0 < down.1 <= picture.height,
    ensures
        pixel == averaged(under, *picture, across, down),
{
    let columns: usize = across.1 - across.0;
    let rows: usize = down.1 - down.0;
    let (mut r, mut g, mut b, mut a): (u64, u64, u64, u64) = (0, 0, 0, 0);
    let mut n: u64 = 0;
    let ghost most = rows * columns;
    assert(most <= picture.width * picture.height) by (nonlinear_arith)
        requires
            most == rows * columns,
            0 <= rows <= picture.height,
            0 <= columns <= picture.width,
    ;
    assert(0int * columns == 0) by (nonlinear_arith);
    let mut y: usize = down.0;
    while y < down.1
        invariant
            picture.wf(),
            picture.width * picture.height <= u32::MAX,
            across.0 < across.1 <= picture.width,
            down.0 <= y <= down.1 <= picture.height,
            columns == across.1 - across.0,
            rows == down.1 - down.0,
            most == rows * columns,
            most <= u32::MAX,
            n == (y - down.0) * columns,
            n <= most,
            r == block_weight(*picture, 0, down.0 as int, y - down.0, across.0 as int, columns as int),
            g == block_weight(*picture, 1, down.0 as int, y - down.0, across.0 as int, columns as int),
            b == block_weight(*picture, 2, down.0 as int, y - down.0, across.0 as int, columns as int),
            a == block_weight(*picture, 3, down.0 as int, y - down.0, across.0 as int, columns as int),
        decreases down.1 - y,
    {
        let (red, green, blue, alpha): (u64, u64, u64, u64) = weigh_row(picture, y, across);
        proof {
            let done = y + 1 - down.0;
            assert(n + columns == done * columns && done * columns <= most) by (nonlinear_arith)
                requires
                    n == (y - down.0) * columns,
                    done == y + 1 - down.0,
                    done <= rows,
                    most == rows * columns,
                    0 <= columns,
            ;
            block_weights_are_bounded(*picture, 0, down.0 as int, done, across.0 as int, columns as int);
            block_weights_are_bounded(*picture, 1, down.0 as int, done, across.0 as int, columns as int);
            block_weights_are_bounded(*picture, 2, down.0 as int, done, across.0 as int, columns as int);
        }
        r = r + red;
        g = g + green;
        b = b + blue;
        a = a + alpha;
        n = n + columns as u64;
        y += 1;
    }
    proof {
        block_weights_are_bounded(*picture, 0, down.0 as int, rows as int, across.0 as int, columns as int);
        block_weights_are_bounded(*picture, 1, down.0 as int, rows as int, across.0 as int, columns as int);
        block_weights_are_bounded(*picture, 2, down.0 as int, rows as int, across.0 as int, columns as int);
        assert(n > 0) by (nonlinear_arith)
            requires
                n == rows * columns,
                rows > 0,
                columns > 0,
        ;
    }
    if a == 0 {
        return under;
    }
    proof {
        assert(r / a <= 255 && g / a <= 255 && b / a <= 255) by (nonlinear_arith)
            requires
                a > 0,
                r <= 255 * a,
                g <= 255 * a,
                b <= 255 * a,
        ;
        assert((a * 256) / (n * 255) as int <= 256) by (nonlinear_arith)
            requires
                n > 0,
                a <= 255 * n,
        ;
    }
    let color: u32 = (r / a) as u32 * 65536 + (g / a) as u32 * 256 + (b / a) as u32;
    let coverage: u32 = (a * 256 / (n * 255)) as u32;
    blend(under, color, coverage)
}

impl Canvas {
    /// Draw a picture with its first pixel at `x` and `y`: each canvas pixel is the average of
    /// the source pixels in the span of columns and the span of rows that it has.
    pub fn blit(
        &mut self,
        picture: &Rgba,
        x: usize,
        y: usize,
        across: &Vec<(usize, usize)>,
        down: &Vec<(usize, usize)>,
    )
        requires
            old(self).wf(),
            picture.wf(),
            picture.width * picture.height <= u32::MAX,
            x + across.len() <= old(self).width,
            y + down.len() <= old(self).height,
            spans_within(across@, picture.width as int),
            spans_within(down@, picture.height as int),
        ensures
            final(self).wf(),
            final(self).width == old(self).width,
            final(self).height == old(self).height,
            forall|i: int|
                0 <= i < old(self).pixels.len() ==> #[trigger] final(self).pixels@[i] == if ((
                Bounds {
                    x0: x,
                    y0: y,
                    x1: (x + across.len()) as usize,
                    y1: (y + down.len()) as usize,
                }).holds(i, old(self).width as int)) {
                    averaged(
                        old(self).pixels@[i],
                        *picture,
                        across@[i % old(self).width as int - x],
                        down@[i / old(self).width as int - y],
                    )
                } else {
                    old(self).pixels@[i]
                },
    {
        let ghost before = self.pixels@;
        let width: usize = self.width;
        if across.len() == 0 || down.len() == 0 {
            return;
        }
        let bounds = Bounds { x0: x, y0: y, x1: x + across.len(), y1: y + down.len() };
        let ghost done = y as int * width as int;
        proof {
            assert forall|i: int| 0 <= i < before.len() && i < done implies !bounds.holds(
                i,
                width as int,
            ) by {
                if bounds.holds(i, width as int) {
                    lemma_fundamental_div_mod(i, width as int);
                    assert(i >= y * width) by (nonlinear_arith)
                        requires
                            i == width * (i / (width as int)) + i % (width as int),
                            i / (width as int) >= y,
                            i % (width as int) >= 0,
                            width > 0,
                    ;
                }
            }
        }
        let mut j: usize = 0;
        while j < down.len()
            invariant
                j <= down.len(),
                picture.wf(),
                picture.width * picture.height <= u32::MAX,
                spans_within(across@, picture.width as int),
                spans_within(down@, picture.height as int),
                across.len() > 0,
                x + across.len() <= width,
                y + down.len() <= self.height,
                bounds == (Bounds {
                    x0: x,
                    y0: y,
                    x1: (x + across.len()) as usize,
                    y1: (y + down.len()) as usize,
                }),
                width == self.width,
                self.width == old(self).width,
                self.height == old(self).height,
                before == old(self).pixels@,
                before.len() == self.pixels.len(),
                self.pixels.len() == width * self.height,
                forall|i: int|
                    0 <= i < before.len() ==> #[trigger] self.pixels@[i] == if bounds.holds(
                        i,
                        width as int,
                    ) && i < (y + j) * width {
                        averaged(
                            before[i],
                            *picture,
                            across@[i % width as int - x],
                            down@[i / width as int - y],
                        )
                    } else {
                        before[i]
                    },
            decreases down.len() - j,
        {
            proof {
                row_fits(y + j, width as int, self.height as int);
            }
            let row: usize = (y + j) * width;
            let mut k: usize = 0;
            proof {
                assert((y + j + 1) * width == row + width) by (nonlinear_arith)
                    requires
                        row == (y + j) * width,
                ;
                assert forall|i: int|
                    0 <= i < before.len() && row <= i < row + x implies !bounds.holds(
                    i,
                    width as int,
                ) by {
                    places_in_row(i, y + j, width as int);
                }
            }
            while k < across.len()
                invariant
                    k <= across.len(),
                    j < down.len(),
                    picture.wf(),
                    picture.width * picture.height <= u32::MAX,
                    spans_within(across@, picture.width as int),
                    spans_within(down@, picture.height as int),
                    x + across.len() <= width,
                    y + down.len() <= self.height,
                    bounds == (Bounds {
                        x0: x,
                        y0: y,
                        x1: (x + across.len()) as usize,
                        y1: (y + down.len()) as usize,
                    }),
                    row == (y + j) * width,
                    row + width <= before.len(),
                    width == self.width,
                    self.width == old(self).width,
                    self.height == old(self).height,
                    before.len() == self.pixels.len(),
                    self.pixels.len() == width * self.height,
                    forall|i: int|
                        0 <= i < before.len() ==> #[trigger] self.pixels@[i] == if bounds.holds(
                            i,
                            width as int,
                        ) && i < row + x + k {
                            averaged(
                                before[i],
                                *picture,
                                across@[i % width as int - x],
                                down@[i / width as int - y],
                            )
                        } else {
                            before[i]
                        },
                decreases across.len() - k,
            {
                let at: usize = row + x + k;
                proof {
                    place_of(x + k, y + j, width as int);
                }
                self.pixels[at] = average(self.pixels[at], picture, across[k], down[j]);
                k += 1;
            }
            proof {
                assert forall|i: int|
                    0 <= i < before.len() && row + x + across.len() <= i < (y + j + 1)
                        * width implies !bounds.holds(i, width as int) by {
                    places_in_row(i, y + j, width as int);
                }
            }
            j += 1;
        }
        proof {
            assert forall|i: int|
                0 <= i < before.len() && i >= (y + down.len()) * width implies !bounds.holds(
                i,
                width as int,
            ) by {
                if bounds.holds(i, width as int) {
                    lemma_fundamental_div_mod(i, width as int);
                    assert(i < (y + down.len()) * width) by (nonlinear_arith)
                        requires
                            i == width * (i / (width as int)) + i % (width as int),
                            i / (width as int) + 1 <= y + down.len(),
                            i % (width as int) < width,
                            width > 0,
                    ;
                }
            }
        }
    }
}

/// Pixels as bytes, each pixel's lowest first.
pub open spec fn little_endian(pixels: Seq<u32>) -> Seq<u8> {
    Seq::new(
        pixels.len() * 4,
        |i: int|
            {
                let pixel = pixels[i / 4] as int;
                if i % 4 == 0 {
                    (pixel % 256) as u8
                } else if i % 4 == 1 {
                    (pixel / 256 % 256) as u8
                } else if i % 4 == 2 {
                    (pixel / 65536 % 256) as u8
                } else {
                    (pixel / 16777216) as u8
                }
            },
    )
}

/// Pixels as bytes, each pixel's lowest first.
pub fn pixel_bytes(pixels: &Vec<u32>) -> (bytes: Vec<u8>)
    ensures
        bytes@ == little_endian(pixels@),
{
    let mut bytes: Vec<u8> = Vec::new();
    let mut i: usize = 0;
    while i < pixels.len()
        invariant
            i <= pixels.len(),
            bytes@ =~= little_endian(pixels@.take(i as int)),
        decreases pixels.len() - i,
    {
        let pixel: u32 = pixels[i];
        let ghost before = bytes@;
        bytes.push((pixel % 256) as u8);
        bytes.push((pixel / 256 % 256) as u8);
        bytes.push((pixel / 65536 % 256) as u8);
        bytes.push((pixel / 16777216) as u8);
        assert forall|k: int| 0 <= k < 4 * (i + 1) implies #[trigger] bytes@[k] == little_endian(
            pixels@.take(i + 1),
        )[k] by {
            if k < 4 * i {
                assert(bytes@[k] == before[k]);
                assert(pixels@.take(i + 1)[k / 4] == pixels@.take(i as int)[k / 4]);
            } else {
                assert(k / 4 == i);
            }
        }
        assert(bytes@ =~= little_endian(pixels@.take(i + 1)));
        i += 1;
    }
    assert(pixels@.take(pixels.len() as int) =~= pixels@);
    bytes
}

/// A pixel's channels are read as they were packed, red first.
pub proof fn packed_channels_are_read_back(r: int, g: int, b: int)
    requires
        0 <= r < 256,
        0 <= g < 256,
        0 <= b < 256,
    ensures
        channels(packed(r, g, b)) == (r, g, b),
        packed(r, g, b) == 0x1_0000 * r + 0x100 * g + b,
{
}

/// Nothing of a colour leaves what is under it, all of it covers that, and half of it is half way:
/// a blended channel is within one of the exact mix.
pub proof fn a_blend_is_the_mix_of_both(under: u32, over: u32, alpha: u32)
    ensures
        alpha == 0 ==> blended(under, over, alpha) == under,
        alpha >= 256 ==> blended(under, over, alpha) == over,
        0 < alpha < 256 ==> {
            let (u, o, m) = (
                channels(under),
                channels(over),
                channels(blended(under, over, alpha)),
            );
            &&& 0 <= u.0 * (256 - alpha) + o.0 * alpha - 256 * m.0 < 256
            &&& 0 <= u.1 * (256 - alpha) + o.1 * alpha - 256 * m.1 < 256
            &&& 0 <= u.2 * (256 - alpha) + o.2 * alpha - 256 * m.2 < 256
        },
{
    if 0 < alpha < 256 {
        let (u, o) = (channels(under), channels(over));
        blending_stays_between(u.0, o.0, alpha as int);
        blending_stays_between(u.1, o.1, alpha as int);
        blending_stays_between(u.2, o.2, alpha as int);
        packed_channels_are_read_back(
            mixed(u.0, o.0, alpha as int),
            mixed(u.1, o.1, alpha as int),
            mixed(u.2, o.2, alpha as int),
        );
    }
}

/// A pixel is inside bounds by its column and its row: from the first of each, up to the second.
pub proof fn bounds_hold_columns_and_rows(bounds: Bounds, width: int, x: int, y: int)
    requires
        0 <= x < width,
        0 <= y,
    ensures
        bounds.holds(y * width + x, width) <==> bounds.x0 <= x < bounds.x1 && bounds.y0 <= y
            < bounds.y1,
{
    let at = y * width + x;
    vstd::arithmetic::div_mod::lemma_fundamental_div_mod_converse(at, width, y, x);
}

proof fn four_bytes_make_up_a_number(pixel: int)
    requires
        0 <= pixel < 0x1_0000_0000,
    ensures
        pixel == pixel % 256 + 0x100 * (pixel / 256 % 256) + 0x1_0000 * (pixel / 65536 % 256)
            + 0x100_0000 * (pixel / 16777216),
        0 <= pixel / 16777216 < 256,
{
    assert(pixel / 65536 == pixel / 256 / 256);
    assert(pixel / 16777216 == pixel / 65536 / 256);
}

/// The four bytes of a pixel, the least first, make it up.
pub proof fn a_pixels_bytes_make_it_up(pixels: Seq<u32>, i: int)
    requires
        0 <= i < pixels.len(),
    ensures
        little_endian(pixels).len() == 4 * pixels.len(),
        pixels[i] == little_endian(pixels)[4 * i] + 0x100 * little_endian(pixels)[4 * i + 1]
            + 0x1_0000 * little_endian(pixels)[4 * i + 2] + 0x100_0000 * little_endian(pixels)[4 * i
            + 3],
{
    let pixel = pixels[i] as int;
    four_bytes_make_up_a_number(pixel);
    let bytes = little_endian(pixels);
    assert(bytes[4 * i] == (pixel % 256) as u8);
    assert(bytes[4 * i + 1] == (pixel / 256 % 256) as u8);
    assert(bytes[4 * i + 2] == (pixel / 65536 % 256) as u8);
    assert(bytes[4 * i + 3] == (pixel / 16777216) as u8);
}

proof fn row_weights_are_between(
    picture: Rgba,
    channel: int,
    row: int,
    column: int,
    count: int,
    least: int,
    most: int,
)
    requires
        0 <= channel < 3,
        0 <= least,
        0 <= count,
        forall|k: int|
            0 <= k < count ==> least <= #[trigger] picture.data@[4 * (row * picture.width + column
                + k) + channel] <= most,
    ensures
        0 <= row_weight(picture, 3, row, column, count) <= 255 * count,
        least * row_weight(picture, 3, row, column, count) <= row_weight(
            picture,
            channel,
            row,
            column,
            count,
        ) <= most * row_weight(picture, 3, row, column, count),
    decreases count,
{
    if count > 0 {
        row_weights_are_between(picture, channel, row, column, count - 1, least, most);
        let at = 4 * (row * picture.width + column + count - 1);
        let value = picture.data@[4 * (row * picture.width + column + (count - 1)) + channel] as int;
        assert(at + channel == 4 * (row * picture.width + column + (count - 1)) + channel);
        let alpha = picture.data@[at + 3] as int;
        let before = row_weight(picture, 3, row, column, count - 1);
        assert(least * (before + alpha) == least * before + least * alpha) by (nonlinear_arith);
        assert(most * (before + alpha) == most * before + most * alpha) by (nonlinear_arith);
        assert(least * alpha <= value * alpha <= most * alpha) by (nonlinear_arith)
            requires
                least <= value <= most,
                0 <= alpha,
        ;
    } else {
        assert(least * 0 == 0 && most * 0 == 0);
    }
}

/// What a block of a picture weighs in a channel is between its opacity times the least and times
/// the greatest value of that channel in the block: an averaged pixel is no brighter and no darker
/// than the pixels it is made of.
pub proof fn a_block_weighs_between_its_values(
    picture: Rgba,
    channel: int,
    row: int,
    rows: int,
    column: int,
    columns: int,
    least: int,
    most: int,
)
    requires
        0 <= channel < 3,
        0 <= least,
        0 <= rows,
        0 <= columns,
        forall|j: int, k: int|
            0 <= j < rows && 0 <= k < columns ==> least <= #[trigger] picture.data@[4 * ((row + j)
                * picture.width + column + k) + channel] <= most,
    ensures
        0 <= block_weight(picture, 3, row, rows, column, columns) <= 255 * (rows * columns),
        least * block_weight(picture, 3, row, rows, column, columns) <= block_weight(
            picture,
            channel,
            row,
            rows,
            column,
            columns,
        ) <= most * block_weight(picture, 3, row, rows, column, columns),
    decreases rows,
{
    if rows > 0 {
        a_block_weighs_between_its_values(
            picture,
            channel,
            row,
            rows - 1,
            column,
            columns,
            least,
            most,
        );
        let last = row + rows - 1;
        assert forall|k: int| 0 <= k < columns implies least <= #[trigger] picture.data@[4 * (last
            * picture.width + column + k) + channel] <= most by {
            assert(row + (rows - 1) == last);
            let value = picture.data@[4 * ((row + (rows - 1)) * picture.width + column + k)
                + channel];
            assert(least <= value <= most);
        }
        row_weights_are_between(picture, channel, last, column, columns, least, most);
        let before = block_weight(picture, 3, row, rows - 1, column, columns);
        let here = row_weight(picture, 3, last, column, columns);
        assert(least * (before + here) == least * before + least * here) by (nonlinear_arith);
        assert(most * (before + here) == most * before + most * here) by (nonlinear_arith);
        assert(rows * columns == (rows - 1) * columns + columns) by (nonlinear_arith);
    } else {
        assert(least * 0 == 0 && most * 0 == 0);
        assert(0 * columns == 0) by (nonlinear_arith);
    }
}

/// A block of opaque pixels of one colour is that colour whatever is under it, and a block that can
/// be seen through leaves what is under it.
pub proof fn an_opaque_block_covers_what_is_under_it(
    under: u32,
    picture: Rgba,
    across: (usize, usize),
    down: (usize, usize),
    colour: (u8, u8, u8),
)
    requires
        across.0 < across.1,
        down.0 < down.1,
    ensures
        (forall|x: int, y: int|
            across.0 <= x < across.1 && down.0 <= y < down.1 ==> {
                let at = #[trigger] (y * picture.width + x);
                picture.data@[4 * at] == colour.0 && picture.data@[4 * at + 1] == colour.1
                    && picture.data@[4 * at + 2] == colour.2 && picture.data@[4 * at + 3] == 255
            }) ==> averaged(under, picture, across, down) == colour.0 * 65536 + colour.1 * 256
            + colour.2,
        (forall|x: int, y: int|
            across.0 <= x < across.1 && down.0 <= y < down.1 ==> picture.data@[4 * (
            #[trigger] (y * picture.width + x)) + 3] == 0) ==> averaged(
            under,
            picture,
            across,
            down,
        ) == under,
{
    let (row, column) = (down.0 as int, across.0 as int);
    let (rows, columns) = (down.1 - down.0, across.1 - across.0);
    if forall|x: int, y: int|
        across.0 <= x < across.1 && down.0 <= y < down.1 ==> {
            let at = #[trigger] (y * picture.width + x);
            picture.data@[4 * at] == colour.0 && picture.data@[4 * at + 1] == colour.1
                && picture.data@[4 * at + 2] == colour.2 && picture.data@[4 * at + 3] == 255
        } {
        assert forall|x: int, y: int| column <= x < column + columns && row <= y < row
            + rows implies picture.data@[4 * #[trigger] (y * picture.width + x)] == colour.0
            && picture.data@[4 * (y * picture.width + x) + 1] == colour.1 && picture.data@[4 * (y
            * picture.width + x) + 2] == colour.2 && picture.data@[4 * (y * picture.width + x) + 3]
            == 255 by {}
        let whole = 255 * (rows * columns);
        even_blocks_weigh_alike(picture, 0, row, rows, column, columns, colour.0 as int, 255);
        even_blocks_weigh_alike(picture, 1, row, rows, column, columns, colour.1 as int, 255);
        even_blocks_weigh_alike(picture, 2, row, rows, column, columns, colour.2 as int, 255);
        assert(rows * columns > 0) by (nonlinear_arith)
            requires
                rows > 0,
                columns > 0,
        ;
        assert(block_weight(picture, 3, row, rows, column, columns) == whole);
        vstd::arithmetic::div_mod::lemma_div_by_multiple(colour.0 as int, whole);
        vstd::arithmetic::div_mod::lemma_div_by_multiple(colour.1 as int, whole);
        vstd::arithmetic::div_mod::lemma_div_by_multiple(colour.2 as int, whole);
        assert(colour.0 * whole == colour.0 * (255 * (rows * columns)));
        assert(rows * columns * 255 == whole);
        vstd::arithmetic::div_mod::lemma_div_by_multiple(256, whole);
        assert(whole * 256 == 256 * whole);
    }
    if forall|x: int, y: int|
        across.0 <= x < across.1 && down.0 <= y < down.1 ==> picture.data@[4 * (#[trigger] (y
            * picture.width + x)) + 3] == 0 {
        clear_blocks_weigh_nothing(picture, row, rows, column, columns);
    }
}

proof fn even_rows_weigh_alike(
    picture: Rgba,
    channel: int,
    row: int,
    column: int,
    columns: int,
    value: int,
    opacity: int,
)
    requires
        0 <= channel < 3,
        0 <= columns,
        forall|x: int|
            column <= x < column + columns ==> picture.data@[4 * (#[trigger] (row * picture.width
                + x)) + channel] == value && picture.data@[4 * (row * picture.width + x) + 3]
                == opacity,
    ensures
        row_weight(picture, 3, row, column, columns) == opacity * columns,
        row_weight(picture, channel, row, column, columns) == value * (opacity * columns),
    decreases columns,
{
    if columns > 0 {
        even_rows_weigh_alike(picture, channel, row, column, columns - 1, value, opacity);
        let x = column + columns - 1;
        assert(row * picture.width + x == row * picture.width + column + columns - 1);
        assert(picture.data@[4 * (row * picture.width + x) + channel] == value);
        assert(opacity * (columns - 1) + opacity == opacity * columns) by (nonlinear_arith);
        assert(value * (opacity * (columns - 1)) + value * opacity == value * (opacity * columns))
            by (nonlinear_arith);
    } else {
        assert(opacity * 0 == 0 && value * 0 == 0);
    }
}

proof fn even_blocks_weigh_alike(
    picture: Rgba,
    channel: int,
    row: int,
    rows: int,
    column: int,
    columns: int,
    value: int,
    opacity: int,
)
    requires
        0 <= channel < 3,
        0 <= columns,
        0 <= rows,
        forall|x: int, y: int|
            column <= x < column + columns && row <= y < row + rows ==> picture.data@[4 * (
            #[trigger] (y * picture.width + x)) + channel] == value && picture.data@[4 * (y
                * picture.width + x) + 3] == opacity,
    ensures
        block_weight(picture, 3, row, rows, column, columns) == opacity * (rows * columns),
        block_weight(picture, channel, row, rows, column, columns) == value * (opacity * (rows
            * columns)),
    decreases rows,
{
    if rows > 0 {
        even_blocks_weigh_alike(
            picture,
            channel,
            row,
            rows - 1,
            column,
            columns,
            value,
            opacity,
        );
        even_rows_weigh_alike(picture, channel, row + rows - 1, column, columns, value, opacity);
        let (done, all) = ((rows - 1) * columns, rows * columns);
        assert(all == done + columns) by (nonlinear_arith)
            requires
                done == (rows - 1) * columns,
                all == rows * columns,
        ;
        assert(opacity * all == opacity * done + opacity * columns) by (nonlinear_arith)
            requires
                all == done + columns,
        ;
        assert(value * (opacity * all) == value * (opacity * done) + value * (opacity * columns))
            by (nonlinear_arith)
            requires
                opacity * all == opacity * done + opacity * columns,
        ;
    } else {
        assert(0 * columns == 0);
        assert(opacity * 0 == 0 && value * 0 == 0);
    }
}

proof fn clear_blocks_weigh_nothing(
    picture: Rgba,
    row: int,
    rows: int,
    column: int,
    columns: int,
)
    requires
        0 <= columns,
        0 <= rows,
        forall|x: int, y: int|
            column <= x < column + columns && row <= y < row + rows ==> picture.data@[4 * (
            #[trigger] (y * picture.width + x)) + 3] == 0,
    ensures
        block_weight(picture, 3, row, rows, column, columns) == 0,
    decreases rows,
{
    if rows > 0 {
        clear_blocks_weigh_nothing(picture, row, rows - 1, column, columns);
        clear_rows_weigh_nothing(picture, row + rows - 1, column, columns);
    }
}

proof fn clear_rows_weigh_nothing(picture: Rgba, row: int, column: int, columns: int)
    requires
        0 <= columns,
        forall|x: int|
            column <= x < column + columns ==> picture.data@[4 * (#[trigger] (row * picture.width
                + x)) + 3] == 0,
    ensures
        row_weight(picture, 3, row, column, columns) == 0,
    decreases columns,
{
    if columns > 0 {
        clear_rows_weigh_nothing(picture, row, column, columns - 1);
        let x = column + columns - 1;
        assert(row * picture.width + x == row * picture.width + column + columns - 1);
        assert(picture.data@[4 * (row * picture.width + x) + 3] == 0);
    }
}

} // verus!
