//! Pictures made ready to show: decoded, scaled, and encoded for the terminal, or drawn in cells
//! as half blocks, two pixels to a cell.

use vstd::prelude::*;

use crate::canvas::Rgba;
use crate::color::{is_xterm_256, xterm_256};
use crate::sixel::{is_sixel, sixel};
use crate::terminal::{Pictures, PreparedImage};
use crate::text::{append, literal};

verus! {

/// The longest side of a picture that is decoded.
pub const MOST_PIXELS: u32 = 40_000;

/// The most memory that decoding a picture may take, in bytes.
pub const MOST_MEMORY: u64 = 536_870_912;

/// What decoding a picture gives: its size and its bytes, if it can be decoded within a side of
/// so many pixels and so much memory.
pub uninterp spec fn decoded(bytes: Seq<u8>, side: u32, memory: u64) -> Option<
    (int, int, Seq<u8>),
>;

/// Whether a file starts as a PNG, and says that its pixels are places in a palette.
pub open spec fn is_palette_png(bytes: Seq<u8>) -> bool {
    &&& bytes.len() >= 26
    &&& bytes.take(8) == seq![0x89u8, 0x50, 0x4e, 0x47, 0x0d, 0x0a, 0x1a, 0x0a]
    &&& bytes[25] == 3
}

/// Whether a file starts as a WebP.
pub open spec fn is_webp(bytes: Seq<u8>) -> bool {
    &&& bytes.len() >= 12
    &&& bytes.take(4) == seq![0x52u8, 0x49, 0x46, 0x46]
    &&& bytes.subrange(8, 12) == seq![0x57u8, 0x45, 0x42, 0x50]
}

/// Whether a file starts as a picture that is not decoded here: a JPEG, a TIFF in either byte
/// order, an icon, a WebP, or a PNG with a palette.
pub open spec fn is_apart(bytes: Seq<u8>) -> bool {
    ||| bytes.len() >= 3 && bytes.take(3) == seq![0xffu8, 0xd8, 0xff]
    ||| bytes.len() >= 4 && bytes.take(4) == seq![0x4du8, 0x4d, 0, 0x2a]
    ||| bytes.len() >= 4 && bytes.take(4) == seq![0x49u8, 0x49, 0x2a, 0]
    ||| bytes.len() >= 4 && bytes.take(4) == seq![0u8, 0, 1, 0]
    ||| is_webp(bytes)
    ||| is_palette_png(bytes)
}

/// Whether four bytes at a place are these.
fn are_four(bytes: &[u8], at: usize, four: (u8, u8, u8, u8)) -> (are: bool)
    ensures
        are == (at + 4 <= bytes.len() && bytes@.subrange(at as int, at + 4) == seq![
            four.0,
            four.1,
            four.2,
            four.3,
        ]),
{
    let length: usize = bytes.len();
    if length < 4 || at > length - 4 {
        return false;
    }
    let are = bytes[at] == four.0 && bytes[at + 1] == four.1 && bytes[at + 2] == four.2 && bytes[at
        + 3] == four.3;
    proof {
        let there = bytes@.subrange(at as int, at + 4);
        let wanted = seq![four.0, four.1, four.2, four.3];
        if are {
            assert(there =~= wanted);
        } else {
            assert(there[0] == bytes@[at as int] && there[1] == bytes@[at + 1]);
            assert(there[2] == bytes@[at + 2] && there[3] == bytes@[at + 3]);
            assert(wanted[0] == four.0 && wanted[1] == four.1);
            assert(wanted[2] == four.2 && wanted[3] == four.3);
        }
    }
    are
}

/// Whether a file starts as a picture that is not decoded here.
pub fn is_decoded_apart(bytes: &[u8]) -> (apart: bool)
    ensures
        apart == is_apart(bytes@),
{
    let length: usize = bytes.len();
    let jpeg = length >= 3 && bytes[0] == 0xff && bytes[1] == 0xd8 && bytes[2] == 0xff;
    let tiff = are_four(bytes, 0, (0x4d, 0x4d, 0, 0x2a)) || are_four(bytes, 0, (0x49, 0x49, 0x2a, 0));
    let icon = are_four(bytes, 0, (0, 0, 1, 0));
    let webp = are_four(bytes, 0, (0x52, 0x49, 0x46, 0x46)) && are_four(
        bytes,
        8,
        (0x57, 0x45, 0x42, 0x50),
    );
    let png = are_four(bytes, 0, (0x89, 0x50, 0x4e, 0x47)) && are_four(
        bytes,
        4,
        (0x0d, 0x0a, 0x1a, 0x0a),
    );
    let palette = png && length >= 26 && bytes[25] == 3;
    proof {
        let start = seq![0xffu8, 0xd8, 0xff];
        if jpeg {
            assert(bytes@.take(3) =~= start);
        } else if length >= 3 {
            let there = bytes@.take(3);
            assert(there[0] == bytes@[0] && there[1] == bytes@[1] && there[2] == bytes@[2]);
            assert(start[0] == 0xff && start[1] == 0xd8 && start[2] == 0xff);
        }
        if length >= 4 {
            assert(bytes@.take(4) =~= bytes@.subrange(0, 4));
        }
        if length >= 8 {
            let signature = seq![0x89u8, 0x50, 0x4e, 0x47, 0x0d, 0x0a, 0x1a, 0x0a];
            let (first, second) = (bytes@.subrange(0, 4), bytes@.subrange(4, 8));
            assert(bytes@.take(8) =~= first + second);
            assert(signature =~= seq![0x89u8, 0x50, 0x4e, 0x47] + seq![0x0du8, 0x0a, 0x1a, 0x0a]);
            if bytes@.take(8) == signature {
                assert(first =~= signature.take(4) && second =~= signature.skip(4));
                assert(signature.take(4) =~= seq![0x89u8, 0x50, 0x4e, 0x47]);
                assert(signature.skip(4) =~= seq![0x0du8, 0x0a, 0x1a, 0x0a]);
            }
        }
    }
    jpeg || tiff || icon || webp || palette
}

/// `ImageReader::decode` of `image`, on bytes in memory, with the format guessed from them and
/// with limits, then `to_rgba8`: what comes of it depends on the bytes and the limits alone.
/// Decoding hooks, which a program may register with `image`, are none here. There are four
/// bytes for each pixel, and neither side is longer than the limit.
///
/// The first bytes decide which decoder runs: that of PNG, of GIF or of BMP, or none. The other
/// decoders are left out. A JPEG made for it can run a product of its decoder over, and a TIFF can
/// hold a JPEG. The picture in an icon is read with no limit on the memory, and it can be a PNG
/// with a palette, of which the decoder reads the entries in threes and panics where the last is
/// cut short. Of the arithmetic of the WebP decoder its source states no bounds.
#[verifier::external_body]
fn decode_rgba(bytes: &[u8], side: u32, memory: u64) -> (picture: Option<Rgba>)
    requires
        !is_apart(bytes@),
        side <= MOST_PIXELS,
        memory <= MOST_MEMORY,
    ensures
        match picture {
            Some(picture) => {
                &&& decoded(bytes@, side, memory) == Some(
                    (picture.width as int, picture.height as int, picture.data@),
                )
                &&& picture.wf()
                &&& picture.width <= side
                &&& picture.height <= side
            },
            None => decoded(bytes@, side, memory) is None,
        },
{
    let mut limits = image::Limits::default();
    limits.max_image_width = Some(side);
    limits.max_image_height = Some(side);
    limits.max_alloc = Some(memory);
    let cursor = std::io::Cursor::new(bytes);
    let mut reader = image::ImageReader::new(cursor).with_guessed_format().ok()?;
    reader.limits(limits);
    let rgba = reader.decode().ok()?.to_rgba8();
    let (width, height) = (rgba.width() as usize, rgba.height() as usize);
    Some(Rgba { width, height, data: rgba.into_raw() })
}

/// What scaling a picture to another size gives, sampled with a triangle filter.
pub uninterp spec fn resized(
    width: int,
    height: int,
    data: Seq<u8>,
    new_width: int,
    new_height: int,
) -> Seq<u8>;

/// `imageops::resize` of `image` with the triangle filter: a picture of the new size, whose
/// bytes depend on the old one and the new size alone. It finds the pixels that a new one is made
/// of in single precision, which is exact enough for sides as long as a decoded picture's and far
/// from enough for any. On the way it makes a picture as wide as the old and as tall as the new, of
/// 16 bytes a pixel, which has to fit in memory.
#[verifier::external_body]
fn resize(picture: &Rgba, width: u32, height: u32) -> (scaled: Rgba)
    requires
        picture.wf(),
        picture.width <= MOST_PIXELS,
        picture.height <= MOST_PIXELS,
        0 < width <= MOST_PIXELS,
        0 < height <= MOST_PIXELS,
        width * height * 4 <= u32::MAX,
        picture.width * height * 16 <= isize::MAX,
    ensures
        scaled.width == width,
        scaled.height == height,
        scaled.wf(),
        scaled.data@ == resized(
            picture.width as int,
            picture.height as int,
            picture.data@,
            width as int,
            height as int,
        ),
{
    let (w, h) = (picture.width as u32, picture.height as u32);
    let image = image::RgbaImage::from_raw(w, h, picture.data.clone()).unwrap_or_default();
    let triangle = image::imageops::FilterType::Triangle;
    let scaled = image::imageops::resize(&image, width, height, triangle);
    Rgba { width: width as usize, height: height as usize, data: scaled.into_raw() }
}

/// A picture scaled for the terminal is no larger than this either way, in pixels.
pub const MOST_ACROSS: usize = 16_777_216;

/// A picture scaled for the terminal has no more pixels than this.
pub const MOST_SCALED: u64 = 268_435_456;

/// So many pixels are summed without their sum running over.
pub const MOST_SUMMED: u64 = 16_000_000;

/// What a thumbnail of a picture holds.
pub uninterp spec fn thumbnail_data(
    width: int,
    height: int,
    data: Seq<u8>,
    new_width: int,
    new_height: int,
) -> Seq<u8>;

/// `imageops::thumbnail` of `image`: a picture of the new size, whose bytes depend on the old
/// one and the new size alone. It places the blocks of pixels that the new ones stand for in
/// single precision, to which a side of 2^24 is exact, and sums each block in 32 bits, so no
/// block may be too large for that.
#[verifier::external_body]
fn thumbnail(picture: &Rgba, width: u32, height: u32) -> (small: Rgba)
    requires
        picture.wf(),
        picture.width <= MOST_ACROSS,
        picture.height <= MOST_ACROSS,
        0 < width,
        0 < height,
        width * height * 4 <= u32::MAX,
        (picture.width as int / width as int + 8) * (picture.height as int / height as int + 8)
            <= MOST_SUMMED,
    ensures
        small.width == width,
        small.height == height,
        small.wf(),
        small.data@ == thumbnail_data(
            picture.width as int,
            picture.height as int,
            picture.data@,
            width as int,
            height as int,
        ),
{
    let (w, h) = (picture.width as u32, picture.height as u32);
    let image = image::RgbaImage::from_raw(w, h, picture.data.clone()).unwrap_or_default();
    let small = image::imageops::thumbnail(&image, width, height);
    Rgba { width: width as usize, height: height as usize, data: small.into_raw() }
}

/// What a picture is as a PNG, or why it cannot be one.
pub uninterp spec fn png_code(width: int, height: int, data: Seq<u8>) -> Result<
    Seq<u8>,
    Seq<char>,
>;

/// `DynamicImage::write_to` of `image`, as a PNG and into memory: the bytes written, or the
/// error in words, depend on the picture alone.
#[verifier::external_body]
fn encode_png(picture: &Rgba) -> (png: Result<Vec<u8>, String>)
    requires
        picture.wf(),
        picture.width <= u32::MAX,
        picture.height <= u32::MAX,
    ensures
        match png {
            Ok(bytes) => png_code(
                picture.width as int,
                picture.height as int,
                picture.data@,
            ) == Ok::<Seq<u8>, Seq<char>>(bytes@),
            Err(error) => png_code(
                picture.width as int,
                picture.height as int,
                picture.data@,
            ) == Err::<Seq<u8>, Seq<char>>(error@),
        },
{
    let (w, h) = (picture.width as u32, picture.height as u32);
    let image = image::RgbaImage::from_raw(w, h, picture.data.clone()).unwrap_or_default();
    let mut png = Vec::new();
    let written = image::DynamicImage::ImageRgba8(image)
        .write_to(&mut std::io::Cursor::new(&mut png), image::ImageFormat::Png);
    match written {
        Ok(()) => Ok(png),
        Err(error) => Err(error.to_string()),
    }
}

/// A picture from the bytes of its file, or what to say of it instead.
pub fn decode_picture(bytes: &[u8]) -> (picture: Result<Rgba, String>)
    requires
        !is_apart(bytes@),
    ensures
        picture is Ok == decoded(bytes@, MOST_PIXELS, MOST_MEMORY) is Some,
        match picture {
            Ok(picture) => {
                &&& picture.wf()
                &&& picture.width <= MOST_PIXELS
                &&& picture.height <= MOST_PIXELS
                &&& decoded(bytes@, MOST_PIXELS, MOST_MEMORY) == Some(
                    (picture.width as int, picture.height as int, picture.data@),
                )
            },
            Err(error) => error@ == "which cannot be decoded here"@,
        },
{
    match decode_rgba(bytes, MOST_PIXELS, MOST_MEMORY) {
        Some(picture) => Ok(picture),
        None => Err(literal("which cannot be decoded here")),
    }
}

/// Whether a picture is larger than `side` either way.
pub fn is_large(picture: &Rgba, side: usize) -> (large: bool)
    ensures
        large == (picture.width > side || picture.height > side),
{
    picture.width > side || picture.height > side
}

/// A picture no larger than `side` either way: itself, or scaled to `size`.
pub fn shrink(picture: Rgba, side: usize, size: (u32, u32)) -> (shown: Rgba)
    requires
        picture.wf(),
        picture.width <= MOST_PIXELS,
        picture.height <= MOST_PIXELS,
        0 < size.0 <= MOST_PIXELS,
        0 < size.1 <= MOST_PIXELS,
        size.0 * size.1 * 4 <= u32::MAX,
        picture.width * size.1 * 16 <= isize::MAX,
    ensures
        shown.wf(),
        if picture.width > side || picture.height > side {
            &&& shown.width == size.0
            &&& shown.height == size.1
            &&& shown.data@ == resized(
                picture.width as int,
                picture.height as int,
                picture.data@,
                size.0 as int,
                size.1 as int,
            )
        } else {
            shown == picture
        },
{
    if is_large(&picture, side) {
        resize(&picture, size.0, size.1)
    } else {
        picture
    }
}

/// One file to preview, for a preview area of `cells`, whose cells are `cell_pixels` in size.
#[derive(Debug)]
pub struct Request {
    pub generation: u64,
    /// The file's path, in bytes.
    pub path: Vec<u8>,
    pub cells: (u16, u16),
    pub cell_pixels: (u16, u16),
    /// How pictures are shown.
    pub pictures: Pictures,
}

/// A colour of the terminal's.
#[derive(Debug, Clone, Copy, PartialEq, Eq, Structural)]
pub enum Color {
    Rgb(u8, u8, u8),
    Indexed(u8),
}

/// A picture drawn in cells: each cell is an upper half block, its foreground the upper pixel
/// and its background the lower, so a cell holds two pixels one above the other.
#[derive(Debug, PartialEq, Eq)]
pub struct BlockImage {
    pub columns: u16,
    pub rows: u16,
    /// `columns` by twice `rows` pixels, row by row; `None` where the picture is transparent.
    pub pixels: Vec<Option<Color>>,
    /// What it is, for the caption.
    pub description: String,
}

/// What a preview has become.
#[derive(Debug, PartialEq, Eq)]
pub enum Prepared {
    Image(PreparedImage),
    Blocks(BlockImage),
    /// A line saying what it is instead.
    Info(String),
}

pub open spec fn at_least_one(n: u16) -> int {
    if n > 0 {
        n as int
    } else {
        1
    }
}

/// How many spans of `step` cover `length`, but at least one and no more than `most`.
pub open spec fn covering(length: int, step: int, most: int) -> int {
    let needed = (length + step - 1) / step;
    if needed < 1 {
        1
    } else if needed > most {
        most
    } else {
        needed
    }
}

impl Request {
    /// The size of a cell, in pixels.
    pub open spec fn cell(self) -> (int, int) {
        (at_least_one(self.cell_pixels.0), at_least_one(self.cell_pixels.1))
    }

    /// The size of the preview, in cells.
    pub open spec fn area(self) -> (int, int) {
        (at_least_one(self.cells.0), at_least_one(self.cells.1))
    }

    /// The pixels a picture may take. Sixels come in bands six pixels tall, and a band cut
    /// short would spill into the row below.
    pub open spec fn room(self) -> (int, int) {
        let height = self.area().1 * self.cell().1;
        (
            self.area().0 * self.cell().0,
            if self.pictures == Pictures::Sixel {
                if height / 6 * 6 > 6 {
                    height / 6 * 6
                } else {
                    6
                }
            } else {
                height
            },
        )
    }
}

impl BlockImage {
    /// Whether there are two pixels for each cell.
    pub open spec fn wf(self) -> bool {
        self.pixels.len() == self.columns * (2 * self.rows)
    }

    /// The pixel at `column` and half-row `half_row`, `None` where transparent or outside.
    pub fn pixel(&self, column: u16, half_row: u16) -> (color: Option<Color>)
        requires
            self.wf(),
        ensures
            color == if column < self.columns && half_row < 2 * self.rows {
                self.pixels@[half_row * self.columns + column]
            } else {
                None
            },
    {
        if column >= self.columns || half_row as u32 >= self.rows as u32 * 2 {
            return None;
        }
        assert(half_row * self.columns + column < self.columns * (2 * self.rows) && 0 <= half_row
            * self.columns) by (nonlinear_arith)
            requires
                column < self.columns,
                half_row < 2 * self.rows,
        ;
        let at: usize = half_row as usize * self.columns as usize + column as usize;
        self.pixels[at]
    }
}

/// Whether a pixel is shown so: in 24-bit colour, or as the nearest of the palette, and not at
/// all where it is less than half opaque.
pub open spec fn is_shown_as(pixel: Seq<u8>, true_color: bool, color: Option<Color>) -> bool {
    if pixel[3] < 128 {
        color is None
    } else if true_color {
        color == Some(Color::Rgb(pixel[0], pixel[1], pixel[2]))
    } else {
        color is Some && color->0 is Indexed && is_xterm_256(
            pixel[0],
            pixel[1],
            pixel[2],
            color->0->Indexed_0 as int,
        )
    }
}

/// The four bytes of a pixel.
pub open spec fn pixel_at(data: Seq<u8>, at: int) -> Seq<u8> {
    data.subrange(4 * at, 4 * at + 4)
}

fn color_of(data: &Vec<u8>, at: usize, true_color: bool) -> (color: Option<Color>)
    requires
        4 * at + 4 <= data.len(),
    ensures
        is_shown_as(pixel_at(data@, at as int), true_color, color),
{
    let (r, g, b, a): (u8, u8, u8, u8) = (
        data[4 * at],
        data[4 * at + 1],
        data[4 * at + 2],
        data[4 * at + 3],
    );
    assert(pixel_at(data@, at as int) =~= seq![r, g, b, a]);
    if a < 128 {
        None
    } else if true_color {
        Some(Color::Rgb(r, g, b))
    } else {
        Some(Color::Indexed(xterm_256(r, g, b)))
    }
}

/// The pixels of a picture for half blocks, two to a cell, with a last half row left blank where
/// the picture has an odd number of them.
pub fn block_pixels(small: &Rgba, true_color: bool) -> (pixels: Vec<Option<Color>>)
    requires
        small.wf(),
        small.width * (small.height + 1) <= u32::MAX,
    ensures
        pixels.len() == small.width * ((small.height + 1) / 2 * 2),
        forall|at: int|
            0 <= at < small.width * small.height ==> is_shown_as(
                pixel_at(small.data@, at),
                true_color,
                #[trigger] pixels@[at],
            ),
        forall|at: int|
            small.width * small.height <= at < pixels.len() ==> #[trigger] pixels@[at] is None,
{
    let mut pixels: Vec<Option<Color>> = Vec::new();
    let count: usize = small.data.len() / 4;
    assert(count == small.width * small.height) by (nonlinear_arith)
        requires
            count == (small.width * small.height * 4) / 4,
    ;
    let mut at: usize = 0;
    while at < count
        invariant
            at <= count,
            pixels.len() == at,
            small.data.len() == count * 4,
            forall|i: int|
                0 <= i < at ==> is_shown_as(
                    pixel_at(small.data@, i),
                    true_color,
                    #[trigger] pixels@[i],
                ),
        decreases count - at,
    {
        pixels.push(color_of(&small.data, at, true_color));
        at += 1;
    }
    if small.height % 2 == 1 {
        let mut x: usize = 0;
        while x < small.width
            invariant
                x <= small.width,
                pixels.len() == count + x,
                forall|i: int|
                    0 <= i < count ==> is_shown_as(
                        pixel_at(small.data@, i),
                        true_color,
                        #[trigger] pixels@[i],
                    ),
                forall|i: int| count <= i < pixels.len() ==> #[trigger] pixels@[i] is None,
            decreases small.width - x,
        {
            pixels.push(None);
            x += 1;
        }
        assert((small.height + 1) / 2 * 2 == small.height + 1);
        assert(small.width * (small.height + 1) == small.width * small.height + small.width)
            by (nonlinear_arith);
    } else {
        assert((small.height + 1) / 2 * 2 == small.height);
    }
    pixels
}

fn clamped_cover(length: u32, step: u32, most: u32) -> (count: u32)
    requires
        0 < step,
        0 < most,
        length + step <= u32::MAX,
    ensures
        count == covering(length as int, step as int, most as int),
        1 <= count <= most,
{
    let needed: u32 = (length + step - 1) / step;
    if needed < 1 {
        1
    } else if needed > most {
        most
    } else {
        needed
    }
}

impl Request {
    /// The pixels a picture may take: never scaled up, it is to be fitted to these.
    pub fn picture_room(&self) -> (room: (u32, u32))
        ensures
            room.0 == self.room().0,
            room.1 == self.room().1,
    {
        let cell_width: u32 = one_at_least(self.cell_pixels.0);
        let cell_height: u32 = one_at_least(self.cell_pixels.1);
        let columns: u32 = one_at_least(self.cells.0);
        let rows: u32 = one_at_least(self.cells.1);
        proof {
            products_fit(columns, cell_width);
            products_fit(rows, cell_height);
        }
        let height: u32 = rows * cell_height;
        let height: u32 = if self.pictures == Pictures::Sixel {
            if height / 6 * 6 > 6 {
                height / 6 * 6
            } else {
                6
            }
        } else {
            height
        };
        (columns * cell_width, height)
    }
}

proof fn products_fit(a: u32, b: u32)
    requires
        a <= 65535,
        b <= 65535,
    ensures
        a * b <= 4294836225,
{
    assert(a * b <= 65535 * 65535) by (nonlinear_arith)
        requires
            a <= 65535,
            b <= 65535,
    ;
}

fn one_at_least(n: u16) -> (value: u32)
    ensures
        value == at_least_one(n),
        1 <= value <= 65535,
{
    if n > 0 {
        n as u32
    } else {
        1
    }
}

/// Whether a picture is only described: it is too large to read, or pictures are not shown.
pub fn only_described(request: &Request, size: u64, most: u64) -> (described: bool)
    ensures
        described == (request.pictures == Pictures::Described || size > most),
{
    request.pictures == Pictures::Described || size > most
}

impl Request {
    /// Whether `made` is the picture in half blocks, resampled to pixels a cell wide and half a
    /// cell tall.
    pub open spec fn is_blocks(
        self,
        scaled: Rgba,
        true_color: bool,
        description: Seq<char>,
        made: BlockImage,
    ) -> bool {
        let columns = covering(scaled.width as int, self.cell().0, self.area().0);
        let half_rows = covering(2 * scaled.height as int, self.cell().1, 2 * self.area().1);
        let small = thumbnail_data(
            scaled.width as int,
            scaled.height as int,
            scaled.data@,
            columns,
            half_rows,
        );
        &&& made.columns == columns
        &&& made.rows == (half_rows + 1) / 2
        &&& made.wf()
        &&& made.description@ == description
        &&& forall|at: int|
            0 <= at < columns * half_rows ==> is_shown_as(
                pixel_at(small, at),
                true_color,
                #[trigger] made.pixels@[at],
            )
        &&& forall|at: int|
            columns * half_rows <= at < made.pixels.len() ==> #[trigger] made.pixels@[at] is None
    }

    /// Whether `made` is the picture as this asked for it.
    pub open spec fn is_made(
        self,
        scaled: Rgba,
        description: Seq<char>,
        made: Prepared,
    ) -> bool {
        let columns = covering(scaled.width as int, self.cell().0, self.area().0);
        let rows = covering(scaled.height as int, self.cell().1, self.area().1);
        match self.pictures {
            Pictures::Blocks { true_color } => made is Blocks && self.is_blocks(
                scaled,
                true_color,
                description,
                made->Blocks_0,
            ),
            Pictures::Sixel => {
                &&& made is Image
                &&& made->Image_0.generation == self.generation
                &&& made->Image_0.columns == columns
                &&& made->Image_0.rows == rows
                &&& made->Image_0.description@ == description
                &&& is_sixel(scaled, made->Image_0.data@)
            },
            _ => match png_code(scaled.width as int, scaled.height as int, scaled.data@) {
                Ok(png) => {
                    &&& made is Image
                    &&& made->Image_0.generation == self.generation
                    &&& made->Image_0.columns == columns
                    &&& made->Image_0.rows == rows
                    &&& made->Image_0.description@ == description
                    &&& made->Image_0.data@ == png
                },
                Err(error) => {
                    &&& made is Info
                    &&& made->Info_0@ == "could not prepare the preview: "@ + error
                },
            },
        }
    }
}

/// Resample a picture already scaled to fit to half-block pixels, which are a cell wide and half
/// a cell tall, and colour them for the terminal.
pub fn block_image(
    request: &Request,
    scaled: &Rgba,
    true_color: bool,
    description: String,
) -> (made: BlockImage)
    requires
        scaled.wf(),
        scaled.width <= request.area().0 * request.cell().0,
        scaled.height <= request.area().1 * request.cell().1,
        scaled.width <= MOST_ACROSS,
        scaled.height <= MOST_ACROSS,
        scaled.width * scaled.height <= MOST_SCALED,
        (request.cell().0 + 8) * (request.cell().1 + 8) <= MOST_SUMMED,
    ensures
        request.is_blocks(*scaled, true_color, description@, made),
{
    let cell_width: u32 = one_at_least(request.cell_pixels.0);
    let cell_height: u32 = one_at_least(request.cell_pixels.1);
    let columns: u32 = one_at_least(request.cells.0);
    let rows: u32 = one_at_least(request.cells.1);
    let width: u32 = scaled.width as u32;
    let height: u32 = scaled.height as u32;
    let across: u32 = clamped_cover(width, cell_width, columns);
    let half_rows: u32 = clamped_cover(height * 2, cell_height, rows * 2);
    proof {
        assert(height as int * 2 <= (rows as int * 2) * cell_height as int) by (nonlinear_arith)
            requires
                height <= rows * cell_height,
        ;
        blocks_are_small(width as int, cell_width as int, columns as int);
        blocks_are_small(height as int * 2, cell_height as int, rows as int * 2);
        covers_are_few(width as int, cell_width as int, columns as int);
        covers_are_few(height as int * 2, cell_height as int, rows as int * 2);
        thumbnails_fit(
            width as int,
            height as int,
            across as int,
            half_rows as int,
            cell_width as int,
            cell_height as int,
        );
    }
    let small = thumbnail(scaled, across, half_rows);
    let pixels = block_pixels(&small, true_color);
    let block_rows: u32 = (half_rows + 1) / 2;
    assert(across * ((half_rows + 1) / 2 * 2) == across * (2 * block_rows)) by (nonlinear_arith)
        requires
            block_rows == (half_rows + 1) / 2,
    ;
    BlockImage { columns: across as u16, rows: block_rows as u16, pixels, description }
}

proof fn covers_are_few(length: int, step: int, most: int)
    requires
        0 <= length,
        1 <= step,
        1 <= most,
    ensures
        1 <= covering(length, step, most),
        covering(length, step, most) <= length || covering(length, step, most) == 1,
{
    let count = (length + step - 1) / step;
    assert(length >= 1 ==> count <= length) by (nonlinear_arith)
        requires
            1 <= step,
            count == (length + step - 1) / step,
    ;
    assert(length == 0 ==> count == 0) by (nonlinear_arith)
        requires
            1 <= step,
            count == (length + step - 1) / step,
    ;
}

proof fn thumbnails_fit(
    width: int,
    height: int,
    across: int,
    down: int,
    cell_width: int,
    cell_height: int,
)
    requires
        0 <= width <= MOST_ACROSS,
        0 <= height <= MOST_ACROSS,
        width * height <= MOST_SCALED,
        1 <= across,
        across <= width || across == 1,
        1 <= down,
        down <= height * 2 || down == 1,
        width / across <= cell_width,
        (height * 2) / down <= cell_height,
        (cell_width + 8) * (cell_height + 8) <= MOST_SUMMED,
    ensures
        (width / across + 8) * (height / down + 8) <= MOST_SUMMED,
        across * down * 4 <= u32::MAX,
        across * (down + 1) <= u32::MAX,
{
    let a = width / across;
    let b = height / down;
    assert(0 <= a) by (nonlinear_arith)
        requires
            a == width / across,
            0 <= width,
            1 <= across,
    ;
    assert(0 <= b <= (height * 2) / down) by (nonlinear_arith)
        requires
            b == height / down,
            1 <= down,
            0 <= height,
    ;
    assert((a + 8) * (b + 8) <= (cell_width + 8) * (cell_height + 8)) by (nonlinear_arith)
        requires
            0 <= a <= cell_width,
            0 <= b <= cell_height,
    ;
    if across <= width && down <= height * 2 {
        assert(across * down <= 2 * (width * height)) by (nonlinear_arith)
            requires
                1 <= across <= width,
                1 <= down <= height * 2,
        ;
    } else if across == 1 {
        assert(across * down == down);
    } else {
        assert(across * down == across);
    }
    assert(across * (down + 1) == across * down + across) by (nonlinear_arith);
    assert(across * down * 4 == 4 * (across * down)) by (nonlinear_arith);
}

/// A picture, scaled to its room, encoded for the terminal.
pub fn prepare_image(request: &Request, scaled: &Rgba, description: String) -> (made: Prepared)
    requires
        scaled.wf(),
        scaled.width <= request.room().0,
        scaled.height <= request.room().1,
        scaled.width <= MOST_ACROSS,
        scaled.height <= MOST_ACROSS,
        scaled.width * scaled.height <= MOST_SCALED,
        (request.cell().0 + 8) * (request.cell().1 + 8) <= MOST_SUMMED,
    ensures
        request.is_made(*scaled, description@, made),
{
    if let Pictures::Blocks { true_color } = request.pictures {
        return Prepared::Blocks(block_image(request, scaled, true_color, description));
    }
    let cell_width: u32 = one_at_least(request.cell_pixels.0);
    let cell_height: u32 = one_at_least(request.cell_pixels.1);
    let columns: u32 = one_at_least(request.cells.0);
    let rows: u32 = one_at_least(request.cells.1);
    let across: u32 = clamped_cover(scaled.width as u32, cell_width, columns);
    let down: u32 = clamped_cover(scaled.height as u32, cell_height, rows);
    let data: Vec<u8> = if request.pictures == Pictures::Sixel {
        sixel(scaled)
    } else {
        match encode_png(scaled) {
            Ok(png) => png,
            Err(error) => {
                let mut why = literal("could not prepare the preview: ");
                append(&mut why, error.as_str());
                return Prepared::Info(why);
            },
        }
    };
    Prepared::Image(
        PreparedImage {
            generation: request.generation,
            data,
            columns: across as u16,
            rows: down as u16,
            description,
        },
    )
}

/// What is within its room is covered by spans no longer than a step.
proof fn blocks_are_small(length: int, step: int, most: int)
    requires
        0 <= length <= most * step,
        1 <= step,
        1 <= most,
    ensures
        0 <= length / covering(length, step, most) <= step,
{
    let count = covering(length, step, most);
    assert(length <= count * step) by (nonlinear_arith)
        requires
            1 <= step,
            0 <= length <= most * step,
            count == most || count >= (length + step - 1) / step,
    ;
    assert(0 <= length / count <= step) by (nonlinear_arith)
        requires
            0 <= length <= count * step,
            count >= 1,
    ;
}

/// As few cells are taken as cover a length, at least one and no more than there are: one fewer
/// would not cover it.
pub proof fn as_few_cells_as_cover(length: int, step: int, most: int)
    requires
        0 <= length,
        0 < step,
        0 < most,
    ensures
        1 <= covering(length, step, most) <= most,
        covering(length, step, most) * step >= length || covering(length, step, most) == most,
        covering(length, step, most) == 1 || (covering(length, step, most) - 1) * step < length,
{
    let needed = (length + step - 1) / step;
    vstd::arithmetic::div_mod::lemma_fundamental_div_mod(length + step - 1, step);
    assert(needed * step >= length && (needed - 1) * step < length) by (nonlinear_arith)
        requires
            length + step - 1 == step * needed + (length + step - 1) % step,
            0 <= (length + step - 1) % step < step,
    ;
    let taken = covering(length, step, most);
    if taken >= needed {
        assert(taken * step >= length) by (nonlinear_arith)
            requires
                needed * step >= length,
                taken >= needed,
                0 < step,
        ;
    }
    if taken < needed {
        assert((taken - 1) * step < length) by (nonlinear_arith)
            requires
                (needed - 1) * step < length,
                taken < needed,
                0 < step,
        ;
    }
}

/// The room for a picture is that of its cells in pixels. For sixels, which come in bands of six
/// rows, it is as many whole bands as fit, and at least one.
pub proof fn the_room_is_that_of_the_cells(request: Request)
    requires
        request.cells.0 > 0,
        request.cells.1 > 0,
        request.cell_pixels.0 > 0,
        request.cell_pixels.1 > 0,
    ensures
        request.room().0 == request.cells.0 * request.cell_pixels.0,
        request.pictures != Pictures::Sixel ==> request.room().1 == request.cells.1
            * request.cell_pixels.1,
        request.pictures == Pictures::Sixel ==> {
            &&& request.room().1 % 6 == 0
            &&& request.room().1 >= 6
            &&& request.cells.1 * request.cell_pixels.1 >= 6 ==> request.room().1
                <= request.cells.1 * request.cell_pixels.1 < request.room().1 + 6
            &&& request.cells.1 * request.cell_pixels.1 < 6 ==> request.room().1 == 6
        },
{
    let height = request.cells.1 * request.cell_pixels.1;
    assert(height > 0) by (nonlinear_arith)
        requires
            height == request.cells.1 * request.cell_pixels.1,
            request.cells.1 > 0,
            request.cell_pixels.1 > 0,
    ;
}

/// A pixel less than half opaque is not drawn. Any other is drawn in its own colour where the
/// terminal shows true colour, and else in one of the palette's that none is nearer than.
pub proof fn a_block_shows_its_pixel(pixel: Seq<u8>, true_color: bool, color: Option<Color>, other: int)
    requires
        pixel.len() == 4,
        is_shown_as(pixel, true_color, color),
        16 <= other < 256,
    ensures
        color is None <==> pixel[3] < 128,
        match color {
            Some(Color::Rgb(r, g, b)) => true_color && r == pixel[0] && g == pixel[1] && b
                == pixel[2],
            Some(Color::Indexed(index)) => !true_color && 16 <= index && crate::color::distance(
                pixel[0],
                pixel[1],
                pixel[2],
                index as int,
            ) <= crate::color::distance(pixel[0], pixel[1], pixel[2], other),
            None => true,
        },
{
    if let Some(Color::Indexed(index)) = color {
        crate::color::no_colour_is_nearer(pixel[0], pixel[1], pixel[2], index as int, other);
    }
}

/// The pictures that are decoded apart are told by how they start, whatever comes after.
pub proof fn pictures_are_told_by_their_start(size: Seq<u8>, header: Seq<u8>, rest: Seq<u8>)
    requires
        size.len() == 4,
        header.len() == 17,
    ensures
        is_apart(seq![0xffu8, 0xd8, 0xff] + rest),
        is_apart(seq![0x4du8, 0x4d, 0, 0x2a] + rest),
        is_apart(seq![0x49u8, 0x49, 0x2a, 0] + rest),
        is_apart(seq![0u8, 0, 1, 0] + rest),
        is_apart(seq![0x52u8, 0x49, 0x46, 0x46] + size + seq![0x57u8, 0x45, 0x42, 0x50] + rest),
        is_apart(
            seq![0x89u8, 0x50, 0x4e, 0x47, 0x0d, 0x0a, 0x1a, 0x0a] + header + seq![3u8] + rest,
        ),
        !is_apart(
            seq![0x89u8, 0x50, 0x4e, 0x47, 0x0d, 0x0a, 0x1a, 0x0a] + header + seq![6u8] + rest,
        ),
        !is_apart(seq![0x47u8, 0x49, 0x46, 0x38] + rest),
{
    let jpeg = seq![0xffu8, 0xd8, 0xff] + rest;
    assert(jpeg.take(3) =~= seq![0xffu8, 0xd8, 0xff]);
    let motorola = seq![0x4du8, 0x4d, 0, 0x2a] + rest;
    assert(motorola.take(4) =~= seq![0x4du8, 0x4d, 0, 0x2a]);
    let intel = seq![0x49u8, 0x49, 0x2a, 0] + rest;
    assert(intel.take(4) =~= seq![0x49u8, 0x49, 0x2a, 0]);
    let icon = seq![0u8, 0, 1, 0] + rest;
    assert(icon.take(4) =~= seq![0u8, 0, 1, 0]);
    let webp = seq![0x52u8, 0x49, 0x46, 0x46] + size + seq![0x57u8, 0x45, 0x42, 0x50] + rest;
    assert(webp.take(4) =~= seq![0x52u8, 0x49, 0x46, 0x46]);
    assert(webp.subrange(8, 12) =~= seq![0x57u8, 0x45, 0x42, 0x50]);
    let signature = seq![0x89u8, 0x50, 0x4e, 0x47, 0x0d, 0x0a, 0x1a, 0x0a];
    let png = signature + header + seq![3u8] + rest;
    assert(png.take(8) =~= signature);
    assert(png[25] == 3);
    let other = signature + header + seq![6u8] + rest;
    assert(other[25] == 6 && other[0] == 0x89);
    starts_otherwise(other);
    let gif = seq![0x47u8, 0x49, 0x46, 0x38] + rest;
    assert(gif[0] == 0x47);
    starts_otherwise(gif);
}

proof fn starts_otherwise(bytes: Seq<u8>)
    requires
        bytes.len() >= 4,
        bytes[0] == 0x47 || (bytes[0] == 0x89 && bytes.len() >= 26 && bytes[25] != 3),
    ensures
        !is_apart(bytes),
{
    assert(bytes.take(3)[0] == bytes[0]);
    assert(bytes.take(4)[0] == bytes[0]);
    if bytes.len() >= 26 {
        assert(bytes.take(8)[0] == bytes[0]);
    }
    let starts = (
        seq![0xffu8, 0xd8, 0xff],
        seq![0x4du8, 0x4d, 0, 0x2a],
        seq![0x49u8, 0x49, 0x2a, 0],
        seq![0u8, 0, 1, 0],
        seq![0x52u8, 0x49, 0x46, 0x46],
        seq![0x89u8, 0x50, 0x4e, 0x47, 0x0d, 0x0a, 0x1a, 0x0a],
    );
    assert(starts.0[0] == 0xff && starts.1[0] == 0x4d && starts.2[0] == 0x49 && starts.3[0] == 0
        && starts.4[0] == 0x52 && starts.5[0] == 0x89);
}

} // verus!
