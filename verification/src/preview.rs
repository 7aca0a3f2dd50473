//! What a file's preview is read as.

use vstd::prelude::*;

use crate::bytes::ascii;
use crate::canvas::Rgba;
use crate::paths::{all_small, extension, extension_of, is_utf8, to_small};
use crate::picture::{
    decode_picture, decoded, is_apart, is_decoded_apart, MOST_MEMORY, MOST_PIXELS,
};
use crate::state::Preview;
use crate::text::{append, literal, same_text};

verus! {

/// Pictures larger than this, in bytes, are described and not shown.
pub const MAX_PICTURE: u64 = 67_108_864;

/// What was read.
#[derive(Debug, PartialEq, Eq)]
pub enum Loaded {
    Info(String),
    Text(Vec<String>),
    Picture { bytes: Vec<u8>, caption: String },
}

/// What a file was found to hold.
#[derive(Debug, PartialEq, Eq)]
pub enum Contents {
    Info(String),
    Text(Vec<String>),
    /// A picture, by its description.
    Picture(String),
}

/// The picture formats that the system decodes and that are not recognised by what they hold.
pub open spec fn is_other_format(extension: Seq<u8>) -> bool {
    ||| extension == ascii("heic"@)
    ||| extension == ascii("heif"@)
    ||| extension == ascii("gif"@)
    ||| extension == ascii("tif"@)
    ||| extension == ascii("tiff"@)
    ||| extension == ascii("bmp"@)
    ||| extension == ascii("webp"@)
    ||| extension == ascii("avif"@)
}

/// A letter in upper case, as a character.
pub open spec fn capital(byte: u8) -> char {
    if 97 <= byte <= 122 {
        (byte - 32) as char
    } else {
        byte as char
    }
}

/// Letters in upper case, as characters.
pub open spec fn capitals(bytes: Seq<u8>) -> Seq<char> {
    Seq::new(bytes.len(), |i: int| capital(bytes[i]))
}

/// The format of a picture that the system decodes, by its file's extension.
pub open spec fn other_format(path: Seq<u8>) -> Option<Seq<char>> {
    match extension_of(path) {
        Some(extension) => if vstd::utf8::valid_utf8(extension) && is_other_format(
            all_small(extension),
        ) {
            Some(capitals(all_small(extension)))
        } else {
            None
        },
        None => None,
    }
}

fn other_format_named(extension: &Vec<u8>) -> (is: bool)
    ensures
        is == is_other_format(extension@),
{
    let bytes = extension.as_slice();
    crate::paths::bytes_are(bytes, "heic") || crate::paths::bytes_are(bytes, "heif")
        || crate::paths::bytes_are(bytes, "gif") || crate::paths::bytes_are(bytes, "tif")
        || crate::paths::bytes_are(bytes, "tiff") || crate::paths::bytes_are(bytes, "bmp")
        || crate::paths::bytes_are(bytes, "webp") || crate::paths::bytes_are(bytes, "avif")
}

/// The format of a picture that the system decodes, by its file's extension.
pub fn other_picture(path: &[u8]) -> (format: Option<String>)
    ensures
        match format {
            Some(format) => other_format(path@) == Some(format@),
            None => other_format(path@) is None,
        },
{
    let extension = match extension(path) {
        Some(extension) => extension,
        None => return None,
    };
    if !is_utf8(extension) {
        return None;
    }
    let small = to_small(extension);
    if !other_format_named(&small) {
        return None;
    }
    let mut format = String::new();
    let mut i: usize = 0;
    while i < small.len()
        invariant
            i <= small.len(),
            format@ =~= capitals(small@).take(i as int),
        decreases small.len() - i,
    {
        let byte: u8 = small[i];
        format.push(
            if 97 <= byte && byte <= 122 {
                (byte - 32) as char
            } else {
                byte as char
            },
        );
        i += 1;
    }
    assert(format@ =~= capitals(small@));
    Some(format)
}

/// What is to be read of a file: nothing more, or its picture, under a caption.
#[derive(Debug, PartialEq, Eq)]
pub enum ToRead {
    Done(Loaded),
    Picture { caption: String },
}

/// What a file's contents are shown as. One that is only said to be binary is handed over as a
/// picture by its extension, where the system decodes that.
pub fn load(path: &[u8], contents: Contents) -> (read: ToRead)
    ensures
        match contents {
            Contents::Info(info) => match other_format(path@) {
                Some(format) => if info@ == "binary file"@ {
                    read is Picture && read->caption@ == format + " image"@
                } else {
                    read == ToRead::Done(Loaded::Info(info))
                },
                None => read == ToRead::Done(Loaded::Info(info)),
            },
            Contents::Text(lines) => read == ToRead::Done(Loaded::Text(lines)),
            Contents::Picture(description) => read is Picture && read->caption == description,
        },
{
    match contents {
        Contents::Info(info) => {
            if same_text(info.as_str(), "binary file") {
                if let Some(format) = other_picture(path) {
                    let mut caption = format;
                    append(&mut caption, " image");
                    return ToRead::Picture { caption };
                }
            }
            ToRead::Done(Loaded::Info(info))
        },
        Contents::Text(lines) => ToRead::Done(Loaded::Text(lines)),
        Contents::Picture(caption) => ToRead::Picture { caption },
    }
}

/// Whether a picture of this size is read at all.
pub fn reads_picture(size: u64) -> (reads: bool)
    ensures
        reads == (size <= MAX_PICTURE),
{
    size <= MAX_PICTURE
}

/// What a picture's file gave: its bytes, or why they could not be read; `None` when it is too
/// large.
pub fn picture(caption: String, bytes: Option<Result<Vec<u8>, String>>) -> (loaded: Loaded)
    ensures
        match bytes {
            None => loaded is Info && loaded->Info_0@ == caption@ + ", too large to preview"@,
            Some(Ok(bytes)) => loaded == (Loaded::Picture { bytes, caption }),
            Some(Err(error)) => loaded is Info && loaded->Info_0@ == caption@ + ", unreadable: "@
                + error@,
        },
{
    match bytes {
        None => {
            let mut info = caption;
            append(&mut info, ", too large to preview");
            Loaded::Info(info)
        },
        Some(Ok(bytes)) => Loaded::Picture { bytes, caption },
        Some(Err(error)) => {
            let mut info = caption;
            append(&mut info, ", unreadable: ");
            append(&mut info, error.as_str());
            Loaded::Info(info)
        },
    }
}

/// What is said of a picture that cannot be decoded.
pub fn undecoded(caption: &str, error: &str) -> (info: String)
    ensures
        info@ == caption@ + ", "@ + error@,
{
    let mut info = literal(caption);
    append(&mut info, ", ");
    append(&mut info, error);
    info
}

/// What is shown for a picture, once it was tried to decode.
pub fn picture_preview(caption: String, decoded: Result<Rgba, String>) -> (shown: (
    Preview,
    Option<Rgba>,
))
    ensures
        match decoded {
            Ok(picture) => shown == (Preview::Picture(caption), Some(picture)),
            Err(error) => shown.0 is Info && shown.0->Info_0@ == caption@ + ", "@ + error@
                && shown.1 is None,
        },
{
    match decoded {
        Ok(picture) => (Preview::Picture(caption), Some(picture)),
        Err(error) => (Preview::Info(undecoded(caption.as_str(), error.as_str())), None),
    }
}

/// What comes of what was read.
#[derive(Debug, PartialEq, Eq)]
pub enum Decoding {
    /// What is shown: the preview and, for a picture that could be decoded, the picture.
    Done(Preview, Option<Rgba>),
    /// A picture that is decoded apart, and is then shown as `picture_preview` says.
    Apart { bytes: Vec<u8>, caption: String },
}

/// What is shown for what was read, or the picture that has to be decoded for it.
pub fn decode(loaded: Loaded) -> (decoding: Decoding)
    ensures
        match loaded {
            Loaded::Info(info) => decoding == Decoding::Done(Preview::Info(info), None),
            Loaded::Text(lines) => decoding == Decoding::Done(Preview::Text(lines), None),
            Loaded::Picture { bytes, caption } => if is_apart(bytes@) {
                decoding == (Decoding::Apart { bytes, caption })
            } else {
                match (decoding, decoded(bytes@, MOST_PIXELS, MOST_MEMORY)) {
                    (Decoding::Done(preview, Some(picture)), Some((width, height, data))) => {
                        &&& preview == Preview::Picture(caption)
                        &&& picture.wf()
                        &&& picture.width <= MOST_PIXELS && picture.height <= MOST_PIXELS
                        &&& picture.width == width && picture.height == height
                        &&& picture.data@ == data
                    },
                    (Decoding::Done(Preview::Info(info), None), None) => {
                        info@ == caption@ + ", which cannot be decoded here"@
                    },
                    _ => false,
                }
            },
        },
{
    match loaded {
        Loaded::Info(info) => Decoding::Done(Preview::Info(info), None),
        Loaded::Text(lines) => Decoding::Done(Preview::Text(lines), None),
        Loaded::Picture { bytes, caption } => {
            if is_decoded_apart(bytes.as_slice()) {
                return Decoding::Apart { bytes, caption };
            }
            let picture = decode_picture(bytes.as_slice());
            proof {
                reveal_strlit(", ");
                reveal_strlit("which cannot be decoded here");
                reveal_strlit(", which cannot be decoded here");
                assert(", "@ + "which cannot be decoded here"@
                    =~= ", which cannot be decoded here"@);
                assert(caption@ + ", "@ + "which cannot be decoded here"@ =~= caption@ + (", "@
                    + "which cannot be decoded here"@));
            }
            let (preview, shown) = picture_preview(caption, picture);
            Decoding::Done(preview, shown)
        },
    }
}

/// Pictures with more pixels than this are described rather than drawn.
pub const MOST_DRAWN: i64 = 268_435_456;

/// Whether a picture of so many pixels either way is drawn.
pub fn is_drawn(width: i32, height: i32) -> (drawn: bool)
    ensures
        drawn == (width as int * height as int <= MOST_DRAWN),
{
    assert(-0x4000_0000_0000_0000 <= width * height <= 0x4000_0000_0000_0000) by (nonlinear_arith)
        requires
            -0x8000_0000 <= width <= 0x7fff_ffff,
            -0x8000_0000 <= height <= 0x7fff_ffff,
    ;
    let pixels: i128 = width as i128 * height as i128;
    pixels <= 268_435_456
}

/// What is shown for a picture that the system decodes when it draws it. `pixels` is its size,
/// where the system tells, and `read` whether the system could make anything of it.
pub fn system_picture(caption: String, read: bool, pixels: Option<(i32, i32)>) -> (shown: Preview)
    ensures
        if !read {
            shown is Info && shown->Info_0@ == caption@ + ", which this Mac cannot decode"@
        } else if pixels matches Some((width, height)) && width * height > MOST_DRAWN {
            shown is Info && shown->Info_0@ == caption@ + ", too large to preview"@
        } else {
            shown == Preview::Picture(caption)
        },
{
    let mut words = caption;
    if !read {
        append(&mut words, ", which this Mac cannot decode");
        return Preview::Info(words);
    }
    if let Some((width, height)) = pixels {
        if !is_drawn(width, height) {
            append(&mut words, ", too large to preview");
            return Preview::Info(words);
        }
    }
    Preview::Picture(words)
}

/// The offset that a name's hash starts from.
pub const HASH_START: u64 = 0xcbf2_9ce4_8422_2325;

/// What a name's hash is multiplied by for each byte.
pub const HASH_PRIME: u64 = 0x0100_0000_01b3;

/// The hash of bytes, stable across runs and platforms.
pub open spec fn hash_of(bytes: Seq<u8>) -> u64
    decreases bytes.len(),
{
    if bytes.len() == 0 {
        HASH_START
    } else {
        (((hash_of(bytes.drop_last()) ^ (bytes.last() as u64)) as int * HASH_PRIME)
            % 0x1_0000_0000_0000_0000) as u64
    }
}

fn hash(bytes: &Vec<u8>) -> (value: u64)
    ensures
        value == hash_of(bytes@),
{
    let mut value: u64 = HASH_START;
    let mut i: usize = 0;
    while i < bytes.len()
        invariant
            i <= bytes.len(),
            value == hash_of(bytes@.take(i as int)),
        decreases bytes.len() - i,
    {
        assert(bytes@.take(i + 1).drop_last() =~= bytes@.take(i as int));
        let mixed: u64 = value ^ (bytes[i] as u64);
        value = wrapped_product(mixed);
        i += 1;
    }
    assert(bytes@.take(bytes.len() as int) =~= bytes@);
    value
}

fn wrapped_product(value: u64) -> (product: u64)
    ensures
        product == ((value as int * HASH_PRIME) % 0x1_0000_0000_0000_0000) as u64,
{
    let wide: u128 = value as u128;
    assert(0 <= wide * 0x0100_0000_01b3 <= 0xffff_ffff_ffff_ffff * 0x0100_0000_01b3int)
        by (nonlinear_arith)
        requires
            0 <= wide <= 0xffff_ffff_ffff_ffff,
    ;
    ((wide * 0x0100_0000_01b3) % 0x1_0000_0000_0000_0000) as u64
}

/// The hue of a file's tile, by its extension in lower case: in degrees, clear of the blues that
/// folders have and the violets beside them. `None` for a file with no extension.
pub open spec fn hue_of(path: Seq<u8>) -> Option<int> {
    match extension_of(path) {
        Some(extension) => {
            let hue = hash_of(all_small(extension)) as int % 260;
            Some(
                if hue >= 180 {
                    hue + 100
                } else {
                    hue
                },
            )
        },
        None => None,
    }
}

/// The hue of a file's tile, so that files of a kind share a colour. `None` for one with no
/// extension.
pub fn tile_hue(name: &[u8]) -> (hue: Option<u64>)
    ensures
        match hue {
            Some(hue) => hue_of(name@) == Some(hue as int),
            None => hue_of(name@) is None,
        },
{
    match extension(name) {
        Some(extension) => {
            let small = to_small(extension);
            let hue: u64 = hash(&small) % 260;
            Some(
                if hue >= 180 {
                    hue + 100
                } else {
                    hue
                },
            )
        },
        None => None,
    }
}

/// A file never passes for a folder: its hue is never between 180 and 280 degrees.
pub proof fn files_are_never_blue(path: Seq<u8>)
    ensures
        hue_of(path) is Some ==> 0 <= hue_of(path)->0 < 360 && !(180 <= hue_of(path)->0 < 280),
{
}

/// Files of one kind have one colour: the hue goes by the extension alone, in whichever case.
pub proof fn one_extension_has_one_hue(a: Seq<u8>, b: Seq<u8>)
    requires
        extension_of(a) is Some,
        extension_of(b) is Some,
        extension_of(a)->0.len() == extension_of(b)->0.len(),
        forall|i: int|
            0 <= i < extension_of(a)->0.len() ==> {
                let (x, y) = (#[trigger] extension_of(a)->0[i], extension_of(b)->0[i]);
                x == y || (0x41 <= x <= 0x5a && y == x + 0x20) || (0x41 <= y <= 0x5a && x == y
                    + 0x20)
            },
    ensures
        hue_of(a) == hue_of(b),
        other_format(a) is Some && vstd::utf8::valid_utf8(extension_of(b)->0) ==> other_format(a)
            == other_format(b),
{
    assert(all_small(extension_of(a)->0) =~= all_small(extension_of(b)->0));
}

/// A hue is the hash's place round a wheel of the hues there are, those left out passed over.
pub proof fn a_hue_goes_by_the_hash(path: Seq<u8>)
    requires
        extension_of(path) is Some,
    ensures
        hue_of(path) is Some,
        ({
            let (hue, hash) = (hue_of(path)->0, hash_of(all_small(extension_of(path)->0)) as int);
            exists|rounds: int|
                hash == #[trigger] (260 * rounds) + if hue >= 280 {
                    hue - 100
                } else {
                    hue
                }
        }),
{
    let hash = hash_of(all_small(extension_of(path)->0)) as int;
    vstd::arithmetic::div_mod::lemma_fundamental_div_mod(hash, 260);
    let rounds = hash / 260;
    assert(hash == 260 * rounds + hash % 260);
}

/// A small letter's capital is as far from it as A is from a, and nothing else changes.
pub proof fn capitals_are_of_small_letters(byte: u8)
    ensures
        97 <= byte <= 122 ==> capital(byte) as u32 + 32 == byte,
        byte < 97 || 122 < byte ==> capital(byte) as u32 == byte,
{
}

} // verus!
