//! Putting text on the clipboard of the machine the terminal runs on.

use vstd::prelude::*;
use vstd::string::StringSliceAdditionalSpecFns;

use crate::bytes::{append_ascii, append_bytes, ascii};

verus! {

/// The character that six bits are written as.
pub open spec fn letter(value: int) -> u8 {
    if value < 26 {
        (65 + value) as u8
    } else if value < 52 {
        (71 + value) as u8
    } else if value < 62 {
        (value - 4) as u8
    } else if value == 62 {
        43
    } else {
        47
    }
}

/// Three bytes as four characters of six bits each, the last group filled up with `=`.
pub open spec fn base64_code(data: Seq<u8>) -> Seq<u8>
    decreases data.len(),
{
    if data.len() == 0 {
        Seq::empty()
    } else if data.len() == 1 {
        seq![letter(data[0] as int / 4), letter(data[0] as int % 4 * 16), 61u8, 61u8]
    } else if data.len() == 2 {
        seq![
            letter(data[0] as int / 4),
            letter(data[0] as int % 4 * 16 + data[1] as int / 16),
            letter(data[1] as int % 16 * 4),
            61u8,
        ]
    } else {
        seq![
            letter(data[0] as int / 4),
            letter(data[0] as int % 4 * 16 + data[1] as int / 16),
            letter(data[1] as int % 16 * 4 + data[2] as int / 64),
            letter(data[2] as int % 64),
        ] + base64_code(data.skip(3))
    }
}

/// The six bits that a character stands for.
pub open spec fn six_bits(letter: u8) -> int {
    if 65 <= letter <= 90 {
        letter - 65
    } else if 97 <= letter <= 122 {
        letter - 71
    } else if 48 <= letter <= 57 {
        letter + 4
    } else if letter == 43 {
        62
    } else {
        63
    }
}

/// The bytes that characters of six bits each stand for.
pub open spec fn base64_data(code: Seq<u8>) -> Seq<u8>
    decreases code.len(),
{
    if code.len() < 4 {
        Seq::empty()
    } else {
        let (a, b, c, d) = (
            six_bits(code[0]),
            six_bits(code[1]),
            six_bits(code[2]),
            six_bits(code[3]),
        );
        let first = (a * 4 + b / 16) as u8;
        if code[2] == 61 {
            seq![first]
        } else if code[3] == 61 {
            seq![first, (b % 16 * 16 + c / 4) as u8]
        } else {
            seq![first, (b % 16 * 16 + c / 4) as u8, (c % 4 * 64 + d) as u8] + base64_data(
                code.skip(4),
            )
        }
    }
}

proof fn letters_read_back(value: int)
    requires
        0 <= value < 64,
    ensures
        six_bits(letter(value)) == value,
        letter(value) != 61,
{
}

proof fn six_bits_make_up_bytes(x: int, y: int, z: int)
    requires
        0 <= x < 256,
        0 <= y < 256,
        0 <= z < 256,
    ensures
        ({
            let (a, b, c, d) = (x / 4, x % 4 * 16 + y / 16, y % 16 * 4 + z / 64, z % 64);
            &&& 0 <= a < 64 && 0 <= b < 64 && 0 <= c < 64 && 0 <= d < 64
            &&& a * 4 + b / 16 == x
            &&& b % 16 * 16 + c / 4 == y
            &&& c % 4 * 64 + d == z
            &&& a * 0x4_0000 + b * 0x1000 + c * 0x40 + d == x * 0x1_0000 + y * 0x100 + z
        }),
{
    let (a, b, c, d) = (x / 4, x % 4 * 16 + y / 16, y % 16 * 4 + z / 64, z % 64);
    assert(b / 16 == x % 4 && b % 16 == y / 16);
    assert(c / 4 == y % 16 && c % 4 == z / 64);
}

/// What was written in characters of six bits reads back as the bytes it was.
pub proof fn base64_reads_back(data: Seq<u8>)
    ensures
        base64_data(base64_code(data)) == data,
    decreases data.len(),
{
    let code = base64_code(data);
    if data.len() == 0 {
        assert(base64_data(code) =~= data);
    } else {
        let (x, y, z) = (
            data[0] as int,
            if data.len() > 1 {
                data[1] as int
            } else {
                0
            },
            if data.len() > 2 {
                data[2] as int
            } else {
                0
            },
        );
        six_bits_make_up_bytes(x, y, z);
        letters_read_back(x / 4);
        letters_read_back(x % 4 * 16 + y / 16);
        letters_read_back(y % 16 * 4 + z / 64);
        letters_read_back(z % 64);
        if data.len() < 3 {
            assert(0int / 16 == 0 && 0int / 64 == 0);
            assert(base64_data(code) =~= data);
        } else {
            base64_reads_back(data.skip(3));
            assert(code.skip(4) =~= base64_code(data.skip(3)));
            assert(base64_data(code) =~= data);
        }
    }
}

fn letter_of(value: u8) -> (byte: u8)
    requires
        value < 64,
    ensures
        byte == letter(value as int),
{
    if value < 26 {
        65 + value
    } else if value < 52 {
        71 + value
    } else if value < 62 {
        value - 4
    } else if value == 62 {
        43
    } else {
        47
    }
}

/// Bytes as characters of six bits each.
pub fn base64(data: &[u8]) -> (code: Vec<u8>)
    ensures
        code@ == base64_code(data@),
{
    let mut code: Vec<u8> = Vec::new();
    let mut i: usize = 0;
    assert(data@.skip(0) =~= data@);
    assert(code@ + base64_code(data@) =~= base64_code(data@));
    while data.len() - i >= 3
        invariant
            i <= data.len(),
            code@ + base64_code(data@.skip(i as int)) == base64_code(data@),
        decreases data.len() - i,
    {
        let ghost so_far = code@;
        let ghost left = data@.skip(i as int);
        let (a, b, c): (u8, u8, u8) = (data[i], data[i + 1], data[i + 2]);
        code.push(letter_of(a / 4));
        code.push(letter_of(a % 4 * 16 + b / 16));
        code.push(letter_of(b % 16 * 4 + c / 64));
        code.push(letter_of(c % 64));
        assert(left.skip(3) =~= data@.skip(i + 3));
        assert(code@ + base64_code(data@.skip(i + 3)) =~= so_far + base64_code(left));
        i += 3;
    }
    let ghost so_far = code@;
    let ghost left = data@.skip(i as int);
    if data.len() - i == 1 {
        let a: u8 = data[i];
        code.push(letter_of(a / 4));
        code.push(letter_of(a % 4 * 16));
        code.push(61);
        code.push(61);
    } else if data.len() - i == 2 {
        let (a, b): (u8, u8) = (data[i], data[i + 1]);
        code.push(letter_of(a / 4));
        code.push(letter_of(a % 4 * 16 + b / 16));
        code.push(letter_of(b % 16 * 4));
        code.push(61);
    }
    assert(code@ =~= so_far + base64_code(left));
    code
}

/// The sequence that puts `text` on the terminal's clipboard: `ESC ] 52 ; c ; <base64> BEL`.
pub fn osc52(text: &str) -> (sequence: Vec<u8>)
    ensures
        sequence@ == (ascii("\x1b]52;c;"@) + base64_code(text.spec_bytes())).push(7),
{
    let mut sequence: Vec<u8> = Vec::new();
    append_ascii(&mut sequence, "\x1b]52;c;");
    assert(sequence@ =~= ascii("\x1b]52;c;"@));
    let code = base64(text.as_bytes());
    append_bytes(&mut sequence, code.as_slice());
    sequence.push(7);
    sequence
}

/// The letters of base64: the capitals, the small letters, the digits, and two more, in that order.
pub proof fn the_letters_of_base64(value: int)
    requires
        0 <= value < 64,
    ensures
        value < 26 ==> letter(value) == 'A' as int + value,
        26 <= value < 52 ==> letter(value) == 'a' as int + (value - 26),
        52 <= value < 62 ==> letter(value) == '0' as int + (value - 52),
        value == 62 ==> letter(value) == '+' as int,
        value == 63 ==> letter(value) == '/' as int,
{
}

/// Each three bytes become four letters, which spell the same 24 bits.
pub proof fn three_bytes_become_four_letters(data: Seq<u8>)
    requires
        data.len() >= 3,
    ensures
        exists|a: int, b: int, c: int, d: int| {
            &&& 0 <= a < 64 && 0 <= b < 64 && 0 <= c < 64 && 0 <= d < 64
            &&& a * 0x4_0000 + b * 0x1000 + c * 0x40 + d == data[0] * 0x1_0000 + data[1] * 0x100
                + data[2]
            &&& base64_code(data) == seq![
                #[trigger] letter(a),
                #[trigger] letter(b),
                #[trigger] letter(c),
                #[trigger] letter(d),
            ] + base64_code(data.skip(3))
        },
{
    let (x, y, z) = (data[0] as int, data[1] as int, data[2] as int);
    six_bits_make_up_bytes(x, y, z);
    let (a, b, c, d) = (x / 4, x % 4 * 16 + y / 16, y % 16 * 4 + z / 64, z % 64);
    assert(base64_code(data) == seq![letter(a), letter(b), letter(c), letter(d)] + base64_code(
        data.skip(3),
    ));
}

/// What is over after the last three bytes is filled up with equals signs, so that the length is
/// always a multiple of four.
pub proof fn letters_come_in_fours(data: Seq<u8>)
    ensures
        base64_code(data).len() == (data.len() + 2) / 3 * 4,
        data.len() % 3 == 1 ==> base64_code(data)[base64_code(data).len() - 2] == 61,
        data.len() % 3 > 0 ==> base64_code(data).last() == 61,
    decreases data.len(),
{
    if data.len() >= 3 {
        let rest = data.skip(3);
        letters_come_in_fours(rest);
        assert((data.len() + 2) / 3 == (rest.len() + 2) / 3 + 1);
        let code = base64_code(data);
        assert(code.len() == 4 + base64_code(rest).len());
        if data.len() % 3 > 0 {
            assert(rest.len() % 3 == data.len() % 3);
            assert(code.last() == base64_code(rest).last());
        }
    }
}

} // verus!
