//! Pictures as sixels: bands of six rows, one run-length coded pass per colour in each.

use vstd::prelude::*;

use crate::bytes::{
    append_ascii, append_number, ascii, decimal_bytes, decimal_spells_the_number, is_digit,
    spelled_number,
};
use crate::canvas::Rgba;
use crate::palette::{
    is_coloured, is_order_of, is_run, median_cut, most_of, Cut,
};

verus! {

/// Most colours a sixel picture is given: the registers every sixel terminal of note has.
pub const SIXEL_COLOURS: usize = 256;

/// A number of the same byte.
pub open spec fn repeated(byte: u8, count: nat) -> Seq<u8> {
    Seq::new(count, |i: int| byte)
}

/// How many of the bytes at the start are the same.
pub open spec fn run_length(bits: Seq<u8>) -> nat
    decreases bits.len(),
{
    if bits.len() == 0 {
        0
    } else if bits.len() >= 2 && bits[1] == bits[0] {
        1 + run_length(bits.drop_first())
    } else {
        1
    }
}

/// A run as it is coded: of more than three, by its count.
pub open spec fn run_code(value: u8, count: nat) -> Seq<u8> {
    if count > 3 {
        (ascii("!"@) + decimal_bytes(count)).push((63 + value) as u8)
    } else {
        repeated((63 + value) as u8, count)
    }
}

/// Columns as they are coded, run by run.
pub open spec fn runs_code(bits: Seq<u8>) -> Seq<u8>
    decreases bits.len(),
{
    if bits.len() == 0 {
        Seq::empty()
    } else {
        let count = run_length(bits);
        if 0 < count <= bits.len() {
            run_code(bits[0], count) + runs_code(bits.skip(count as int))
        } else {
            Seq::empty()
        }
    }
}

/// Columns without the empty ones at the end.
pub open spec fn trimmed(bits: Seq<u8>) -> Seq<u8>
    decreases bits.len(),
{
    if bits.len() == 0 || bits.last() != 0 {
        bits
    } else {
        trimmed(bits.drop_last())
    }
}

proof fn runs_have_columns(bits: Seq<u8>)
    requires
        bits.len() > 0,
    ensures
        0 < run_length(bits) <= bits.len(),
        forall|i: int| 0 <= i < run_length(bits) ==> #[trigger] bits[i] == bits[0],
        run_length(bits) < bits.len() ==> bits[run_length(bits) as int] != bits[0],
    decreases bits.len(),
{
    if bits.len() >= 2 && bits[1] == bits[0] {
        let rest = bits.drop_first();
        runs_have_columns(rest);
        assert forall|i: int| 0 <= i < run_length(bits) implies #[trigger] bits[i] == bits[0] by {
            if i > 0 {
                assert(rest[i - 1] == bits[i]);
            }
        }
        if run_length(bits) < bits.len() {
            assert(rest[run_length(rest) as int] == bits[run_length(bits) as int]);
        }
    }
}

/// A run counted to where the columns change is the whole run.
proof fn a_run_ends_where_columns_change(bits: Seq<u8>, count: nat)
    requires
        0 < count <= bits.len(),
        forall|i: int| 0 <= i < count ==> #[trigger] bits[i] == bits[0],
        count < bits.len() ==> bits[count as int] != bits[0],
    ensures
        run_length(bits) == count,
{
    runs_have_columns(bits);
    let found = run_length(bits);
    if found < count {
        assert(bits[found as int] == bits[0]);
    }
}

/// One colour's pass over a band: each column's six bits as a character, runs of more than
/// three coded by their count, and the empty columns at the end left out.
pub fn sixel_runs(bits: &[u8], out: &mut Vec<u8>)
    requires
        forall|i: int| 0 <= i < bits.len() ==> #[trigger] bits@[i] <= 192,
    ensures
        final(out)@ == old(out)@ + runs_code(trimmed(bits@)),
{
    let mut end: usize = bits.len();
    assert(bits@.take(end as int) =~= bits@);
    while end > 0 && bits[end - 1] == 0
        invariant
            end <= bits.len(),
            trimmed(bits@) == trimmed(bits@.take(end as int)),
        decreases end,
    {
        assert(bits@.take(end as int).drop_last() =~= bits@.take(end - 1));
        end -= 1;
    }
    let ghost kept = bits@.take(end as int);
    assert(trimmed(bits@) == kept);
    let ghost before = out@;
    let mut at: usize = 0;
    assert(kept.skip(0) =~= kept);
    while at < end
        invariant
            at <= end <= bits.len(),
            kept == bits@.take(end as int),
            forall|i: int| 0 <= i < bits.len() ==> #[trigger] bits@[i] <= 192,
            out@ + runs_code(kept.skip(at as int)) == before + runs_code(kept),
        decreases end - at,
    {
        let value: u8 = bits[at];
        let ghost left = kept.skip(at as int);
        let ghost so_far = out@;
        let mut run: usize = 1;
        while at + run < end && bits[at + run] == value
            invariant
                at < end <= bits.len(),
                1 <= run <= end - at,
                left == bits@.take(end as int).skip(at as int),
                value == bits@[at as int],
                forall|i: int| 0 <= i < run ==> #[trigger] left[i] == value,
            decreases end - at - run,
        {
            run += 1;
        }
        proof {
            a_run_ends_where_columns_change(left, run as nat);
        }
        let character: u8 = 63 + value;
        if run > 3 {
            append_ascii(out, "!");
            append_number(out, run as u64);
            out.push(character);
            assert(out@ =~= so_far + run_code(value, run as nat));
        } else {
            let mut i: usize = 0;
            while i < run
                invariant
                    i <= run,
                    out@ =~= so_far + repeated(character, i as nat),
                decreases run - i,
            {
                out.push(character);
                i += 1;
            }
        }
        assert(out@ == so_far + run_code(value, run as nat));
        assert(left.skip(run as int) =~= kept.skip(at + run));
        assert(out@ + runs_code(kept.skip(at + run)) =~= so_far + runs_code(left));
        at += run;
    }
    assert(kept.skip(end as int) =~= Seq::empty());
    assert(out@ + runs_code(kept.skip(end as int)) =~= out@);
}

/// How many of the bytes at the start are digits.
pub open spec fn digits_at_start(code: Seq<u8>) -> nat
    decreases code.len(),
{
    if code.len() > 0 && is_digit(code[0]) {
        1 + digits_at_start(code.drop_first())
    } else {
        0
    }
}

/// The columns that a terminal draws for a coded pass.
pub open spec fn drawn(code: Seq<u8>) -> Seq<u8>
    decreases code.len(),
{
    if code.len() == 0 {
        Seq::empty()
    } else if code[0] == 33 {
        let digits = digits_at_start(code.drop_first());
        if digits + 1 < code.len() {
            repeated(
                (code[digits as int + 1] - 63) as u8,
                spelled_number(code.subrange(1, digits as int + 1)),
            ) + drawn(code.skip(digits as int + 2))
        } else {
            Seq::empty()
        }
    } else {
        seq![(code[0] - 63) as u8] + drawn(code.drop_first())
    }
}

proof fn digits_end_at_another(digits: Seq<u8>, rest: Seq<u8>)
    requires
        forall|i: int| 0 <= i < digits.len() ==> is_digit(#[trigger] digits[i]),
        rest.len() > 0,
        !is_digit(rest[0]),
    ensures
        digits_at_start(digits + rest) == digits.len(),
    decreases digits.len(),
{
    if digits.len() == 0 {
        assert(digits + rest =~= rest);
    } else {
        let tail = digits.drop_first();
        assert((digits + rest).drop_first() =~= tail + rest);
        assert forall|i: int| 0 <= i < tail.len() implies is_digit(#[trigger] tail[i]) by {
            assert(tail[i] == digits[i + 1]);
        }
        digits_end_at_another(tail, rest);
    }
}

proof fn a_run_is_drawn(value: u8, count: nat, rest: Seq<u8>)
    requires
        value < 64,
    ensures
        drawn(run_code(value, count) + rest) == repeated(value, count) + drawn(rest),
    decreases count,
{
    let character = (63 + value) as u8;
    if count > 3 {
        reveal_strlit("!");
        let digits = decimal_bytes(count);
        decimal_spells_the_number(count);
        let code = run_code(value, count) + rest;
        assert(code[0] == 33) by {
            assert(ascii("!"@)[0] == 33);
        }
        let after = seq![character] + rest;
        assert(code.drop_first() =~= digits + after);
        digits_end_at_another(digits, after);
        assert(code.subrange(1, digits.len() as int + 1) =~= digits);
        assert(code[digits.len() as int + 1] == character);
        assert(code.skip(digits.len() as int + 2) =~= rest);
    } else if count == 0 {
        assert(run_code(value, count) + rest =~= rest);
        assert(repeated(value, count) + drawn(rest) =~= drawn(rest));
    } else {
        let fewer = (count - 1) as nat;
        a_run_is_drawn(value, fewer, rest);
        let code = run_code(value, count) + rest;
        assert(code.drop_first() =~= run_code(value, fewer) + rest);
        assert(code[0] == character);
        assert(seq![value] + (repeated(value, fewer) + drawn(rest)) =~= repeated(value, count)
            + drawn(rest));
    }
}

/// A terminal draws from a coded pass the columns it was coded from.
pub proof fn coded_runs_draw_their_columns(bits: Seq<u8>)
    requires
        forall|i: int| 0 <= i < bits.len() ==> #[trigger] bits[i] < 64,
    ensures
        drawn(runs_code(bits)) == bits,
    decreases bits.len(),
{
    if bits.len() == 0 {
        assert(drawn(runs_code(bits)) =~= bits);
    } else {
        runs_have_columns(bits);
        let count = run_length(bits);
        let rest = bits.skip(count as int);
        assert forall|i: int| 0 <= i < rest.len() implies #[trigger] rest[i] < 64 by {
            assert(rest[i] == bits[i + count]);
        }
        coded_runs_draw_their_columns(rest);
        a_run_is_drawn(bits[0], count, runs_code(rest));
        assert(repeated(bits[0], count) + rest =~= bits);
    }
}

/// A colour's channel in per cent, to the nearest.
pub open spec fn percent(value: u8) -> nat {
    ((value * 100 + 127) / 255) as nat
}

/// One colour's register: its number, and its channels in per cent.
pub open spec fn register_code(index: nat, colour: Seq<u8>) -> Seq<u8> {
    (((((ascii("#"@) + decimal_bytes(index)) + ascii(";2;"@)) + decimal_bytes(
        percent(colour[0]),
    )) + ascii(";"@)) + decimal_bytes(percent(colour[1]))) + ascii(";"@) + decimal_bytes(
        percent(colour[2]),
    )
}

/// The first `count` registers of a palette.
pub open spec fn palette_code(palette: Seq<[u8; 3]>, count: nat) -> Seq<u8>
    decreases count,
{
    if count == 0 {
        Seq::empty()
    } else {
        palette_code(palette, (count - 1) as nat) + register_code(
            (count - 1) as nat,
            palette[count - 1]@,
        )
    }
}

/// A pixel's bit in a pass: 1 where it has the pass's register, and 0 elsewhere and below the
/// picture.
pub open spec fn cell(
    registers: Seq<Option<u8>>,
    width: int,
    height: int,
    y: int,
    x: int,
    index: int,
) -> int {
    if y < height && registers[y * width + x] == Some(index as u8) {
        1
    } else {
        0
    }
}

/// A column's six bits in a pass, the topmost the least.
pub open spec fn column_bits(
    registers: Seq<Option<u8>>,
    width: int,
    height: int,
    band: int,
    index: int,
    x: int,
) -> int {
    let top = band * 6;
    cell(registers, width, height, top, x, index) + 2 * cell(
        registers,
        width,
        height,
        top + 1,
        x,
        index,
    ) + 4 * cell(registers, width, height, top + 2, x, index) + 8 * cell(
        registers,
        width,
        height,
        top + 3,
        x,
        index,
    ) + 16 * cell(registers, width, height, top + 4, x, index) + 32 * cell(
        registers,
        width,
        height,
        top + 5,
        x,
        index,
    )
}

/// The columns of a pass.
pub open spec fn pass_bits(
    registers: Seq<Option<u8>>,
    width: int,
    height: int,
    band: int,
    index: int,
) -> Seq<u8> {
    Seq::new(
        width as nat,
        |x: int| column_bits(registers, width, height, band, index, x) as u8,
    )
}

/// Whether a register is used in a band.
pub open spec fn is_used(bits: Seq<u8>) -> bool {
    exists|x: int| 0 <= x < bits.len() && #[trigger] bits[x] != 0
}

/// The passes of a band for the first `count` registers: one for each that is used, back at the
/// start of the band for each but the first.
pub open spec fn band_code(
    registers: Seq<Option<u8>>,
    width: int,
    height: int,
    band: int,
    count: int,
) -> Seq<u8>
    decreases count,
{
    if count <= 0 {
        Seq::empty()
    } else {
        let before = band_code(registers, width, height, band, count - 1);
        let bits = pass_bits(registers, width, height, band, count - 1);
        if is_used(bits) {
            (((before + if before.len() > 0 {
                ascii("$"@)
            } else {
                Seq::empty()
            }) + ascii("#"@)) + decimal_bytes((count - 1) as nat)) + runs_code(trimmed(bits))
        } else {
            before
        }
    }
}

/// The first `bands` bands, a new line between each two.
pub open spec fn bands_code(
    registers: Seq<Option<u8>>,
    width: int,
    height: int,
    colours: int,
    bands: int,
) -> Seq<u8>
    decreases bands,
{
    if bands <= 0 {
        Seq::empty()
    } else if bands == 1 {
        band_code(registers, width, height, 0, colours)
    } else {
        (bands_code(registers, width, height, colours, bands - 1) + ascii("-"@)) + band_code(
            registers,
            width,
            height,
            bands - 1,
            colours,
        )
    }
}

/// A picture as a sixel sequence: square pixels, what is not drawn left alone, the palette, and
/// the bands.
pub open spec fn sixel_code(
    width: nat,
    height: nat,
    palette: Seq<[u8; 3]>,
    registers: Seq<Option<u8>>,
) -> Seq<u8> {
    (((((ascii("\x1bP0;1;0q\"1;1;"@) + decimal_bytes(width)) + ascii(";"@)) + decimal_bytes(height))
        + palette_code(palette, palette.len())) + bands_code(
        registers,
        width as int,
        height as int,
        palette.len() as int,
        (height as int + 5) / 6,
    )) + ascii("\x1b\\"@)
}

fn append_register(out: &mut Vec<u8>, index: usize, colour: &[u8; 3])
    ensures
        final(out)@ == old(out)@ + register_code(index as nat, colour@),
{
    let ghost before = out@;
    append_ascii(out, "#");
    append_number(out, index as u64);
    append_ascii(out, ";2;");
    append_number(out, (colour[0] as u64 * 100 + 127) / 255);
    append_ascii(out, ";");
    append_number(out, (colour[1] as u64 * 100 + 127) / 255);
    append_ascii(out, ";");
    append_number(out, (colour[2] as u64 * 100 + 127) / 255);
    assert(out@ =~= before + register_code(index as nat, colour@));
}

proof fn place_is_in_picture(x: int, y: int, width: int, height: int)
    requires
        0 <= x < width,
        0 <= y < height,
    ensures
        0 <= y * width + x < width * height,
{
    assert(0 <= y * width + x < width * height) by (nonlinear_arith)
        requires
            0 <= x < width,
            0 <= y < height,
    ;
}

fn bit(
    registers: &Vec<Option<u8>>,
    width: usize,
    height: usize,
    y: usize,
    x: usize,
    index: usize,
) -> (set: u8)
    requires
        x < width,
        index < 256,
        registers.len() == width * height,
    ensures
        set == cell(registers@, width as int, height as int, y as int, x as int, index as int),
        set <= 1,
{
    if y >= height {
        return 0;
    }
    proof {
        place_is_in_picture(x as int, y as int, width as int, height as int);
        assert(y * width >= 0) by (nonlinear_arith)
            requires
                y >= 0,
                width >= 0,
        ;
    }
    match registers[y * width + x] {
        Some(register) => if register as usize == index {
            1
        } else {
            0
        },
        None => 0,
    }
}

fn pass(
    registers: &Vec<Option<u8>>,
    width: usize,
    height: usize,
    band: usize,
    index: usize,
) -> (bits: Vec<u8>)
    requires
        index < 256,
        registers.len() == width * height,
        band * 6 + 6 <= usize::MAX,
    ensures
        bits@ == pass_bits(
            registers@,
            width as int,
            height as int,
            band as int,
            index as int,
        ),
        forall|i: int| 0 <= i < bits.len() ==> #[trigger] bits@[i] < 64,
{
    let mut bits: Vec<u8> = Vec::new();
    let top: usize = band * 6;
    let mut x: usize = 0;
    while x < width
        invariant
            x <= width,
            index < 256,
            registers.len() == width * height,
            top == band * 6,
            top + 6 <= usize::MAX,
            bits@ =~= pass_bits(
                registers@,
                width as int,
                height as int,
                band as int,
                index as int,
            ).take(x as int),
            forall|i: int| 0 <= i < bits.len() ==> #[trigger] bits@[i] < 64,
        decreases width - x,
    {
        let column: u8 = bit(registers, width, height, top, x, index) + 2 * bit(
            registers,
            width,
            height,
            top + 1,
            x,
            index,
        ) + 4 * bit(registers, width, height, top + 2, x, index) + 8 * bit(
            registers,
            width,
            height,
            top + 3,
            x,
            index,
        ) + 16 * bit(registers, width, height, top + 4, x, index) + 32 * bit(
            registers,
            width,
            height,
            top + 5,
            x,
            index,
        );
        bits.push(column);
        x += 1;
    }
    bits
}

fn any_set(bits: &Vec<u8>) -> (any: bool)
    ensures
        any == is_used(bits@),
{
    let mut i: usize = 0;
    while i < bits.len()
        invariant
            i <= bits.len(),
            forall|j: int| 0 <= j < i ==> #[trigger] bits@[j] == 0,
        decreases bits.len() - i,
    {
        if bits[i] != 0 {
            return true;
        }
        i += 1;
    }
    false
}

fn append_band(
    out: &mut Vec<u8>,
    registers: &Vec<Option<u8>>,
    width: usize,
    height: usize,
    band: usize,
    colours: usize,
)
    requires
        colours <= 256,
        registers.len() == width * height,
        band * 6 + 6 <= usize::MAX,
    ensures
        final(out)@ == old(out)@ + band_code(
            registers@,
            width as int,
            height as int,
            band as int,
            colours as int,
        ),
{
    let ghost before = out@;
    let mut first = true;
    let mut index: usize = 0;
    assert(before + band_code(registers@, width as int, height as int, band as int, 0)
        =~= before);
    while index < colours
        invariant
            index <= colours <= 256,
            registers.len() == width * height,
            band * 6 + 6 <= usize::MAX,
            out@ == before + band_code(
                registers@,
                width as int,
                height as int,
                band as int,
                index as int,
            ),
            first == (band_code(
                registers@,
                width as int,
                height as int,
                band as int,
                index as int,
            ).len() == 0),
        decreases colours - index,
    {
        let bits = pass(registers, width, height, band, index);
        if any_set(&bits) {
            if !first {
                // Back to the start of the band for the next colour.
                append_ascii(out, "$");
            }
            first = false;
            append_ascii(out, "#");
            append_number(out, index as u64);
            sixel_runs(bits.as_slice(), out);
            proof {
                reveal_strlit("#");
                assert(out@ =~= before + band_code(
                    registers@,
                    width as int,
                    height as int,
                    band as int,
                    index + 1,
                ));
            }
        }
        index += 1;
    }
}

/// A picture as a sixel sequence, given its palette and each pixel's register in it; `None` is
/// a pixel that is not drawn.
pub fn encode(
    width: usize,
    height: usize,
    palette: &Vec<[u8; 3]>,
    registers: &Vec<Option<u8>>,
) -> (code: Vec<u8>)
    requires
        palette.len() <= 256,
        registers.len() == width * height,
        height + 6 <= usize::MAX,
    ensures
        code@ == sixel_code(width as nat, height as nat, palette@, registers@),
{
    let mut out: Vec<u8> = Vec::new();
    append_ascii(&mut out, "\x1bP0;1;0q\"1;1;");
    assert(out@ =~= ascii("\x1bP0;1;0q\"1;1;"@));
    append_number(&mut out, width as u64);
    append_ascii(&mut out, ";");
    append_number(&mut out, height as u64);
    let ghost header = out@;
    let mut index: usize = 0;
    assert(header + palette_code(palette@, 0) =~= header);
    while index < palette.len()
        invariant
            index <= palette.len(),
            out@ == header + palette_code(palette@, index as nat),
        decreases palette.len() - index,
    {
        append_register(&mut out, index, &palette[index]);
        index += 1;
        assert(out@ =~= header + palette_code(palette@, index as nat));
    }
    let ghost before = out@;
    let bands: usize = (height + 5) / 6;
    let mut band: usize = 0;
    assert(before + bands_code(
        registers@,
        width as int,
        height as int,
        palette.len() as int,
        0,
    ) =~= before);
    while band < bands
        invariant
            band <= bands,
            bands == (height + 5) / 6,
            height + 6 <= usize::MAX,
            palette.len() <= 256,
            registers.len() == width * height,
            out@ == before + bands_code(
                registers@,
                width as int,
                height as int,
                palette.len() as int,
                band as int,
            ),
        decreases bands - band,
    {
        if band > 0 {
            append_ascii(&mut out, "-");
        }
        append_band(&mut out, registers, width, height, band, palette.len());
        band += 1;
        assert(out@ =~= before + bands_code(
            registers@,
            width as int,
            height as int,
            palette.len() as int,
            band as int,
        ));
    }
    append_ascii(&mut out, "\x1b\\");
    out
}

/// Whether a pixel is drawn: at least half opaque.
pub open spec fn is_drawn(picture: Rgba, at: int) -> bool {
    picture.data@[4 * at + 3] >= 128
}

/// Whether `opaque` are the drawn ones of the first `count` pixels, in their order, with their
/// colours.
pub open spec fn is_opaque_part(
    picture: Rgba,
    count: int,
    opaque: Seq<(u32, [u8; 3])>,
) -> bool {
    &&& forall|k: int|
        0 <= k < opaque.len() ==> {
            let at = (#[trigger] opaque[k]).0 as int;
            &&& at < count
            &&& is_drawn(picture, at)
            &&& opaque[k].1@ == picture.data@.subrange(4 * at, 4 * at + 3)
        }
    &&& forall|j: int, k: int|
        0 <= j < k < opaque.len() ==> (#[trigger] opaque[j]).0 < (#[trigger] opaque[k]).0
    &&& forall|at: int|
        0 <= at < count && #[trigger] is_drawn(picture, at) ==> holds_pixel(opaque, at)
}

/// Whether the pixel at `at` is among those given.
pub open spec fn holds_pixel(opaque: Seq<(u32, [u8; 3])>, at: int) -> bool {
    exists|k: int| 0 <= k < opaque.len() && (#[trigger] opaque[k]).0 == at
}

/// Whether each drawn pixel has its index as register, and no other pixel has one.
pub open spec fn are_registers(
    picture: Rgba,
    opaque: Seq<(u32, [u8; 3])>,
    indices: Seq<u8>,
    registers: Seq<Option<u8>>,
) -> bool {
    &&& registers.len() == picture.width * picture.height
    &&& forall|k: int|
        0 <= k < opaque.len() ==> registers[(#[trigger] opaque[k]).0 as int] == Some(indices[k])
    &&& forall|at: int|
        0 <= at < registers.len() && !is_drawn(picture, at) ==> #[trigger] registers[at] is None
}

/// Whether `code` is a picture as sixels: its drawn pixels in a palette fitted to them.
pub open spec fn is_sixel_of(
    picture: Rgba,
    opaque: Seq<(u32, [u8; 3])>,
    cuts: Seq<Cut>,
    palette: Seq<[u8; 3]>,
    indices: Seq<u8>,
    registers: Seq<Option<u8>>,
    code: Seq<u8>,
) -> bool {
    &&& is_opaque_part(picture, picture.width * picture.height, opaque)
    &&& is_run(opaque, SIXEL_COLOURS as int, cuts)
    &&& is_order_of(opaque, cuts.last().order)
    &&& is_coloured(cuts.last(), palette, indices)
    &&& are_registers(picture, opaque, indices, registers)
    &&& code == sixel_code(picture.width as nat, picture.height as nat, palette, registers)
}

/// Whether `code` is a picture as sixels, with a palette of up to [`SIXEL_COLOURS`].
#[verifier::opaque]
pub open spec fn is_sixel(picture: Rgba, code: Seq<u8>) -> bool {
    exists|
        opaque: Seq<(u32, [u8; 3])>,
        cuts: Seq<Cut>,
        palette: Seq<[u8; 3]>,
        indices: Seq<u8>,
        registers: Seq<Option<u8>>,
    | #[trigger]
        is_sixel_of(picture, opaque, cuts, palette, indices, registers, code)
}

fn opaque_part(picture: &Rgba) -> (opaque: Vec<(u32, [u8; 3])>)
    requires
        picture.wf(),
        picture.width * picture.height <= u32::MAX,
    ensures
        is_opaque_part(*picture, picture.width * picture.height, opaque@),
        opaque.len() <= picture.width * picture.height,
{
    let mut opaque: Vec<(u32, [u8; 3])> = Vec::new();
    let count: usize = picture.data.len() / 4;
    assert(count == picture.width * picture.height) by (nonlinear_arith)
        requires
            count == (picture.width * picture.height * 4) / 4,
    ;
    let mut at: usize = 0;
    while at < count
        invariant
            at <= count <= u32::MAX,
            picture.data.len() == count * 4,
            opaque.len() <= at,
            is_opaque_part(*picture, at as int, opaque@),
        decreases count - at,
    {
        let ghost before = opaque@;
        if picture.data[4 * at + 3] >= 128 {
            let colour: [u8; 3] = [
                picture.data[4 * at],
                picture.data[4 * at + 1],
                picture.data[4 * at + 2],
            ];
            opaque.push((at as u32, colour));
            proof {
                assert(colour@ =~= picture.data@.subrange(4 * at as int, 4 * at + 3));
                assert(opaque@[before.len() as int].0 == at);
                assert(holds_pixel(opaque@, at as int));
            }
        }
        proof {
            assert forall|k: int| 0 <= k < opaque@.len() implies {
                let place = (#[trigger] opaque@[k]).0 as int;
                &&& place < at + 1
                &&& is_drawn(*picture, place)
                &&& opaque@[k].1@ == picture.data@.subrange(4 * place, 4 * place + 3)
            } by {
                if k < before.len() {
                    assert(opaque@[k] == before[k]);
                }
            }
            assert forall|j: int, k: int| 0 <= j < k < opaque@.len() implies (
            #[trigger] opaque@[j]).0 < (#[trigger] opaque@[k]).0 by {
                assert(opaque@[j] == before[j]);
                if k < before.len() {
                    assert(opaque@[k] == before[k]);
                }
            }
            assert forall|place: int|
                0 <= place < at + 1 && #[trigger] is_drawn(*picture, place) implies holds_pixel(
                opaque@,
                place,
            ) by {
                if place < at {
                    assert(holds_pixel(before, place));
                    let k = choose|k: int|
                        0 <= k < before.len() && (#[trigger] before[k]).0 == place;
                    assert(opaque@[k] == before[k]);
                }
            }
        }
        at += 1;
    }
    opaque
}

/// A picture as a sixel sequence: a palette of up to [`SIXEL_COLOURS`] fitted to it by median
/// cut, then bands of six rows, one run-length coded pass per colour in each. Pixels less than
/// half opaque are left undrawn, so what is behind them shows through.
pub fn sixel(picture: &Rgba) -> (code: Vec<u8>)
    requires
        picture.wf(),
        picture.width * picture.height <= u32::MAX,
        picture.height + 6 <= usize::MAX,
    ensures
        is_sixel(*picture, code@),
{
    let opaque = opaque_part(picture);
    let (palette, indices) = median_cut(opaque.as_slice(), SIXEL_COLOURS);
    let count: usize = picture.data.len() / 4;
    assert(count == picture.width * picture.height) by (nonlinear_arith)
        requires
            count == (picture.width * picture.height * 4) / 4,
    ;
    // Each pixel's register, or none where it is not drawn.
    let mut registers: Vec<Option<u8>> = Vec::new();
    let mut filled: usize = 0;
    while filled < count
        invariant
            filled <= count,
            registers.len() == filled,
            forall|at: int| 0 <= at < filled ==> #[trigger] registers@[at] is None,
        decreases count - filled,
    {
        registers.push(None);
        filled += 1;
    }
    let mut k: usize = 0;
    while k < opaque.len()
        invariant
            k <= opaque.len() == indices.len(),
            registers.len() == count,
            count == picture.width * picture.height,
            is_opaque_part(*picture, picture.width * picture.height, opaque@),
            forall|j: int|
                0 <= j < k ==> registers@[(#[trigger] opaque@[j]).0 as int] == Some(indices@[j]),
            forall|at: int|
                0 <= at < count && !is_drawn(*picture, at) ==> #[trigger] registers@[at] is None,
        decreases opaque.len() - k,
    {
        let ghost before = registers@;
        let at: usize = opaque[k].0 as usize;
        registers[at] = Some(indices[k]);
        proof {
            assert forall|j: int| 0 <= j < k + 1 implies registers@[(
            #[trigger] opaque@[j]).0 as int] == Some(indices@[j]) by {
                if j < k {
                    assert(opaque@[j].0 < opaque@[k as int].0);
                    assert(before[opaque@[j].0 as int] == Some(indices@[j]));
                }
            }
        }
        k += 1;
    }
    let code = encode(picture.width, picture.height, &palette, &registers);
    proof {
        let cuts = choose|cuts: Seq<Cut>| #[trigger]
            is_run(opaque@, most_of(SIXEL_COLOURS as int), cuts) && cuts.last().wf()
                && is_order_of(opaque@, cuts.last().order) && is_coloured(
                cuts.last(),
                palette@,
                indices@,
            );
        assert(most_of(SIXEL_COLOURS as int) == SIXEL_COLOURS);
        assert(are_registers(*picture, opaque@, indices@, registers@));
        assert(is_sixel_of(
            *picture,
            opaque@,
            cuts,
            palette@,
            indices@,
            registers@,
            code@,
        ));
        reveal(is_sixel);
    }
    code
}

/// A register's per cent is the nearest to its channel's value, of 255: nothing at 0, all at 255,
/// and more for more.
pub proof fn a_per_cent_is_near_its_value(value: u8, more: u8)
    ensures
        -128 <= 255 * percent(value) - 100 * value <= 128,
        percent(0) == 0,
        percent(255) == 100,
        percent(value) <= 100,
        value <= more ==> percent(value) <= percent(more),
{
    let sum = value * 100 + 127;
    assert(0 <= sum);
    assert(sum == 255 * (sum / 255) + sum % 255 && 0 <= sum % 255 < 255);
    let greater = more * 100 + 127;
    assert(greater == 255 * (greater / 255) + greater % 255 && 0 <= greater % 255 < 255);
}

/// A pixel is drawn in its own register's pass over its band, in its own column and row, and in no
/// other register's: the column's byte holds the bit of the pixel's row if and only if the pixel has
/// that register. The bits below the picture are not set.
pub proof fn a_pixel_is_drawn_in_its_own_pass(
    registers: Seq<Option<u8>>,
    width: int,
    height: int,
    x: int,
    y: int,
    index: u8,
)
    requires
        0 <= x < width,
        0 <= y,
    ensures
        ({
            let column = pass_bits(registers, width, height, y / 6, index as int)[x] as int;
            let row = y % 6;
            let set = if row == 0 {
                column % 2
            } else if row == 1 {
                (column / 2) % 2
            } else if row == 2 {
                (column / 4) % 2
            } else if row == 3 {
                (column / 8) % 2
            } else if row == 4 {
                (column / 16) % 2
            } else {
                (column / 32) % 2
            };
            &&& column < 64
            &&& (set == 1) == (y < height && registers[y * width + x] == Some(index))
        }),
{
    let top = y / 6 * 6;
    let (a, b, c, d, e, f) = (
        cell(registers, width, height, top, x, index as int),
        cell(registers, width, height, top + 1, x, index as int),
        cell(registers, width, height, top + 2, x, index as int),
        cell(registers, width, height, top + 3, x, index as int),
        cell(registers, width, height, top + 4, x, index as int),
        cell(registers, width, height, top + 5, x, index as int),
    );
    let column = a + 2 * b + 4 * c + 8 * d + 16 * e + 32 * f;
    assert(pass_bits(registers, width, height, y / 6, index as int)[x] as int == column);
    assert(y == top + y % 6);
    assert(cell(registers, width, height, y, x, index as int) == if y % 6 == 0 {
        a
    } else if y % 6 == 1 {
        b
    } else if y % 6 == 2 {
        c
    } else if y % 6 == 3 {
        d
    } else if y % 6 == 4 {
        e
    } else {
        f
    });
}

/// Only empty columns are left out of a pass, at its end.
pub proof fn only_empty_columns_are_left_out(bits: Seq<u8>)
    ensures
        trimmed(bits).len() <= bits.len(),
        forall|i: int| 0 <= i < trimmed(bits).len() ==> #[trigger] trimmed(bits)[i] == bits[i],
        forall|i: int| trimmed(bits).len() <= i < bits.len() ==> #[trigger] bits[i] == 0,
        trimmed(bits).len() > 0 ==> trimmed(bits).last() != 0,
    decreases bits.len(),
{
    if bits.len() > 0 && bits.last() == 0 {
        only_empty_columns_are_left_out(bits.drop_last());
        assert forall|i: int| trimmed(bits).len() <= i < bits.len() implies #[trigger] bits[i]
            == 0 by {
            if i < bits.len() - 1 {
                assert(bits.drop_last()[i] == bits[i]);
            }
        }
    }
}

/// A register says its number, and its red, green and blue in that order, each in the nearest per
/// cent of 255.
pub proof fn a_register_says_its_colour(index: nat, colour: Seq<u8>)
    requires
        colour.len() == 3,
    ensures
        exists|r: nat, g: nat, b: nat| {
            &&& -128 <= 255 * r - 100 * colour[0] <= 128
            &&& -128 <= 255 * g - 100 * colour[1] <= 128
            &&& -128 <= 255 * b - 100 * colour[2] <= 128
            &&& register_code(index, colour) == ascii("#"@) + #[trigger] decimal_bytes(index)
                + ascii(";2;"@) + #[trigger] decimal_bytes(r) + ascii(";"@)
                + #[trigger] decimal_bytes(g) + ascii(";"@) + #[trigger] decimal_bytes(b)
        },
{
    a_per_cent_is_near_its_value(colour[0], 0);
    a_per_cent_is_near_its_value(colour[1], 0);
    a_per_cent_is_near_its_value(colour[2], 0);
    let (r, g, b) = (percent(colour[0]), percent(colour[1]), percent(colour[2]));
    assert(register_code(index, colour) == ascii("#"@) + decimal_bytes(index) + ascii(";2;"@)
        + decimal_bytes(r) + ascii(";"@) + decimal_bytes(g) + ascii(";"@) + decimal_bytes(b));
}

proof fn a_band_is_among_the_bands(
    registers: Seq<Option<u8>>,
    width: int,
    height: int,
    colours: int,
    bands: int,
    band: int,
) -> (around: (Seq<u8>, Seq<u8>))
    requires
        0 <= band < bands,
    ensures
        bands_code(registers, width, height, colours, bands) == around.0 + band_code(
            registers,
            width,
            height,
            band,
            colours,
        ) + around.1,
        band == 0 ==> around.0.len() == 0,
        band > 0 ==> around.0.len() > 0 && around.0.last() == 45,
        band == bands - 1 ==> around.1.len() == 0,
        band < bands - 1 ==> around.1.len() > 0 && around.1[0] == 45,
    decreases bands,
{
    reveal_strlit("-");
    assert(ascii("-"@) =~= seq![45u8]);
    let whole = bands_code(registers, width, height, colours, bands);
    let its = band_code(registers, width, height, band, colours);
    if bands == 1 {
        assert(Seq::<u8>::empty() + its + Seq::<u8>::empty() =~= whole);
        (Seq::empty(), Seq::empty())
    } else {
        let before = bands_code(registers, width, height, colours, bands - 1);
        if band == bands - 1 {
            assert((before + ascii("-"@)) + its + Seq::<u8>::empty() =~= whole);
            (before + ascii("-"@), Seq::empty())
        } else {
            let around = a_band_is_among_the_bands(
                registers,
                width,
                height,
                colours,
                bands - 1,
                band,
            );
            let last = band_code(registers, width, height, bands - 1, colours);
            let rest = around.1 + ascii("-"@) + last;
            assert(around.0 + its + rest =~= (around.0 + its + around.1) + ascii("-"@) + last);
            assert(rest[0] == 45);
            (around.0, rest)
        }
    }
}

/// Every row of a picture is in a band of its code: the band of six rows that it falls in, at the
/// start of the bands or after a new line, and at their end or before one. The palette comes before
/// all of them.
pub proof fn every_row_has_its_band(
    width: nat,
    height: nat,
    palette: Seq<[u8; 3]>,
    registers: Seq<Option<u8>>,
    y: int,
)
    requires
        0 <= y < height,
    ensures
        exists|head: Seq<u8>, before: Seq<u8>, after: Seq<u8>| {
            &&& sixel_code(width, height, palette, registers) == #[trigger] (head + palette_code(
                palette,
                palette.len(),
            ) + before + band_code(
                registers,
                width as int,
                height as int,
                y / 6,
                palette.len() as int,
            ) + after + ascii("\x1b\\"@))
            &&& y < 6 ==> before.len() == 0
            &&& y >= 6 ==> before.len() > 0 && before.last() == 45
            &&& y >= height - 1 ==> after.len() == 0
        },
{
    let bands = (height as int + 5) / 6;
    let band = y / 6;
    assert(0 <= band < bands);
    let around = a_band_is_among_the_bands(
        registers,
        width as int,
        height as int,
        palette.len() as int,
        bands,
        band,
    );
    let head = ((ascii("\x1bP0;1;0q\"1;1;"@) + decimal_bytes(width)) + ascii(";"@)) + decimal_bytes(
        height,
    );
    let its = band_code(registers, width as int, height as int, band, palette.len() as int);
    let colours = palette_code(palette, palette.len());
    let end = ascii("\x1b\\"@);
    assert(sixel_code(width, height, palette, registers) =~= head + colours + around.0 + its
        + around.1 + end);
    if y >= height - 1 {
        assert(band == bands - 1);
    }
}

/// A pixel is drawn when it is at least half opaque, and only then.
pub proof fn half_opaque_pixels_are_drawn(picture: Rgba, at: int)
    requires
        picture.wf(),
        0 <= at < picture.width * picture.height,
    ensures
        is_drawn(picture, at) <==> 2 * picture.data@[4 * at + 3] > 255,
{
}

} // verus!
