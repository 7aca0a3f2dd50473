//! Building and reading bytes for a terminal.

use vstd::prelude::*;

use crate::text::chars_of;

verus! {

/// A text of plain characters as bytes, one each.
pub open spec fn ascii(text: Seq<char>) -> Seq<u8> {
    Seq::new(text.len(), |i: int| text[i] as u8)
}

/// A number in decimal, as bytes.
pub open spec fn decimal_bytes(n: nat) -> Seq<u8>
    decreases n,
{
    if n < 10 {
        seq![(48 + n) as u8]
    } else {
        decimal_bytes(n / 10).push((48 + n % 10) as u8)
    }
}

/// Put a text of plain characters on the end of some bytes.
pub fn append_ascii(out: &mut Vec<u8>, text: &str)
    ensures
        final(out)@ == old(out)@ + ascii(text@),
{
    let ghost before = out@;
    let chars = chars_of(text);
    let mut i: usize = 0;
    assert(before + ascii(text@).take(0) =~= before);
    while i < chars.len()
        invariant
            i <= chars.len(),
            chars@ == text@,
            out@ == before + ascii(text@).take(i as int),
        decreases chars.len() - i,
    {
        out.push(chars[i] as u8);
        i += 1;
        assert(out@ =~= before + ascii(text@).take(i as int));
    }
    assert(ascii(text@).take(chars.len() as int) =~= ascii(text@));
}

/// A text of plain characters as bytes.
pub fn plain(text: &str) -> (bytes: Vec<u8>)
    ensures
        bytes@ == ascii(text@),
{
    let mut bytes: Vec<u8> = Vec::new();
    append_ascii(&mut bytes, text);
    assert(bytes@ =~= ascii(text@));
    bytes
}

/// Put a number in decimal on the end of some bytes.
pub fn append_number(out: &mut Vec<u8>, n: u64)
    ensures
        final(out)@ == old(out)@ + decimal_bytes(n as nat),
    decreases n,
{
    let ghost before = out@;
    if n >= 10 {
        append_number(out, n / 10);
    }
    out.push(48u8 + (n % 10) as u8);
    assert(out@ =~= before + decimal_bytes(n as nat));
}

/// Put bytes on the end of others.
pub fn append_bytes(out: &mut Vec<u8>, more: &[u8])
    ensures
        final(out)@ == old(out)@ + more@,
{
    let ghost before = out@;
    let mut i: usize = 0;
    assert(before + more@.take(0) =~= before);
    while i < more.len()
        invariant
            i <= more.len(),
            out@ == before + more@.take(i as int),
        decreases more.len() - i,
    {
        out.push(more[i]);
        i += 1;
        assert(out@ =~= before + more@.take(i as int));
    }
    assert(more@.take(more.len() as int) =~= more@);
}

/// Whether bytes are a number in decimal.
pub open spec fn is_digit(byte: u8) -> bool {
    48 <= byte <= 57
}

/// The number that decimal digits spell.
pub open spec fn spelled_number(digits: Seq<u8>) -> nat
    decreases digits.len(),
{
    if digits.len() == 0 {
        0
    } else {
        10 * spelled_number(digits.drop_last()) + (digits.last() - 48) as nat
    }
}

/// A number's decimal digits spell it, and are digits.
pub proof fn decimal_spells_the_number(n: nat)
    ensures
        spelled_number(decimal_bytes(n)) == n,
        decimal_bytes(n).len() > 0,
        forall|i: int|
            0 <= i < decimal_bytes(n).len() ==> is_digit(#[trigger] decimal_bytes(n)[i]),
    decreases n,
{
    let digits = decimal_bytes(n);
    if n < 10 {
        assert(digits.drop_last() =~= Seq::empty());
        assert(spelled_number(digits.drop_last()) == 0);
    } else {
        decimal_spells_the_number(n / 10);
        assert(digits.drop_last() =~= decimal_bytes(n / 10));
        assert forall|i: int| 0 <= i < digits.len() implies is_digit(#[trigger] digits[i]) by {
            if i < digits.len() - 1 {
                assert(digits[i] == decimal_bytes(n / 10)[i]);
            }
        }
    }
}

} // verus!
