//! Building and reading text.

use vstd::prelude::*;

verus! {

/// `String::push` of the standard library: the character goes on the end of the text.
pub assume_specification[ String::push ](text: &mut String, c: char)
    ensures
        final(text)@ == old(text)@.push(c),
;

/// The text of bytes, with a replacement character for what is not UTF-8.
pub uninterp spec fn lossy_text(bytes: Seq<u8>) -> Seq<char>;

/// `String::from_utf8_lossy` of the standard library: bytes that are UTF-8 give the text they
/// encode; what other bytes give depends on them alone.
#[verifier::external_body]
pub(crate) fn lossy(bytes: &Vec<u8>) -> (text: String)
    ensures
        text@ == lossy_text(bytes@),
        vstd::utf8::valid_utf8(bytes@) ==> text@ == vstd::utf8::decode_utf8(bytes@),
{
    String::from_utf8_lossy(bytes).into_owned()
}

/// A text of its own, from one in the program.
pub fn literal(text: &str) -> (own: String)
    ensures
        own@ == text@,
{
    text.to_owned()
}

/// Put one text on the end of another.
pub fn append(text: &mut String, more: &str)
    ensures
        final(text)@ == old(text)@ + more@,
{
    text.append(more);
}

/// Whether two texts are the same characters.
pub fn same_text(a: &str, b: &str) -> (same: bool)
    ensures
        same == (a@ == b@),
{
    a.to_owned() == b.to_owned()
}

/// The characters of a text.
pub fn chars_of(text: &str) -> (chars: Vec<char>)
    ensures
        chars@ == text@,
{
    let mut chars: Vec<char> = Vec::new();
    for c in it: text.chars()
        invariant
            it.seq() == text@,
            chars@ == it.seq().take(it.index() as int),
    {
        chars.push(c);
        assert(chars@ =~= it.seq().take(it.index() as int + 1));
    }
    assert(chars@ =~= text@);
    chars
}

/// The text of some characters.
pub fn text_of(chars: &[char]) -> (text: String)
    ensures
        text@ == chars@,
{
    let mut text = String::new();
    let mut i: usize = 0;
    while i < chars.len()
        invariant
            i <= chars.len(),
            text@ == chars@.take(i as int),
        decreases chars.len() - i,
    {
        text.push(chars[i]);
        i += 1;
        assert(text@ =~= chars@.take(i as int));
    }
    assert(chars@.take(chars.len() as int) =~= chars@);
    text
}

/// Whether a text ends so.
pub open spec fn ends_with(text: Seq<char>, end: Seq<char>) -> bool {
    end.len() <= text.len() && text.skip(text.len() - end.len()) == end
}

/// Whether a text begins so.
pub fn begins_with(text: &str, start: &str) -> (does: bool)
    ensures
        does == start@.is_prefix_of(text@),
{
    let letters = chars_of(text);
    let wanted = chars_of(start);
    if wanted.len() > letters.len() {
        return false;
    }
    let mut i: usize = 0;
    while i < wanted.len()
        invariant
            i <= wanted.len() <= letters.len(),
            letters@ == text@,
            wanted@ == start@,
            forall|j: int| 0 <= j < i ==> wanted@[j] == letters@[j],
        decreases wanted.len() - i,
    {
        if wanted[i] != letters[i] {
            assert(text@.subrange(0, start@.len() as int)[i as int] == text@[i as int]);
            return false;
        }
        i += 1;
    }
    assert(start@ =~= text@.subrange(0, start@.len() as int));
    true
}

/// Whether a text ends so.
pub fn finishes_with(text: &str, end: &str) -> (does: bool)
    ensures
        does == ends_with(text@, end@),
{
    let letters = chars_of(text);
    let wanted = chars_of(end);
    if wanted.len() > letters.len() {
        return false;
    }
    let skipped: usize = letters.len() - wanted.len();
    let mut i: usize = 0;
    while i < wanted.len()
        invariant
            i <= wanted.len() <= letters.len(),
            letters@ == text@,
            wanted@ == end@,
            skipped == letters.len() - wanted.len(),
            forall|j: int| 0 <= j < i ==> wanted@[j] == letters@[skipped + j],
        decreases wanted.len() - i,
    {
        if wanted[i] != letters[skipped + i] {
            assert(text@.skip(skipped as int)[i as int] == text@[skipped + i]);
            return false;
        }
        i += 1;
    }
    assert(text@.skip(skipped as int) =~= end@);
    true
}

/// A text ends with another exactly where it is some text and then that.
pub proof fn an_end_has_a_start_before_it(text: Seq<char>, end: Seq<char>, start: Seq<char>)
    ensures
        ends_with(start + end, end),
        ends_with(text, end) ==> text == text.take(text.len() - end.len()) + end,
        text.len() < end.len() ==> !ends_with(text, end),
{
    let whole = start + end;
    assert(whole.skip(whole.len() - end.len()) =~= end);
    if ends_with(text, end) {
        let at = text.len() - end.len();
        assert(text =~= text.take(at) + text.skip(at));
    }
}

} // verus!
