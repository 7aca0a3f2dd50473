//! Finding and splitting, on bytes and on characters.

use vstd::prelude::*;

use crate::bytes::{is_digit, spelled_number};

verus! {

/// Whether `needle` is in `hay` at a place.
pub open spec fn is_at<A>(hay: Seq<A>, needle: Seq<A>, at: int) -> bool {
    0 <= at && at + needle.len() <= hay.len() && hay.subrange(at, at + needle.len()) == needle
}

/// Where `needle` first is in `hay`, from a place on.
pub open spec fn find_from<A>(hay: Seq<A>, needle: Seq<A>, from: int) -> Option<int>
    decreases hay.len() + 1 - from,
{
    if from < 0 || from + needle.len() > hay.len() {
        None
    } else if is_at(hay, needle, from) {
        Some(from)
    } else {
        find_from(hay, needle, from + 1)
    }
}

/// Where `needle` first is in `hay`.
pub open spec fn find<A>(hay: Seq<A>, needle: Seq<A>) -> Option<int> {
    find_from(hay, needle, 0)
}

/// What is found is there, and nowhere before.
pub proof fn found_is_first<A>(hay: Seq<A>, needle: Seq<A>, from: int)
    requires
        from >= 0,
    ensures
        match find_from(hay, needle, from) {
            Some(at) => from <= at && is_at(hay, needle, at) && forall|j: int|
                from <= j < at ==> !is_at(hay, needle, j),
            None => forall|j: int| from <= j ==> !is_at(hay, needle, j),
        },
    decreases hay.len() + 1 - from,
{
    if from + needle.len() <= hay.len() && !is_at(hay, needle, from) {
        found_is_first(hay, needle, from + 1);
    }
}

/// The parts between the separators.
pub open spec fn split<A>(items: Seq<A>, separator: A) -> Seq<Seq<A>>
    decreases items.len(),
{
    match find(items, seq![separator]) {
        Some(at) => if 0 <= at < items.len() {
            seq![items.take(at)] + split(items.skip(at + 1), separator)
        } else {
            seq![items]
        },
        None => seq![items],
    }
}

fn bytes_at(hay: &[u8], needle: &[u8], at: usize) -> (there: bool)
    requires
        at + needle.len() <= hay.len(),
    ensures
        there == is_at(hay@, needle@, at as int),
{
    let mut i: usize = 0;
    while i < needle.len()
        invariant
            i <= needle.len(),
            at + needle.len() <= hay.len(),
            forall|j: int| 0 <= j < i ==> hay@[at + j] == needle@[j],
        decreases needle.len() - i,
    {
        if hay[at + i] != needle[i] {
            assert(hay@.subrange(at as int, at + needle.len())[i as int] != needle@[i as int]);
            return false;
        }
        i += 1;
    }
    assert(hay@.subrange(at as int, at + needle.len()) =~= needle@);
    true
}

/// Where `needle` first is in `hay`, from a place on.
pub fn find_bytes_from(hay: &[u8], needle: &[u8], from: usize) -> (found: Option<usize>)
    ensures
        crate::names::place(found) == find_from(hay@, needle@, from as int),
        found is Some ==> from <= found->0 && found->0 + needle.len() <= hay.len(),
{
    if needle.len() > hay.len() || from > hay.len() - needle.len() {
        return None;
    }
    let last: usize = hay.len() - needle.len();
    let mut at: usize = from;
    loop
        invariant
            from <= at <= last,
            last == hay.len() - needle.len(),
            find_from(hay@, needle@, from as int) == find_from(hay@, needle@, at as int),
        decreases last - at,
    {
        if bytes_at(hay, needle, at) {
            return Some(at);
        }
        if at == last {
            assert(find_from(hay@, needle@, at + 1) is None);
            return None;
        }
        at += 1;
    }
}

/// Where `needle` first is in `hay`.
pub fn find_bytes(hay: &[u8], needle: &[u8]) -> (found: Option<usize>)
    ensures
        crate::names::place(found) == find(hay@, needle@),
        found is Some ==> found->0 + needle.len() <= hay.len(),
{
    find_bytes_from(hay, needle, 0)
}

/// Parts by their bytes.
pub open spec fn part_views(parts: Seq<Vec<u8>>) -> Seq<Seq<u8>> {
    Seq::new(parts.len(), |i: int| parts[i]@)
}

/// The parts between the separators.
pub fn split_bytes(items: &[u8], separator: u8) -> (parts: Vec<Vec<u8>>)
    ensures
        part_views(parts@) == split(items@, separator),
{
    let mut parts: Vec<Vec<u8>> = Vec::new();
    let mut part: Vec<u8> = Vec::new();
    let mut start: usize = 0;
    let mut i: usize = 0;
    assert(items@.skip(0) =~= items@);
    assert(part_views(parts@) + split(items@, separator) =~= split(items@, separator));
    while i < items.len()
        invariant
            start <= i <= items.len(),
            part@ == items@.subrange(start as int, i as int),
            forall|j: int| start <= j < i ==> items@[j] != separator,
            part_views(parts@) + split(items@.skip(start as int), separator) == split(
                items@,
                separator,
            ),
        decreases items.len() - i,
    {
        if items[i] == separator {
            let ghost so_far = part_views(parts@);
            let ghost rest = items@.skip(start as int);
            proof {
                one_is_found(rest, separator, i - start);
                assert(rest.take(i - start) =~= part@);
                assert(rest.skip(i - start + 1) =~= items@.skip(i + 1));
            }
            let ghost done = part@;
            parts.push(part);
            part = Vec::new();
            assert(part_views(parts@) =~= so_far.push(done));
            assert(part_views(parts@) + split(items@.skip(i + 1), separator) =~= so_far + split(
                rest,
                separator,
            ));
            i += 1;
            start = i;
            assert(items@.subrange(start as int, i as int) =~= Seq::empty());
        } else {
            part.push(items[i]);
            i += 1;
            assert(part@ =~= items@.subrange(start as int, i as int));
        }
    }
    let ghost so_far = part_views(parts@);
    let ghost rest = items@.skip(start as int);
    proof {
        none_is_found(rest, separator);
        assert(rest =~= part@);
    }
    let ghost done = part@;
    parts.push(part);
    assert(part_views(parts@) =~= so_far.push(done));
    assert(so_far + seq![rest] =~= so_far.push(done));
    parts
}

/// A single item is found at its first place.
pub proof fn one_is_found<A>(items: Seq<A>, item: A, at: int)
    requires
        0 <= at < items.len(),
        items[at] == item,
        forall|j: int| 0 <= j < at ==> items[j] != item,
    ensures
        find(items, seq![item]) == Some(at),
{
    found_is_first(items, seq![item], 0);
    assert(items.subrange(at, at + 1) =~= seq![item]);
    assert(is_at(items, seq![item], at));
    let found = find(items, seq![item]);
    assert(found is Some);
    if found->0 < at {
        assert(items.subrange(found->0, found->0 + 1)[0] == items[found->0]);
    }
}

/// A single item that is nowhere is not found.
pub proof fn none_is_found<A>(items: Seq<A>, item: A)
    requires
        forall|j: int| 0 <= j < items.len() ==> items[j] != item,
    ensures
        find(items, seq![item]) is None,
{
    found_is_first(items, seq![item], 0);
    let found = find(items, seq![item]);
    if found is Some {
        assert(items.subrange(found->0, found->0 + 1)[0] == items[found->0]);
    }
}

/// Whether bytes are all digits.
pub open spec fn all_digits(digits: Seq<u8>) -> bool {
    forall|i: int| 0 <= i < digits.len() ==> is_digit(#[trigger] digits[i])
}

/// The number that digits spell, with a plus sign before them or not, when there are any and it
/// is no more than `most`.
pub open spec fn number_in(text: Seq<u8>, most: int) -> Option<int> {
    let digits = if text.len() > 0 && text[0] == 43 {
        text.drop_first()
    } else {
        text
    };
    if digits.len() > 0 && all_digits(digits) && spelled_number(digits) <= most {
        Some(spelled_number(digits) as int)
    } else {
        None
    }
}

/// A number only grows as digits follow.
pub proof fn numbers_grow(digits: Seq<u8>, count: int)
    requires
        0 <= count <= digits.len(),
        forall|i: int| 0 <= i < digits.len() ==> is_digit(#[trigger] digits[i]),
    ensures
        spelled_number(digits.take(count)) <= spelled_number(digits),
    decreases digits.len() - count,
{
    if count == digits.len() {
        assert(digits.take(count) =~= digits);
    } else {
        numbers_grow(digits, count + 1);
        assert(digits.take(count + 1).drop_last() =~= digits.take(count));
        assert(is_digit(digits[count]));
    }
}

/// The number that digits spell, with a plus sign before them or not, when there are any and it
/// is no more than `most`.
pub fn parse_number(text: &[u8], most: u32) -> (number: Option<u32>)
    ensures
        match number {
            Some(n) => number_in(text@, most as int) == Some(n as int),
            None => number_in(text@, most as int) is None,
        },
{
    let start: usize = if text.len() > 0 && text[0] == 43 {
        1
    } else {
        0
    };
    let ghost digits = if text@.len() > 0 && text@[0] == 43 {
        text@.drop_first()
    } else {
        text@
    };
    assert(digits =~= text@.skip(start as int));
    if start == text.len() {
        return None;
    }
    let mut value: u64 = 0;
    let mut i: usize = start;
    assert(digits.take(0) =~= Seq::empty());
    while i < text.len()
        invariant
            start <= i <= text.len(),
            start < text.len(),
            digits == text@.skip(start as int),
            digits == if text@.len() > 0 && text@[0] == 43 {
                text@.drop_first()
            } else {
                text@
            },
            forall|j: int| 0 <= j < i - start ==> is_digit(#[trigger] digits[j]),
            value == spelled_number(digits.take(i - start)),
            value <= most,
        decreases text.len() - i,
    {
        let byte: u8 = text[i];
        assert(byte == digits[i - start]);
        if byte < 48 || byte > 57 {
            assert(!is_digit(digits[i - start]));
            return None;
        }
        let next: u64 = value * 10 + (byte - 48) as u64;
        assert(digits.take(i + 1 - start).drop_last() =~= digits.take(i - start));
        if next > most as u64 {
            proof {
                if all_digits(digits) {
                    numbers_grow(digits, i + 1 - start);
                }
            }
            return None;
        }
        value = next;
        i += 1;
    }
    assert(digits.take(text.len() - start) =~= digits);
    Some(value as u32)
}

fn chars_at(hay: &[char], needle: &[char], at: usize) -> (there: bool)
    requires
        at + needle.len() <= hay.len(),
    ensures
        there == is_at(hay@, needle@, at as int),
{
    let mut i: usize = 0;
    while i < needle.len()
        invariant
            i <= needle.len(),
            at + needle.len() <= hay.len(),
            forall|j: int| 0 <= j < i ==> hay@[at + j] == needle@[j],
        decreases needle.len() - i,
    {
        if hay[at + i] != needle[i] {
            assert(hay@.subrange(at as int, at + needle.len())[i as int] != needle@[i as int]);
            return false;
        }
        i += 1;
    }
    assert(hay@.subrange(at as int, at + needle.len()) =~= needle@);
    true
}

/// Where `needle` first is in `hay`.
pub fn find_chars(hay: &[char], needle: &[char]) -> (found: Option<usize>)
    ensures
        crate::names::place(found) == find(hay@, needle@),
        found is Some ==> found->0 + needle.len() <= hay.len(),
{
    if needle.len() > hay.len() {
        return None;
    }
    let last: usize = hay.len() - needle.len();
    let mut at: usize = 0;
    loop
        invariant
            at <= last,
            last == hay.len() - needle.len(),
            find(hay@, needle@) == find_from(hay@, needle@, at as int),
        decreases last - at,
    {
        if chars_at(hay, needle, at) {
            return Some(at);
        }
        if at == last {
            assert(find_from(hay@, needle@, at + 1) is None);
            return None;
        }
        at += 1;
    }
}

/// Parts by their characters.
pub open spec fn char_parts(parts: Seq<Vec<char>>) -> Seq<Seq<char>> {
    Seq::new(parts.len(), |i: int| parts[i]@)
}

/// The parts between the separators.
pub fn split_chars(items: &[char], separator: char) -> (parts: Vec<Vec<char>>)
    ensures
        char_parts(parts@) == split(items@, separator),
{
    let mut parts: Vec<Vec<char>> = Vec::new();
    let mut part: Vec<char> = Vec::new();
    let mut start: usize = 0;
    let mut i: usize = 0;
    assert(items@.skip(0) =~= items@);
    assert(char_parts(parts@) + split(items@, separator) =~= split(items@, separator));
    while i < items.len()
        invariant
            start <= i <= items.len(),
            part@ == items@.subrange(start as int, i as int),
            forall|j: int| start <= j < i ==> items@[j] != separator,
            char_parts(parts@) + split(items@.skip(start as int), separator) == split(
                items@,
                separator,
            ),
        decreases items.len() - i,
    {
        if items[i] == separator {
            let ghost so_far = char_parts(parts@);
            let ghost rest = items@.skip(start as int);
            proof {
                one_is_found(rest, separator, i - start);
                assert(rest.take(i - start) =~= part@);
                assert(rest.skip(i - start + 1) =~= items@.skip(i + 1));
            }
            let ghost done = part@;
            parts.push(part);
            part = Vec::new();
            assert(char_parts(parts@) =~= so_far.push(done));
            assert(char_parts(parts@) + split(items@.skip(i + 1), separator) =~= so_far + split(
                rest,
                separator,
            ));
            i += 1;
            start = i;
            assert(items@.subrange(start as int, i as int) =~= Seq::empty());
        } else {
            part.push(items[i]);
            i += 1;
            assert(part@ =~= items@.subrange(start as int, i as int));
        }
    }
    let ghost so_far = char_parts(parts@);
    let ghost rest = items@.skip(start as int);
    proof {
        none_is_found(rest, separator);
        assert(rest =~= part@);
    }
    let ghost done = part@;
    parts.push(part);
    assert(char_parts(parts@) =~= so_far.push(done));
    assert(so_far + seq![rest] =~= so_far.push(done));
    parts
}

/// A text is split at each separator: what is before the first is a part, and what is after it is
/// split in turn. Without one, it is the one part there is.
pub proof fn a_split_is_at_each_separator<A>(before: Seq<A>, separator: A, after: Seq<A>)
    requires
        forall|i: int| 0 <= i < before.len() ==> before[i] != separator,
    ensures
        split(before + seq![separator] + after, separator) == seq![before] + split(
            after,
            separator,
        ),
        split(before, separator) == seq![before],
{
    let items = before + seq![separator] + after;
    assert(items[before.len() as int] == separator);
    assert forall|j: int| 0 <= j < before.len() implies items[j] != separator by {
        assert(items[j] == before[j]);
    }
    one_is_found(items, separator, before.len() as int);
    assert(items.take(before.len() as int) =~= before);
    assert(items.skip(before.len() as int + 1) =~= after);
    none_is_found(before, separator);
}

/// A number that was written down is read back, with a plus before it too; one past the most is not,
/// nor is what holds anything but digits.
pub proof fn a_number_is_read_back(n: nat, most: int, text: Seq<u8>, i: int)
    ensures
        number_in(crate::bytes::decimal_bytes(n), most) == if n <= most {
            Some(n as int)
        } else {
            None
        },
        number_in(seq![43u8] + crate::bytes::decimal_bytes(n), most) == if n <= most {
            Some(n as int)
        } else {
            None
        },
        1 <= i < text.len() && !(48 <= text[i] <= 57) ==> number_in(text, most) is None,
        number_in(Seq::empty(), most) is None,
{
    let digits = crate::bytes::decimal_bytes(n);
    crate::bytes::decimal_spells_the_number(n);
    assert(is_digit(digits[0]));
    assert((seq![43u8] + digits).drop_first() =~= digits);
    if 1 <= i < text.len() && !(48 <= text[i] <= 57) {
        assert(!is_digit(text[i]));
        assert(text.drop_first()[i - 1] == text[i]);
    }
}

/// What is at a place is found there, if one of its items is nowhere that it would be before.
pub proof fn a_run_is_found<A>(hay: Seq<A>, needle: Seq<A>, at: int, k: int)
    requires
        0 <= at,
        at + needle.len() <= hay.len(),
        hay.subrange(at, at + needle.len()) == needle,
        0 <= k < needle.len(),
        forall|i: int| k <= i < at + k ==> #[trigger] hay[i] != needle[k],
    ensures
        find(hay, needle) == Some(at),
{
    found_is_first(hay, needle, 0);
    assert(is_at(hay, needle, at));
    let found = find(hay, needle);
    if found is Some && found->0 < at {
        assert(hay.subrange(found->0, found->0 + needle.len())[k] == hay[found->0 + k]);
    }
}

/// What holds an item that is nowhere is not found.
pub proof fn a_run_is_not_found<A>(hay: Seq<A>, needle: Seq<A>, k: int)
    requires
        0 <= k < needle.len(),
        forall|i: int| 0 <= i < hay.len() ==> #[trigger] hay[i] != needle[k],
    ensures
        find(hay, needle) is None,
{
    found_is_first(hay, needle, 0);
    let found = find(hay, needle);
    if found is Some {
        assert(hay.subrange(found->0, found->0 + needle.len())[k] == hay[found->0 + k]);
    }
}

} // verus!
