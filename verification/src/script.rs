//! Driving the window from a script: one step a line, `#` starting a comment.

use vstd::prelude::*;
use vstd::slice::slice_subrange;
use vstd::string::StrSliceExecFns;

use crate::count::{append_decimal, decimal};
use crate::search::{char_parts, find, find_chars, split, split_chars};
use crate::text::{append, chars_of, literal, same_text, text_of};
use crate::xkb::{is_space, space, trim, trimmed};

verus! {

/// Modifier keys of an event.
#[derive(Debug, Clone, Copy, PartialEq, Eq, Structural)]
pub struct Flags {
    pub command: bool,
    pub shift: bool,
    pub option: bool,
    pub control: bool,
    /// Whether the key is a function key, and one of the numeric pad's.
    pub function: bool,
    pub numeric_pad: bool,
}

/// No modifiers.
pub open spec fn no_flags() -> Flags {
    Flags {
        command: false,
        shift: false,
        option: false,
        control: false,
        function: false,
        numeric_pad: false,
    }
}

fn none_held() -> (flags: Flags)
    ensures
        flags == no_flags(),
{
    Flags {
        command: false,
        shift: false,
        option: false,
        control: false,
        function: false,
        numeric_pad: false,
    }
}

/// One more modifier by its name.
pub open spec fn with_modifier(flags: Flags, word: Seq<char>) -> Option<Flags> {
    if word == "cmd"@ {
        Some(Flags { command: true, ..flags })
    } else if word == "shift"@ {
        Some(Flags { shift: true, ..flags })
    } else if word == "opt"@ {
        Some(Flags { option: true, ..flags })
    } else if word == "ctrl"@ {
        Some(Flags { control: true, ..flags })
    } else {
        None
    }
}

/// The modifiers that the first `count` words name, if each names one.
pub open spec fn modifiers_named(words: Seq<Seq<char>>, count: int) -> Option<Flags>
    decreases count,
{
    if count <= 0 {
        Some(no_flags())
    } else {
        match modifiers_named(words, count - 1) {
            Some(flags) => with_modifier(flags, words[count - 1]),
            None => None,
        }
    }
}

/// The modifiers in a word, joined with `+`.
pub open spec fn modifiers_in(text: Seq<char>) -> Option<Flags> {
    let words = split(text, '+');
    modifiers_named(words, words.len() as int)
}

fn add_modifier(flags: Flags, word: &str) -> (more: Option<Flags>)
    ensures
        more == with_modifier(flags, word@),
{
    if same_text(word, "cmd") {
        Some(Flags { command: true, ..flags })
    } else if same_text(word, "shift") {
        Some(Flags { shift: true, ..flags })
    } else if same_text(word, "opt") {
        Some(Flags { option: true, ..flags })
    } else if same_text(word, "ctrl") {
        Some(Flags { control: true, ..flags })
    } else {
        None
    }
}

/// The modifiers in a word, joined with `+`; `None` if one is not known.
pub fn modifiers(text: &[char]) -> (flags: Option<Flags>)
    ensures
        flags == modifiers_in(text@),
{
    let words = split_chars(text, '+');
    let ghost parts = char_parts(words@);
    let mut flags = none_held();
    let mut i: usize = 0;
    while i < words.len()
        invariant
            i <= words.len(),
            parts == char_parts(words@),
            parts == split(text@, '+'),
            modifiers_named(parts, i as int) == Some(flags),
        decreases words.len() - i,
    {
        assert(parts[i as int] == words@[i as int]@);
        let word = text_of(words[i].as_slice());
        match add_modifier(flags, word.as_str()) {
            Some(more) => {
                flags = more;
            },
            None => {
                proof {
                    unknown_stays_unknown(parts, i + 1, parts.len() as int);
                }
                return None;
            },
        }
        i += 1;
    }
    Some(flags)
}

proof fn unknown_stays_unknown(words: Seq<Seq<char>>, from: int, to: int)
    requires
        0 <= from <= to,
        modifiers_named(words, from) is None,
    ensures
        modifiers_named(words, to) is None,
    decreases to - from,
{
    if from < to {
        unknown_stays_unknown(words, from, to - 1);
    }
}

/// The characters of a US keyboard in the order of their codes.
pub open spec fn us_codes() -> Seq<char> {
    "asdfhgzxcv bqweryt123465=97-80]ou[ip lj'k;\\,/nm."@
}

/// A letter in lower case.
pub open spec fn lower(c: char) -> char {
    if 'A' <= c <= 'Z' {
        (c as u32 + 32) as char
    } else {
        c
    }
}

/// The code of the key that types a character, and 0 where there is none.
pub open spec fn code_of(c: char) -> u16 {
    match us_codes().index_of_first(lower(c)) {
        Some(at) => at as u16,
        None => 0,
    }
}

/// A key's code and the character it types, by its name.
pub open spec fn key_named(name: Seq<char>) -> Option<(u16, char)> {
    if name == "left"@ {
        Some((123, '\u{f702}'))
    } else if name == "right"@ {
        Some((124, '\u{f703}'))
    } else if name == "down"@ {
        Some((125, '\u{f701}'))
    } else if name == "up"@ {
        Some((126, '\u{f700}'))
    } else if name == "return"@ {
        Some((36, '\r'))
    } else if name == "enter"@ {
        Some((76, '\u{3}'))
    } else if name == "esc"@ {
        Some((53, '\u{1b}'))
    } else if name == "backspace"@ {
        Some((51, '\u{7f}'))
    } else if name == "delete"@ {
        Some((117, '\u{f728}'))
    } else if name == "tab"@ {
        Some((48, '\t'))
    } else if name == "space"@ {
        Some((49, ' '))
    } else if name == "home"@ {
        Some((115, '\u{f729}'))
    } else if name == "end"@ {
        Some((119, '\u{f72b}'))
    } else if name == "pageup"@ {
        Some((116, '\u{f72c}'))
    } else if name == "pagedown"@ {
        Some((121, '\u{f72d}'))
    } else if name == "plus"@ {
        Some((24, '+'))
    } else if name.len() == 1 {
        Some((code_of(name[0]), name[0]))
    } else {
        None
    }
}

fn find_code(c: char) -> (code: u16)
    ensures
        code == code_of(c),
{
    let wanted: char = if 'A' <= c && c <= 'Z' {
        (c as u8 + 32) as char
    } else {
        c
    };
    proof {
        reveal_strlit("asdfhgzxcv bqweryt123465=97-80]ou[ip lj'k;\\,/nm.");
    }
    let codes = chars_of("asdfhgzxcv bqweryt123465=97-80]ou[ip lj'k;\\,/nm.");
    assert(wanted == lower(c));
    let mut i: usize = 0;
    while i < codes.len()
        invariant
            i <= codes.len() <= 100,
            codes@ == us_codes(),
            wanted == lower(c),
            forall|j: int| 0 <= j < i ==> codes@[j] != wanted,
        decreases codes.len() - i,
    {
        if codes[i] == wanted {
            proof {
                crate::names::first_at(codes@, wanted, i as int);
            }
            return i as u16;
        }
        i += 1;
    }
    proof {
        crate::names::first_nowhere(codes@, wanted);
    }
    0
}

/// A key's hardware code and the character it types, by name or as its own character.
pub fn key(name: &str) -> (found: Option<(u16, char)>)
    ensures
        found == key_named(name@),
{
    if same_text(name, "left") {
        return Some((123, '\u{f702}'));
    }
    if same_text(name, "right") {
        return Some((124, '\u{f703}'));
    }
    if same_text(name, "down") {
        return Some((125, '\u{f701}'));
    }
    if same_text(name, "up") {
        return Some((126, '\u{f700}'));
    }
    if same_text(name, "return") {
        return Some((36, '\r'));
    }
    if same_text(name, "enter") {
        return Some((76, '\u{3}'));
    }
    if same_text(name, "esc") {
        return Some((53, '\u{1b}'));
    }
    if same_text(name, "backspace") {
        return Some((51, '\u{7f}'));
    }
    if same_text(name, "delete") {
        return Some((117, '\u{f728}'));
    }
    if same_text(name, "tab") {
        return Some((48, '\t'));
    }
    if same_text(name, "space") {
        return Some((49, ' '));
    }
    if same_text(name, "home") {
        return Some((115, '\u{f729}'));
    }
    if same_text(name, "end") {
        return Some((119, '\u{f72b}'));
    }
    if same_text(name, "pageup") {
        return Some((116, '\u{f72c}'));
    }
    if same_text(name, "pagedown") {
        return Some((121, '\u{f72d}'));
    }
    if same_text(name, "plus") {
        return Some((24, '+'));
    }
    if name.unicode_len() == 1 {
        let c: char = name.get_char(0);
        return Some((find_code(c), c));
    }
    None
}

/// How long the word at the start of a text is.
pub open spec fn word_length(text: Seq<char>) -> nat
    decreases text.len(),
{
    if text.len() == 0 || is_space(text[0]) {
        0
    } else {
        1 + word_length(text.drop_first())
    }
}

/// The words of a text, with white space between them.
pub open spec fn words_in(text: Seq<char>) -> Seq<Seq<char>>
    decreases text.len(),
{
    if text.len() == 0 {
        Seq::empty()
    } else if is_space(text[0]) {
        words_in(text.drop_first())
    } else {
        let length = word_length(text);
        if 0 < length <= text.len() {
            seq![text.take(length as int)] + words_in(text.skip(length as int))
        } else {
            Seq::empty()
        }
    }
}

proof fn words_have_letters(text: Seq<char>)
    requires
        text.len() > 0,
        !is_space(text[0]),
    ensures
        0 < word_length(text) <= text.len(),
        forall|i: int| 0 <= i < word_length(text) ==> !is_space(#[trigger] text[i]),
        word_length(text) < text.len() ==> is_space(text[word_length(text) as int]),
    decreases text.len(),
{
    let rest = text.drop_first();
    if rest.len() > 0 && !is_space(rest[0]) {
        words_have_letters(rest);
        assert forall|i: int| 0 <= i < word_length(text) implies !is_space(#[trigger] text[i]) by {
            if i > 0 {
                assert(rest[i - 1] == text[i]);
            }
        }
        if word_length(text) < text.len() {
            assert(rest[word_length(rest) as int] == text[word_length(text) as int]);
        }
    } else {
        assert(word_length(rest) == 0);
        if rest.len() > 0 {
            assert(rest[0] == text[1]);
        }
    }
}

proof fn word_ends_at_space(text: Seq<char>, length: nat)
    requires
        0 < length <= text.len(),
        forall|i: int| 0 <= i < length ==> !is_space(#[trigger] text[i]),
        length < text.len() ==> is_space(text[length as int]),
    ensures
        word_length(text) == length,
{
    words_have_letters(text);
    let found = word_length(text);
    if found < length {
        assert(!is_space(text[found as int]));
    }
    if length < found {
        assert(is_space(text[length as int]));
    }
}

/// The words of a text.
fn words(text: &[char]) -> (found: Vec<Vec<char>>)
    ensures
        char_parts(found@) == words_in(text@),
{
    let mut found: Vec<Vec<char>> = Vec::new();
    let mut i: usize = 0;
    assert(text@.skip(0) =~= text@);
    assert(char_parts(found@) + words_in(text@) =~= words_in(text@));
    while i < text.len()
        invariant
            i <= text.len(),
            char_parts(found@) + words_in(text@.skip(i as int)) == words_in(text@),
        decreases text.len() - i,
    {
        let ghost left = text@.skip(i as int);
        let ghost so_far = char_parts(found@);
        if space(text[i]) {
            assert(left.drop_first() =~= text@.skip(i + 1));
            i += 1;
        } else {
            let start: usize = i;
            let mut end: usize = i + 1;
            while end < text.len() && !space(text[end])
                invariant
                    start < end <= text.len(),
                    left == text@.skip(start as int),
                    forall|j: int| 0 <= j < end - start ==> !is_space(#[trigger] left[j]),
                decreases text.len() - end,
            {
                end += 1;
            }
            proof {
                word_ends_at_space(left, (end - start) as nat);
            }
            let word = vstd::slice::slice_to_vec(slice_subrange(text, start, end));
            assert(word@ =~= left.take(end - start));
            let ghost done = word@;
            found.push(word);
            assert(char_parts(found@) =~= so_far.push(done));
            assert(left.skip(end - start) =~= text@.skip(end as int));
            assert(so_far.push(done) + words_in(text@.skip(end as int)) =~= so_far + (seq![done]
                + words_in(text@.skip(end as int))));
            i = end;
        }
    }
    assert(text@.skip(i as int).len() == 0);
    assert(char_parts(found@) + words_in(text@.skip(i as int)) =~= char_parts(found@));
    found
}

/// Whether a character is a decimal digit.
pub open spec fn is_decimal(c: char) -> bool {
    '0' <= c <= '9'
}

/// Whether characters are all decimal digits.
pub open spec fn all_decimal(text: Seq<char>) -> bool {
    forall|i: int| 0 <= i < text.len() ==> is_decimal(#[trigger] text[i])
}

/// A text without the sign at its start.
pub open spec fn unsigned(text: Seq<char>) -> Seq<char> {
    if text.len() > 0 && (text[0] == '+' || text[0] == '-') {
        text.drop_first()
    } else {
        text
    }
}

/// Whether a text is the digits of a number, with a point among them or not.
pub open spec fn is_mantissa(text: Seq<char>) -> bool {
    match find(text, seq!['.']) {
        Some(at) => text.len() > 1 && all_decimal(text.take(at)) && all_decimal(
            text.skip(at + 1),
        ),
        None => text.len() > 0 && all_decimal(text),
    }
}

/// Whether a text is the exponent of a number.
pub open spec fn is_exponent(text: Seq<char>) -> bool {
    unsigned(text).len() > 0 && all_decimal(unsigned(text))
}

/// A text in lower case.
pub open spec fn lowered(text: Seq<char>) -> Seq<char> {
    Seq::new(text.len(), |i: int| lower(text[i]))
}

/// Whether a text is a number that may have a fraction: digits with a point among them or not
/// and an exponent or not, or one of the words for what is no number, with a sign or not.
pub open spec fn is_number(text: Seq<char>) -> bool {
    let digits = lowered(unsigned(text));
    if digits == "inf"@ || digits == "infinity"@ || digits == "nan"@ {
        true
    } else {
        match find(digits, seq!['e']) {
            Some(at) => is_mantissa(digits.take(at)) && is_exponent(digits.skip(at + 1)),
            None => is_mantissa(digits),
        }
    }
}

fn decimals(text: &[char]) -> (all: bool)
    ensures
        all == all_decimal(text@),
{
    let mut i: usize = 0;
    while i < text.len()
        invariant
            i <= text.len(),
            forall|j: int| 0 <= j < i ==> is_decimal(#[trigger] text@[j]),
        decreases text.len() - i,
    {
        if text[i] < '0' || text[i] > '9' {
            assert(!is_decimal(text@[i as int]));
            return false;
        }
        i += 1;
    }
    true
}

fn without_sign(text: &[char]) -> (rest: &[char])
    ensures
        rest@ == unsigned(text@),
{
    if text.len() > 0 && (text[0] == '+' || text[0] == '-') {
        let rest = slice_subrange(text, 1, text.len());
        assert(rest@ =~= text@.drop_first());
        rest
    } else {
        text
    }
}

fn mantissa(text: &[char]) -> (is: bool)
    ensures
        is == is_mantissa(text@),
{
    let point: [char; 1] = ['.'];
    assert(point@ =~= seq!['.']);
    match find_chars(text, point.as_slice()) {
        Some(at) => {
            let before = slice_subrange(text, 0, at);
            let after = slice_subrange(text, at + 1, text.len());
            assert(before@ =~= text@.take(at as int));
            assert(after@ =~= text@.skip(at + 1));
            text.len() > 1 && decimals(before) && decimals(after)
        },
        None => text.len() > 0 && decimals(text),
    }
}

/// Whether a text is a number that may have a fraction.
pub fn number_like(text: &[char]) -> (is: bool)
    ensures
        is == is_number(text@),
{
    let rest = without_sign(text);
    let mut digits: Vec<char> = Vec::new();
    let mut i: usize = 0;
    while i < rest.len()
        invariant
            i <= rest.len(),
            rest@ == unsigned(text@),
            digits@ =~= lowered(rest@).take(i as int),
        decreases rest.len() - i,
    {
        let c: char = rest[i];
        let small: char = if 'A' <= c && c <= 'Z' {
            (c as u8 + 32) as char
        } else {
            c
        };
        digits.push(small);
        i += 1;
    }
    assert(digits@ =~= lowered(rest@));
    let word = text_of(digits.as_slice());
    if same_text(word.as_str(), "inf") || same_text(word.as_str(), "infinity") || same_text(
        word.as_str(),
        "nan",
    ) {
        return true;
    }
    let e: [char; 1] = ['e'];
    assert(e@ =~= seq!['e']);
    let digits = digits.as_slice();
    match find_chars(digits, e.as_slice()) {
        Some(at) => {
            let before = slice_subrange(digits, 0, at);
            let after = slice_subrange(digits, at + 1, digits.len());
            assert(before@ =~= digits@.take(at as int));
            assert(after@ =~= digits@.skip(at + 1));
            let power = without_sign(after);
            mantissa(before) && power.len() > 0 && decimals(power)
        },
        None => mantissa(digits),
    }
}

/// The number that decimal digits spell.
pub open spec fn whole_number(digits: Seq<char>) -> int
    decreases digits.len(),
{
    if digits.len() == 0 {
        0
    } else {
        10 * whole_number(digits.drop_last()) + (digits.last() as int - '0' as int)
    }
}

/// The whole number that a text spells, with a sign or not, if it fits.
pub open spec fn signed_number(text: Seq<char>) -> Option<int> {
    let digits = unsigned(text);
    let value = if text.len() > 0 && text[0] == '-' {
        -whole_number(digits)
    } else {
        whole_number(digits)
    };
    if digits.len() > 0 && all_decimal(digits) && i64::MIN <= value <= i64::MAX {
        Some(value)
    } else {
        None
    }
}

proof fn whole_numbers_grow(digits: Seq<char>, count: int)
    requires
        0 <= count <= digits.len(),
        all_decimal(digits),
    ensures
        0 <= whole_number(digits.take(count)) <= whole_number(digits),
    decreases digits.len() - count,
{
    if count == digits.len() {
        assert(digits.take(count) =~= digits);
        whole_numbers_are_positive(digits);
    } else {
        whole_numbers_grow(digits, count + 1);
        let prefix = digits.take(count + 1);
        assert(prefix.drop_last() =~= digits.take(count));
        assert(is_decimal(digits[count]));
        assert forall|i: int| 0 <= i < digits.take(count).len() implies is_decimal(
            #[trigger] digits.take(count)[i],
        ) by {
            assert(digits.take(count)[i] == digits[i]);
        }
        whole_numbers_are_positive(digits.take(count));
    }
}

proof fn whole_numbers_are_positive(digits: Seq<char>)
    requires
        all_decimal(digits),
    ensures
        0 <= whole_number(digits),
    decreases digits.len(),
{
    if digits.len() > 0 {
        let front = digits.drop_last();
        assert forall|i: int| 0 <= i < front.len() implies is_decimal(#[trigger] front[i]) by {
            assert(front[i] == digits[i]);
        }
        whole_numbers_are_positive(front);
        assert(is_decimal(digits[digits.len() - 1]));
    }
}

/// The whole number that a text spells, with a sign or not, if it fits.
pub fn parse_signed(text: &[char]) -> (number: Option<i64>)
    ensures
        match number {
            Some(n) => signed_number(text@) == Some(n as int),
            None => signed_number(text@) is None,
        },
{
    let negative = text.len() > 0 && text[0] == '-';
    let digits = without_sign(text);
    if digits.len() == 0 || !decimals(digits) {
        return None;
    }
    let mut value: u128 = 0;
    let mut i: usize = 0;
    assert(digits@.take(0) =~= Seq::empty());
    while i < digits.len()
        invariant
            i <= digits.len(),
            digits@ == unsigned(text@),
            all_decimal(digits@),
            value == whole_number(digits@.take(i as int)),
            value <= 0x8000_0000_0000_0000,
        decreases digits.len() - i,
    {
        let digit: u128 = (digits[i] as u32 - 48) as u128;
        assert(is_decimal(digits@[i as int]));
        assert(digits@.take(i + 1).drop_last() =~= digits@.take(i as int));
        value = value * 10 + digit;
        i += 1;
        if value > 0x8000_0000_0000_0000 {
            proof {
                whole_numbers_grow(digits@, i as int);
            }
            return None;
        }
    }
    assert(digits@.take(digits.len() as int) =~= digits@);
    if negative {
        if value == 0x8000_0000_0000_0000 {
            Some(i64::MIN)
        } else {
            Some(0 - value as i64)
        }
    } else if value == 0x8000_0000_0000_0000 {
        None
    } else {
        Some(value as i64)
    }
}

/// A step of a script. Places and waits are numbers in words.
#[derive(Debug, PartialEq, Eq)]
pub enum Step {
    /// A key: its name or character, with modifiers.
    Key(String),
    Click { x: String, y: String, count: i64, flags: Flags, right: bool },
    /// Choose from the open context menu, or close it.
    Menu(Option<String>),
    /// Wait so many milliseconds.
    Wait(String),
    /// Draw the view to a file.
    Snap(String),
    /// Write what the viewer holds to a file.
    State(String),
    /// Write the clipboard's text to a file.
    Clipboard(String),
    Quit,
}

/// A step of a script, by its characters.
#[verifier::ext_equal]
pub enum StepModel {
    Key(Seq<char>),
    Click { x: Seq<char>, y: Seq<char>, count: int, flags: Flags, right: bool },
    Menu(Option<Seq<char>>),
    Wait(Seq<char>),
    Snap(Seq<char>),
    State(Seq<char>),
    Clipboard(Seq<char>),
    Quit,
}

impl View for Step {
    type V = StepModel;

    open spec fn view(&self) -> StepModel {
        match self {
            Step::Key(key) => StepModel::Key(key@),
            Step::Click { x, y, count, flags, right } => StepModel::Click {
                x: x@,
                y: y@,
                count: *count as int,
                flags: *flags,
                right: *right,
            },
            Step::Menu(Some(title)) => StepModel::Menu(Some(title@)),
            Step::Menu(None) => StepModel::Menu(None),
            Step::Wait(time) => StepModel::Wait(time@),
            Step::Snap(path) => StepModel::Snap(path@),
            Step::State(path) => StepModel::State(path@),
            Step::Clipboard(path) => StepModel::Clipboard(path@),
            Step::Quit => StepModel::Quit,
        }
    }
}

pub open spec fn steps_model(steps: Seq<Step>) -> Seq<StepModel> {
    Seq::new(steps.len(), |i: int| steps[i]@)
}

/// A line without its comment and the white space around it.
pub open spec fn statement_of(line: Seq<char>) -> Seq<char> {
    trim(
        match find(line, seq!['#']) {
            Some(at) => line.take(at),
            None => line,
        },
    )
}

/// What a click step says, if it says it right.
pub open spec fn click_in(words: Seq<Seq<char>>, right: bool) -> Option<StepModel> {
    if words.len() < 3 || !is_number(words[1]) || !is_number(words[2]) {
        None
    } else {
        let count = if words.len() > 3 {
            signed_number(words[3])
        } else {
            Some(1int)
        };
        let flags = if words.len() > 4 {
            modifiers_in(words[4])
        } else {
            Some(no_flags())
        };
        match (count, flags) {
            (Some(count), Some(flags)) => Some(
                StepModel::Click { x: words[1], y: words[2], count, flags, right },
            ),
            _ => None,
        }
    }
}

/// What a step says, if it can be read.
pub open spec fn step_in(line: Seq<char>) -> Option<StepModel> {
    let words = words_in(line);
    let word = words[0];
    if word == "key"@ && words.len() == 2 {
        Some(StepModel::Key(words[1]))
    } else if word == "click"@ {
        click_in(words, false)
    } else if word == "rclick"@ {
        click_in(words, true)
    } else if word == "menu"@ && words.len() >= 2 {
        let title = trim(line.skip(4));
        if title == "cancel"@ {
            Some(StepModel::Menu(None))
        } else {
            Some(StepModel::Menu(Some(title)))
        }
    } else if word == "wait"@ {
        if words.len() > 1 && is_number(words[1]) {
            Some(StepModel::Wait(words[1]))
        } else {
            None
        }
    } else if word == "snap"@ && words.len() == 2 {
        Some(StepModel::Snap(words[1]))
    } else if word == "state"@ && words.len() == 2 {
        Some(StepModel::State(words[1]))
    } else if word == "clipboard"@ && words.len() == 2 {
        Some(StepModel::Clipboard(words[1]))
    } else if word == "quit"@ {
        Some(StepModel::Quit)
    } else {
        None
    }
}

/// The steps of the first `count` lines, or what is wrong with the first that cannot be read.
pub open spec fn steps_in(lines: Seq<Seq<char>>, count: int) -> Result<Seq<StepModel>, Seq<char>>
    decreases count,
{
    if count <= 0 {
        Ok(Seq::empty())
    } else {
        match steps_in(lines, count - 1) {
            Ok(before) => {
                let line = statement_of(lines[count - 1]);
                if line.len() == 0 {
                    Ok(before)
                } else {
                    match step_in(line) {
                        Some(step) => Ok(before.push(step)),
                        None => Err(
                            ((("line "@ + decimal(count as nat)) + ": cannot read `"@) + line)
                                + "`"@,
                        ),
                    }
                }
            },
            Err(error) => Err(error),
        }
    }
}

fn read_click(words: &Vec<Vec<char>>, right: bool) -> (step: Option<Step>)
    ensures
        match step {
            Some(step) => click_in(char_parts(words@), right) == Some(step@),
            None => click_in(char_parts(words@), right) is None,
        },
{
    let ghost parts = char_parts(words@);
    if words.len() < 3 {
        return None;
    }
    assert(parts[1] == words@[1]@);
    assert(parts[2] == words@[2]@);
    if !number_like(words[1].as_slice()) || !number_like(words[2].as_slice()) {
        return None;
    }
    let count: Option<i64> = if words.len() > 3 {
        assert(parts[3] == words@[3]@);
        parse_signed(words[3].as_slice())
    } else {
        Some(1)
    };
    let flags: Option<Flags> = if words.len() > 4 {
        assert(parts[4] == words@[4]@);
        modifiers(words[4].as_slice())
    } else {
        Some(none_held())
    };
    match (count, flags) {
        (Some(count), Some(flags)) => Some(
            Step::Click {
                x: text_of(words[1].as_slice()),
                y: text_of(words[2].as_slice()),
                count,
                flags,
                right,
            },
        ),
        _ => None,
    }
}

proof fn a_statement_has_words(line: Seq<char>)
    requires
        line.len() > 0,
        !is_space(line[0]),
    ensures
        words_in(line).len() > 0,
        words_in(line)[0].len() <= line.len(),
{
    words_have_letters(line);
}

fn read_step(line: &[char]) -> (step: Option<Step>)
    requires
        line.len() > 0,
        !is_space(line@[0]),
    ensures
        match step {
            Some(step) => step_in(line@) == Some(step@),
            None => step_in(line@) is None,
        },
{
    let words = words(line);
    let ghost parts = char_parts(words@);
    proof {
        a_statement_has_words(line@);
        reveal_strlit("menu");
        assert(parts.len() == words.len());
        assert(parts[0] == words@[0]@);
        if words.len() > 1 {
            assert(parts[1] == words@[1]@);
        }
    }
    let word = text_of(words[0].as_slice());
    let word = word.as_str();
    if same_text(word, "key") && words.len() == 2 {
        return Some(Step::Key(text_of(words[1].as_slice())));
    }
    if same_text(word, "click") {
        return read_click(&words, false);
    }
    if same_text(word, "rclick") {
        return read_click(&words, true);
    }
    if same_text(word, "menu") && words.len() >= 2 {
        let rest = slice_subrange(line, 4, line.len());
        assert(rest@ =~= line@.skip(4));
        let title = text_of(trimmed(rest));
        return if same_text(title.as_str(), "cancel") {
            Some(Step::Menu(None))
        } else {
            Some(Step::Menu(Some(title)))
        };
    }
    if same_text(word, "wait") {
        return if words.len() > 1 && number_like(words[1].as_slice()) {
            Some(Step::Wait(text_of(words[1].as_slice())))
        } else {
            None
        };
    }
    if same_text(word, "snap") && words.len() == 2 {
        return Some(Step::Snap(text_of(words[1].as_slice())));
    }
    if same_text(word, "state") && words.len() == 2 {
        return Some(Step::State(text_of(words[1].as_slice())));
    }
    if same_text(word, "clipboard") && words.len() == 2 {
        return Some(Step::Clipboard(text_of(words[1].as_slice())));
    }
    if same_text(word, "quit") {
        return Some(Step::Quit);
    }
    None
}

proof fn trimmed_starts_with_a_letter(text: Seq<char>)
    ensures
        trim(text).len() > 0 ==> !is_space(trim(text)[0]),
{
    start_is_trimmed(text);
    let started = crate::xkb::trim_start(text);
    end_trimming_keeps_the_start(started);
}

proof fn start_is_trimmed(text: Seq<char>)
    ensures
        crate::xkb::trim_start(text).len() > 0 ==> !is_space(crate::xkb::trim_start(text)[0]),
    decreases text.len(),
{
    if text.len() > 0 && is_space(text[0]) {
        start_is_trimmed(text.drop_first());
    }
}

proof fn end_trimming_keeps_the_start(text: Seq<char>)
    ensures
        crate::xkb::trim_end(text).len() > 0 ==> crate::xkb::trim_end(text)[0] == text[0],
    decreases text.len(),
{
    if text.len() > 0 && is_space(text.last()) {
        end_trimming_keeps_the_start(text.drop_last());
    }
}

proof fn an_error_stays(lines: Seq<Seq<char>>, from: int, to: int)
    requires
        0 <= from <= to,
        steps_in(lines, from) is Err,
    ensures
        steps_in(lines, to) == steps_in(lines, from),
    decreases to - from,
{
    if from < to {
        an_error_stays(lines, from, to - 1);
    }
}

/// Read a script: its steps, or what is wrong with the first line that cannot be read.
pub fn parse(script: &str) -> (steps: Result<Vec<Step>, String>)
    ensures
        ({
            let lines = split(script@, '\n');
            match (steps, steps_in(lines, lines.len() as int)) {
                (Ok(steps), Ok(wanted)) => steps_model(steps@) == wanted,
                (Err(error), Err(wanted)) => error@ == wanted,
                _ => false,
            }
        }),
{
    let chars = chars_of(script);
    let lines = split_chars(chars.as_slice(), '\n');
    let ghost parts = char_parts(lines@);
    let hash: [char; 1] = ['#'];
    assert(hash@ =~= seq!['#']);
    let mut steps: Vec<Step> = Vec::new();
    assert(steps_model(steps@) =~= Seq::empty());
    let mut i: usize = 0;
    while i < lines.len()
        invariant
            i <= lines.len(),
            hash@ == seq!['#'],
            parts == char_parts(lines@),
            parts == split(script@, '\n'),
            steps_in(parts, i as int) == Ok::<Seq<StepModel>, Seq<char>>(steps_model(steps@)),
        decreases lines.len() - i,
    {
        assert(parts[i as int] == lines@[i as int]@);
        let ghost so_far = steps_model(steps@);
        let line = lines[i].as_slice();
        let plain = match find_chars(line, hash.as_slice()) {
            Some(at) => {
                let plain = slice_subrange(line, 0, at);
                assert(plain@ =~= line@.take(at as int));
                plain
            },
            None => line,
        };
        let statement = trimmed(plain);
        assert(statement@ == statement_of(line@));
        if statement.len() > 0 {
            proof {
                trimmed_starts_with_a_letter(plain@);
            }
            match read_step(statement) {
                Some(step) => {
                    let ghost model = step@;
                    steps.push(step);
                    assert(steps_model(steps@) =~= so_far.push(model));
                },
                None => {
                    let mut error = literal("line ");
                    append_decimal(&mut error, (i + 1) as u64);
                    append(&mut error, ": cannot read `");
                    let text = text_of(statement);
                    append(&mut error, text.as_str());
                    append(&mut error, "`");
                    proof {
                        an_error_stays(parts, i + 1, parts.len() as int);
                    }
                    return Err(error);
                },
            }
        }
        i += 1;
    }
    Ok(steps)
}

/// A key press that a step asks for.
#[derive(Debug, Clone, Copy, PartialEq, Eq, Structural)]
pub struct KeyPress {
    pub code: u16,
    pub character: char,
    pub flags: Flags,
}

/// Where a character last is.
pub open spec fn last_place(text: Seq<char>, c: char) -> Option<int>
    decreases text.len(),
{
    if text.len() == 0 {
        None
    } else if text.last() == c {
        Some(text.len() - 1)
    } else {
        last_place(text.drop_last(), c)
    }
}

/// The modifiers and the key of a key step: the modifiers before the last `+` that a name
/// follows.
pub open spec fn key_parts(step: Seq<char>) -> (Option<Flags>, Seq<char>) {
    match last_place(step, '+') {
        Some(at) => if at + 1 < step.len() {
            (modifiers_in(step.take(at)), step.skip(at + 1))
        } else {
            (Some(no_flags()), step)
        },
        None => (Some(no_flags()), step),
    }
}

/// A key press with what the keyboard says of the key: the arrows and the keys above them are
/// function keys, and the arrows on the numeric pad.
pub open spec fn pressed(code: u16, character: char, flags: Flags) -> KeyPress {
    KeyPress {
        code,
        character,
        flags: if '\u{f700}' <= character <= '\u{f8ff}' {
            Flags {
                function: true,
                numeric_pad: flags.numeric_pad || 123 <= code <= 126,
                ..flags
            }
        } else {
            flags
        },
    }
}

/// What a key step presses, or what is wrong with it.
pub open spec fn press_in(step: Seq<char>) -> Result<KeyPress, Seq<char>> {
    let (flags, name) = key_parts(step);
    match flags {
        Some(flags) => match key_named(name) {
            Some((code, character)) => Ok(pressed(code, character, flags)),
            None => Err("script: unknown key "@ + name),
        },
        None => Err("script: unknown modifiers in "@ + step),
    }
}

fn find_last(text: &[char], c: char) -> (found: Option<usize>)
    ensures
        crate::names::place(found) == last_place(text@, c),
        found is Some ==> found->0 < text.len(),
{
    let mut i: usize = text.len();
    assert(text@.take(i as int) =~= text@);
    while i > 0
        invariant
            i <= text.len(),
            last_place(text@, c) == last_place(text@.take(i as int), c),
        decreases i,
    {
        assert(text@.take(i as int).drop_last() =~= text@.take(i - 1));
        if text[i - 1] == c {
            return Some(i - 1);
        }
        i -= 1;
    }
    None
}

/// What a key step presses, or what is wrong with it.
pub fn key_press(step: &str) -> (press: Result<KeyPress, String>)
    ensures
        match (press, press_in(step@)) {
            (Ok(press), Ok(wanted)) => press == wanted,
            (Err(error), Err(wanted)) => error@ == wanted,
            _ => false,
        },
{
    let chars = chars_of(step);
    let chars = chars.as_slice();
    let mut flags: Option<Flags> = Some(none_held());
    let mut name = chars;
    if let Some(at) = find_last(chars, '+') {
        if at + 1 < chars.len() {
            let before = slice_subrange(chars, 0, at);
            assert(before@ =~= chars@.take(at as int));
            flags = modifiers(before);
            name = slice_subrange(chars, at + 1, chars.len());
            assert(name@ =~= chars@.skip(at + 1));
        }
    }
    let flags = match flags {
        Some(flags) => flags,
        None => {
            let mut error = literal("script: unknown modifiers in ");
            append(&mut error, step);
            return Err(error);
        },
    };
    let name = text_of(name);
    match key(name.as_str()) {
        Some((code, character)) => {
            let flags = if '\u{f700}' <= character && character <= '\u{f8ff}' {
                Flags {
                    function: true,
                    numeric_pad: flags.numeric_pad || (123 <= code && code <= 126),
                    ..flags
                }
            } else {
                flags
            };
            Ok(KeyPress { code, character, flags })
        },
        None => {
            let mut error = literal("script: unknown key ");
            append(&mut error, name.as_str());
            Err(error)
        },
    }
}

/// The mouse events of so many clicks: a press and a release for each, with its number.
pub open spec fn click_events(count: int) -> Seq<(bool, int)>
    decreases count,
{
    if count <= 0 {
        Seq::empty()
    } else {
        click_events(count - 1).push((true, count)).push((false, count))
    }
}

/// Events by mathematical numbers.
pub open spec fn event_views(events: Seq<(bool, i64)>) -> Seq<(bool, int)> {
    Seq::new(events.len(), |i: int| (events[i].0, events[i].1 as int))
}

/// The mouse events of so many clicks: whether each is a press, and the number of its click.
pub fn clicks(count: i64) -> (events: Vec<(bool, i64)>)
    ensures
        event_views(events@) == click_events(count as int),
{
    let mut events: Vec<(bool, i64)> = Vec::new();
    assert(event_views(events@) =~= Seq::empty());
    let mut n: i64 = 0;
    while n < count
        invariant
            0 <= n,
            n <= count || n == 0,
            event_views(events@) == click_events(n as int),
        decreases count - n,
    {
        let ghost so_far = event_views(events@);
        n += 1;
        events.push((true, n));
        events.push((false, n));
        assert(event_views(events@) =~= so_far.push((true, n as int)).push((false, n as int)));
    }
    events
}

/// A key of a script is the key of its name: pressed in the window, it does what that key does there.
pub proof fn a_scripts_keys_are_the_windows(extend: bool)
    ensures
        key_named("left"@) is Some && crate::window::mac_code((key_named("left"@)->0).0, extend)
            == Some(crate::window::KeyAction::Arrow(crate::state::Direction::Left, extend)),
        key_named("right"@) is Some && crate::window::mac_code((key_named("right"@)->0).0, extend)
            == Some(crate::window::KeyAction::Arrow(crate::state::Direction::Right, extend)),
        key_named("up"@) is Some && crate::window::mac_code((key_named("up"@)->0).0, extend)
            == Some(crate::window::KeyAction::Arrow(crate::state::Direction::Up, extend)),
        key_named("down"@) is Some && crate::window::mac_code((key_named("down"@)->0).0, extend)
            == Some(crate::window::KeyAction::Arrow(crate::state::Direction::Down, extend)),
        key_named("return"@) is Some && crate::window::mac_code((key_named("return"@)->0).0, extend)
            == Some(crate::window::KeyAction::Enter),
        key_named("esc"@) is Some && crate::window::mac_code((key_named("esc"@)->0).0, extend)
            == Some(crate::window::KeyAction::Up),
        key_named("home"@) is Some && crate::window::mac_code((key_named("home"@)->0).0, extend)
            == Some(crate::window::KeyAction::Jump(crate::state::Jump::Home, extend)),
        key_named("end"@) is Some && crate::window::mac_code((key_named("end"@)->0).0, extend)
            == Some(crate::window::KeyAction::Jump(crate::state::Jump::End, extend)),
        key_named("pageup"@) is Some && crate::window::mac_code((key_named("pageup"@)->0).0, extend)
            == Some(crate::window::KeyAction::Jump(crate::state::Jump::PageUp, extend)),
        key_named("pagedown"@) is Some && crate::window::mac_code(
            (key_named("pagedown"@)->0).0,
            extend,
        ) == Some(crate::window::KeyAction::Jump(crate::state::Jump::PageDown, extend)),
        key_named("tab"@) is Some && crate::window::mac_code((key_named("tab"@)->0).0, extend)
            == Some(crate::window::KeyAction::ToggleFocus),
        key_named("space"@) is Some && crate::window::mac_code((key_named("space"@)->0).0, extend)
            == Some(crate::window::KeyAction::QuickLook),
{
    reveal_strlit("left");
    reveal_strlit("right");
    reveal_strlit("up");
    reveal_strlit("down");
    reveal_strlit("return");
    reveal_strlit("enter");
    reveal_strlit("esc");
    reveal_strlit("backspace");
    reveal_strlit("delete");
    reveal_strlit("home");
    reveal_strlit("end");
    reveal_strlit("pageup");
    reveal_strlit("pagedown");
    reveal_strlit("tab");
    reveal_strlit("space");
    assert("left"@[0] == 'l' && "right"@[0] == 'r' && "right"@[1] == 'i' && "up"@[0] == 'u'
        && "down"@[0] == 'd' && "down"@[1] == 'o' && "return"@[1] == 'e' && "return"@[0] == 'r');
    assert("enter"@[0] == 'e' && "enter"@.len() == 5 && "esc"@[0] == 'e' && "esc"@[1] == 's'
        && "end"@[1] == 'n' && "end"@.len() == 3);
    assert("home"@[0] == 'h' && "tab"@[0] == 't' && "space"@[0] == 's' && "backspace"@[0] == 'b'
        && "delete"@[0] == 'd' && "delete"@[1] == 'e');
    assert("pageup"@[0] == 'p' && "pageup"@.len() == 6 && "pagedown"@[0] == 'p' && "pagedown"@.len()
        == 8);
}

/// A number of a script is read in tens, and with a minus before it is taken the other way.
pub proof fn numbers_are_read_in_tens(digits: Seq<char>, digit: char)
    requires
        '0' <= digit <= '9',
        all_decimal(digits),
    ensures
        whole_number(digits.push(digit)) == 10 * whole_number(digits) + (digit as int - 48),
        whole_number(Seq::empty()) == 0,
        digits.len() > 0 && 0 <= whole_number(digits) <= i64::MAX ==> signed_number(digits) == Some(
            whole_number(digits),
        ) && signed_number(seq!['-'] + digits) == Some(-whole_number(digits)) && signed_number(
            seq!['+'] + digits,
        ) == Some(whole_number(digits)),
{
    assert(digits.push(digit).drop_last() =~= digits);
    if digits.len() > 0 {
        assert(is_decimal(digits[0]));
        assert((seq!['-'] + digits).drop_first() =~= digits);
        assert((seq!['+'] + digits).drop_first() =~= digits);
    }
}

/// A click of so many presses the button down and up that often, counting as it goes.
pub proof fn clicks_go_down_and_up(count: int, i: int)
    requires
        0 <= i < count,
    ensures
        click_events(count).len() == 2 * count,
        click_events(count)[2 * i] == (true, i + 1),
        click_events(count)[2 * i + 1] == (false, i + 1),
    decreases count,
{
    assert(click_events(0) == Seq::<(bool, int)>::empty());
    if i < count - 1 {
        clicks_go_down_and_up(count - 1, i);
    } else if count > 1 {
        clicks_go_down_and_up(count - 1, 0);
    }
}

/// The words of a line hold no spaces, and one put before the line, after a space, comes first.
pub proof fn words_are_between_spaces(word: Seq<char>, line: Seq<char>)
    requires
        word.len() > 0,
        forall|i: int| 0 <= i < word.len() ==> !is_space(#[trigger] word[i]),
    ensures
        words_in(word + seq![' '] + line) == seq![word] + words_in(line),
        words_in(word) == seq![word],
        words_in(seq![' '] + line) == words_in(line),
{
    let whole = word + seq![' '] + line;
    a_word_ends_at_a_space(word, seq![' '] + line);
    assert(word + (seq![' '] + line) =~= whole);
    assert(whole.take(word.len() as int) =~= word);
    assert(whole.skip(word.len() as int) =~= seq![' '] + line);
    assert((seq![' '] + line).drop_first() =~= line);
    assert(!is_space(word[0]));
    assert(whole[0] == word[0]);
    assert(words_in(seq![' '] + line) == words_in(line));
    assert(words_in(whole) == seq![word] + words_in(seq![' '] + line));
    a_word_ends_at_a_space(word, Seq::empty());
    assert(word + Seq::<char>::empty() =~= word);
    assert(word.take(word.len() as int) =~= word);
    assert(word.skip(word.len() as int) =~= Seq::empty());
    assert(words_in(Seq::empty()) == Seq::<Seq<char>>::empty());
    assert(words_in(word) =~= seq![word]);
}

proof fn a_word_ends_at_a_space(word: Seq<char>, rest: Seq<char>)
    requires
        forall|i: int| 0 <= i < word.len() ==> !is_space(#[trigger] word[i]),
        rest.len() > 0 ==> is_space(rest[0]),
    ensures
        word_length(word + rest) == word.len(),
    decreases word.len(),
{
    let whole = word + rest;
    if word.len() == 0 {
        assert(whole =~= rest);
    } else {
        assert(!is_space(word[0]));
        let tail = word.drop_first();
        assert forall|i: int| 0 <= i < tail.len() implies !is_space(#[trigger] tail[i]) by {
            assert(tail[i] == word[i + 1]);
        }
        a_word_ends_at_a_space(tail, rest);
        assert(whole.drop_first() =~= tail + rest);
    }
}

/// A line that cannot be read is named by its number, and stops the script; one of nothing but a
/// comment is passed over.
pub proof fn a_line_that_cannot_be_read_is_named(lines: Seq<Seq<char>>, count: int)
    requires
        0 < count <= lines.len(),
        steps_in(lines, count - 1) is Ok,
    ensures
        ({
            let line = statement_of(lines[count - 1]);
            let before = steps_in(lines, count - 1)->Ok_0;
            &&& line.len() == 0 ==> steps_in(lines, count) == Ok::<Seq<StepModel>, Seq<char>>(before)
            &&& line.len() > 0 && step_in(line) is Some ==> steps_in(lines, count) == Ok::<
                Seq<StepModel>,
                Seq<char>,
            >(before.push(step_in(line)->0))
            &&& line.len() > 0 && step_in(line) is None ==> steps_in(lines, count) is Err
                && steps_in(lines, count)->Err_0 == "line "@ + decimal(count as nat)
                + ": cannot read `"@ + line + "`"@
        }),
{
}

/// The modifiers of a script add up, each by its own name, and one there is not is refused.
pub proof fn modifiers_add_up(words: Seq<Seq<char>>, count: int)
    requires
        0 <= count < words.len(),
        modifiers_named(words, count) is Some,
    ensures
        ({
            let (before, after) = (
                modifiers_named(words, count)->0,
                modifiers_named(words, count + 1),
            );
            &&& words[count] == "cmd"@ ==> after == Some(Flags { command: true, ..before })
            &&& words[count] == "shift"@ ==> after == Some(Flags { shift: true, ..before })
            &&& words[count] == "opt"@ ==> after == Some(Flags { option: true, ..before })
            &&& words[count] == "ctrl"@ ==> after == Some(Flags { control: true, ..before })
            &&& words[count].len() == 0 ==> after is None
        }),
{
    reveal_strlit("cmd");
    reveal_strlit("shift");
    reveal_strlit("opt");
    reveal_strlit("ctrl");
    assert("cmd"@[0] == 'c' && "cmd"@.len() == 3 && "shift"@.len() == 5 && "opt"@[0] == 'o'
        && "ctrl"@.len() == 4);
}

/// The last place of a character is where it is and is not again after it.
pub proof fn the_last_place_is_the_last(text: Seq<char>, c: char)
    ensures
        match last_place(text, c) {
            Some(at) => 0 <= at < text.len() && text[at] == c && forall|j: int|
                at < j < text.len() ==> #[trigger] text[j] != c,
            None => forall|j: int| 0 <= j < text.len() ==> #[trigger] text[j] != c,
        },
    decreases text.len(),
{
    if text.len() > 0 && text.last() != c {
        let less = text.drop_last();
        the_last_place_is_the_last(less, c);
        if let Some(at) = last_place(less, c) {
            assert forall|j: int| at < j < text.len() implies #[trigger] text[j] != c by {
                if j < less.len() {
                    assert(less[j] == text[j]);
                }
            }
        } else {
            assert forall|j: int| 0 <= j < text.len() implies #[trigger] text[j] != c by {
                if j < less.len() {
                    assert(less[j] == text[j]);
                }
            }
        }
    }
}

/// A key step with modifiers presses the key named after the last plus, with the modifiers named
/// before it held; with none it presses the key alone, and a plus alone is the key.
pub proof fn a_key_is_named_after_its_modifiers(modifiers: Seq<char>, name: Seq<char>)
    requires
        name.len() > 0,
        forall|i: int| 0 <= i < name.len() ==> #[trigger] name[i] != '+',
    ensures
        key_parts(modifiers + seq!['+'] + name) == (modifiers_in(modifiers), name),
        key_parts(name).1 == name,
        key_parts(name).0 is Some,
        ({
            let flags = key_parts(name).0->0;
            !flags.command && !flags.shift && !flags.option && !flags.control
        }),
        key_parts(seq!['+']).1 == seq!['+'],
        key_parts(seq!['+']).0 is Some,
{
    let step = modifiers + seq!['+'] + name;
    let at = modifiers.len() as int;
    the_last_place_is_the_last(step, '+');
    the_last_place_is_the_last(name, '+');
    the_last_place_is_the_last(seq!['+'], '+');
    assert(step[at] == '+');
    assert forall|j: int| at < j < step.len() implies #[trigger] step[j] != '+' by {
        assert(step[j] == name[j - at - 1]);
    }
    assert(last_place(step, '+') == Some(at));
    assert(step.take(at) =~= modifiers);
    assert(step.skip(at + 1) =~= name);
    assert(seq!['+'][0] == '+');
}

/// A key that can be read is pressed as what it is, with what was held; one that cannot is named in
/// what is said of it.
pub proof fn a_key_is_pressed_as_named(step: Seq<char>)
    ensures
        ({
            let (flags, name) = key_parts(step);
            let press = press_in(step);
            &&& press is Ok <==> flags is Some && key_named(name) is Some
            &&& press is Ok ==> {
                let (key, held) = (press->Ok_0, flags->0);
                &&& Some((key.code, key.character)) == key_named(name)
                &&& key.flags.command == held.command && key.flags.shift == held.shift
                &&& key.flags.option == held.option && key.flags.control == held.control
                &&& key.flags.function == (held.function || '\u{f700}' <= key.character
                    <= '\u{f8ff}')
            }
            &&& flags is None ==> press == Err::<KeyPress, Seq<char>>(
                "script: unknown modifiers in "@ + step,
            )
            &&& flags is Some && key_named(name) is None ==> press == Err::<KeyPress, Seq<char>>(
                "script: unknown key "@ + name,
            )
        }),
{
}

/// A key that types a character has the code that the keyboard gives it, in capitals or not.
pub proof fn letters_have_the_keyboards_codes(c: char)
    ensures
        key_named(seq![c]) is Some && (key_named(seq![c])->0).1 == c,
        'A' <= c <= 'Z' ==> (key_named(seq![c])->0).0 == (key_named(
            seq![(c as u32 + 32) as char],
        )->0).0,
        c == 'a' ==> (key_named(seq![c])->0).0 == 0,
        c == 's' ==> (key_named(seq![c])->0).0 == 1,
        c == 'd' ==> (key_named(seq![c])->0).0 == 2,
        c == 'z' ==> (key_named(seq![c])->0).0 == 6,
        c == 'c' ==> (key_named(seq![c])->0).0 == 8,
        c == 'q' ==> (key_named(seq![c])->0).0 == 12,
        c == '1' ==> (key_named(seq![c])->0).0 == 18,
        c == '=' ==> (key_named(seq![c])->0).0 == 24,
        c == '-' ==> (key_named(seq![c])->0).0 == 27,
        c == '0' ==> (key_named(seq![c])->0).0 == 29,
        c == 'i' ==> (key_named(seq![c])->0).0 == 34,
{
    reveal_strlit("left");
    reveal_strlit("right");
    reveal_strlit("down");
    reveal_strlit("up");
    reveal_strlit("return");
    reveal_strlit("enter");
    reveal_strlit("esc");
    reveal_strlit("backspace");
    reveal_strlit("delete");
    reveal_strlit("tab");
    reveal_strlit("space");
    reveal_strlit("home");
    reveal_strlit("end");
    reveal_strlit("pageup");
    reveal_strlit("pagedown");
    reveal_strlit("plus");
    reveal_strlit("asdfhgzxcv bqweryt123465=97-80]ou[ip lj'k;\\,/nm.");
    assert("left"@.len() == 4 && "right"@.len() == 5 && "down"@.len() == 4 && "up"@.len() == 2
        && "return"@.len() == 6 && "enter"@.len() == 5 && "esc"@.len() == 3 && "backspace"@.len()
        == 9);
    assert("delete"@.len() == 6 && "tab"@.len() == 3 && "space"@.len() == 5 && "home"@.len() == 4
        && "end"@.len() == 3 && "pageup"@.len() == 6 && "pagedown"@.len() == 8 && "plus"@.len()
        == 4);
    assert forall|one: char| key_named(#[trigger] seq![one]) == Some((code_of(one), one)) by {
        assert(seq![one].len() == 1);
    }
    let codes = us_codes();
    codes.index_of_first_ensures(lower(c));
    assert(codes[0] == 'a' && codes[1] == 's' && codes[2] == 'd' && codes[6] == 'z' && codes[8]
        == 'c' && codes[12] == 'q' && codes[18] == '1' && codes[24] == '=' && codes[27] == '-'
        && codes[29] == '0' && codes[34] == 'i');
}

/// Digits are a number, with a sign before them, a point among them or an exponent after them; with
/// a letter of another kind among them they are none.
pub proof fn digits_are_a_number(whole: Seq<char>, part: Seq<char>)
    requires
        all_decimal(whole),
        all_decimal(part),
        whole.len() > 0,
    ensures
        is_number(whole),
        is_number(seq!['-'] + whole),
        is_number(whole + seq!['.'] + part),
        !is_number(Seq::empty()),
        is_number(whole + seq!['e'] + part) <==> part.len() > 0,
{
    reveal_strlit("inf");
    reveal_strlit("infinity");
    reveal_strlit("nan");
    digits_stay(whole);
    digits_stay(part);
    assert(is_decimal(whole[0]));
    assert((seq!['-'] + whole).drop_first() =~= whole);
    assert forall|j: int| 0 <= j < whole.len() implies whole[j] != 'e' && whole[j] != '.' by {
        assert(is_decimal(whole[j]));
    }
    crate::search::none_is_found(whole, 'e');
    crate::search::none_is_found(whole, '.');
    let pointed = whole + seq!['.'] + part;
    assert(lowered(pointed) =~= pointed) by {
        assert forall|j: int| 0 <= j < pointed.len() implies lower(pointed[j]) == pointed[j] by {
            if j < whole.len() {
                assert(is_decimal(whole[j]));
            } else if j > whole.len() {
                assert(is_decimal(part[j - whole.len() - 1]));
            }
        }
    }
    assert(pointed[0] == whole[0]);
    assert forall|j: int| 0 <= j < pointed.len() implies pointed[j] != 'e' by {
        if j < whole.len() {
            assert(is_decimal(whole[j]));
        } else if j > whole.len() {
            assert(is_decimal(part[j - whole.len() - 1]));
        }
    }
    crate::search::none_is_found(pointed, 'e');
    assert(pointed[whole.len() as int] == '.');
    crate::search::one_is_found(pointed, '.', whole.len() as int);
    assert(pointed.take(whole.len() as int) =~= whole);
    assert(pointed.skip(whole.len() as int + 1) =~= part);
    let raised = whole + seq!['e'] + part;
    assert(lowered(raised) =~= raised) by {
        assert forall|j: int| 0 <= j < raised.len() implies lower(raised[j]) == raised[j] by {
            if j < whole.len() {
                assert(is_decimal(whole[j]));
            } else if j > whole.len() {
                assert(is_decimal(part[j - whole.len() - 1]));
            }
        }
    }
    assert(raised[0] == whole[0]);
    crate::search::one_is_found(raised, 'e', whole.len() as int);
    assert(raised.take(whole.len() as int) =~= whole);
    assert(raised.skip(whole.len() as int + 1) =~= part);
    if part.len() > 0 {
        assert(is_decimal(part[0]));
    }
    assert(lowered(Seq::empty()) =~= Seq::empty());
    crate::search::none_is_found(Seq::<char>::empty(), 'e');
    crate::search::none_is_found(Seq::<char>::empty(), '.');
}

proof fn digits_stay(digits: Seq<char>)
    requires
        all_decimal(digits),
    ensures
        lowered(digits) == digits,
{
    assert forall|j: int| 0 <= j < digits.len() implies lower(digits[j]) == digits[j] by {
        assert(is_decimal(digits[j]));
    }
    assert(lowered(digits) =~= digits);
}

/// A step's first word says what it does, and the word after it to what.
pub proof fn a_step_says_what_to_do(line: Seq<char>)
    requires
        words_in(line).len() >= 2,
    ensures
        ({
            let words = words_in(line);
            &&& words.len() == 2 && words[0] == "key"@ ==> step_in(line) == Some(
                StepModel::Key(words[1]),
            )
            &&& words[0] == "wait"@ && is_number(words[1]) ==> step_in(line) == Some(
                StepModel::Wait(words[1]),
            )
            &&& words[0] == "wait"@ && !is_number(words[1]) ==> step_in(line) is None
            &&& words.len() == 2 && words[0] == "snap"@ ==> step_in(line) == Some(
                StepModel::Snap(words[1]),
            )
            &&& words.len() == 2 && words[0] == "state"@ ==> step_in(line) == Some(
                StepModel::State(words[1]),
            )
            &&& words.len() == 2 && words[0] == "clipboard"@ ==> step_in(line) == Some(
                StepModel::Clipboard(words[1]),
            )
            &&& words.len() == 3 && (words[0] == "click"@ || words[0] == "rclick"@) && is_number(
                words[1],
            ) && is_number(words[2]) ==> {
                &&& step_in(line) is Some
                &&& step_in(line)->0 is Click
                &&& step_in(line)->0->Click_x == words[1]
                &&& step_in(line)->0->Click_y == words[2]
                &&& step_in(line)->0->Click_count == 1
                &&& step_in(line)->0->Click_right <==> words[0] == "rclick"@
            }
            &&& words.len() == 2 && (words[0] == "click"@ || words[0] == "rclick"@) ==> step_in(
                line,
            ) is None
        }),
{
    reveal_strlit("key");
    reveal_strlit("click");
    reveal_strlit("rclick");
    reveal_strlit("menu");
    reveal_strlit("wait");
    reveal_strlit("snap");
    reveal_strlit("state");
    reveal_strlit("clipboard");
    reveal_strlit("quit");
    assert("key"@.len() == 3 && "click"@.len() == 5 && "rclick"@.len() == 6 && "menu"@.len() == 4
        && "wait"@.len() == 4 && "snap"@.len() == 4 && "state"@.len() == 5 && "clipboard"@.len()
        == 9 && "quit"@.len() == 4);
    assert("click"@[0] == 'c' && "state"@[0] == 's' && "menu"@[0] == 'm' && "wait"@[0] == 'w'
        && "snap"@[0] == 's' && "quit"@[0] == 'q');
}

} // verus!
