//! Just enough of an xkb keymap to turn key codes into keysyms: its `xkb_keycodes` (key names to
//! codes) and `xkb_symbols` (key names to the keysyms of the first group's first two levels).
//! Keys the keymap does not settle fall back to a US layout by evdev code, so the arrows and
//! letters always work.

use std::collections::HashMap;
use vstd::prelude::*;
use vstd::slice::slice_subrange;
use vstd::string::StrSliceExecFns;

use crate::backend::{key_meaning, level_keysym};
use crate::bytes::ascii;
use crate::keys;
use crate::search::{
    char_parts, find, find_chars, number_in, parse_number, split, split_chars,
};
use crate::text::{chars_of, same_text, text_of};

verus! {

/// Whether a character is white space.
pub open spec fn is_space(c: char) -> bool {
    ||| '\u{9}' <= c <= '\u{d}'
    ||| c == ' '
    ||| c == '\u{85}'
    ||| c == '\u{a0}'
    ||| c == '\u{1680}'
    ||| '\u{2000}' <= c <= '\u{200a}'
    ||| c == '\u{2028}'
    ||| c == '\u{2029}'
    ||| c == '\u{202f}'
    ||| c == '\u{205f}'
    ||| c == '\u{3000}'
}

/// A text without the white space at its start.
pub open spec fn trim_start(text: Seq<char>) -> Seq<char>
    decreases text.len(),
{
    if text.len() > 0 && is_space(text[0]) {
        trim_start(text.drop_first())
    } else {
        text
    }
}

/// A text without the white space at its end.
pub open spec fn trim_end(text: Seq<char>) -> Seq<char>
    decreases text.len(),
{
    if text.len() > 0 && is_space(text.last()) {
        trim_end(text.drop_last())
    } else {
        text
    }
}

/// A text without the white space around it.
pub open spec fn trim(text: Seq<char>) -> Seq<char> {
    trim_end(trim_start(text))
}

/// A text without a character at its start, however often it is there.
pub open spec fn trim_start_of(text: Seq<char>, c: char) -> Seq<char>
    decreases text.len(),
{
    if text.len() > 0 && text[0] == c {
        trim_start_of(text.drop_first(), c)
    } else {
        text
    }
}

/// A text without a character at its end, however often it is there.
pub open spec fn trim_end_of(text: Seq<char>, c: char) -> Seq<char>
    decreases text.len(),
{
    if text.len() > 0 && text.last() == c {
        trim_end_of(text.drop_last(), c)
    } else {
        text
    }
}

/// A key's name from around it, without the angle brackets.
pub open spec fn name_in(text: Seq<char>) -> Seq<char> {
    trim_end_of(trim_start_of(trim(text), '<'), '>')
}

/// Whether a character is white space.
pub fn space(c: char) -> (is: bool)
    ensures
        is == is_space(c),
{
    ('\u{9}' <= c && c <= '\u{d}') || c == ' ' || c == '\u{85}' || c == '\u{a0}' || c == '\u{1680}'
        || ('\u{2000}' <= c && c <= '\u{200a}') || c == '\u{2028}' || c == '\u{2029}' || c
        == '\u{202f}' || c == '\u{205f}' || c == '\u{3000}'
}

/// A text without the white space around it.
pub fn trimmed(text: &[char]) -> (kept: &[char])
    ensures
        kept@ == trim(text@),
{
    let mut start: usize = 0;
    assert(text@.skip(0) =~= text@);
    while start < text.len() && space(text[start])
        invariant
            start <= text.len(),
            trim_start(text@) == trim_start(text@.skip(start as int)),
        decreases text.len() - start,
    {
        assert(text@.skip(start as int).drop_first() =~= text@.skip(start + 1));
        start += 1;
    }
    assert(trim_start(text@) == text@.skip(start as int));
    let rest = slice_subrange(text, start, text.len());
    assert(rest@ =~= text@.skip(start as int));
    trimmed_end(rest)
}

fn trimmed_end(text: &[char]) -> (kept: &[char])
    ensures
        kept@ == trim_end(text@),
{
    let mut end: usize = text.len();
    assert(text@.take(end as int) =~= text@);
    while end > 0 && space(text[end - 1])
        invariant
            end <= text.len(),
            trim_end(text@) == trim_end(text@.take(end as int)),
        decreases end,
    {
        assert(text@.take(end as int).drop_last() =~= text@.take(end - 1));
        end -= 1;
    }
    let kept = slice_subrange(text, 0, end);
    assert(kept@ =~= text@.take(end as int));
    kept
}

/// A key's name from around it, without the angle brackets.
pub fn name_of(text: &[char]) -> (name: Vec<char>)
    ensures
        name@ == name_in(text@),
{
    let text = trimmed(text);
    let mut start: usize = 0;
    assert(text@.skip(0) =~= text@);
    while start < text.len() && text[start] == '<'
        invariant
            start <= text.len(),
            trim_start_of(text@, '<') == trim_start_of(text@.skip(start as int), '<'),
        decreases text.len() - start,
    {
        assert(text@.skip(start as int).drop_first() =~= text@.skip(start + 1));
        start += 1;
    }
    let rest = slice_subrange(text, start, text.len());
    assert(rest@ =~= text@.skip(start as int));
    let mut end: usize = rest.len();
    assert(rest@.take(end as int) =~= rest@);
    while end > 0 && rest[end - 1] == '>'
        invariant
            end <= rest.len(),
            trim_end_of(rest@, '>') == trim_end_of(rest@.take(end as int), '>'),
        decreases end,
    {
        assert(rest@.take(end as int).drop_last() =~= rest@.take(end - 1));
        end -= 1;
    }
    let kept = slice_subrange(rest, 0, end);
    assert(kept@ =~= rest@.take(end as int));
    vstd::slice::slice_to_vec(kept)
}

/// Where the brace that closes the one before is, counting those open, from a place on.
pub open spec fn closing(text: Seq<char>, from: int, depth: int) -> Option<int>
    decreases text.len() - from,
{
    if from < 0 || from >= text.len() {
        None
    } else if text[from] == '{' {
        closing(text, from + 1, depth + 1)
    } else if text[from] == '}' {
        if depth == 1 {
            Some(from + 1)
        } else {
            closing(text, from + 1, depth - 1)
        }
    } else {
        closing(text, from + 1, depth)
    }
}

/// The length of a text from the brace at its start to the one that matches it, inclusive.
pub open spec fn brace_length(text: Seq<char>) -> Option<int> {
    closing(text, 0, 0)
}

/// The length of the text from the brace at its start to its matching one, inclusive.
pub fn matching_brace(text: &[char]) -> (length: Option<usize>)
    requires
        text.len() > 0,
        text@[0] == '{',
    ensures
        crate::names::place(length) == brace_length(text@),
        length is Some ==> 2 <= length->0 <= text.len(),
{
    let mut depth: usize = 1;
    let mut i: usize = 1;
    while i < text.len()
        invariant
            1 <= i <= text.len(),
            1 <= depth <= i,
            closing(text@, i as int, depth as int) == brace_length(text@),
        decreases text.len() - i,
    {
        if text[i] == '{' {
            depth += 1;
        } else if text[i] == '}' {
            if depth == 1 {
                return Some(i + 1);
            }
            depth -= 1;
        }
        i += 1;
    }
    None
}

/// The text between the braces of the first section of a kind.
pub open spec fn section_in(text: Seq<char>, kind: Seq<char>) -> Option<Seq<char>> {
    match find(text, kind) {
        Some(at) => match find(text.skip(at), seq!['{']) {
            Some(open) => {
                let rest = text.skip(at + open);
                match brace_length(rest) {
                    Some(length) => Some(rest.subrange(1, length - 1)),
                    None => None,
                }
            },
            None => None,
        },
        None => None,
    }
}

/// The text between the braces of the first section of a kind.
pub fn section<'a>(text: &'a [char], kind: &str) -> (block: Option<&'a [char]>)
    ensures
        match block {
            Some(block) => section_in(text@, kind@) == Some(block@),
            None => section_in(text@, kind@) is None,
        },
{
    let kind = chars_of(kind);
    let at: usize = match find_chars(text, kind.as_slice()) {
        Some(at) => at,
        None => return None,
    };
    let rest = slice_subrange(text, at, text.len());
    assert(rest@ =~= text@.skip(at as int));
    let brace: [char; 1] = ['{'];
    assert(brace@ =~= seq!['{']);
    let open: usize = match find_chars(rest, brace.as_slice()) {
        Some(open) => open,
        None => return None,
    };
    proof {
        crate::search::found_is_first(rest@, seq!['{'], 0);
        assert(rest@.subrange(open as int, open + 1)[0] == '{');
    }
    let rest = slice_subrange(rest, open, rest.len());
    assert(rest@ =~= text@.skip(at + open));
    match matching_brace(rest) {
        Some(length) => Some(slice_subrange(rest, 1, length - 1)),
        None => None,
    }
}

/// The keysym of a punctuation mark by its name, and 0 for any other name.
pub open spec fn mark_keysym(name: Seq<char>) -> u32 {
    if name == "space"@ {
        0x20
    } else if name == "exclam"@ {
        0x21
    } else if name == "quotedbl"@ {
        0x22
    } else if name == "numbersign"@ {
        0x23
    } else if name == "dollar"@ {
        0x24
    } else if name == "percent"@ {
        0x25
    } else if name == "ampersand"@ {
        0x26
    } else if name == "apostrophe"@ {
        0x27
    } else if name == "parenleft"@ {
        0x28
    } else if name == "parenright"@ {
        0x29
    } else if name == "asterisk"@ {
        0x2a
    } else if name == "plus"@ {
        0x2b
    } else if name == "comma"@ {
        0x2c
    } else if name == "minus"@ {
        0x2d
    } else if name == "period"@ {
        0x2e
    } else if name == "slash"@ {
        0x2f
    } else if name == "colon"@ {
        0x3a
    } else if name == "semicolon"@ {
        0x3b
    } else if name == "less"@ {
        0x3c
    } else if name == "equal"@ {
        0x3d
    } else if name == "greater"@ {
        0x3e
    } else if name == "question"@ {
        0x3f
    } else if name == "at"@ {
        0x40
    } else if name == "bracketleft"@ {
        0x5b
    } else if name == "backslash"@ {
        0x5c
    } else if name == "bracketright"@ {
        0x5d
    } else if name == "asciicircum"@ {
        0x5e
    } else if name == "underscore"@ {
        0x5f
    } else if name == "grave"@ {
        0x60
    } else if name == "braceleft"@ {
        0x7b
    } else if name == "bar"@ {
        0x7c
    } else if name == "braceright"@ {
        0x7d
    } else if name == "asciitilde"@ {
        0x7e
    } else {
        0
    }
}

/// The keysym of one of the keys that are used by its name, and 0 for any other name.
pub open spec fn named_keysym(name: Seq<char>) -> u32 {
    if name == "BackSpace"@ {
        keys::BACKSPACE
    } else if name == "Tab"@ {
        keys::TAB
    } else if name == "ISO_Left_Tab"@ {
        keys::ISO_LEFT_TAB
    } else if name == "Return"@ {
        keys::RETURN
    } else if name == "Escape"@ {
        keys::ESCAPE
    } else if name == "Home"@ {
        keys::HOME
    } else if name == "Left"@ {
        keys::LEFT
    } else if name == "Up"@ {
        keys::UP
    } else if name == "Right"@ {
        keys::RIGHT
    } else if name == "Down"@ {
        keys::DOWN
    } else if name == "Prior"@ {
        keys::PAGE_UP
    } else if name == "Page_Up"@ {
        keys::PAGE_UP
    } else if name == "Next"@ {
        keys::PAGE_DOWN
    } else if name == "Page_Down"@ {
        keys::PAGE_DOWN
    } else if name == "End"@ {
        keys::END
    } else if name == "Delete"@ {
        keys::DELETE
    } else if name == "KP_Enter"@ {
        keys::KP_ENTER
    } else if name == "KP_Home"@ {
        keys::KP_HOME
    } else if name == "KP_Left"@ {
        keys::KP_LEFT
    } else if name == "KP_Up"@ {
        keys::KP_UP
    } else if name == "KP_Right"@ {
        keys::KP_RIGHT
    } else if name == "KP_Down"@ {
        keys::KP_DOWN
    } else if name == "KP_Prior"@ {
        keys::KP_PAGE_UP
    } else if name == "KP_Page_Up"@ {
        keys::KP_PAGE_UP
    } else if name == "KP_Next"@ {
        keys::KP_PAGE_DOWN
    } else if name == "KP_Page_Down"@ {
        keys::KP_PAGE_DOWN
    } else if name == "KP_End"@ {
        keys::KP_END
    } else if name == "KP_Insert"@ {
        keys::KP_INSERT
    } else if name == "KP_Delete"@ {
        keys::KP_DELETE
    } else if name == "KP_Add"@ {
        keys::KP_ADD
    } else if name == "KP_Subtract"@ {
        keys::KP_SUBTRACT
    } else if name == "KP_0"@ {
        keys::KP_0
    } else if name == "F5"@ {
        keys::F5
    } else {
        0
    }
}

/// The keysym of a punctuation mark by its name.
fn mark(name: &str) -> (keysym: u32)
    ensures
        keysym == mark_keysym(name@),
{
    if same_text(name, "space") {
        0x20
    } else if same_text(name, "exclam") {
        0x21
    } else if same_text(name, "quotedbl") {
        0x22
    } else if same_text(name, "numbersign") {
        0x23
    } else if same_text(name, "dollar") {
        0x24
    } else if same_text(name, "percent") {
        0x25
    } else if same_text(name, "ampersand") {
        0x26
    } else if same_text(name, "apostrophe") {
        0x27
    } else if same_text(name, "parenleft") {
        0x28
    } else if same_text(name, "parenright") {
        0x29
    } else if same_text(name, "asterisk") {
        0x2a
    } else if same_text(name, "plus") {
        0x2b
    } else if same_text(name, "comma") {
        0x2c
    } else if same_text(name, "minus") {
        0x2d
    } else if same_text(name, "period") {
        0x2e
    } else if same_text(name, "slash") {
        0x2f
    } else if same_text(name, "colon") {
        0x3a
    } else if same_text(name, "semicolon") {
        0x3b
    } else if same_text(name, "less") {
        0x3c
    } else if same_text(name, "equal") {
        0x3d
    } else if same_text(name, "greater") {
        0x3e
    } else if same_text(name, "question") {
        0x3f
    } else if same_text(name, "at") {
        0x40
    } else if same_text(name, "bracketleft") {
        0x5b
    } else if same_text(name, "backslash") {
        0x5c
    } else if same_text(name, "bracketright") {
        0x5d
    } else if same_text(name, "asciicircum") {
        0x5e
    } else if same_text(name, "underscore") {
        0x5f
    } else if same_text(name, "grave") {
        0x60
    } else if same_text(name, "braceleft") {
        0x7b
    } else if same_text(name, "bar") {
        0x7c
    } else if same_text(name, "braceright") {
        0x7d
    } else if same_text(name, "asciitilde") {
        0x7e
    } else {
        0
    }
}

/// The keysym of one of the keys that are used by its name.
fn named_key(name: &str) -> (keysym: u32)
    ensures
        keysym == named_keysym(name@),
{
    if same_text(name, "BackSpace") {
        keys::BACKSPACE
    } else if same_text(name, "Tab") {
        keys::TAB
    } else if same_text(name, "ISO_Left_Tab") {
        keys::ISO_LEFT_TAB
    } else if same_text(name, "Return") {
        keys::RETURN
    } else if same_text(name, "Escape") {
        keys::ESCAPE
    } else if same_text(name, "Home") {
        keys::HOME
    } else if same_text(name, "Left") {
        keys::LEFT
    } else if same_text(name, "Up") {
        keys::UP
    } else if same_text(name, "Right") {
        keys::RIGHT
    } else if same_text(name, "Down") {
        keys::DOWN
    } else if same_text(name, "Prior") {
        keys::PAGE_UP
    } else if same_text(name, "Page_Up") {
        keys::PAGE_UP
    } else if same_text(name, "Next") {
        keys::PAGE_DOWN
    } else if same_text(name, "Page_Down") {
        keys::PAGE_DOWN
    } else if same_text(name, "End") {
        keys::END
    } else if same_text(name, "Delete") {
        keys::DELETE
    } else if same_text(name, "KP_Enter") {
        keys::KP_ENTER
    } else if same_text(name, "KP_Home") {
        keys::KP_HOME
    } else if same_text(name, "KP_Left") {
        keys::KP_LEFT
    } else if same_text(name, "KP_Up") {
        keys::KP_UP
    } else if same_text(name, "KP_Right") {
        keys::KP_RIGHT
    } else if same_text(name, "KP_Down") {
        keys::KP_DOWN
    } else if same_text(name, "KP_Prior") {
        keys::KP_PAGE_UP
    } else if same_text(name, "KP_Page_Up") {
        keys::KP_PAGE_UP
    } else if same_text(name, "KP_Next") {
        keys::KP_PAGE_DOWN
    } else if same_text(name, "KP_Page_Down") {
        keys::KP_PAGE_DOWN
    } else if same_text(name, "KP_End") {
        keys::KP_END
    } else if same_text(name, "KP_Insert") {
        keys::KP_INSERT
    } else if same_text(name, "KP_Delete") {
        keys::KP_DELETE
    } else if same_text(name, "KP_Add") {
        keys::KP_ADD
    } else if same_text(name, "KP_Subtract") {
        keys::KP_SUBTRACT
    } else if same_text(name, "KP_0") {
        keys::KP_0
    } else if same_text(name, "F5") {
        keys::F5
    } else {
        0
    }
}

/// A keysym from its xkb name: a Latin-1 character's own name, or one of the keys that are used.
/// Anything else is 0, no symbol.
pub open spec fn keysym_named(name: Seq<char>) -> u32 {
    if name.len() == 1 && (name[0] as u32) < 0x100 {
        name[0] as u32
    } else if mark_keysym(name) != 0 {
        mark_keysym(name)
    } else {
        named_keysym(name)
    }
}

/// A keysym from its xkb name: a Latin-1 character's own name, or one of the keys that are used.
/// Anything else is 0, no symbol.
pub fn keysym_from_name(name: &[char]) -> (keysym: u32)
    ensures
        keysym == keysym_named(name@),
{
    if name.len() == 1 && (name[0] as u32) < 0x100 {
        return name[0] as u32;
    }
    let name = text_of(name);
    let keysym: u32 = mark(name.as_str());
    if keysym != 0 {
        keysym
    } else {
        named_key(name.as_str())
    }
}

/// The keysyms of one of the rows of a keyboard, from its first key on.
pub open spec fn row_key(row: Seq<char>, shifted: Seq<char>, at: int) -> (u32, u32) {
    (
        row[at] as u32,
        if at < shifted.len() {
            shifted[at] as u32
        } else {
            0
        },
    )
}

/// A US keyboard by evdev code.
pub open spec fn us_key(evdev: u32) -> Option<(u32, u32)> {
    if 2 <= evdev <= 13 {
        Some(row_key("1234567890-="@, "!@#$%^&*()_+"@, evdev - 2))
    } else if 16 <= evdev <= 27 {
        Some(row_key("qwertyuiop[]"@, Seq::empty(), evdev - 16))
    } else if 30 <= evdev <= 41 {
        Some(row_key("asdfghjkl;'`"@, Seq::empty(), evdev - 30))
    } else if 44 <= evdev <= 53 {
        Some(row_key("zxcvbnm,./"@, Seq::empty(), evdev - 44))
    } else {
        match evdev {
            1 => Some((keys::ESCAPE, 0)),
            14 => Some((keys::BACKSPACE, 0)),
            15 => Some((keys::TAB, keys::ISO_LEFT_TAB)),
            28 => Some((keys::RETURN, 0)),
            43 => Some((0x5c, 0x7c)),
            57 => Some((0x20, 0)),
            63 => Some((keys::F5, 0)),
            74 => Some((keys::KP_SUBTRACT, 0)),
            78 => Some((keys::KP_ADD, 0)),
            82 => Some((keys::KP_INSERT, keys::KP_0)),
            96 => Some((keys::KP_ENTER, 0)),
            102 => Some((keys::HOME, 0)),
            103 => Some((keys::UP, 0)),
            104 => Some((keys::PAGE_UP, 0)),
            105 => Some((keys::LEFT, 0)),
            106 => Some((keys::RIGHT, 0)),
            107 => Some((keys::END, 0)),
            108 => Some((keys::DOWN, 0)),
            109 => Some((keys::PAGE_DOWN, 0)),
            111 => Some((keys::DELETE, 0)),
            _ => None,
        }
    }
}

/// A US keyboard by evdev code, for keys the keymap left out.
pub fn us_fallback(evdev: u32) -> (levels: Option<(u32, u32)>)
    ensures
        levels == us_key(evdev),
{
    proof {
        reveal_strlit("1234567890-=");
        reveal_strlit("!@#$%^&*()_+");
        reveal_strlit("qwertyuiop[]");
        reveal_strlit("asdfghjkl;'`");
        reveal_strlit("zxcvbnm,./");
    }
    if 2 <= evdev && evdev <= 13 {
        let at: usize = (evdev - 2) as usize;
        return Some(
            ("1234567890-=".get_char(at) as u32, "!@#$%^&*()_+".get_char(at) as u32),
        );
    }
    if 16 <= evdev && evdev <= 27 {
        return Some(("qwertyuiop[]".get_char((evdev - 16) as usize) as u32, 0));
    }
    if 30 <= evdev && evdev <= 41 {
        return Some(("asdfghjkl;'`".get_char((evdev - 30) as usize) as u32, 0));
    }
    if 44 <= evdev && evdev <= 53 {
        return Some(("zxcvbnm,./".get_char((evdev - 44) as usize) as u32, 0));
    }
    match evdev {
        1 => Some((keys::ESCAPE, 0)),
        14 => Some((keys::BACKSPACE, 0)),
        15 => Some((keys::TAB, keys::ISO_LEFT_TAB)),
        28 => Some((keys::RETURN, 0)),
        43 => Some((0x5c, 0x7c)),
        57 => Some((0x20, 0)),
        63 => Some((keys::F5, 0)),
        74 => Some((keys::KP_SUBTRACT, 0)),
        78 => Some((keys::KP_ADD, 0)),
        82 => Some((keys::KP_INSERT, keys::KP_0)),
        96 => Some((keys::KP_ENTER, 0)),
        102 => Some((keys::HOME, 0)),
        103 => Some((keys::UP, 0)),
        104 => Some((keys::PAGE_UP, 0)),
        105 => Some((keys::LEFT, 0)),
        106 => Some((keys::RIGHT, 0)),
        107 => Some((keys::END, 0)),
        108 => Some((keys::DOWN, 0)),
        109 => Some((keys::PAGE_DOWN, 0)),
        111 => Some((keys::DELETE, 0)),
        _ => None,
    }
}

/// The number that a text spells.
pub open spec fn number_spelled(text: Seq<char>) -> Option<int> {
    if exists|i: int| 0 <= i < text.len() && #[trigger] text[i] > '\u{7f}' {
        None
    } else {
        number_in(ascii(text), u32::MAX as int)
    }
}

fn number(text: &[char]) -> (value: Option<u32>)
    ensures
        match value {
            Some(value) => number_spelled(text@) == Some(value as int),
            None => number_spelled(text@) is None,
        },
{
    let mut bytes: Vec<u8> = Vec::new();
    let mut i: usize = 0;
    while i < text.len()
        invariant
            i <= text.len(),
            bytes@ =~= ascii(text@.take(i as int)),
            forall|j: int| 0 <= j < i ==> #[trigger] text@[j] <= '\u{7f}',
        decreases text.len() - i,
    {
        if text[i] > '\u{7f}' {
            return None;
        }
        bytes.push(text[i] as u8);
        i += 1;
    }
    assert(text@.take(text.len() as int) =~= text@);
    parse_number(bytes.as_slice(), u32::MAX)
}

/// A statement of the section on key codes.
#[verifier::ext_equal]
pub enum StatementModel {
    /// The first name is another for the second.
    Alias(Seq<char>, Seq<char>),
    /// A key's name and its code.
    Code(Seq<char>, u32),
    Other,
}

/// What a statement says.
pub open spec fn statement_in(text: Seq<char>) -> StatementModel {
    let statement = trim(text);
    if "alias"@.is_prefix_of(statement) {
        let rest = statement.skip(5);
        match find(rest, seq!['=']) {
            Some(at) => StatementModel::Alias(
                name_in(rest.take(at)),
                name_in(rest.skip(at + 1)),
            ),
            None => StatementModel::Other,
        }
    } else {
        match find(statement, seq!['=']) {
            Some(at) => {
                let name = statement.take(at);
                match number_spelled(trim(statement.skip(at + 1))) {
                    Some(code) => if trim(name).len() > 0 && trim(name)[0] == '<' {
                        StatementModel::Code(name_in(name), code as u32)
                    } else {
                        StatementModel::Other
                    },
                    None => StatementModel::Other,
                }
            },
            None => StatementModel::Other,
        }
    }
}

/// The codes that the first `count` statements give to names.
pub open spec fn codes_in(statements: Seq<Seq<char>>, count: int) -> Map<Seq<char>, u32>
    decreases count,
{
    if count <= 0 {
        Map::empty()
    } else {
        let before = codes_in(statements, count - 1);
        match statement_in(statements[count - 1]) {
            StatementModel::Code(name, code) => before.insert(name, code),
            _ => before,
        }
    }
}

/// The aliases that the first `count` statements make.
pub open spec fn aliases_in(statements: Seq<Seq<char>>, count: int) -> Seq<(Seq<char>, Seq<char>)>
    decreases count,
{
    if count <= 0 {
        Seq::empty()
    } else {
        let before = aliases_in(statements, count - 1);
        match statement_in(statements[count - 1]) {
            StatementModel::Alias(from, to) => before.push((from, to)),
            _ => before,
        }
    }
}

/// The codes of names once the first `count` aliases are resolved.
pub open spec fn resolved(
    codes: Map<Seq<char>, u32>,
    aliases: Seq<(Seq<char>, Seq<char>)>,
    count: int,
) -> Map<Seq<char>, u32>
    decreases count,
{
    if count <= 0 {
        codes
    } else {
        let before = resolved(codes, aliases, count - 1);
        let (from, to) = aliases[count - 1];
        if before.contains_key(to) {
            before.insert(from, before[to])
        } else {
            before
        }
    }
}

/// The codes of keys by name, aliases resolved.
pub open spec fn keycodes_in(text: Seq<char>) -> Map<Seq<char>, u32> {
    match section_in(text, "xkb_keycodes"@) {
        Some(block) => {
            let statements = split(block, ';');
            let count = statements.len() as int;
            let aliases = aliases_in(statements, count);
            resolved(codes_in(statements, count), aliases, aliases.len() as int)
        },
        None => Map::empty(),
    }
}

/// Codes by name: what was put in last for a name is what it has.
pub struct Codes {
    entries: Vec<(Vec<char>, u32)>,
}

pub closed spec fn entries_map(entries: Seq<(Vec<char>, u32)>) -> Map<Seq<char>, u32>
    decreases entries.len(),
{
    if entries.len() == 0 {
        Map::empty()
    } else {
        entries_map(entries.drop_last()).insert(entries.last().0@, entries.last().1)
    }
}

impl View for Codes {
    type V = Map<Seq<char>, u32>;

    closed spec fn view(&self) -> Map<Seq<char>, u32> {
        entries_map(self.entries@)
    }
}

fn same_chars(a: &Vec<char>, b: &Vec<char>) -> (same: bool)
    ensures
        same == (a@ == b@),
{
    if a.len() != b.len() {
        return false;
    }
    let mut i: usize = 0;
    while i < a.len()
        invariant
            i <= a.len(),
            a.len() == b.len(),
            forall|j: int| 0 <= j < i ==> a@[j] == b@[j],
        decreases a.len() - i,
    {
        if a[i] != b[i] {
            return false;
        }
        i += 1;
    }
    assert(a@ =~= b@);
    true
}

impl Codes {
    pub fn new() -> (codes: Codes)
        ensures
            codes@ == Map::<Seq<char>, u32>::empty(),
    {
        Codes { entries: Vec::new() }
    }

    pub fn insert(&mut self, name: Vec<char>, code: u32)
        ensures
            final(self)@ == old(self)@.insert(name@, code),
    {
        let ghost before = self.entries@;
        self.entries.push((name, code));
        assert(self.entries@.drop_last() =~= before);
    }

    pub fn get(&self, name: &Vec<char>) -> (code: Option<u32>)
        ensures
            match code {
                Some(code) => self@.contains_key(name@) && self@[name@] == code,
                None => !self@.contains_key(name@),
            },
    {
        let mut i: usize = self.entries.len();
        assert(self.entries@.take(i as int) =~= self.entries@);
        while i > 0
            invariant
                i <= self.entries.len(),
                self@.contains_key(name@) == entries_map(
                    self.entries@.take(i as int),
                ).contains_key(name@),
                self@.contains_key(name@) ==> self@[name@] == entries_map(
                    self.entries@.take(i as int),
                )[name@],
            decreases i,
        {
            let ghost taken = self.entries@.take(i as int);
            assert(taken.drop_last() =~= self.entries@.take(i - 1));
            assert(taken.last() == self.entries@[i - 1]);
            if same_chars(&self.entries[i - 1].0, name) {
                return Some(self.entries[i - 1].1);
            }
            i -= 1;
        }
        None
    }
}

/// A statement of the section on key codes.
enum Statement {
    Alias(Vec<char>, Vec<char>),
    Code(Vec<char>, u32),
    Other,
}

impl Statement {
    spec fn model(self) -> StatementModel {
        match self {
            Statement::Alias(from, to) => StatementModel::Alias(from@, to@),
            Statement::Code(name, code) => StatementModel::Code(name@, code),
            Statement::Other => StatementModel::Other,
        }
    }
}

fn starts_with_alias(text: &[char]) -> (does: bool)
    ensures
        does == "alias"@.is_prefix_of(text@),
        does ==> text.len() >= 5,
{
    proof {
        reveal_strlit("alias");
    }
    if text.len() < 5 {
        return false;
    }
    let does = text[0] == 'a' && text[1] == 'l' && text[2] == 'i' && text[3] == 'a' && text[4]
        == 's';
    if does {
        assert("alias"@ =~= text@.subrange(0, 5));
    } else {
        assert(text@.subrange(0, 5)[0] == text@[0]);
        assert(text@.subrange(0, 5)[1] == text@[1]);
        assert(text@.subrange(0, 5)[2] == text@[2]);
        assert(text@.subrange(0, 5)[3] == text@[3]);
        assert(text@.subrange(0, 5)[4] == text@[4]);
    }
    does
}

fn read_statement(text: &[char]) -> (statement: Statement)
    ensures
        statement.model() == statement_in(text@),
{
    let equals: [char; 1] = ['='];
    assert(equals@ =~= seq!['=']);
    let statement = trimmed(text);
    if starts_with_alias(statement) {
        let rest = slice_subrange(statement, 5, statement.len());
        assert(rest@ =~= statement@.skip(5));
        return match find_chars(rest, equals.as_slice()) {
            Some(at) => {
                let from = slice_subrange(rest, 0, at);
                let to = slice_subrange(rest, at + 1, rest.len());
                assert(from@ =~= rest@.take(at as int));
                assert(to@ =~= rest@.skip(at + 1));
                Statement::Alias(name_of(from), name_of(to))
            },
            None => Statement::Other,
        };
    }
    match find_chars(statement, equals.as_slice()) {
        Some(at) => {
            let name = slice_subrange(statement, 0, at);
            let value = slice_subrange(statement, at + 1, statement.len());
            assert(name@ =~= statement@.take(at as int));
            assert(value@ =~= statement@.skip(at + 1));
            let bracketed = trimmed(name);
            match number(trimmed(value)) {
                Some(code) => if bracketed.len() > 0 && bracketed[0] == '<' {
                    Statement::Code(name_of(name), code)
                } else {
                    Statement::Other
                },
                None => Statement::Other,
            }
        },
        None => Statement::Other,
    }
}

spec fn alias_views(aliases: Seq<(Vec<char>, Vec<char>)>) -> Seq<(Seq<char>, Seq<char>)> {
    Seq::new(aliases.len(), |i: int| (aliases[i].0@, aliases[i].1@))
}

/// `xkb_keycodes { <AC01> = 38; alias <LatA> = <AC01>; }`: names to codes, aliases resolved.
pub fn keycodes(text: &[char]) -> (codes: Codes)
    ensures
        codes@ == keycodes_in(text@),
{
    let mut codes = Codes::new();
    let block = match section(text, "xkb_keycodes") {
        Some(block) => block,
        None => return codes,
    };
    let statements = split_chars(block, ';');
    let ghost parts = char_parts(statements@);
    let mut aliases: Vec<(Vec<char>, Vec<char>)> = Vec::new();
    assert(alias_views(aliases@) =~= Seq::empty());
    let mut i: usize = 0;
    while i < statements.len()
        invariant
            i <= statements.len(),
            parts == char_parts(statements@),
            codes@ == codes_in(parts, i as int),
            alias_views(aliases@) == aliases_in(parts, i as int),
        decreases statements.len() - i,
    {
        assert(parts[i as int] == statements@[i as int]@);
        let ghost so_far = alias_views(aliases@);
        match read_statement(statements[i].as_slice()) {
            Statement::Alias(from, to) => {
                let ghost pair = (from@, to@);
                aliases.push((from, to));
                assert(alias_views(aliases@) =~= so_far.push(pair));
            },
            Statement::Code(name, code) => codes.insert(name, code),
            Statement::Other => {},
        }
        i += 1;
    }
    let ghost plain = codes@;
    let mut k: usize = 0;
    while k < aliases.len()
        invariant
            k <= aliases.len(),
            codes@ == resolved(plain, alias_views(aliases@), k as int),
        decreases aliases.len() - k,
    {
        assert(alias_views(aliases@)[k as int] == (aliases@[k as int].0@, aliases@[k as int].1@));
        if let Some(code) = codes.get(&aliases[k].1) {
            let name = vstd::slice::slice_to_vec(aliases[k].0.as_slice());
            codes.insert(name, code);
        }
        k += 1;
    }
    codes
}

/// Where the first keysym list opens in a key's body, from a place on: a bracket after `{`, `=`
/// or `,`, or after nothing, which is right after the key's own brace. A bracket after a name
/// is an index.
pub open spec fn list_from(body: Seq<char>, from: int) -> Option<int>
    decreases body.len() - from,
{
    if from < 0 || from >= body.len() {
        None
    } else if body[from] == '[' && opens_list(trim_end(body.take(from))) {
        Some(from)
    } else {
        list_from(body, from + 1)
    }
}

/// Whether a bracket after this text opens a keysym list.
pub open spec fn opens_list(before: Seq<char>) -> bool {
    before.len() == 0 || before.last() == '{' || before.last() == '=' || before.last() == ','
}

/// Where the first keysym list opens in a key's body.
pub fn level_list(body: &[char]) -> (start: Option<usize>)
    ensures
        crate::names::place(start) == list_from(body@, 0),
        start is Some ==> start->0 < body.len(),
{
    let mut i: usize = 0;
    while i < body.len()
        invariant
            i <= body.len(),
            list_from(body@, 0) == list_from(body@, i as int),
        decreases body.len() - i,
    {
        if body[i] == '[' {
            let taken = slice_subrange(body, 0, i);
            assert(taken@ =~= body@.take(i as int));
            let before = trimmed_end(taken);
            let opens = before.len() == 0 || before[before.len() - 1] == '{' || before[before.len()
                - 1] == '=' || before[before.len() - 1] == ',';
            if opens {
                return Some(i);
            }
        }
        i += 1;
    }
    None
}

/// The keysyms of names, in order.
pub open spec fn keysyms_named(names: Seq<Seq<char>>) -> Seq<u32> {
    Seq::new(names.len(), |i: int| keysym_named(trim(names[i])))
}

/// The keysyms of a key's first level list.
pub open spec fn levels_in(body: Seq<char>) -> Option<Seq<u32>> {
    match list_from(body, 0) {
        Some(start) => match find(body.skip(start), seq![']']) {
            Some(end) => Some(
                keysyms_named(split(body.skip(start).subrange(1, end), ',')),
            ),
            None => None,
        },
        None => None,
    }
}

/// Each key's name and the keysyms of its first level list, from here on.
pub open spec fn keys_in(text: Seq<char>) -> Seq<(Seq<char>, Seq<u32>)>
    decreases text.len(),
{
    match find(text, "key "@) {
        Some(at) => {
            let rest = text.skip(at + 4);
            match find(rest, seq!['{']) {
                Some(open) => {
                    let braced = rest.skip(open);
                    match brace_length(braced) {
                        Some(length) => {
                            let after = braced.skip(length);
                            let body = braced.subrange(1, length - 1);
                            if after.len() < text.len() {
                                (match levels_in(body) {
                                    Some(levels) => seq![(name_in(rest.take(open)), levels)],
                                    None => Seq::empty(),
                                }) + keys_in(after)
                            } else {
                                Seq::empty()
                            }
                        },
                        None => Seq::empty(),
                    }
                },
                None => Seq::empty(),
            }
        },
        None => Seq::empty(),
    }
}

/// Each key's name and the keysyms of its first level list.
pub open spec fn symbols_in(text: Seq<char>) -> Seq<(Seq<char>, Seq<u32>)> {
    match section_in(text, "xkb_symbols"@) {
        Some(block) => keys_in(block),
        None => Seq::empty(),
    }
}

/// The keysyms of a key's first level list.
fn levels(body: &[char]) -> (keysyms: Option<Vec<u32>>)
    ensures
        match keysyms {
            Some(keysyms) => levels_in(body@) == Some(keysyms@),
            None => levels_in(body@) is None,
        },
{
    let start: usize = match level_list(body) {
        Some(start) => start,
        None => return None,
    };
    proof {
        list_is_there(body@, 0);
    }
    let rest = slice_subrange(body, start, body.len());
    assert(rest@ =~= body@.skip(start as int));
    let bracket: [char; 1] = [']'];
    assert(bracket@ =~= seq![']']);
    let end: usize = match find_chars(rest, bracket.as_slice()) {
        Some(end) => end,
        None => return None,
    };
    proof {
        crate::search::found_is_first(rest@, seq![']'], 0);
        assert(rest@.subrange(end as int, end + 1)[0] == ']');
    }
    let names = split_chars(slice_subrange(rest, 1, end), ',');
    let ghost parts = char_parts(names@);
    let mut keysyms: Vec<u32> = Vec::new();
    let mut i: usize = 0;
    while i < names.len()
        invariant
            i <= names.len(),
            parts == char_parts(names@),
            keysyms@ =~= keysyms_named(parts).take(i as int),
        decreases names.len() - i,
    {
        assert(parts[i as int] == names@[i as int]@);
        keysyms.push(keysym_from_name(trimmed(names[i].as_slice())));
        i += 1;
    }
    assert(keysyms@ =~= keysyms_named(parts));
    Some(keysyms)
}

proof fn list_is_there(body: Seq<char>, from: int)
    requires
        from >= 0,
    ensures
        match list_from(body, from) {
            Some(at) => from <= at < body.len() && body[at] == '[',
            None => true,
        },
    decreases body.len() - from,
{
    if from < body.len() {
        list_is_there(body, from + 1);
    }
}

/// Keys by their names' characters.
pub open spec fn key_views(keys: Seq<(Vec<char>, Vec<u32>)>) -> Seq<(Seq<char>, Seq<u32>)> {
    Seq::new(keys.len(), |i: int| (keys[i].0@, keys[i].1@))
}

/// `xkb_symbols { key <AC01> { [ a, A ] }; }`: each key's name and the keysyms of its first
/// level list, in order.
pub fn symbols(text: &[char]) -> (found: Vec<(Vec<char>, Vec<u32>)>)
    ensures
        key_views(found@) == symbols_in(text@),
{
    let mut found: Vec<(Vec<char>, Vec<u32>)> = Vec::new();
    assert(key_views(found@) =~= Seq::empty());
    let mut rest = match section(text, "xkb_symbols") {
        Some(block) => block,
        None => return found,
    };
    let ghost all = keys_in(rest@);
    let key = chars_of("key ");
    proof {
        reveal_strlit("key ");
    }
    let brace: [char; 1] = ['{'];
    assert(brace@ =~= seq!['{']);
    assert(key_views(found@) + keys_in(rest@) =~= all);
    loop
        invariant
            key@ == "key "@,
            key.len() == 4,
            brace@ == seq!['{'],
            all == symbols_in(text@),
            key_views(found@) + keys_in(rest@) == all,
        decreases rest.len(),
    {
        let ghost so_far = key_views(found@);
        let ghost before = rest@;
        let at: usize = match find_chars(rest, key.as_slice()) {
            Some(at) => at,
            None => {
                assert(so_far + keys_in(before) =~= so_far);
                return found;
            },
        };
        let named = slice_subrange(rest, at + 4, rest.len());
        assert(named@ =~= before.skip(at + 4));
        let open: usize = match find_chars(named, brace.as_slice()) {
            Some(open) => open,
            None => {
                assert(so_far + keys_in(before) =~= so_far);
                return found;
            },
        };
        proof {
            crate::search::found_is_first(named@, seq!['{'], 0);
            assert(named@.subrange(open as int, open + 1)[0] == '{');
        }
        let name = name_of(slice_subrange(named, 0, open));
        assert(named@.subrange(0, open as int) =~= named@.take(open as int));
        let braced = slice_subrange(named, open, named.len());
        assert(braced@ =~= named@.skip(open as int));
        let length: usize = match matching_brace(braced) {
            Some(length) => length,
            None => {
                assert(so_far + keys_in(before) =~= so_far);
                return found;
            },
        };
        let body = slice_subrange(braced, 1, length - 1);
        let after = slice_subrange(braced, length, braced.len());
        assert(after@ =~= braced@.skip(length as int));
        match levels(body) {
            Some(keysyms) => {
                let ghost pair = (name@, keysyms@);
                found.push((name, keysyms));
                assert(key_views(found@) =~= so_far.push(pair));
                assert(so_far.push(pair) + keys_in(after@) =~= so_far + (seq![pair] + keys_in(
                    after@,
                )));
            },
            None => {
                assert(Seq::<(Seq<char>, Seq<u32>)>::empty() + keys_in(after@) =~= keys_in(
                    after@,
                ));
            },
        }
        assert(key_views(found@) + keys_in(after@) == so_far + keys_in(before));
        rest = after;
    }
}

/// Keysyms by xkb keycode, which is the evdev code and 8: unshifted and shifted, 0 for none.
pub struct Xkb {
    pub levels: HashMap<u32, (u32, u32)>,
}

/// A key's first two levels, 0 where there is none.
pub open spec fn two_levels(keysyms: Seq<u32>) -> (u32, u32) {
    (
        if keysyms.len() > 0 {
            keysyms[0]
        } else {
            0
        },
        if keysyms.len() > 1 {
            keysyms[1]
        } else {
            0
        },
    )
}

/// The levels of the first `count` keys by their codes. A key with a keysym that has no name
/// here is kept as meaning nothing, so it never falls back to the US key in its place.
pub open spec fn levels_by_code(
    keys: Seq<(Seq<char>, Seq<u32>)>,
    codes: Map<Seq<char>, u32>,
    count: int,
) -> Map<u32, (u32, u32)>
    decreases count,
{
    if count <= 0 {
        Map::empty()
    } else {
        let before = levels_by_code(keys, codes, count - 1);
        let (name, keysyms) = keys[count - 1];
        if codes.contains_key(name) {
            before.insert(codes[name], two_levels(keysyms))
        } else {
            before
        }
    }
}

/// The levels of a keymap by code.
pub open spec fn keymap_in(text: Seq<char>) -> Map<u32, (u32, u32)> {
    let keys = symbols_in(text);
    levels_by_code(keys, keycodes_in(text), keys.len() as int)
}

/// What a key means: by the keymap, or else by the US layout, and nothing where its plain
/// keysym is none.
pub open spec fn meaning(
    levels: Map<u32, (u32, u32)>,
    evdev: u32,
    shift: bool,
    lock: bool,
) -> Option<u32> {
    let code = (evdev + 8) as u32;
    let key = if levels.contains_key(code) {
        Some(levels[code])
    } else {
        us_key(evdev)
    };
    match key {
        Some((plain, shifted)) => if plain != 0 {
            Some(key_meaning(plain, shifted, shift, lock))
        } else {
            None
        },
        None => None,
    }
}

impl Xkb {
    /// Read a keymap.
    pub fn parse(text: &str) -> (xkb: Xkb)
        ensures
            xkb.levels@ == keymap_in(text@),
    {
        broadcast use vstd::std_specs::hash::group_hash_axioms;

        let text = chars_of(text);
        let codes = keycodes(text.as_slice());
        let found = symbols(text.as_slice());
        let ghost keys = key_views(found@);
        let mut levels: HashMap<u32, (u32, u32)> = HashMap::new();
        assert(levels@ =~= Map::empty());
        let mut i: usize = 0;
        while i < found.len()
            invariant
                i <= found.len(),
                keys == key_views(found@),
                levels@ == levels_by_code(keys, codes@, i as int),
                vstd::std_specs::hash::obeys_key_model::<u32>(),
                vstd::std_specs::hash::builds_valid_hashers::<std::hash::RandomState>(),
            decreases found.len() - i,
        {
            assert(keys[i as int] == (found@[i as int].0@, found@[i as int].1@));
            if let Some(code) = codes.get(&found[i].0) {
                let keysyms = &found[i].1;
                let plain: u32 = if keysyms.len() > 0 {
                    keysyms[0]
                } else {
                    0
                };
                let shifted: u32 = if keysyms.len() > 1 {
                    keysyms[1]
                } else {
                    0
                };
                levels.insert(code, (plain, shifted));
            }
            i += 1;
        }
        Xkb { levels }
    }

    /// Nothing known: every key by the US fallback.
    pub fn empty() -> (xkb: Xkb)
        ensures
            xkb.levels@ == Map::<u32, (u32, u32)>::empty(),
    {
        Xkb { levels: HashMap::new() }
    }

    /// How many keys are known.
    pub fn len(&self) -> (len: usize)
        ensures
            len == self.levels@.len(),
    {
        broadcast use vstd::std_specs::hash::group_hash_axioms;

        self.levels.len()
    }

    /// The keysym for an evdev key code with these modifiers, or `None` for a key that means
    /// nothing here (a modifier, a media key).
    pub fn keysym(&self, evdev: u32, shift: bool, lock: bool) -> (keysym: Option<u32>)
        requires
            evdev <= u32::MAX - 8,
        ensures
            keysym == meaning(self.levels@, evdev, shift, lock),
    {
        broadcast use vstd::std_specs::hash::group_hash_axioms;

        let code: u32 = evdev + 8;
        let key: Option<(u32, u32)> = match self.levels.get(&code) {
            Some(levels) => Some(*levels),
            None => us_fallback(evdev),
        };
        match key {
            Some((plain, shifted)) => if plain != 0 {
                Some(level_keysym(plain, shifted, shift, lock))
            } else {
                None
            },
            None => None,
        }
    }
}

/// A text is trimmed of the spaces at its ends and of nothing else.
pub proof fn only_spaces_at_the_ends_are_trimmed(text: Seq<char>)
    ensures
        trim(text).len() <= text.len(),
        trim(text).len() > 0 ==> !is_space(trim(text)[0]) && !is_space(trim(text).last()),
        text.len() > 0 && !is_space(text[0]) && !is_space(text.last()) ==> trim(text) == text,
        trim(seq![' '] + text) == trim(text),
        trim(text.push(' ')) == trim(text) || trim(text).len() == 0,
{
    trimming_the_start(text);
    trimming_the_end(trim_start(text));
    assert((seq![' '] + text).drop_first() =~= text);
    if trim(text).len() > 0 {
        let kept = trim_start(text);
        assert(trim(text)[0] == kept[0]);
        space_after_stays_after(text);
    }
}

proof fn space_after_stays_after(text: Seq<char>)
    requires
        trim_start(text).len() > 0,
    ensures
        trim_start(text.push(' ')) == trim_start(text).push(' '),
        trim(text.push(' ')) == trim(text),
    decreases text.len(),
{
    let more = text.push(' ');
    if text.len() > 0 && is_space(text[0]) {
        space_after_stays_after(text.drop_first());
        assert(more.drop_first() =~= text.drop_first().push(' '));
    }
    assert(trim_start(text).push(' ').drop_last() =~= trim_start(text));
}

proof fn trimming_the_start(text: Seq<char>)
    ensures
        trim_start(text).len() <= text.len(),
        trim_start(text).len() > 0 ==> !is_space(trim_start(text)[0]) && trim_start(text).last()
            == text.last(),
    decreases text.len(),
{
    if text.len() > 0 && is_space(text[0]) {
        trimming_the_start(text.drop_first());
    }
}

proof fn trimming_the_end(text: Seq<char>)
    ensures
        trim_end(text).len() <= text.len(),
        trim_end(text).is_prefix_of(text),
        trim_end(text).len() > 0 ==> !is_space(trim_end(text).last()),
        text.len() > 0 && !is_space(text[0]) ==> trim_end(text).len() > 0,
    decreases text.len(),
{
    if text.len() > 0 && is_space(text.last()) {
        trimming_the_end(text.drop_last());
        if !is_space(text[0]) {
            assert(text.len() > 1);
            assert(text.drop_last()[0] == text[0]);
        }
    }
}

/// A block ends at the brace that closes it: one with no braces inside at the next, and blocks
/// inside it are passed over whole.
pub proof fn a_block_ends_at_its_own_brace(body: Seq<char>, rest: Seq<char>)
    requires
        forall|i: int| 0 <= i < body.len() ==> #[trigger] body[i] != '{' && body[i] != '}',
    ensures
        brace_length(seq!['{'] + body + seq!['}'] + rest) == Some(body.len() as int + 2),
        brace_length(seq!['{'] + body + seq!['{'] + seq!['}'] + seq!['}'] + rest) == Some(
            body.len() as int + 4,
        ),
        brace_length(seq!['{'] + body) is None,
{
    let text = seq!['{'] + body + seq!['}'] + rest;
    assert forall|i: int| 1 <= i < body.len() + 1 implies #[trigger] text[i] != '{' && text[i]
        != '}' by {
        assert(text[i] == body[i - 1]);
    }
    passing_over(text, 1, body.len() as int + 1, 1);
    let nested = seq!['{'] + body + seq!['{'] + seq!['}'] + seq!['}'] + rest;
    assert forall|i: int| 1 <= i < body.len() + 1 implies #[trigger] nested[i] != '{' && nested[i]
        != '}' by {
        assert(nested[i] == body[i - 1]);
    }
    passing_over(nested, 1, body.len() as int + 1, 1);
    let n = body.len() as int;
    assert(nested[n + 1] == '{' && nested[n + 2] == '}' && nested[n + 3] == '}');
    assert(closing(nested, n + 1, 1) == closing(nested, n + 2, 2));
    assert(closing(nested, n + 2, 2) == closing(nested, n + 3, 1));
    let open = seq!['{'] + body;
    assert forall|i: int| 1 <= i < body.len() + 1 implies #[trigger] open[i] != '{' && open[i]
        != '}' by {
        assert(open[i] == body[i - 1]);
    }
    passing_over(open, 1, body.len() as int + 1, 1);
}

proof fn passing_over(text: Seq<char>, from: int, to: int, depth: int)
    requires
        0 <= from <= to <= text.len(),
        forall|i: int| from <= i < to ==> #[trigger] text[i] != '{' && text[i] != '}',
    ensures
        closing(text, from, depth) == closing(text, to, depth),
    decreases to - from,
{
    if from < to {
        assert(text[from] != '{');
        passing_over(text, from + 1, to, depth);
    }
}

/// A key means what the keymap says of it, eight above its number; what the keymap does not hold is
/// taken from the usual keyboard.
pub proof fn the_keymap_says_what_a_key_means(
    levels: Map<u32, (u32, u32)>,
    evdev: u32,
    shift: bool,
    lock: bool,
)
    requires
        evdev <= u32::MAX - 8,
    ensures
        levels.contains_key((evdev + 8) as u32) && levels[(evdev + 8) as u32].0 != 0 ==> meaning(
            levels,
            evdev,
            shift,
            lock,
        ) == Some(
            crate::backend::key_meaning(
                levels[(evdev + 8) as u32].0,
                levels[(evdev + 8) as u32].1,
                shift,
                lock,
            ),
        ),
        !levels.contains_key((evdev + 8) as u32) && us_key(evdev) is None ==> meaning(
            levels,
            evdev,
            shift,
            lock,
        ) is None,
{
}

/// On the usual keyboard the keys stand in their rows: the digits with their marks, and the letters
/// from Q, A and Z on.
pub proof fn the_usual_keyboard_has_its_rows()
    ensures
        us_key(2) == Some(('1' as u32, '!' as u32)),
        us_key(11) == Some(('0' as u32, ')' as u32)),
        us_key(12) == Some(('-' as u32, '_' as u32)),
        us_key(13) == Some(('=' as u32, '+' as u32)),
        us_key(16) == Some(('q' as u32, 0u32)),
        us_key(19) == Some(('r' as u32, 0u32)),
        us_key(30) == Some(('a' as u32, 0u32)),
        us_key(31) == Some(('s' as u32, 0u32)),
        us_key(32) == Some(('d' as u32, 0u32)),
        us_key(44) == Some(('z' as u32, 0u32)),
        us_key(46) == Some(('c' as u32, 0u32)),
        us_key(1) == Some((0xff1bu32, 0u32)),
        us_key(14) == Some((0xff08u32, 0u32)),
        us_key(28) == Some((0xff0du32, 0u32)),
        us_key(103) == Some((0xff52u32, 0u32)),
        us_key(105) == Some((0xff51u32, 0u32)),
        us_key(106) == Some((0xff53u32, 0u32)),
        us_key(108) == Some((0xff54u32, 0u32)),
        us_key(111) == Some((0xffffu32, 0u32)),
{
    reveal_strlit("1234567890-=");
    reveal_strlit("!@#$%^&*()_+");
    reveal_strlit("qwertyuiop[]");
    reveal_strlit("asdfghjkl;'`");
    reveal_strlit("zxcvbnm,./");
}

/// A key's first two meanings are those without Shift and with it.
pub proof fn the_first_two_levels_count(keysyms: Seq<u32>)
    ensures
        keysyms.len() > 0 ==> two_levels(keysyms).0 == keysyms[0],
        keysyms.len() > 1 ==> two_levels(keysyms).1 == keysyms[1],
        keysyms.len() < 2 ==> two_levels(keysyms).1 == 0,
        keysyms.len() == 0 ==> two_levels(keysyms).0 == 0,
{
}

/// A character's name is itself, and a mark's name is its place in the usual order of characters.
pub proof fn characters_go_by_their_numbers(c: char)
    requires
        (c as u32) < 0x100,
    ensures
        keysym_named(seq![c]) == c as u32,
{
}

/// A key's name is what stands between the angle brackets, whatever space is before it.
pub proof fn a_name_goes_without_its_brackets(name: Seq<char>)
    requires
        name.len() > 0,
        name[0] != '<',
        name.last() != '>',
    ensures
        name_in(seq!['<'] + name + seq!['>']) == name,
        name_in(seq![' '] + (seq!['<'] + name + seq!['>'])) == name,
        name_in((seq!['<'] + name + seq!['>']).push(' ')) == name,
        name_in(Seq::empty()).len() == 0,
{
    let braced = seq!['<'] + name + seq!['>'];
    only_spaces_at_the_ends_are_trimmed(braced);
    assert(braced[0] == '<' && braced.last() == '>');
    assert(trim(braced) == braced);
    assert(braced.drop_first() =~= name + seq!['>']);
    assert(trim_start_of(name + seq!['>'], '<') == name + seq!['>']);
    assert(trim_start_of(braced, '<') == name + seq!['>']);
    assert((name + seq!['>']).drop_last() =~= name);
    assert(trim_end_of(name, '>') == name);
}

/// A key has the code that the last statement on it gives, and every other key keeps its own.
pub proof fn a_statement_gives_one_key_its_code(statements: Seq<Seq<char>>, count: int)
    requires
        0 <= count < statements.len(),
    ensures
        match statement_in(statements[count]) {
            StatementModel::Code(name, code) => {
                let (before, after) = (codes_in(statements, count), codes_in(statements, count + 1));
                &&& after.contains_key(name) && after[name] == code
                &&& after.dom() == before.dom().insert(name)
                &&& forall|other: Seq<char>|
                    other != name && before.contains_key(other) ==> #[trigger] after[other]
                        == before[other]
                &&& aliases_in(statements, count + 1) == aliases_in(statements, count)
            },
            StatementModel::Alias(from, to) => codes_in(statements, count + 1) == codes_in(
                statements,
                count,
            ) && aliases_in(statements, count + 1).len() == aliases_in(statements, count).len() + 1
                && aliases_in(statements, count + 1).last() == (from, to),
            StatementModel::Other => codes_in(statements, count + 1) == codes_in(statements, count)
                && aliases_in(statements, count + 1) == aliases_in(statements, count),
        },
{
}

/// An alias of a key that has a code has that code too; it changes no other key's, and an alias of a
/// key that has none changes nothing.
pub proof fn an_alias_has_the_keys_code(
    codes: Map<Seq<char>, u32>,
    aliases: Seq<(Seq<char>, Seq<char>)>,
    count: int,
    other: Seq<char>,
)
    requires
        0 <= count < aliases.len(),
    ensures
        ({
            let (before, after) = (
                resolved(codes, aliases, count),
                resolved(codes, aliases, count + 1),
            );
            let (from, to) = aliases[count];
            &&& before.contains_key(to) ==> after.contains_key(from) && after[from] == before[to]
            &&& !before.contains_key(to) ==> after == before
            &&& other != from ==> after.contains_key(other) == before.contains_key(other) && (
            before.contains_key(other) ==> after[other] == before[other])
        }),
        resolved(codes, aliases, 0) == codes,
{
}

/// A key's statement says its code: `<NAME> = 38`. One with anything before the bracket says none.
pub proof fn a_code_is_said_of_a_name(name: Seq<char>, number: Seq<char>)
    requires
        name.len() > 0,
        name[0] != '<',
        name.last() != '>',
        forall|i: int| 0 <= i < name.len() ==> #[trigger] name[i] != '=',
        number.len() > 0,
        !is_space(number[0]),
        !is_space(number.last()),
    ensures
        statement_in(seq!['<'] + name + seq!['>', '='] + number) == match number_spelled(number) {
            Some(code) => StatementModel::Code(name, code as u32),
            None => StatementModel::Other,
        },
{
    reveal_strlit("alias");
    let text = seq!['<'] + name + seq!['>', '='] + number;
    only_spaces_at_the_ends_are_trimmed(text);
    assert(text[0] == '<' && text.last() == number.last());
    assert(trim(text) == text);
    if "alias"@.is_prefix_of(text) {
        assert("alias"@[0] == text[0]);
    }
    let at = name.len() as int + 2;
    assert forall|j: int| 0 <= j < at implies text[j] != '=' by {
        if 0 < j <= name.len() {
            assert(text[j] == name[j - 1]);
        }
    }
    crate::search::one_is_found(text, '=', at);
    let braced = seq!['<'] + name + seq!['>'];
    assert(text.take(at) =~= braced);
    assert(text.skip(at + 1) =~= number);
    only_spaces_at_the_ends_are_trimmed(number);
    only_spaces_at_the_ends_are_trimmed(braced);
    assert(braced.last() == '>');
    a_name_goes_without_its_brackets(name);
}

/// A statement of an alias says which name is another for which: `alias <FROM> = <TO>`.
pub proof fn an_alias_is_said_of_two_names(from: Seq<char>, to: Seq<char>)
    requires
        from.len() > 0,
        from[0] != '<',
        from.last() != '>',
        forall|i: int| 0 <= i < from.len() ==> #[trigger] from[i] != '=',
        to.len() > 0,
        to[0] != '<',
        to.last() != '>',
    ensures
        statement_in(
            "alias"@ + (seq![' '] + (seq!['<'] + from + seq!['>'])) + seq!['='] + (seq!['<'] + to
                + seq!['>']),
        ) == StatementModel::Alias(from, to),
{
    reveal_strlit("alias");
    let first = seq![' '] + (seq!['<'] + from + seq!['>']);
    let second = seq!['<'] + to + seq!['>'];
    let text = "alias"@ + first + seq!['='] + second;
    assert(text[0] == 'a' && text.last() == '>');
    only_spaces_at_the_ends_are_trimmed(text);
    assert(trim(text) == text);
    assert(text.take(5) =~= "alias"@);
    let rest = text.skip(5);
    assert(rest =~= first + seq!['='] + second);
    let at = first.len() as int;
    assert forall|j: int| 0 <= j < at implies rest[j] != '=' by {
        assert(rest[j] == first[j]);
        if 2 <= j < from.len() + 2 {
            assert(first[j] == from[j - 2]);
        }
    }
    crate::search::one_is_found(rest, '=', at);
    assert(rest.take(at) =~= first);
    assert(rest.skip(at + 1) =~= second);
    a_name_goes_without_its_brackets(from);
    a_name_goes_without_its_brackets(to);
}

/// A key's keysyms are those of its first list: what stands in a list at the start of its body, each
/// between commas, whatever comes after the list.
pub proof fn the_first_list_says_the_keysyms(list: Seq<char>, after: Seq<char>)
    requires
        forall|i: int| 0 <= i < list.len() ==> #[trigger] list[i] != ']',
    ensures
        ({
            let levels = levels_in(seq!['['] + list + seq![']'] + after);
            let names = crate::search::split(list, ',');
            &&& levels is Some && levels->0.len() == names.len()
            &&& forall|i: int|
                0 <= i < names.len() ==> #[trigger] levels->0[i] == keysym_named(trim(names[i]))
        }),
        levels_in(Seq::empty()) is None,
{
    let body = seq!['['] + list + seq![']'] + after;
    assert(body[0] == '[');
    assert(body.take(0) =~= Seq::empty());
    assert(trim_end(body.take(0)) =~= Seq::empty());
    assert(list_from(body, 0) == Some(0int));
    assert(body.skip(0) =~= body);
    let end = list.len() as int + 1;
    assert forall|j: int| 0 <= j < end implies body[j] != ']' by {
        if j > 0 {
            assert(body[j] == list[j - 1]);
        }
    }
    crate::search::one_is_found(body, ']', end);
    assert(body.subrange(1, end) =~= list);
}

/// A key's levels stand under its code once it is read; a key with no code adds none, and no other
/// code's levels change.
pub proof fn a_keys_levels_stand_under_its_code(
    keys: Seq<(Seq<char>, Seq<u32>)>,
    codes: Map<Seq<char>, u32>,
    count: int,
    other: u32,
)
    requires
        0 <= count < keys.len(),
    ensures
        ({
            let (before, after) = (
                levels_by_code(keys, codes, count),
                levels_by_code(keys, codes, count + 1),
            );
            let (name, keysyms) = keys[count];
            &&& codes.contains_key(name) ==> after.contains_key(codes[name]) && (keysyms.len() > 1
                ==> after[codes[name]] == (keysyms[0], keysyms[1]))
            &&& !codes.contains_key(name) ==> after == before
            &&& !codes.contains_key(name) || other != codes[name] ==> after.contains_key(other)
                == before.contains_key(other) && (before.contains_key(other) ==> after[other]
                == before[other])
        }),
{
}

/// A section is what stands between its braces: of a text that names it once, up to the brace that
/// closes it.
pub proof fn a_section_is_between_its_braces(
    before: Seq<char>,
    kind: Seq<char>,
    name: Seq<char>,
    body: Seq<char>,
    after: Seq<char>,
)
    requires
        kind.len() > 0,
        forall|i: int| 0 <= i < before.len() ==> #[trigger] before[i] != kind[0],
        forall|i: int| 0 <= i < kind.len() ==> #[trigger] kind[i] != '{',
        forall|i: int| 0 <= i < name.len() ==> #[trigger] name[i] != '{',
        forall|i: int| 0 <= i < body.len() ==> #[trigger] body[i] != '{' && body[i] != '}',
    ensures
        section_in(before + kind + name + seq!['{'] + body + seq!['}'] + after, kind) == Some(body),
{
    let block = seq!['{'] + body + seq!['}'] + after;
    let text = before + kind + name + seq!['{'] + body + seq!['}'] + after;
    assert(text =~= before + kind + name + block);
    let at = before.len() as int;
    assert(text.subrange(at, at + kind.len()) =~= kind);
    assert(crate::search::is_at(text, kind, at));
    crate::search::found_is_first(text, kind, 0);
    let found = find(text, kind);
    if found->0 < at {
        assert(text.subrange(found->0, found->0 + kind.len())[0] == text[found->0]);
        assert(text[found->0] == before[found->0]);
    }
    let rest = text.skip(at);
    assert(rest =~= kind + name + block);
    let open = (kind.len() + name.len()) as int;
    assert forall|j: int| 0 <= j < open implies rest[j] != '{' by {
        if j < kind.len() {
            assert(rest[j] == kind[j]);
        } else {
            assert(rest[j] == name[j - kind.len()]);
        }
    }
    crate::search::one_is_found(rest, '{', open);
    assert(text.skip(at + open) =~= block);
    a_block_ends_at_its_own_brace(body, after);
    assert(block.subrange(1, body.len() as int + 1) =~= body);
}

/// A mark goes by its name: what is read as one of the marks, and is not the mark itself, is its
/// name, and no mark's name is read as nothing.
pub proof fn marks_go_by_their_names(name: Seq<char>)
    requires
        name.len() > 1,
    ensures
        keysym_named(name) == ' ' as u32 ==> name == "space"@,
        keysym_named(name) == '!' as u32 ==> name == "exclam"@,
        keysym_named(name) == '"' as u32 ==> name == "quotedbl"@,
        keysym_named(name) == '#' as u32 ==> name == "numbersign"@,
        keysym_named(name) == '$' as u32 ==> name == "dollar"@,
        keysym_named(name) == '%' as u32 ==> name == "percent"@,
        keysym_named(name) == '&' as u32 ==> name == "ampersand"@,
        keysym_named(name) == '\'' as u32 ==> name == "apostrophe"@,
        keysym_named(name) == '(' as u32 ==> name == "parenleft"@,
        keysym_named(name) == ')' as u32 ==> name == "parenright"@,
        keysym_named(name) == '*' as u32 ==> name == "asterisk"@,
        keysym_named(name) == '+' as u32 ==> name == "plus"@,
        keysym_named(name) == ',' as u32 ==> name == "comma"@,
        keysym_named(name) == '-' as u32 ==> name == "minus"@,
        keysym_named(name) == '.' as u32 ==> name == "period"@,
        keysym_named(name) == '/' as u32 ==> name == "slash"@,
        keysym_named(name) == ':' as u32 ==> name == "colon"@,
        keysym_named(name) == ';' as u32 ==> name == "semicolon"@,
        keysym_named(name) == '<' as u32 ==> name == "less"@,
        keysym_named(name) == '=' as u32 ==> name == "equal"@,
        keysym_named(name) == '>' as u32 ==> name == "greater"@,
        keysym_named(name) == '?' as u32 ==> name == "question"@,
        keysym_named(name) == '@' as u32 ==> name == "at"@,
        keysym_named(name) == '[' as u32 ==> name == "bracketleft"@,
        keysym_named(name) == '\\' as u32 ==> name == "backslash"@,
        keysym_named(name) == ']' as u32 ==> name == "bracketright"@,
        keysym_named(name) == '^' as u32 ==> name == "asciicircum"@,
        keysym_named(name) == '_' as u32 ==> name == "underscore"@,
        keysym_named(name) == '`' as u32 ==> name == "grave"@,
        keysym_named(name) == '{' as u32 ==> name == "braceleft"@,
        keysym_named(name) == '|' as u32 ==> name == "bar"@,
        keysym_named(name) == '}' as u32 ==> name == "braceright"@,
        keysym_named(name) == '~' as u32 ==> name == "asciitilde"@,
        keysym_named(name) == 0 ==> name != "space"@
            && name != "exclam"@
            && name != "quotedbl"@
            && name != "numbersign"@
            && name != "dollar"@
            && name != "percent"@
            && name != "ampersand"@
            && name != "apostrophe"@
            && name != "parenleft"@
            && name != "parenright"@
            && name != "asterisk"@
            && name != "plus"@
            && name != "comma"@
            && name != "minus"@
            && name != "period"@
            && name != "slash"@
            && name != "colon"@
            && name != "semicolon"@
            && name != "less"@
            && name != "equal"@
            && name != "greater"@
            && name != "question"@
            && name != "at"@
            && name != "bracketleft"@
            && name != "backslash"@
            && name != "bracketright"@
            && name != "asciicircum"@
            && name != "underscore"@
            && name != "grave"@
            && name != "braceleft"@
            && name != "bar"@
            && name != "braceright"@
            && name != "asciitilde"@,
{
}

/// A key that is used goes by its name, and the ones that turn pages by either of theirs.
pub proof fn keys_go_by_their_names(name: Seq<char>)
    requires
        name.len() > 1,
    ensures
        keysym_named(name) == keys::BACKSPACE ==> name == "BackSpace"@,
        keysym_named(name) == keys::TAB ==> name == "Tab"@,
        keysym_named(name) == keys::ISO_LEFT_TAB ==> name == "ISO_Left_Tab"@,
        keysym_named(name) == keys::RETURN ==> name == "Return"@,
        keysym_named(name) == keys::ESCAPE ==> name == "Escape"@,
        keysym_named(name) == keys::HOME ==> name == "Home"@,
        keysym_named(name) == keys::LEFT ==> name == "Left"@,
        keysym_named(name) == keys::UP ==> name == "Up"@,
        keysym_named(name) == keys::RIGHT ==> name == "Right"@,
        keysym_named(name) == keys::DOWN ==> name == "Down"@,
        keysym_named(name) == keys::END ==> name == "End"@,
        keysym_named(name) == keys::DELETE ==> name == "Delete"@,
        keysym_named(name) == keys::KP_ENTER ==> name == "KP_Enter"@,
        keysym_named(name) == keys::KP_HOME ==> name == "KP_Home"@,
        keysym_named(name) == keys::KP_LEFT ==> name == "KP_Left"@,
        keysym_named(name) == keys::KP_UP ==> name == "KP_Up"@,
        keysym_named(name) == keys::KP_RIGHT ==> name == "KP_Right"@,
        keysym_named(name) == keys::KP_DOWN ==> name == "KP_Down"@,
        keysym_named(name) == keys::KP_END ==> name == "KP_End"@,
        keysym_named(name) == keys::KP_INSERT ==> name == "KP_Insert"@,
        keysym_named(name) == keys::KP_DELETE ==> name == "KP_Delete"@,
        keysym_named(name) == keys::KP_ADD ==> name == "KP_Add"@,
        keysym_named(name) == keys::KP_SUBTRACT ==> name == "KP_Subtract"@,
        keysym_named(name) == keys::KP_0 ==> name == "KP_0"@,
        keysym_named(name) == keys::F5 ==> name == "F5"@,
        keysym_named(name) == keys::PAGE_UP ==> name == "Prior"@ || name == "Page_Up"@,
        keysym_named(name) == keys::PAGE_DOWN ==> name == "Next"@ || name == "Page_Down"@,
        keysym_named(name) == keys::KP_PAGE_UP ==> name == "KP_Prior"@ || name == "KP_Page_Up"@,
        keysym_named(name) == keys::KP_PAGE_DOWN ==> name == "KP_Next"@ || name == "KP_Page_Down"@,
        keysym_named(name) == 0 ==> name != "BackSpace"@
            && name != "Tab"@
            && name != "ISO_Left_Tab"@
            && name != "Return"@
            && name != "Escape"@
            && name != "Home"@
            && name != "Left"@
            && name != "Up"@
            && name != "Right"@
            && name != "Down"@
            && name != "End"@
            && name != "Delete"@
            && name != "KP_Enter"@
            && name != "KP_Home"@
            && name != "KP_Left"@
            && name != "KP_Up"@
            && name != "KP_Right"@
            && name != "KP_Down"@
            && name != "KP_End"@
            && name != "KP_Insert"@
            && name != "KP_Delete"@
            && name != "KP_Add"@
            && name != "KP_Subtract"@
            && name != "KP_0"@
            && name != "F5"@
            && name != "Prior"@
            && name != "Page_Up"@
            && name != "Next"@
            && name != "Page_Down"@
            && name != "KP_Prior"@
            && name != "KP_Page_Up"@
            && name != "KP_Next"@
            && name != "KP_Page_Down"@,
{
}

/// A key of the symbols is read with its name and the keysyms of its first list, and the keys after
/// it in the same way.
pub proof fn keys_are_read_one_by_one(name: Seq<char>, list: Seq<char>, after: Seq<char>)
    requires
        name.len() > 0,
        name[0] != '<',
        name.last() != '>',
        forall|i: int| 0 <= i < name.len() ==> #[trigger] name[i] != '{',
        forall|i: int|
            0 <= i < list.len() ==> #[trigger] list[i] != '{' && list[i] != '}' && list[i] != ']',
    ensures
        ({
            let text = "key "@ + (seq!['<'] + name + seq!['>']) + (seq!['{'] + (seq!['['] + list
                + seq![']']) + seq!['}'] + after);
            let names = crate::search::split(list, ',');
            let read = keys_in(text);
            &&& read.len() == 1 + keys_in(after).len()
            &&& read[0].0 == name
            &&& read[0].1.len() == names.len()
            &&& forall|i: int|
                0 <= i < names.len() ==> #[trigger] read[0].1[i] == keysym_named(trim(names[i]))
            &&& read.drop_first() == keys_in(after)
        }),
{
    reveal_strlit("key ");
    let braced_name = seq!['<'] + name + seq!['>'];
    let body = seq!['['] + list + seq![']'];
    let block = seq!['{'] + body + seq!['}'] + after;
    let text = "key "@ + braced_name + block;
    assert(text.subrange(0, 4) =~= "key "@);
    assert(crate::search::is_at(text, "key "@, 0));
    crate::search::found_is_first(text, "key "@, 0);
    let rest = text.skip(4);
    assert(rest =~= braced_name + block);
    let open = braced_name.len() as int;
    assert forall|j: int| 0 <= j < open implies rest[j] != '{' by {
        if 0 < j <= name.len() {
            assert(rest[j] == name[j - 1]);
        }
    }
    crate::search::one_is_found(rest, '{', open);
    assert(rest.skip(open) =~= block);
    assert forall|i: int| 0 <= i < body.len() implies #[trigger] body[i] != '{' && body[i]
        != '}' by {
        if 0 < i <= list.len() {
            assert(body[i] == list[i - 1]);
        }
    }
    a_block_ends_at_its_own_brace(body, after);
    let length = body.len() as int + 2;
    assert(block.skip(length) =~= after);
    assert(block.subrange(1, length - 1) =~= body);
    the_first_list_says_the_keysyms(list, Seq::empty());
    assert(body + Seq::<char>::empty() =~= body);
    assert(rest.take(open) =~= braced_name);
    a_name_goes_without_its_brackets(name);
    let first = seq![(name, levels_in(body)->0)];
    assert(keys_in(text) == first + keys_in(after));
    assert((first + keys_in(after)).drop_first() =~= keys_in(after));
}

} // verus!
