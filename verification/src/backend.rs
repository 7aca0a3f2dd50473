//! What the windowing systems have in common: keys, buttons and modifiers, and which system to
//! open a window on.

use vstd::prelude::*;

use crate::text::{append, literal, same_text};

verus! {

/// Modifiers held with a key or a click.
#[derive(Clone, Copy, Debug, PartialEq, Eq, Structural)]
pub struct Mods {
    pub shift: bool,
    pub control: bool,
}

impl Default for Mods {
    fn default() -> (mods: Self)
        ensures
            mods == (Mods { shift: false, control: false }),
    {
        Mods { shift: false, control: false }
    }
}

#[derive(Clone, Copy, Debug, PartialEq, Eq, Structural)]
pub enum Button {
    Left,
    Right,
    WheelUp,
    WheelDown,
    /// The mouse's back (thumb) button.
    Back,
    Other,
}

/// A windowing system.
#[derive(Clone, Copy, Debug, PartialEq, Eq, Structural)]
pub enum System {
    Wayland,
    X11,
}

/// Whether a keysym is a letter: only those of Latin-1 are characters.
pub open spec fn is_letter(keysym: u32) -> bool {
    ||| 0x41 <= keysym <= 0x5a
    ||| 0x61 <= keysym <= 0x7a
    ||| keysym == 0xaa
    ||| keysym == 0xb5
    ||| keysym == 0xba
    ||| 0xc0 <= keysym <= 0xff && keysym != 0xd7 && keysym != 0xf7
}

/// The lower case of a letter.
pub open spec fn lower_case(keysym: u32) -> u32 {
    if 0x41 <= keysym <= 0x5a || (0xc0 <= keysym <= 0xde && keysym != 0xd7) {
        (keysym + 0x20) as u32
    } else {
        keysym
    }
}

/// The first character of a letter's upper case.
pub open spec fn upper_case(keysym: u32) -> u32 {
    if 0x61 <= keysym <= 0x7a || (0xe0 <= keysym <= 0xfe && keysym != 0xf7) {
        (keysym - 0x20) as u32
    } else if keysym == 0xb5 {
        0x39c
    } else if keysym == 0xdf {
        0x53
    } else if keysym == 0xff {
        0x178
    } else {
        keysym
    }
}

/// A key's keysyms without and with Shift. One with a single keysym shifts by case.
pub open spec fn cases(plain: u32, shifted: u32) -> (u32, u32) {
    if shifted != 0 {
        (plain, shifted)
    } else if is_letter(plain) {
        (lower_case(plain), upper_case(plain))
    } else {
        (plain, plain)
    }
}

/// What a key means: Caps Lock turns Shift round for letters, and for nothing else.
pub open spec fn key_meaning(plain: u32, shifted: u32, shift: bool, lock: bool) -> u32 {
    let (lower, upper) = cases(plain, shifted);
    if shift != (lock && is_letter(lower)) {
        upper
    } else {
        lower
    }
}

fn letter(keysym: u32) -> (is: bool)
    ensures
        is == is_letter(keysym),
{
    (0x41 <= keysym && keysym <= 0x5a) || (0x61 <= keysym && keysym <= 0x7a) || keysym == 0xaa
        || keysym == 0xb5 || keysym == 0xba || (0xc0 <= keysym && keysym <= 0xff && keysym != 0xd7
        && keysym != 0xf7)
}

fn to_lower(keysym: u32) -> (lower: u32)
    ensures
        lower == lower_case(keysym),
{
    if (0x41 <= keysym && keysym <= 0x5a) || (0xc0 <= keysym && keysym <= 0xde && keysym != 0xd7) {
        keysym + 0x20
    } else {
        keysym
    }
}

fn to_upper(keysym: u32) -> (upper: u32)
    ensures
        upper == upper_case(keysym),
{
    if (0x61 <= keysym && keysym <= 0x7a) || (0xe0 <= keysym && keysym <= 0xfe && keysym != 0xf7) {
        keysym - 0x20
    } else if keysym == 0xb5 {
        0x39c
    } else if keysym == 0xdf {
        0x53
    } else if keysym == 0xff {
        0x178
    } else {
        keysym
    }
}

/// The keysym a key press means, from a key's unshifted and shifted keysyms. A key with one
/// keysym shifts by case, and Caps Lock only ever changes letters. No shifted keysym, 0, means
/// the key has only one.
pub fn level_keysym(plain: u32, shifted: u32, shift: bool, lock: bool) -> (keysym: u32)
    ensures
        keysym == key_meaning(plain, shifted, shift, lock),
{
    let (lower, upper): (u32, u32) = if shifted != 0 {
        (plain, shifted)
    } else if letter(plain) {
        (to_lower(plain), to_upper(plain))
    } else {
        (plain, plain)
    };
    if shift != (lock && letter(lower)) {
        upper
    } else {
        lower
    }
}

/// Shift with Caps Lock means what neither does, for letters, and Caps Lock alone changes
/// nothing else.
pub proof fn caps_lock_only_touches_letters(plain: u32, shifted: u32, shift: bool)
    ensures
        is_letter(cases(plain, shifted).0) ==> key_meaning(plain, shifted, shift, true)
            == key_meaning(plain, shifted, !shift, false),
        !is_letter(cases(plain, shifted).0) ==> key_meaning(plain, shifted, shift, true)
            == key_meaning(plain, shifted, shift, false),
{
}

/// Which windowing systems to try, in order: the one that `forced` names, else Wayland first
/// when there is a Wayland display and X11 first when not. An error when it names neither.
pub fn systems_to_try(forced: &Option<String>, wayland_display: bool) -> (order: Result<
    Vec<System>,
    String,
>)
    ensures
        match *forced {
            Some(name) => if name@ == "wayland"@ {
                order is Ok && order->Ok_0@ == seq![System::Wayland]
            } else if name@ == "x11"@ {
                order is Ok && order->Ok_0@ == seq![System::X11]
            } else {
                order is Err && order->Err_0@ == ("DUSCAPE_BACKEND="@ + name@)
                    + ": use wayland or x11"@
            },
            None => order is Ok && order->Ok_0@ == if wayland_display {
                seq![System::Wayland, System::X11]
            } else {
                seq![System::X11, System::Wayland]
            },
        },
{
    let mut order: Vec<System> = Vec::new();
    match forced {
        Some(name) => {
            if same_text(name.as_str(), "wayland") {
                order.push(System::Wayland);
                assert(order@ =~= seq![System::Wayland]);
            } else if same_text(name.as_str(), "x11") {
                order.push(System::X11);
                assert(order@ =~= seq![System::X11]);
            } else {
                let mut error = literal("DUSCAPE_BACKEND=");
                append(&mut error, name.as_str());
                append(&mut error, ": use wayland or x11");
                return Err(error);
            }
        },
        None => {
            if wayland_display {
                order.push(System::Wayland);
                order.push(System::X11);
                assert(order@ =~= seq![System::Wayland, System::X11]);
            } else {
                order.push(System::X11);
                order.push(System::Wayland);
                assert(order@ =~= seq![System::X11, System::Wayland]);
            }
        },
    }
    Ok(order)
}

/// A letter key gives the small letter, and with Shift the capital; Caps Lock turns that about. A
/// key with a meaning of its own for Shift gives that one, whatever Caps Lock is.
pub proof fn shift_gives_the_other_case(letter: u32, plain: u32, shifted: u32)
    requires
        'a' as u32 <= letter <= 'z' as u32,
        '0' as u32 <= plain <= '9' as u32,
        shifted != 0,
    ensures
        key_meaning(letter, 0, false, false) == letter,
        key_meaning(letter, 0, true, false) == letter - 0x20,
        key_meaning(letter, 0, false, true) == letter - 0x20,
        key_meaning(letter, 0, true, true) == letter,
        key_meaning(plain, shifted, false, false) == plain,
        key_meaning(plain, shifted, false, true) == plain,
        key_meaning(plain, shifted, true, false) == shifted,
        key_meaning(plain, shifted, true, true) == shifted,
        key_meaning(plain, 0, true, false) == plain,
{
}

/// The two cases of a letter lead to each other.
pub proof fn the_cases_of_a_letter_lead_to_each_other(keysym: u32)
    ensures
        'A' as u32 <= keysym <= 'Z' as u32 ==> lower_case(keysym) == keysym + 0x20 && upper_case(
            lower_case(keysym),
        ) == keysym,
        'a' as u32 <= keysym <= 'z' as u32 ==> upper_case(keysym) == keysym - 0x20 && lower_case(
            upper_case(keysym),
        ) == keysym,
        lower_case(lower_case(keysym)) == lower_case(keysym),
        !is_letter(keysym) ==> lower_case(keysym) == keysym && upper_case(keysym) == keysym,
{
}

/// The accented letters have their cases as far apart as the plain ones have.
pub proof fn accented_letters_have_cases_too(keysym: u32)
    ensures
        0xc0 <= keysym <= 0xde && keysym != 0xd7 ==> lower_case(keysym) == keysym + 32
            && upper_case((keysym + 32) as u32) == keysym,
        lower_case(0xd7) == 0xd7 && upper_case(0xf7) == 0xf7,
        keysym >= 0x100 ==> lower_case(keysym) == keysym && upper_case(keysym) == keysym,
{
}

} // verus!
