//! An X11 window: its keyboard mapping, and what each of the server's events means.

use vstd::prelude::*;

use crate::backend::{key_meaning, level_keysym, Button, Mods};

verus! {

/// Modifier bits in an event's state.
pub const SHIFT: u16 = 1;

pub const LOCK: u16 = 2;

pub const CONTROL: u16 = 4;

/// The core keyboard mapping: keysyms per keycode, columns 0 and 1 being without and with Shift.
pub struct Keymap {
    pub min_keycode: u8,
    pub per_keycode: u8,
    pub keysyms: Vec<u32>,
}

/// Whether a bit is set in an event's state.
pub open spec fn has_bit(state: u16, bit: u16) -> bool {
    state & bit != 0
}

impl Keymap {
    /// A keysym in a column of a key, 0 where there is none.
    pub open spec fn column(self, keycode: u8, column: int) -> u32 {
        let at = (keycode - self.min_keycode) * self.per_keycode + column;
        if 0 <= at < self.keysyms.len() {
            self.keysyms@[at]
        } else {
            0
        }
    }

    /// What a key press means.
    pub open spec fn meaning(self, keycode: u8, state: u16) -> Option<u32> {
        if keycode < self.min_keycode || self.column(keycode, 0) == 0 {
            None
        } else {
            Some(
                key_meaning(
                    self.column(keycode, 0),
                    self.column(keycode, 1),
                    has_bit(state, SHIFT),
                    has_bit(state, LOCK),
                ),
            )
        }
    }

    /// The keysym a key press means, given the modifiers held.
    pub fn keysym(&self, keycode: u8, state: u16) -> (keysym: Option<u32>)
        ensures
            keysym == self.meaning(keycode, state),
    {
        if keycode < self.min_keycode {
            return None;
        }
        let (row, per): (usize, usize) = (
            (keycode - self.min_keycode) as usize,
            self.per_keycode as usize,
        );
        assert(0 <= row * per <= 255 * 255) by (nonlinear_arith)
            requires
                row <= 255,
                per <= 255,
        ;
        let start: usize = row * per;
        let plain: u32 = if start < self.keysyms.len() {
            self.keysyms[start]
        } else {
            0
        };
        let shifted: u32 = if start + 1 < self.keysyms.len() {
            self.keysyms[start + 1]
        } else {
            0
        };
        if plain == 0 {
            return None;
        }
        Some(level_keysym(plain, shifted, state & SHIFT != 0, state & LOCK != 0))
    }
}

pub open spec fn mods_of(state: u16) -> Mods {
    Mods { shift: has_bit(state, SHIFT), control: has_bit(state, CONTROL) }
}

/// The modifiers held with an event.
pub fn mods(state: u16) -> (held: Mods)
    ensures
        held == mods_of(state),
{
    Mods { shift: state & SHIFT != 0, control: state & CONTROL != 0 }
}

/// A button by its number: the thumb's goes back.
pub open spec fn button_number(detail: u8) -> Button {
    if detail == 1 {
        Button::Left
    } else if detail == 3 {
        Button::Right
    } else if detail == 4 {
        Button::WheelUp
    } else if detail == 5 {
        Button::WheelDown
    } else if detail == 8 {
        Button::Back
    } else {
        Button::Other
    }
}

/// What the server reports.
#[derive(Debug, Clone, Copy, PartialEq, Eq, Structural)]
pub enum XEvent {
    /// Some of the window was lost; so many more reports follow.
    Expose { count: u16 },
    /// The window's size, in pixels.
    Configure { width: u16, height: u16 },
    Key { keycode: u8, state: u16 },
    /// A button, and where in pixels.
    Button { detail: u8, x: i16, y: i16, state: u16 },
    Motion { x: i16, y: i16 },
    Leave,
    Focus(bool),
    /// A message from another client: whether it is the window manager closing the window.
    Message { closes: bool },
    /// Another client has taken the clipboard.
    SelectionClear,
    /// The keyboard mapping changed.
    Mapping,
}

/// What a report means to the window. Places and sizes are in pixels.
#[derive(Debug, Clone, Copy, PartialEq, Eq, Structural)]
pub enum XInput {
    Redraw,
    Resized { width: u16, height: u16 },
    Key { keysym: u32, mods: Mods },
    Button { button: Button, x: i16, y: i16, mods: Mods },
    Motion { x: i16, y: i16 },
    Leave,
    Focus(bool),
    Close,
    /// The clipboard's text is no longer this window's to give.
    DropClipboard,
    /// Fetch the keyboard mapping again.
    FetchKeymap,
    Nothing,
}

/// What of a window its events are read by: the keyboard mapping, and the size last known.
pub struct XWindow {
    pub keymap: Keymap,
    pub size: (u16, u16),
}

impl XWindow {
    /// What a report means.
    pub open spec fn means(self, event: XEvent) -> XInput {
        match event {
            XEvent::Expose { count } => if count == 0 {
                XInput::Redraw
            } else {
                XInput::Nothing
            },
            XEvent::Configure { width, height } => if (width, height) != self.size && width > 0
                && height > 0 {
                XInput::Resized { width, height }
            } else {
                XInput::Nothing
            },
            XEvent::Key { keycode, state } => match self.keymap.meaning(keycode, state) {
                Some(keysym) => XInput::Key { keysym, mods: mods_of(state) },
                None => XInput::Nothing,
            },
            XEvent::Button { detail, x, y, state } => XInput::Button {
                button: button_number(detail),
                x,
                y,
                mods: mods_of(state),
            },
            XEvent::Motion { x, y } => XInput::Motion { x, y },
            XEvent::Leave => XInput::Leave,
            XEvent::Focus(focused) => XInput::Focus(focused),
            XEvent::Message { closes } => if closes {
                XInput::Close
            } else {
                XInput::Nothing
            },
            XEvent::SelectionClear => XInput::DropClipboard,
            XEvent::Mapping => XInput::FetchKeymap,
        }
    }

    /// Take in a report. A new size is known from then on.
    pub fn event(&mut self, event: XEvent) -> (input: XInput)
        ensures
            input == old(self).means(event),
            final(self).keymap == old(self).keymap,
            final(self).size == match input {
                XInput::Resized { width, height } => (width, height),
                _ => old(self).size,
            },
    {
        match event {
            XEvent::Expose { count } => if count == 0 {
                XInput::Redraw
            } else {
                XInput::Nothing
            },
            XEvent::Configure { width, height } => {
                let changed = width != self.size.0 || height != self.size.1;
                if changed && width > 0 && height > 0 {
                    self.size = (width, height);
                    XInput::Resized { width, height }
                } else {
                    XInput::Nothing
                }
            },
            XEvent::Key { keycode, state } => match self.keymap.keysym(keycode, state) {
                Some(keysym) => XInput::Key { keysym, mods: mods(state) },
                None => XInput::Nothing,
            },
            XEvent::Button { detail, x, y, state } => {
                let button = if detail == 1 {
                    Button::Left
                } else if detail == 3 {
                    Button::Right
                } else if detail == 4 {
                    Button::WheelUp
                } else if detail == 5 {
                    Button::WheelDown
                } else if detail == 8 {
                    Button::Back
                } else {
                    Button::Other
                };
                XInput::Button { button, x, y, mods: mods(state) }
            },
            XEvent::Motion { x, y } => XInput::Motion { x, y },
            XEvent::Leave => XInput::Leave,
            XEvent::Focus(focused) => XInput::Focus(focused),
            XEvent::Message { closes } => if closes {
                XInput::Close
            } else {
                XInput::Nothing
            },
            XEvent::SelectionClear => XInput::DropClipboard,
            XEvent::Mapping => XInput::FetchKeymap,
        }
    }
}

/// The atoms that a clipboard request is answered by.
#[derive(Debug, Clone, Copy, PartialEq, Eq, Structural)]
pub struct ClipboardAtoms {
    pub targets: u32,
    pub utf8: u32,
    pub string: u32,
}

/// What another client is given that wants the clipboard's contents.
#[derive(Debug, Clone, Copy, PartialEq, Eq, Structural)]
pub enum Given {
    /// The list of forms there are.
    Targets,
    /// The text.
    Text,
    Nothing,
}

/// What another client is given that wants the clipboard's contents in a form, and in which
/// property: the one it names, or one named like the form where it names none, which is 0.
pub fn clipboard_answer(atoms: &ClipboardAtoms, target: u32, property: u32) -> (answer: (Given, u32))
    ensures
        answer.1 == if property == 0 {
            target
        } else {
            property
        },
        answer.0 == if target == atoms.targets {
            Given::Targets
        } else if target == atoms.utf8 || target == atoms.string {
            Given::Text
        } else {
            Given::Nothing
        },
{
    let property: u32 = if property == 0 {
        target
    } else {
        property
    };
    if target == atoms.targets {
        (Given::Targets, property)
    } else if target == atoms.utf8 || target == atoms.string {
        (Given::Text, property)
    } else {
        (Given::Nothing, property)
    }
}

/// The property that the answer is announced in: none, 0, where nothing was given.
pub fn announced_property(given: bool, property: u32) -> (announced: u32)
    ensures
        announced == if given {
            property
        } else {
            0
        },
{
    if given {
        property
    } else {
        0
    }
}

/// Shift is the first bit of the state, Caps Lock the second and Control the third.
pub proof fn modifiers_are_bits_of_the_state(state: u16)
    ensures
        mods_of(state).shift == (state % 2 == 1),
        mods_of(state).control == (state / 4 % 2 == 1),
        has_bit(state, LOCK) == (state / 2 % 2 == 1),
{
    assert((state & 1 != 0) == (state % 2 == 1)) by (bit_vector);
    assert((state & 2 != 0) == (state / 2 % 2 == 1)) by (bit_vector);
    assert((state & 4 != 0) == (state / 4 % 2 == 1)) by (bit_vector);
}

/// A key's meanings are those of its own row of the mapping, counted from the first key there is:
/// the first without Shift and the second with it.
pub proof fn a_key_has_its_own_row(keymap: Keymap, keycode: u8, plain: u32, shifted: u32)
    requires
        keymap.min_keycode <= keycode,
        keymap.per_keycode >= 2,
        (keycode - keymap.min_keycode) * keymap.per_keycode + 1 < keymap.keysyms.len(),
        keymap.keysyms@[(keycode - keymap.min_keycode) * keymap.per_keycode] == plain,
        keymap.keysyms@[(keycode - keymap.min_keycode) * keymap.per_keycode + 1] == shifted,
        plain != 0,
        shifted != 0,
        plain < 0x41,
    ensures
        keymap.meaning(keycode, 0) == Some(plain),
        keymap.meaning(keycode, 1) == Some(shifted),
        keymap.min_keycode > 0 ==> keymap.meaning((keymap.min_keycode - 1) as u8, 0) is None,
{
    assert((keycode - keymap.min_keycode) * keymap.per_keycode >= 0) by (nonlinear_arith)
        requires
            keymap.min_keycode <= keycode,
            keymap.per_keycode >= 2,
    ;
    assert(0u16 & 1 == 0 && 0u16 & 2 == 0 && 1u16 & 1 != 0 && 1u16 & 2 == 0) by (bit_vector);
}

/// The buttons go by their numbers: left, right, the wheel both ways, and the one that goes back.
pub proof fn buttons_go_by_their_numbers(detail: u8)
    ensures
        button_number(detail) == Button::Left <==> detail == 1,
        button_number(detail) == Button::Right <==> detail == 3,
        button_number(detail) == Button::WheelUp <==> detail == 4,
        button_number(detail) == Button::WheelDown <==> detail == 5,
        button_number(detail) == Button::Back <==> detail == 8,
{
}

/// What the server reports is handed on as it is: a size only where it is another, a redraw only
/// with the last of the reports, and a message only where it closes the window.
pub proof fn reports_are_handed_on(window: XWindow, width: u16, height: u16, x: i16, y: i16, state: u16)
    ensures
        window.means(XEvent::Configure { width, height }) == (XInput::Resized { width, height })
            <==> (width != window.size.0 || height != window.size.1) && width > 0 && height > 0,
        window.means(XEvent::Expose { count: 0 }) == XInput::Redraw,
        window.means(XEvent::Expose { count: 1 }) == XInput::Nothing,
        window.means(XEvent::Motion { x, y }) == (XInput::Motion { x, y }),
        window.means(XEvent::Message { closes: true }) == XInput::Close,
        window.means(XEvent::Message { closes: false }) == XInput::Nothing,
        window.means(XEvent::Focus(true)) == XInput::Focus(true),
        window.means(XEvent::Focus(false)) == XInput::Focus(false),
        window.means(XEvent::Leave) == XInput::Leave,
        window.means(XEvent::SelectionClear) == XInput::DropClipboard,
        window.means(XEvent::Mapping) == XInput::FetchKeymap,
        window.means(XEvent::Button { detail: 1, x, y, state }) == (XInput::Button {
            button: Button::Left,
            x,
            y,
            mods: mods_of(state),
        }),
{
}

} // verus!
