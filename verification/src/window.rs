//! What a window's keys and buttons do.

use vstd::prelude::*;

use crate::backend::{Button, Mods};
use crate::keys;
use crate::state::pointer::Hit;
use crate::state::{Direction, Jump};
use crate::text::{literal, same_text};

verus! {

/// What a key does.
#[derive(Debug, Clone, Copy, PartialEq, Eq, Structural)]
pub enum KeyAction {
    /// Answer the dialog that is open.
    Answer(bool),
    /// Move, and mark on the way.
    Arrow(Direction, bool),
    Jump(Jump, bool),
    /// Into the folder in hand.
    Enter,
    /// Up to the folder above.
    Up,
    ToggleFocus,
    /// Remove what is in hand or marked: for good, or to the Trash.
    Remove(bool),
    ZoomIn,
    ZoomOut,
    ResetZoom,
    RescanSelected,
    RescanAll,
    MarkAll,
    /// Copy paths: relative where they can be, or in full.
    CopyPaths(bool),
    ToggleSize,
    ToggleSidebar,
    QuickLook,
    Quit,
    Nothing,
}

/// What a key does while a dialog is open.
pub open spec fn dialog_key(keysym: u32) -> KeyAction {
    if keysym == keys::RETURN || keysym == keys::KP_ENTER || keysym == 'y' as u32 || keysym
        == 'Y' as u32 {
        KeyAction::Answer(true)
    } else if keysym == keys::ESCAPE || keysym == 'n' as u32 || keysym == 'N' as u32 || keysym
        == 'q' as u32 {
        KeyAction::Answer(false)
    } else {
        KeyAction::Nothing
    }
}

/// What a key that types no character does.
pub open spec fn function_key(keysym: u32, shift: bool) -> Option<KeyAction> {
    if keysym == keys::LEFT || keysym == keys::KP_LEFT {
        Some(KeyAction::Arrow(Direction::Left, shift))
    } else if keysym == keys::RIGHT || keysym == keys::KP_RIGHT {
        Some(KeyAction::Arrow(Direction::Right, shift))
    } else if keysym == keys::UP || keysym == keys::KP_UP {
        Some(KeyAction::Arrow(Direction::Up, shift))
    } else if keysym == keys::DOWN || keysym == keys::KP_DOWN {
        Some(KeyAction::Arrow(Direction::Down, shift))
    } else if keysym == keys::PAGE_UP || keysym == keys::KP_PAGE_UP {
        Some(KeyAction::Jump(Jump::PageUp, shift))
    } else if keysym == keys::PAGE_DOWN || keysym == keys::KP_PAGE_DOWN {
        Some(KeyAction::Jump(Jump::PageDown, shift))
    } else if keysym == keys::HOME || keysym == keys::KP_HOME {
        Some(KeyAction::Jump(Jump::Home, shift))
    } else if keysym == keys::END || keysym == keys::KP_END {
        Some(KeyAction::Jump(Jump::End, shift))
    } else if keysym == keys::RETURN || keysym == keys::KP_ENTER {
        Some(KeyAction::Enter)
    } else if keysym == keys::ESCAPE || keysym == keys::BACKSPACE {
        Some(KeyAction::Up)
    } else if keysym == keys::TAB || keysym == keys::ISO_LEFT_TAB {
        Some(KeyAction::ToggleFocus)
    } else if keysym == keys::DELETE || keysym == keys::KP_DELETE {
        Some(KeyAction::Remove(shift))
    } else if keysym == keys::KP_ADD {
        Some(KeyAction::ZoomIn)
    } else if keysym == keys::KP_SUBTRACT {
        Some(KeyAction::ZoomOut)
    } else if keysym == keys::KP_0 {
        Some(KeyAction::ResetZoom)
    } else if keysym == keys::F5 {
        Some(KeyAction::RescanAll)
    } else {
        None
    }
}

/// What a character does with Control held.
pub open spec fn control_key(keysym: u32, shift: bool) -> KeyAction {
    if keysym == 'c' as u32 || keysym == 'C' as u32 {
        KeyAction::CopyPaths(shift)
    } else if keysym == 'a' as u32 || keysym == 'A' as u32 {
        KeyAction::MarkAll
    } else if keysym == 'q' as u32 || keysym == 'Q' as u32 || keysym == 'w' as u32 || keysym
        == 'W' as u32 {
        KeyAction::Quit
    } else if keysym == 'r' as u32 {
        KeyAction::RescanSelected
    } else if keysym == 'R' as u32 {
        KeyAction::RescanAll
    } else {
        KeyAction::Nothing
    }
}

/// What a character does.
pub open spec fn character_key(keysym: u32) -> KeyAction {
    if keysym == 'a' as u32 {
        KeyAction::ToggleSize
    } else if keysym == '+' as u32 || keysym == '=' as u32 {
        KeyAction::ZoomIn
    } else if keysym == '-' as u32 || keysym == '_' as u32 {
        KeyAction::ZoomOut
    } else if keysym == '0' as u32 {
        KeyAction::ResetZoom
    } else if keysym == 'r' as u32 {
        KeyAction::RescanSelected
    } else if keysym == 'R' as u32 {
        KeyAction::RescanAll
    } else if keysym == 's' as u32 || keysym == 'S' as u32 {
        KeyAction::ToggleSidebar
    } else if keysym == 'd' as u32 {
        KeyAction::Remove(false)
    } else if keysym == 'D' as u32 {
        KeyAction::Remove(true)
    } else if keysym == 'q' as u32 {
        KeyAction::Quit
    } else {
        KeyAction::Nothing
    }
}

/// What a key does.
pub open spec fn key_action(keysym: u32, mods: Mods, dialog: bool) -> KeyAction {
    if dialog {
        dialog_key(keysym)
    } else {
        match function_key(keysym, mods.shift) {
            Some(action) => action,
            None => if mods.control {
                control_key(keysym, mods.shift)
            } else {
                character_key(keysym)
            },
        }
    }
}

fn on_function_key(keysym: u32, shift: bool) -> (action: Option<KeyAction>)
    ensures
        action == function_key(keysym, shift),
{
    if keysym == keys::LEFT || keysym == keys::KP_LEFT {
        Some(KeyAction::Arrow(Direction::Left, shift))
    } else if keysym == keys::RIGHT || keysym == keys::KP_RIGHT {
        Some(KeyAction::Arrow(Direction::Right, shift))
    } else if keysym == keys::UP || keysym == keys::KP_UP {
        Some(KeyAction::Arrow(Direction::Up, shift))
    } else if keysym == keys::DOWN || keysym == keys::KP_DOWN {
        Some(KeyAction::Arrow(Direction::Down, shift))
    } else if keysym == keys::PAGE_UP || keysym == keys::KP_PAGE_UP {
        Some(KeyAction::Jump(Jump::PageUp, shift))
    } else if keysym == keys::PAGE_DOWN || keysym == keys::KP_PAGE_DOWN {
        Some(KeyAction::Jump(Jump::PageDown, shift))
    } else if keysym == keys::HOME || keysym == keys::KP_HOME {
        Some(KeyAction::Jump(Jump::Home, shift))
    } else if keysym == keys::END || keysym == keys::KP_END {
        Some(KeyAction::Jump(Jump::End, shift))
    } else if keysym == keys::RETURN || keysym == keys::KP_ENTER {
        Some(KeyAction::Enter)
    } else if keysym == keys::ESCAPE || keysym == keys::BACKSPACE {
        Some(KeyAction::Up)
    } else if keysym == keys::TAB || keysym == keys::ISO_LEFT_TAB {
        Some(KeyAction::ToggleFocus)
    } else if keysym == keys::DELETE || keysym == keys::KP_DELETE {
        Some(KeyAction::Remove(shift))
    } else if keysym == keys::KP_ADD {
        Some(KeyAction::ZoomIn)
    } else if keysym == keys::KP_SUBTRACT {
        Some(KeyAction::ZoomOut)
    } else if keysym == keys::KP_0 {
        Some(KeyAction::ResetZoom)
    } else if keysym == keys::F5 {
        Some(KeyAction::RescanAll)
    } else {
        None
    }
}

/// What a key does, by its keysym and the modifiers held. A dialog that is open takes them all.
pub fn key(keysym: u32, mods: Mods, dialog: bool) -> (action: KeyAction)
    ensures
        action == key_action(keysym, mods, dialog),
{
    if dialog {
        return if keysym == keys::RETURN || keysym == keys::KP_ENTER || keysym == 'y' as u32
            || keysym == 'Y' as u32 {
            KeyAction::Answer(true)
        } else if keysym == keys::ESCAPE || keysym == 'n' as u32 || keysym == 'N' as u32 || keysym
            == 'q' as u32 {
            KeyAction::Answer(false)
        } else {
            KeyAction::Nothing
        };
    }
    if let Some(action) = on_function_key(keysym, mods.shift) {
        return action;
    }
    if mods.control {
        if keysym == 'c' as u32 || keysym == 'C' as u32 {
            KeyAction::CopyPaths(mods.shift)
        } else if keysym == 'a' as u32 || keysym == 'A' as u32 {
            KeyAction::MarkAll
        } else if keysym == 'q' as u32 || keysym == 'Q' as u32 || keysym == 'w' as u32 || keysym
            == 'W' as u32 {
            KeyAction::Quit
        } else if keysym == 'r' as u32 {
            KeyAction::RescanSelected
        } else if keysym == 'R' as u32 {
            KeyAction::RescanAll
        } else {
            KeyAction::Nothing
        }
    } else if keysym == 'a' as u32 {
        KeyAction::ToggleSize
    } else if keysym == '+' as u32 || keysym == '=' as u32 {
        KeyAction::ZoomIn
    } else if keysym == '-' as u32 || keysym == '_' as u32 {
        KeyAction::ZoomOut
    } else if keysym == '0' as u32 {
        KeyAction::ResetZoom
    } else if keysym == 'r' as u32 {
        KeyAction::RescanSelected
    } else if keysym == 'R' as u32 {
        KeyAction::RescanAll
    } else if keysym == 's' as u32 || keysym == 'S' as u32 {
        KeyAction::ToggleSidebar
    } else if keysym == 'd' as u32 {
        KeyAction::Remove(false)
    } else if keysym == 'D' as u32 {
        KeyAction::Remove(true)
    } else if keysym == 'q' as u32 {
        KeyAction::Quit
    } else {
        KeyAction::Nothing
    }
}

/// While a dialog is open a key answers it or does nothing.
pub proof fn a_dialog_takes_every_key(keysym: u32, mods: Mods)
    ensures
        key_action(keysym, mods, true) is Answer || key_action(keysym, mods, true)
            == KeyAction::Nothing,
{
}

/// With no dialog open no key answers one, so that what asks first is answered only once asked.
pub proof fn no_key_answers_unasked(keysym: u32, mods: Mods)
    ensures
        !(key_action(keysym, mods, false) is Answer),
{
}

/// What a key that types no character does, by its code on a Mac's keyboard.
pub open spec fn mac_code(code: u16, extend: bool) -> Option<KeyAction> {
    match code {
        123 => Some(KeyAction::Arrow(Direction::Left, extend)),
        124 => Some(KeyAction::Arrow(Direction::Right, extend)),
        125 => Some(KeyAction::Arrow(Direction::Down, extend)),
        126 => Some(KeyAction::Arrow(Direction::Up, extend)),
        116 => Some(KeyAction::Jump(Jump::PageUp, extend)),
        121 => Some(KeyAction::Jump(Jump::PageDown, extend)),
        115 => Some(KeyAction::Jump(Jump::Home, extend)),
        119 => Some(KeyAction::Jump(Jump::End, extend)),
        36 => Some(KeyAction::Enter),
        76 => Some(KeyAction::Enter),
        53 => Some(KeyAction::Up),
        51 => Some(KeyAction::Up),
        48 => Some(KeyAction::ToggleFocus),
        117 => Some(KeyAction::Remove(false)),
        49 => Some(KeyAction::QuickLook),
        _ => None,
    }
}

/// What the characters that a key types do, on a Mac.
pub open spec fn mac_characters(characters: Seq<char>) -> KeyAction {
    if characters == "a"@ {
        KeyAction::ToggleSize
    } else if characters == "+"@ || characters == "="@ {
        KeyAction::ZoomIn
    } else if characters == "-"@ || characters == "_"@ {
        KeyAction::ZoomOut
    } else if characters == "0"@ {
        KeyAction::ResetZoom
    } else if characters == "r"@ {
        KeyAction::RescanSelected
    } else if characters == "R"@ {
        KeyAction::RescanAll
    } else if characters == "d"@ {
        KeyAction::Remove(false)
    } else {
        KeyAction::Nothing
    }
}

/// What a key does on a Mac, by its code and the characters it types. With Command or Control
/// held it is the menus' to take.
pub fn mac_key(code: u16, characters: &str, command: bool, control: bool, shift: bool) -> (action:
    KeyAction)
    ensures
        action == if command || control {
            KeyAction::Nothing
        } else {
            match mac_code(code, shift) {
                Some(action) => action,
                None => mac_characters(characters@),
            }
        },
{
    if command || control {
        return KeyAction::Nothing;
    }
    match code {
        123 => KeyAction::Arrow(Direction::Left, shift),
        124 => KeyAction::Arrow(Direction::Right, shift),
        125 => KeyAction::Arrow(Direction::Down, shift),
        126 => KeyAction::Arrow(Direction::Up, shift),
        116 => KeyAction::Jump(Jump::PageUp, shift),
        121 => KeyAction::Jump(Jump::PageDown, shift),
        115 => KeyAction::Jump(Jump::Home, shift),
        119 => KeyAction::Jump(Jump::End, shift),
        // Return and keypad Enter.
        36 => KeyAction::Enter,
        76 => KeyAction::Enter,
        // Esc and Backspace.
        53 => KeyAction::Up,
        51 => KeyAction::Up,
        48 => KeyAction::ToggleFocus,
        // Forward delete.
        117 => KeyAction::Remove(false),
        49 => KeyAction::QuickLook,
        _ => {
            if same_text(characters, "a") {
                KeyAction::ToggleSize
            } else if same_text(characters, "+") || same_text(characters, "=") {
                KeyAction::ZoomIn
            } else if same_text(characters, "-") || same_text(characters, "_") {
                KeyAction::ZoomOut
            } else if same_text(characters, "0") {
                KeyAction::ResetZoom
            } else if same_text(characters, "r") {
                KeyAction::RescanSelected
            } else if same_text(characters, "R") {
                KeyAction::RescanAll
            } else if same_text(characters, "d") {
                KeyAction::Remove(false)
            } else {
                KeyAction::Nothing
            }
        },
    }
}

/// A button of the title bar that the window draws itself.
#[derive(Debug, Clone, Copy, PartialEq, Eq, Structural)]
pub enum TitleButton {
    Minimize,
    Maximize,
    Close,
}

/// What a press of a mouse button was on.
#[derive(Debug, Clone, Copy, PartialEq, Eq)]
pub struct Place {
    /// The button of the dialog under the pointer, and whether it confirms.
    pub dialog_button: Option<bool>,
    /// Whether the pointer is over the title bar that the window draws itself, and which of its
    /// buttons.
    pub title_bar: bool,
    pub title_button: Option<TitleButton>,
    /// The folder of the breadcrumb under the pointer, by its depth below the root.
    pub crumb: Option<usize>,
    pub over_list: bool,
    pub over_treemap: bool,
    /// Whether it is near the last press.
    pub near_last: bool,
}

/// What a press of a mouse button does.
#[derive(Debug, Clone, Copy, PartialEq, Eq)]
pub enum PressAction {
    Nothing,
    Answer(bool),
    Close,
    ToggleMaximize,
    Minimize,
    BeginMove,
    GoToDepth(usize),
    /// Take what is under the pointer in hand and enter it.
    ClickAndEnter,
    /// Take what is under the pointer in hand, marking as the modifiers say.
    Click { toggle: bool, range: bool },
    /// Take what is under the pointer in hand for its menu.
    Context,
    /// Scroll the list by so many rows.
    Scroll(isize),
    ZoomIn,
    ZoomOut,
    /// Up to the folder above.
    Up,
}

/// Two presses this close together, in nanoseconds, are a double-click.
pub const DOUBLE_CLICK: u64 = 500_000_000;

/// Rows of a wheel notch.
pub const WHEEL_ROWS: isize = 3;

/// What is said after a click, which took something in hand or did not: on the corner of the
/// entries too small for a tile, where those are.
pub fn said_after_click(clicked: bool, hit: &Hit) -> (words: Option<String>)
    ensures
        words is Some == (!clicked && *hit is SmallFiles),
        words is Some ==> words->0@ == "The entries too small for a tile are all in the list"@,
{
    match hit {
        Hit::SmallFiles => if clicked {
            None
        } else {
            Some(literal("The entries too small for a tile are all in the list"))
        },
        _ => None,
    }
}

/// When the main button was last pressed, in nanoseconds, if the next press could be a
/// double-click.
#[derive(Debug, Clone, Copy, PartialEq, Eq)]
pub struct Presses {
    pub last: Option<u64>,
}

impl Presses {
    /// Whether a press follows the last one soon enough.
    pub open spec fn is_soon(self, now: u64) -> bool {
        self.last is Some && now - self.last->0 < DOUBLE_CLICK
    }

    /// What a press of the main button does in the window itself.
    pub open spec fn main_press(self, mods: Mods, place: Place, now: u64) -> PressAction {
        if place.crumb is Some {
            PressAction::GoToDepth(place.crumb->0)
        } else if self.is_soon(now) && place.near_last && !mods.control && !mods.shift {
            PressAction::ClickAndEnter
        } else {
            PressAction::Click { toggle: mods.control, range: mods.shift }
        }
    }

    /// What a press of the main button does on the title bar that the window draws.
    pub open spec fn title_press(self, place: Place, now: u64) -> PressAction {
        match place.title_button {
            Some(TitleButton::Close) => PressAction::Close,
            Some(TitleButton::Maximize) => PressAction::ToggleMaximize,
            Some(TitleButton::Minimize) => PressAction::Minimize,
            None => if self.is_soon(now) {
                PressAction::ToggleMaximize
            } else {
                PressAction::BeginMove
            },
        }
    }

    /// What a press does.
    pub open spec fn action(
        self,
        button: Button,
        mods: Mods,
        place: Place,
        dialog: bool,
        now: u64,
    ) -> PressAction {
        if dialog {
            if button == Button::Left && place.dialog_button is Some {
                PressAction::Answer(place.dialog_button->0)
            } else {
                PressAction::Nothing
            }
        } else if place.title_bar {
            if button == Button::Left {
                self.title_press(place, now)
            } else {
                PressAction::Nothing
            }
        } else {
            match button {
                Button::Left => self.main_press(mods, place, now),
                Button::Right => PressAction::Context,
                Button::WheelUp => if place.over_list {
                    PressAction::Scroll(-3isize)
                } else if place.over_treemap {
                    PressAction::ZoomIn
                } else {
                    PressAction::Nothing
                },
                Button::WheelDown => if place.over_list {
                    PressAction::Scroll(WHEEL_ROWS)
                } else if place.over_treemap {
                    PressAction::ZoomOut
                } else {
                    PressAction::Nothing
                },
                Button::Back => PressAction::Up,
                _ => PressAction::Nothing,
            }
        }
    }

    /// The last press once this one has been answered. A double-click starts no other.
    pub open spec fn last_after(self, action: PressAction, title_button: bool, now: u64) -> Option<
        u64,
    > {
        match action {
            PressAction::Click { toggle: _, range: _ } | PressAction::BeginMove => Some(now),
            PressAction::ClickAndEnter | PressAction::GoToDepth(_) => None,
            PressAction::ToggleMaximize => if title_button {
                self.last
            } else {
                None
            },
            _ => self.last,
        }
    }

    /// What a press of a mouse button does.
    pub fn press(&mut self, button: Button, mods: Mods, place: Place, dialog: bool, now: u64) -> (action:
        PressAction)
        requires
            old(self).last is Some ==> old(self).last->0 <= now,
        ensures
            action == old(self).action(button, mods, place, dialog, now),
            final(self).last == old(self).last_after(action, place.title_button is Some, now),
    {
        if dialog {
            return match place.dialog_button {
                Some(confirms) => if button == Button::Left {
                    PressAction::Answer(confirms)
                } else {
                    PressAction::Nothing
                },
                None => PressAction::Nothing,
            };
        }
        let soon = match self.last {
            Some(at) => now - at < DOUBLE_CLICK,
            None => false,
        };
        if place.title_bar {
            if button != Button::Left {
                return PressAction::Nothing;
            }
            return match place.title_button {
                Some(TitleButton::Close) => PressAction::Close,
                Some(TitleButton::Maximize) => PressAction::ToggleMaximize,
                Some(TitleButton::Minimize) => PressAction::Minimize,
                None => {
                    if soon {
                        self.last = None;
                        PressAction::ToggleMaximize
                    } else {
                        self.last = Some(now);
                        PressAction::BeginMove
                    }
                },
            };
        }
        match button {
            Button::Left => {
                if let Some(depth) = place.crumb {
                    self.last = None;
                    return PressAction::GoToDepth(depth);
                }
                if soon && place.near_last && !mods.control && !mods.shift {
                    self.last = None;
                    PressAction::ClickAndEnter
                } else {
                    self.last = Some(now);
                    PressAction::Click { toggle: mods.control, range: mods.shift }
                }
            },
            Button::Right => PressAction::Context,
            Button::WheelUp => if place.over_list {
                PressAction::Scroll(-3)
            } else if place.over_treemap {
                PressAction::ZoomIn
            } else {
                PressAction::Nothing
            },
            Button::WheelDown => if place.over_list {
                PressAction::Scroll(WHEEL_ROWS)
            } else if place.over_treemap {
                PressAction::ZoomOut
            } else {
                PressAction::Nothing
            },
            Button::Back => PressAction::Up,
            _ => PressAction::Nothing,
        }
    }
}

/// A third press right after a double-click is a single one.
pub proof fn a_double_click_is_two_presses(
    presses: Presses,
    mods: Mods,
    place: Place,
    now: u64,
    later: u64,
)
    requires
        presses.action(Button::Left, mods, place, false, now) == PressAction::ClickAndEnter,
    ensures
        (Presses { last: presses.last_after(PressAction::ClickAndEnter, false, now) }).main_press(
            mods,
            Place { crumb: None, ..place },
            later,
        ) is Click,
{
}

/// When the next redraw for the clock's sake is due, in nanoseconds.
#[derive(Debug, Clone, Copy, PartialEq, Eq)]
pub struct Tick {
    pub due: Option<u64>,
}

impl Tick {
    /// Have the window drawn again at `due`. Returns whether that is to be arranged: not when
    /// it is drawn sooner anyway.
    pub fn at(&mut self, due: u64) -> (arrange: bool)
        ensures
            arrange == !(old(self).due is Some && old(self).due->0 <= due),
            final(self).due == if arrange {
                Some(due)
            } else {
                old(self).due
            },
    {
        if let Some(already) = self.due {
            if already <= due {
                return false;
            }
        }
        self.due = Some(due);
        true
    }
}

/// The keys of the window, by their numbers: the arrows move and with Shift mark on the way, Enter
/// goes in, Escape and Backspace go up, Delete removes, and with Shift for good.
pub proof fn the_windows_keys_do_what_they_are_for(mods: Mods)
    ensures
        key_action(0xff51, mods, false) == KeyAction::Arrow(Direction::Left, mods.shift),
        key_action(0xff52, mods, false) == KeyAction::Arrow(Direction::Up, mods.shift),
        key_action(0xff53, mods, false) == KeyAction::Arrow(Direction::Right, mods.shift),
        key_action(0xff54, mods, false) == KeyAction::Arrow(Direction::Down, mods.shift),
        key_action(0xff55, mods, false) == KeyAction::Jump(Jump::PageUp, mods.shift),
        key_action(0xff56, mods, false) == KeyAction::Jump(Jump::PageDown, mods.shift),
        key_action(0xff50, mods, false) == KeyAction::Jump(Jump::Home, mods.shift),
        key_action(0xff57, mods, false) == KeyAction::Jump(Jump::End, mods.shift),
        key_action(0xff0d, mods, false) == KeyAction::Enter,
        key_action(0xff1b, mods, false) == KeyAction::Up,
        key_action(0xff08, mods, false) == KeyAction::Up,
        key_action(0xff09, mods, false) == KeyAction::ToggleFocus,
        key_action(0xffff, mods, false) == KeyAction::Remove(mods.shift),
        key_action(0xffc2, mods, false) == KeyAction::RescanAll,
{
}

/// The letters of the window, without Control and with it. A small `d` moves to the Trash and a
/// capital one deletes at once; Control and C copies paths, and with Shift in full.
pub proof fn the_windows_letters_do_what_they_are_for(shift: bool)
    ensures
        ({
            let plain = |c: char|
                key_action(c as u32, Mods { shift, control: false }, false);
            let held = |c: char|
                key_action(c as u32, Mods { shift, control: true }, false);
            &&& plain('d') == KeyAction::Remove(false)
            &&& plain('D') == KeyAction::Remove(true)
            &&& plain('+') == KeyAction::ZoomIn
            &&& plain('=') == KeyAction::ZoomIn
            &&& plain('-') == KeyAction::ZoomOut
            &&& plain('0') == KeyAction::ResetZoom
            &&& plain('r') == KeyAction::RescanSelected
            &&& plain('R') == KeyAction::RescanAll
            &&& plain('a') == KeyAction::ToggleSize
            &&& plain('s') == KeyAction::ToggleSidebar
            &&& plain('q') == KeyAction::Quit
            &&& held('a') == KeyAction::MarkAll
            &&& held('c') == KeyAction::CopyPaths(shift)
            &&& held('C') == KeyAction::CopyPaths(shift)
            &&& held('q') == KeyAction::Quit
            &&& held('r') == KeyAction::RescanSelected
            &&& held('R') == KeyAction::RescanAll
            &&& held('d') == KeyAction::Nothing
        }),
{
}

/// A question is confirmed by Enter or `y` and refused by Escape or `n`, whatever is held.
pub proof fn a_question_is_answered_by_its_keys(mods: Mods)
    ensures
        key_action(0xff0d, mods, true) == KeyAction::Answer(true),
        key_action('y' as u32, mods, true) == KeyAction::Answer(true),
        key_action(0xff1b, mods, true) == KeyAction::Answer(false),
        key_action('n' as u32, mods, true) == KeyAction::Answer(false),
        key_action('d' as u32, mods, true) == KeyAction::Nothing,
        key_action(0xffff, mods, true) == KeyAction::Nothing,
{
}

/// A press of the main button within half a second of the last, near it and with nothing held, is a
/// double click; any other is a click that marks as the modifiers say. On a breadcrumb it goes to
/// that folder.
pub proof fn two_quick_presses_are_a_double_click(
    presses: Presses,
    last: u64,
    mods: Mods,
    place: Place,
    now: u64,
)
    requires
        presses.last == Some(last),
        last <= now,
        !place.title_bar,
    ensures
        ({
            let action = presses.action(Button::Left, mods, place, false, now);
            &&& place.crumb is Some ==> action == PressAction::GoToDepth(place.crumb->0)
            &&& place.crumb is None && now - last < 500_000_000 && place.near_last && !mods.control
                && !mods.shift ==> action == PressAction::ClickAndEnter
            &&& place.crumb is None && (now - last >= 500_000_000 || !place.near_last
                || mods.control || mods.shift) ==> action == (PressAction::Click {
                toggle: mods.control,
                range: mods.shift,
            })
        }),
{
}

/// The wheel scrolls the list and zooms the treemap, up one way and down the other; the right button
/// opens the menu and the back button goes up. Under a dialog only its own buttons answer.
pub proof fn each_button_does_its_own(presses: Presses, mods: Mods, place: Place, now: u64)
    requires
        !place.title_bar,
    ensures
        presses.action(Button::Right, mods, place, false, now) == PressAction::Context,
        presses.action(Button::Back, mods, place, false, now) == PressAction::Up,
        place.over_list ==> presses.action(Button::WheelUp, mods, place, false, now)
            == PressAction::Scroll(-3isize),
        place.over_list ==> presses.action(Button::WheelDown, mods, place, false, now)
            == PressAction::Scroll(3isize),
        place.over_treemap && !place.over_list ==> presses.action(
            Button::WheelUp,
            mods,
            place,
            false,
            now,
        ) == PressAction::ZoomIn,
        place.over_treemap && !place.over_list ==> presses.action(
            Button::WheelDown,
            mods,
            place,
            false,
            now,
        ) == PressAction::ZoomOut,
        forall|button: Button|
            (#[trigger] presses.action(button, mods, place, true, now)) != PressAction::Nothing
                ==> button == Button::Left && place.dialog_button is Some && presses.action(
                button,
                mods,
                place,
                true,
                now,
            ) == PressAction::Answer(place.dialog_button->0),
{
}

/// The title bar's buttons do what they show, and a press beside them moves the window.
pub proof fn the_title_bar_has_its_buttons(presses: Presses, mods: Mods, place: Place, now: u64)
    requires
        place.title_bar,
    ensures
        ({
            let action = presses.action(Button::Left, mods, place, false, now);
            &&& place.title_button == Some(TitleButton::Close) <==> action == PressAction::Close
            &&& place.title_button == Some(TitleButton::Minimize) <==> action
                == PressAction::Minimize
            &&& place.title_button == Some(TitleButton::Maximize) ==> action
                == PressAction::ToggleMaximize
            &&& place.title_button is None && presses.last is None ==> action
                == PressAction::BeginMove
        }),
{
}

/// On a Mac the keys go by their own numbers, and do what the same keys do elsewhere.
pub proof fn the_macs_keys_do_what_they_are_for(extend: bool)
    ensures
        mac_code(123, extend) == Some(KeyAction::Arrow(Direction::Left, extend)),
        mac_code(124, extend) == Some(KeyAction::Arrow(Direction::Right, extend)),
        mac_code(125, extend) == Some(KeyAction::Arrow(Direction::Down, extend)),
        mac_code(126, extend) == Some(KeyAction::Arrow(Direction::Up, extend)),
        mac_code(116, extend) == Some(KeyAction::Jump(Jump::PageUp, extend)),
        mac_code(121, extend) == Some(KeyAction::Jump(Jump::PageDown, extend)),
        mac_code(115, extend) == Some(KeyAction::Jump(Jump::Home, extend)),
        mac_code(119, extend) == Some(KeyAction::Jump(Jump::End, extend)),
        mac_code(36, extend) == Some(KeyAction::Enter),
        mac_code(53, extend) == Some(KeyAction::Up),
        mac_code(51, extend) == Some(KeyAction::Up),
        mac_code(48, extend) == Some(KeyAction::ToggleFocus),
        mac_code(49, extend) == Some(KeyAction::QuickLook),
        mac_characters("a"@) == KeyAction::ToggleSize,
        mac_characters("+"@) == KeyAction::ZoomIn,
        mac_characters("-"@) == KeyAction::ZoomOut,
        mac_characters("0"@) == KeyAction::ResetZoom,
        mac_characters("r"@) == KeyAction::RescanSelected,
        mac_characters("R"@) == KeyAction::RescanAll,
        mac_characters("d"@) == KeyAction::Remove(false),
{
    reveal_strlit("a");
    reveal_strlit("+");
    reveal_strlit("=");
    reveal_strlit("-");
    reveal_strlit("_");
    reveal_strlit("0");
    reveal_strlit("r");
    reveal_strlit("R");
    reveal_strlit("d");
    assert("a"@[0] == 'a' && "+"@[0] == '+' && "="@[0] == '=' && "-"@[0] == '-' && "_"@[0] == '_'
        && "0"@[0] == '0' && "r"@[0] == 'r' && "R"@[0] == 'R' && "d"@[0] == 'd');
}

} // verus!
