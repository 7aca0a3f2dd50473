//! Keys and the actions they are bound to in the terminal.

use vstd::prelude::*;

use crate::count::{append_decimal, decimal};
use crate::script::lowered;
use crate::text::{append, chars_of, literal, same_text, text_of};

verus! {

/// A key of the terminal's.
#[derive(Debug, Clone, Copy, PartialEq, Eq, Structural)]
pub enum KeyCode {
    Char(char),
    Left,
    Right,
    Up,
    Down,
    Enter,
    Esc,
    Tab,
    Backspace,
    Delete,
    Insert,
    Home,
    End,
    PageUp,
    PageDown,
    /// A function key, by its number.
    F(u8),
    Other,
}

/// Modifier keys held with a key or a click.
#[derive(Debug, Clone, Copy, PartialEq, Eq, Structural)]
pub struct KeyModifiers {
    pub shift: bool,
    pub control: bool,
    pub alt: bool,
    /// Any modifier besides those.
    pub other: bool,
}

/// What happened to a key.
#[derive(Debug, Clone, Copy, PartialEq, Eq, Structural)]
pub enum KeyEventKind {
    Press,
    Repeat,
    Release,
}

#[derive(Debug, Clone, Copy, PartialEq, Eq, Structural)]
pub struct KeyEvent {
    pub code: KeyCode,
    pub modifiers: KeyModifiers,
    pub kind: KeyEventKind,
}

#[derive(Debug, Clone, Copy, PartialEq, Eq, Structural)]
pub enum MouseButton {
    Left,
    Right,
    Middle,
}

#[derive(Debug, Clone, Copy, PartialEq, Eq, Structural)]
pub enum MouseEventKind {
    Down(MouseButton),
    Up(MouseButton),
    Drag(MouseButton),
    Moved,
    ScrollUp,
    ScrollDown,
    ScrollLeft,
    ScrollRight,
}

#[derive(Debug, Clone, Copy, PartialEq, Eq, Structural)]
pub struct MouseEvent {
    pub kind: MouseEventKind,
    pub column: u16,
    pub row: u16,
    pub modifiers: KeyModifiers,
}

/// What the terminal reports.
#[derive(Debug, Clone, Copy, PartialEq, Eq, Structural)]
pub enum Event {
    Key(KeyEvent),
    Mouse(MouseEvent),
    Resize(u16, u16),
    Other,
}

/// A key that an action is bound to.
#[derive(Debug, Clone, Copy, PartialEq, Eq, Structural)]
pub struct KeyBinding {
    pub code: KeyCode,
}

/// No modifiers.
pub open spec fn unmodified(modifiers: KeyModifiers) -> bool {
    !modifiers.shift && !modifiers.control && !modifiers.alt && !modifiers.other
}

impl KeyBinding {
    /// Whether an event is this key, with no modifier but Shift for a character: terminals
    /// report an upper-case letter with Shift held, and the binding is the letter alone.
    pub open spec fn matches(self, event: Event) -> bool {
        match event {
            Event::Key(key) => key.code == self.code && !key.modifiers.control
                && !key.modifiers.alt && !key.modifiers.other && (key.code is Char
                || !key.modifiers.shift),
            _ => false,
        }
    }

    /// The key that types a character.
    pub fn char(c: char) -> (binding: KeyBinding)
        ensures
            binding.code == KeyCode::Char(c),
    {
        KeyBinding { code: KeyCode::Char(c) }
    }

    /// A key that types none.
    pub fn key(code: KeyCode) -> (binding: KeyBinding)
        ensures
            binding.code == code,
    {
        KeyBinding { code }
    }

    /// Whether an event is this key.
    pub fn matches_event(&self, event: &Event) -> (matches: bool)
        ensures
            matches == self.matches(*event),
    {
        match event {
            Event::Key(key) => {
                let typed = match key.code {
                    KeyCode::Char(_) => true,
                    _ => false,
                };
                key.code == self.code && !key.modifiers.control && !key.modifiers.alt
                    && !key.modifiers.other && (typed || !key.modifiers.shift)
            },
            _ => false,
        }
    }
}

/// A key by its name in lower case.
pub open spec fn key_by_name(name: Seq<char>) -> Option<KeyCode> {
    if name == "left"@ {
        Some(KeyCode::Left)
    } else if name == "right"@ {
        Some(KeyCode::Right)
    } else if name == "up"@ {
        Some(KeyCode::Up)
    } else if name == "down"@ {
        Some(KeyCode::Down)
    } else if name == "enter"@ {
        Some(KeyCode::Enter)
    } else if name == "esc"@ {
        Some(KeyCode::Esc)
    } else if name == "tab"@ {
        Some(KeyCode::Tab)
    } else if name == "backspace"@ {
        Some(KeyCode::Backspace)
    } else if name == "delete"@ {
        Some(KeyCode::Delete)
    } else if name == "home"@ {
        Some(KeyCode::Home)
    } else if name == "end"@ {
        Some(KeyCode::End)
    } else if name == "space"@ {
        Some(KeyCode::Char(' '))
    } else {
        None
    }
}

/// The key that a config file names: a character, or a key by its name.
pub open spec fn key_in(text: Seq<char>) -> Option<KeyCode> {
    if text.len() == 1 {
        Some(KeyCode::Char(text[0]))
    } else {
        key_by_name(lowered(text))
    }
}

fn code_named(name: &str) -> (code: Option<KeyCode>)
    ensures
        code == key_by_name(name@),
{
    if same_text(name, "left") {
        Some(KeyCode::Left)
    } else if same_text(name, "right") {
        Some(KeyCode::Right)
    } else if same_text(name, "up") {
        Some(KeyCode::Up)
    } else if same_text(name, "down") {
        Some(KeyCode::Down)
    } else if same_text(name, "enter") {
        Some(KeyCode::Enter)
    } else if same_text(name, "esc") {
        Some(KeyCode::Esc)
    } else if same_text(name, "tab") {
        Some(KeyCode::Tab)
    } else if same_text(name, "backspace") {
        Some(KeyCode::Backspace)
    } else if same_text(name, "delete") {
        Some(KeyCode::Delete)
    } else if same_text(name, "home") {
        Some(KeyCode::Home)
    } else if same_text(name, "end") {
        Some(KeyCode::End)
    } else if same_text(name, "space") {
        Some(KeyCode::Char(' '))
    } else {
        None
    }
}

/// A key as it is shown: a character as itself, and any other by its name.
pub open spec fn label_of(code: KeyCode) -> Seq<char> {
    match code {
        KeyCode::Char(c) => if c == ' ' {
            "SPACE"@
        } else {
            seq![c]
        },
        KeyCode::Left => "LEFT"@,
        KeyCode::Right => "RIGHT"@,
        KeyCode::Up => "UP"@,
        KeyCode::Down => "DOWN"@,
        KeyCode::Enter => "ENTER"@,
        KeyCode::Esc => "ESC"@,
        KeyCode::Tab => "TAB"@,
        KeyCode::Backspace => "BACKSPACE"@,
        KeyCode::Delete => "DELETE"@,
        KeyCode::Insert => "INSERT"@,
        KeyCode::Home => "HOME"@,
        KeyCode::End => "END"@,
        KeyCode::PageUp => "PAGEUP"@,
        KeyCode::PageDown => "PAGEDOWN"@,
        KeyCode::F(n) => "F"@ + decimal(n as nat),
        KeyCode::Other => "?"@,
    }
}

impl KeyBinding {
    /// The key that a config file names: a character, or a key by its name in any case. An
    /// error says what is not a key.
    pub fn parse(text: &str) -> (binding: Result<KeyBinding, String>)
        ensures
            match key_in(text@) {
                Some(code) => binding is Ok && binding->Ok_0.code == code,
                None => binding is Err && binding->Err_0@ == "unknown key: "@ + text@,
            },
    {
        let chars = chars_of(text);
        if chars.len() == 1 {
            return Ok(KeyBinding { code: KeyCode::Char(chars[0]) });
        }
        let mut small: Vec<char> = Vec::new();
        let mut i: usize = 0;
        while i < chars.len()
            invariant
                i <= chars.len(),
                chars@ == text@,
                small@ =~= lowered(text@).take(i as int),
            decreases chars.len() - i,
        {
            let c: char = chars[i];
            let lower: char = if 'A' <= c && c <= 'Z' {
                (c as u8 + 32) as char
            } else {
                c
            };
            small.push(lower);
            i += 1;
        }
        assert(small@ =~= lowered(text@));
        let name = text_of(small.as_slice());
        match code_named(name.as_str()) {
            Some(code) => Ok(KeyBinding { code }),
            None => {
                let mut reason = literal("unknown key: ");
                append(&mut reason, text);
                Err(reason)
            },
        }
    }

    /// The key as it is shown.
    pub fn label(&self) -> (label: String)
        ensures
            label@ == label_of(self.code),
    {
        match self.code {
            KeyCode::Char(c) => {
                if c == ' ' {
                    literal("SPACE")
                } else {
                    let mut label = String::new();
                    label.push(c);
                    assert(label@ =~= seq![c]);
                    label
                }
            },
            KeyCode::Left => literal("LEFT"),
            KeyCode::Right => literal("RIGHT"),
            KeyCode::Up => literal("UP"),
            KeyCode::Down => literal("DOWN"),
            KeyCode::Enter => literal("ENTER"),
            KeyCode::Esc => literal("ESC"),
            KeyCode::Tab => literal("TAB"),
            KeyCode::Backspace => literal("BACKSPACE"),
            KeyCode::Delete => literal("DELETE"),
            KeyCode::Insert => literal("INSERT"),
            KeyCode::Home => literal("HOME"),
            KeyCode::End => literal("END"),
            KeyCode::PageUp => literal("PAGEUP"),
            KeyCode::PageDown => literal("PAGEDOWN"),
            KeyCode::F(n) => {
                let mut label = literal("F");
                append_decimal(&mut label, n as u64);
                label
            },
            KeyCode::Other => literal("?"),
        }
    }
}

/// The keys that actions are bound to.
#[derive(Debug, Clone, Copy, PartialEq, Eq, Structural)]
pub struct Keybinds {
    pub quit: KeyBinding,
    pub delete: KeyBinding,
    pub move_left: KeyBinding,
    pub move_right: KeyBinding,
    pub move_up: KeyBinding,
    pub move_down: KeyBinding,
    pub enter: KeyBinding,
    pub parent: KeyBinding,
    pub zoom_in: KeyBinding,
    pub zoom_out: KeyBinding,
    pub reset_zoom: KeyBinding,
    pub confirm: KeyBinding,
    pub cancel: KeyBinding,
    pub switch_panel: KeyBinding,
    pub rescan: KeyBinding,
    pub rescan_all: KeyBinding,
    pub toggle_size: KeyBinding,
}

/// The keys that actions are bound to unless a config file says otherwise.
pub open spec fn default_keybinds() -> Keybinds {
    Keybinds {
        quit: KeyBinding { code: KeyCode::Char('q') },
        delete: KeyBinding { code: KeyCode::Char('d') },
        move_left: KeyBinding { code: KeyCode::Char('h') },
        move_right: KeyBinding { code: KeyCode::Char('l') },
        move_up: KeyBinding { code: KeyCode::Char('k') },
        move_down: KeyBinding { code: KeyCode::Char('j') },
        enter: KeyBinding { code: KeyCode::Enter },
        parent: KeyBinding { code: KeyCode::Esc },
        zoom_in: KeyBinding { code: KeyCode::Char('+') },
        zoom_out: KeyBinding { code: KeyCode::Char('-') },
        reset_zoom: KeyBinding { code: KeyCode::Char('0') },
        confirm: KeyBinding { code: KeyCode::Char('y') },
        cancel: KeyBinding { code: KeyCode::Char('n') },
        switch_panel: KeyBinding { code: KeyCode::Tab },
        rescan: KeyBinding { code: KeyCode::Char('r') },
        rescan_all: KeyBinding { code: KeyCode::Char('R') },
        toggle_size: KeyBinding { code: KeyCode::Char('a') },
    }
}

impl Default for Keybinds {
    fn default() -> (keybinds: Self)
        ensures
            keybinds == default_keybinds(),
    {
        Keybinds {
            quit: KeyBinding::char('q'),
            delete: KeyBinding::char('d'),
            move_left: KeyBinding::char('h'),
            move_right: KeyBinding::char('l'),
            move_up: KeyBinding::char('k'),
            move_down: KeyBinding::char('j'),
            enter: KeyBinding::key(KeyCode::Enter),
            parent: KeyBinding::key(KeyCode::Esc),
            zoom_in: KeyBinding::char('+'),
            zoom_out: KeyBinding::char('-'),
            reset_zoom: KeyBinding::char('0'),
            confirm: KeyBinding::char('y'),
            cancel: KeyBinding::char('n'),
            switch_panel: KeyBinding::key(KeyCode::Tab),
            rescan: KeyBinding::char('r'),
            rescan_all: KeyBinding::char('R'),
            toggle_size: KeyBinding::char('a'),
        }
    }
}

/// Whether an event is a key with Control, and nothing else.
pub open spec fn is_control(event: Event, c: char) -> bool {
    event is Key && event->Key_0.code == KeyCode::Char(c) && event->Key_0.modifiers.control
        && !event->Key_0.modifiers.shift && !event->Key_0.modifiers.alt
        && !event->Key_0.modifiers.other
}

/// Whether an event is an arrow key, with no modifier.
pub open spec fn is_plain(event: Event, code: KeyCode) -> bool {
    event is Key && event->Key_0.code == code && unmodified(event->Key_0.modifiers)
}

fn plain_key(event: &Event, code: KeyCode) -> (is: bool)
    ensures
        is == is_plain(*event, code),
{
    match event {
        Event::Key(key) => key.code == code && !key.modifiers.shift && !key.modifiers.control
            && !key.modifiers.alt && !key.modifiers.other,
        _ => false,
    }
}

impl Keybinds {
    pub open spec fn quits(self, event: Event) -> bool {
        self.quit.matches(event) || is_control(event, 'c')
    }

    pub open spec fn moves_left(self, event: Event) -> bool {
        self.move_left.matches(event) || is_plain(event, KeyCode::Left)
    }

    pub open spec fn moves_right(self, event: Event) -> bool {
        self.move_right.matches(event) || is_plain(event, KeyCode::Right)
    }

    pub open spec fn moves_up(self, event: Event) -> bool {
        self.move_up.matches(event) || is_plain(event, KeyCode::Up)
    }

    pub open spec fn moves_down(self, event: Event) -> bool {
        self.move_down.matches(event) || is_plain(event, KeyCode::Down)
    }

    /// Whether an event quits: the key bound to that, or Ctrl+C.
    pub fn is_quit(&self, event: &Event) -> (is: bool)
        ensures
            is == self.quits(*event),
    {
        if self.quit.matches_event(event) {
            return true;
        }
        match event {
            Event::Key(key) => key.code == KeyCode::Char('c') && key.modifiers.control
                && !key.modifiers.shift && !key.modifiers.alt && !key.modifiers.other,
            _ => false,
        }
    }

    /// Whether an event moves left: the key bound to that, or the arrow.
    pub fn is_move_left(&self, event: &Event) -> (is: bool)
        ensures
            is == self.moves_left(*event),
    {
        self.move_left.matches_event(event) || plain_key(event, KeyCode::Left)
    }

    /// Whether an event moves right: the key bound to that, or the arrow.
    pub fn is_move_right(&self, event: &Event) -> (is: bool)
        ensures
            is == self.moves_right(*event),
    {
        self.move_right.matches_event(event) || plain_key(event, KeyCode::Right)
    }

    /// Whether an event moves up: the key bound to that, or the arrow.
    pub fn is_move_up(&self, event: &Event) -> (is: bool)
        ensures
            is == self.moves_up(*event),
    {
        self.move_up.matches_event(event) || plain_key(event, KeyCode::Up)
    }

    /// Whether an event moves down: the key bound to that, or the arrow.
    pub fn is_move_down(&self, event: &Event) -> (is: bool)
        ensures
            is == self.moves_down(*event),
    {
        self.move_down.matches_event(event) || plain_key(event, KeyCode::Down)
    }

    /// Whether an event zooms in.
    pub fn is_zoom_in(&self, event: &Event) -> (is: bool)
        ensures
            is == self.zoom_in.matches(*event),
    {
        self.zoom_in.matches_event(event)
    }

    /// Whether an event enters a folder.
    pub fn is_enter(&self, event: &Event) -> (is: bool)
        ensures
            is == self.enter.matches(*event),
    {
        self.enter.matches_event(event)
    }

    /// Whether an event confirms what is asked.
    pub fn is_confirm(&self, event: &Event) -> (is: bool)
        ensures
            is == self.confirm.matches(*event),
    {
        self.confirm.matches_event(event)
    }

    /// Whether an event takes back what is asked.
    pub fn is_cancel(&self, event: &Event) -> (is: bool)
        ensures
            is == self.cancel.matches(*event),
    {
        self.cancel.matches_event(event)
    }
}

/// A key is found by the label it is shown with, whatever keys there are names for; a letter by
/// itself.
pub proof fn a_key_is_found_by_its_label(c: char)
    requires
        c != ' ',
    ensures
        key_in(label_of(KeyCode::Char(c))) == Some(KeyCode::Char(c)),
        key_in(seq![c]) == Some(KeyCode::Char(c)),
        label_of(KeyCode::Char(c)) == seq![c],
{
}

/// A binding answers to its own key, however it is pressed, but never with Control, Alt or another
/// modifier held; Shift is part of how a character is typed, and of no other key.
pub proof fn a_binding_answers_to_its_own_key(binding: KeyBinding, key: KeyEvent)
    ensures
        unmodified(key.modifiers) ==> binding.matches(Event::Key(key)) == (key.code
            == binding.code),
        binding.matches(Event::Key(key)) ==> key.code == binding.code,
        key.modifiers.control || key.modifiers.alt || key.modifiers.other ==> !binding.matches(
            Event::Key(key),
        ),
        key.modifiers.shift && !(key.code is Char) ==> !binding.matches(Event::Key(key)),
        key.modifiers.shift && !key.modifiers.control && !key.modifiers.alt && !key.modifiers.other
            && key.code is Char ==> binding.matches(Event::Key(key)) == (key.code
            == binding.code),
{
}

/// Control and C quits whatever the bindings are, and the arrow keys move whatever they are, each
/// its own way.
pub proof fn some_keys_are_never_rebound(kb: Keybinds, kind: KeyEventKind)
    ensures
        kb.quits(
            Event::Key(
                KeyEvent {
                    code: KeyCode::Char('c'),
                    modifiers: KeyModifiers {
                        shift: false,
                        control: true,
                        alt: false,
                        other: false,
                    },
                    kind,
                },
            ),
        ),
        ({
            let plain = KeyModifiers { shift: false, control: false, alt: false, other: false };
            let arrow = |code: KeyCode| Event::Key(KeyEvent { code, modifiers: plain, kind });
            &&& kb.moves_left(arrow(KeyCode::Left))
            &&& kb.moves_right(arrow(KeyCode::Right))
            &&& kb.moves_up(arrow(KeyCode::Up))
            &&& kb.moves_down(arrow(KeyCode::Down))
            &&& kb.moves_left(arrow(KeyCode::Right)) ==> kb.move_left.code == KeyCode::Right
            &&& kb.moves_up(arrow(KeyCode::Down)) ==> kb.move_up.code == KeyCode::Down
            &&& kb.moves_right(arrow(KeyCode::Left)) ==> kb.move_right.code == KeyCode::Left
            &&& kb.moves_down(arrow(KeyCode::Up)) ==> kb.move_down.code == KeyCode::Up
        }),
{
}

/// A key with Control counts as one only where nothing else is held with it.
pub proof fn control_is_held_alone(key: KeyEvent, c: char)
    ensures
        is_control(Event::Key(key), c) ==> key.code == KeyCode::Char(c) && key.modifiers.control,
        is_control(Event::Key(key), c) ==> !key.modifiers.shift && !key.modifiers.alt
            && !key.modifiers.other,
        key.code == KeyCode::Char(c) && key.modifiers.control && !key.modifiers.shift
            && !key.modifiers.alt && !key.modifiers.other ==> is_control(Event::Key(key), c),
{
}

} // verus!
