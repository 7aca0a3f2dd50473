//! The window's loop: what each message and each input asks for, and when it is drawn again.

use vstd::prelude::*;

use crate::backend::{Button, Mods};
use crate::window::Tick;

verus! {

/// The window between two frames.
#[derive(Debug, PartialEq, Eq)]
pub struct Session {
    /// Counts the scans started in this window: the one shown.
    pub scan_id: u64,
    /// Whether a dialog is over the window.
    pub dialog: bool,
    pub focused: bool,
    /// Whether the window is to be drawn.
    pub dirty: bool,
    pub quit: bool,
    /// How large the canvas is, in pixels.
    pub canvas: (usize, usize),
    pub tick: Tick,
    /// Whether a picture of the window is asked for.
    pub snapshot: bool,
}

/// What comes from the window system. Sizes are in pixels.
#[derive(Clone, Copy, Debug, PartialEq, Eq)]
pub enum Input {
    Redraw,
    /// A new size; and whether the scale is another.
    Resized { pixels: (usize, usize), rescaled: bool },
    /// Whether the window system draws the title bar.
    Decorated(bool),
    Key { keysym: u32, mods: Mods },
    Button { button: Button, mods: Mods },
    Motion,
    Leave,
    Focus(bool),
    Close,
}

/// What an input asks for.
#[derive(Clone, Copy, Debug, PartialEq, Eq)]
pub enum InputAction {
    Nothing,
    /// Lay the window out again; on another canvas, if told so.
    Resize { canvas: bool },
    /// Lay the window out with or without a title bar of its own.
    TitleBar(bool),
    Key { keysym: u32, mods: Mods },
    Press { button: Button, mods: Mods },
    /// Find what the pointer is over.
    Hover,
    /// Nothing is under the pointer.
    Unhover,
}

/// What comes from the window's own threads.
#[derive(Clone, Copy, Debug, PartialEq, Eq)]
pub enum Message {
    /// Folders seen by a scan.
    Batch { scan_id: u64 },
    /// A scan's end; with no tree where it was stopped.
    Done { scan_id: u64, tree: bool },
    Rescanned { scan_id: u64 },
    /// A preview; and whether it was the one waited for.
    Preview { wanted: bool },
    Tick,
    Snapshot,
}

/// What a message asks for.
#[derive(Clone, Copy, Debug, PartialEq, Eq)]
pub enum MessageAction {
    Nothing,
    /// Take in the folders seen.
    Absorb,
    /// Show the finished scan; and have a picture of the window made, if told so.
    Finish { snapshot: bool },
    /// Take in the rescan.
    Rescanned,
    /// Let go of what came too late.
    Drop,
    /// Show the picture that came with the preview.
    Picture,
    /// Draw, make a picture of the window, and leave.
    Snapshot,
}

/// How long after a message in the status bar is over the window is drawn, in nanoseconds.
pub const MESSAGE_SLACK: u64 = 30_000_000;

impl Session {
    /// What an input asks for.
    pub open spec fn asked(self, input: Input) -> InputAction {
        match input {
            Input::Redraw => InputAction::Nothing,
            Input::Resized { pixels, rescaled } => InputAction::Resize {
                canvas: pixels != self.canvas || rescaled,
            },
            Input::Decorated(decorated) => InputAction::TitleBar(!decorated),
            Input::Key { keysym, mods } => InputAction::Key { keysym, mods },
            Input::Button { button, mods } => InputAction::Press { button, mods },
            Input::Motion => if self.dialog {
                InputAction::Nothing
            } else {
                InputAction::Hover
            },
            Input::Leave => InputAction::Unhover,
            Input::Focus(focused) => InputAction::Nothing,
            Input::Close => InputAction::Nothing,
        }
    }

    /// The window after an input.
    pub open spec fn after(self, input: Input) -> Session {
        match input {
            Input::Redraw => Session { dirty: true, ..self },
            Input::Resized { pixels, rescaled } => Session { dirty: true, canvas: pixels, ..self },
            Input::Decorated(_) => Session { dirty: true, ..self },
            Input::Focus(focused) => Session { dirty: true, focused, ..self },
            Input::Close => Session { quit: true, ..self },
            _ => self,
        }
    }

    /// Take an input. What it asks for is the caller's to do; [`Session::changed`] has the
    /// window drawn if that changed anything.
    pub fn input(&mut self, input: Input) -> (action: InputAction)
        ensures
            action == old(self).asked(input),
            *final(self) == old(self).after(input),
    {
        match input {
            Input::Redraw => {
                self.dirty = true;
                InputAction::Nothing
            },
            Input::Resized { pixels, rescaled } => {
                let same = pixels.0 == self.canvas.0 && pixels.1 == self.canvas.1;
                self.canvas = pixels;
                self.dirty = true;
                InputAction::Resize { canvas: !same || rescaled }
            },
            Input::Decorated(decorated) => {
                self.dirty = true;
                InputAction::TitleBar(!decorated)
            },
            Input::Key { keysym, mods } => InputAction::Key { keysym, mods },
            Input::Button { button, mods } => InputAction::Press { button, mods },
            Input::Motion => {
                if self.dialog {
                    InputAction::Nothing
                } else {
                    InputAction::Hover
                }
            },
            Input::Leave => InputAction::Unhover,
            Input::Focus(focused) => {
                self.focused = focused;
                self.dirty = true;
                InputAction::Nothing
            },
            Input::Close => {
                self.quit = true;
                InputAction::Nothing
            },
        }
    }

    /// Have the window drawn, if something changed.
    pub fn changed(&mut self, something: bool)
        ensures
            *final(self) == (Session { dirty: old(self).dirty || something, ..*old(self) }),
    {
        if something {
            self.dirty = true;
        }
    }

    /// What a message asks for: what is of an earlier scan is let go.
    pub open spec fn wanted(self, message: Message) -> MessageAction {
        match message {
            Message::Batch { scan_id } => if scan_id == self.scan_id {
                MessageAction::Absorb
            } else {
                MessageAction::Nothing
            },
            Message::Done { scan_id, tree } => if !tree {
                MessageAction::Nothing
            } else if scan_id == self.scan_id {
                MessageAction::Finish { snapshot: self.snapshot }
            } else {
                MessageAction::Drop
            },
            Message::Rescanned { scan_id } => if scan_id == self.scan_id {
                MessageAction::Rescanned
            } else {
                MessageAction::Drop
            },
            Message::Preview { wanted } => if wanted {
                MessageAction::Picture
            } else {
                MessageAction::Nothing
            },
            Message::Tick => MessageAction::Nothing,
            Message::Snapshot => if self.snapshot {
                MessageAction::Snapshot
            } else {
                MessageAction::Nothing
            },
        }
    }

    /// The window after a message.
    pub open spec fn told(self, message: Message) -> Session {
        match self.wanted(message) {
            MessageAction::Nothing => if message is Tick {
                Session { dirty: true, tick: Tick { due: None }, ..self }
            } else {
                self
            },
            MessageAction::Drop => self,
            MessageAction::Snapshot => Session { snapshot: false, quit: true, ..self },
            _ => Session { dirty: true, ..self },
        }
    }

    /// Take a message.
    pub fn handle(&mut self, message: Message) -> (action: MessageAction)
        ensures
            action == old(self).wanted(message),
            *final(self) == old(self).told(message),
    {
        match message {
            Message::Batch { scan_id } => {
                if scan_id != self.scan_id {
                    return MessageAction::Nothing;
                }
                self.dirty = true;
                MessageAction::Absorb
            },
            Message::Done { scan_id, tree } => {
                if !tree {
                    return MessageAction::Nothing;
                }
                if scan_id != self.scan_id {
                    return MessageAction::Drop;
                }
                self.dirty = true;
                MessageAction::Finish { snapshot: self.snapshot }
            },
            Message::Rescanned { scan_id } => {
                if scan_id != self.scan_id {
                    return MessageAction::Drop;
                }
                self.dirty = true;
                MessageAction::Rescanned
            },
            Message::Preview { wanted } => {
                if !wanted {
                    return MessageAction::Nothing;
                }
                self.dirty = true;
                MessageAction::Picture
            },
            Message::Tick => {
                self.tick.due = None;
                self.dirty = true;
                MessageAction::Nothing
            },
            Message::Snapshot => {
                if !self.snapshot {
                    return MessageAction::Nothing;
                }
                self.snapshot = false;
                self.quit = true;
                MessageAction::Snapshot
            },
        }
    }

    /// Whether the window is drawn now: something changed, and it is not being left. Once
    /// drawn, it waits for the next change.
    pub fn draw(&mut self) -> (draw: bool)
        ensures
            draw == (old(self).dirty && !old(self).quit),
            *final(self) == (Session {
                dirty: old(self).dirty && old(self).quit,
                ..*old(self)
            }),
    {
        let draw = self.dirty && !self.quit;
        if draw {
            self.dirty = false;
        }
        draw
    }

    /// Have the window drawn once a message in the status bar is over. Returns how long that is
    /// from now, in nanoseconds, if it is to be arranged.
    pub fn message_shown(&mut self, left: Option<u64>, now: u64) -> (after: Option<u64>)
        requires
            left is Some ==> now + left->0 + MESSAGE_SLACK <= u64::MAX,
        ensures
            match left {
                None => after is None && *final(self) == *old(self),
                Some(left) => {
                    let due = (now + left + MESSAGE_SLACK) as u64;
                    if old(self).tick.due is Some && old(self).tick.due->0 <= due {
                        after is None && *final(self) == *old(self)
                    } else {
                        &&& after == Some((left + MESSAGE_SLACK) as u64)
                        &&& *final(self) == (Session {
                            tick: Tick { due: Some(due) },
                            ..*old(self)
                        })
                    }
                },
            },
    {
        match left {
            None => None,
            Some(left) => {
                if self.tick.at(now + left + MESSAGE_SLACK) {
                    Some(left + MESSAGE_SLACK)
                } else {
                    None
                }
            },
        }
    }

    /// Start another scan. Returns its number.
    pub fn start_scan(&mut self) -> (scan_id: u64)
        requires
            old(self).scan_id < u64::MAX,
        ensures
            scan_id == old(self).scan_id + 1,
            *final(self) == (Session { scan_id, dirty: true, ..*old(self) }),
    {
        self.scan_id += 1;
        self.dirty = true;
        self.scan_id
    }
}

/// What an earlier scan sends changes nothing once another has been started.
pub proof fn an_earlier_scan_changes_nothing(session: Session, scan_id: u64)
    requires
        scan_id != session.scan_id,
    ensures
        session.told(Message::Batch { scan_id }) == session,
        session.told(Message::Done { scan_id, tree: true }) == session,
        session.told(Message::Done { scan_id, tree: false }) == session,
        session.told(Message::Rescanned { scan_id }) == session,
{
}

/// What becomes of the picture beside a preview.
#[derive(Clone, Copy, Debug, PartialEq, Eq, Structural)]
pub enum Picture {
    Keep,
    Drop,
}

/// What becomes of the picture once the window changed: it goes when another preview is asked
/// for, and when there is none to show.
pub fn picture_after(asked: bool, nothing: bool) -> (picture: Picture)
    ensures
        picture == if asked || nothing {
            Picture::Drop
        } else {
            Picture::Keep
        },
{
    if asked || nothing {
        Picture::Drop
    } else {
        Picture::Keep
    }
}

/// Only closing the window, or the picture that was asked for, ends the program; a key or a button
/// is handed on as it came, and the pointer's moves are not while a dialog is open.
pub proof fn input_is_handed_on(session: Session, input: Input)
    ensures
        session.after(input).quit == (session.quit || input is Close),
        session.dirty ==> session.after(input).dirty,
        match input {
            Input::Key { keysym, mods } => session.asked(input) == (InputAction::Key {
                keysym,
                mods,
            }) && session.after(input) == session,
            Input::Button { button, mods } => session.asked(input) == (InputAction::Press {
                button,
                mods,
            }) && session.after(input) == session,
            Input::Resized { pixels, rescaled } => {
                &&& session.after(input).canvas == pixels
                &&& session.after(input).dirty
                &&& session.asked(input) == (InputAction::Resize { canvas: true }) <==> pixels
                    != session.canvas || rescaled
            },
            Input::Decorated(decorated) => session.asked(input) == InputAction::TitleBar(
                !decorated,
            ) && session.after(input).dirty,
            Input::Focus(focused) => session.after(input).focused == focused && session.after(
                input,
            ).dirty,
            Input::Motion => session.asked(input) is Hover <==> !session.dialog,
            Input::Leave => session.asked(input) is Unhover,
            Input::Redraw => session.after(input).dirty,
            Input::Close => true,
        },
{
}

/// What the scan that is shown sends is taken in and drawn, and a preview only if it was the one
/// waited for; only a picture of the window that was asked for is made, and it ends the program.
pub proof fn the_scan_shown_is_taken_in(session: Session, message: Message)
    ensures
        match message {
            Message::Batch { scan_id } => (session.wanted(message) is Absorb) == (scan_id
                == session.scan_id),
            Message::Done { scan_id, tree } => (session.wanted(message) is Finish) == (tree
                && scan_id == session.scan_id),
            Message::Rescanned { scan_id } => (session.wanted(message) is Rescanned) == (scan_id
                == session.scan_id),
            Message::Preview { wanted } => (session.wanted(message) is Picture) == wanted,
            Message::Tick => session.told(message).tick.due is None && session.told(message).dirty,
            Message::Snapshot => (session.wanted(message) is Snapshot) == session.snapshot,
        },
        session.told(message).quit == (session.quit || (message is Snapshot && session.snapshot)),
        session.wanted(message) is Absorb || session.wanted(message) is Finish || session.wanted(
            message,
        ) is Rescanned || session.wanted(message) is Picture ==> session.told(message).dirty,
        session.told(message).scan_id == session.scan_id,
{
}

/// A picture of the window is taken once, and no other message changes whether one is to be.
pub proof fn a_snapshot_is_taken_once(session: Session, message: Message)
    ensures
        message is Snapshot ==> !session.told(message).snapshot,
        !(message is Snapshot) ==> session.told(message).snapshot == session.snapshot,
        session.told(message).canvas == session.canvas,
        message is Tick || session.told(message).tick == session.tick,
{
}

} // verus!
