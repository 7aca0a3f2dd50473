//! What the terminal's events do, mode by mode.

use vstd::prelude::*;

use crate::keybind::{
    default_keybinds, unmodified, Event, KeyBinding, KeyCode, KeyEvent, KeyEventKind, KeyModifiers,
    Keybinds, MouseButton, MouseEvent, MouseEventKind,
};

verus! {

/// A jump through the list.
#[derive(Debug, Clone, Copy, PartialEq, Eq, Structural)]
pub enum ListJump {
    PageUp,
    PageDown,
    Home,
    End,
}

/// What an event does.
#[derive(Debug, Clone, Copy, PartialEq, Eq, Structural)]
pub enum Control {
    Nothing,
    /// Mark or unmark what is at a cell.
    CtrlClick { column: u16, row: u16 },
    Click { button: MouseButton, column: u16, row: u16 },
    /// Extend the marks by a row, down or up.
    ExtendSelection(isize),
    JumpList(ListJump),
    PromptExit,
    SwitchFocus,
    /// Say that it has to wait until the scan is done.
    ShowWarning,
    PromptDeletion,
    RescanSelected,
    RescanAll,
    ToggleSize,
    MoveRight,
    MoveLeft,
    MoveDown,
    MoveUp,
    ZoomIn,
    ZoomOut,
    ResetZoom,
    Enter,
    GoUp,
    /// Back to the folder, with no dialog.
    NormalMode,
    DeleteFiles,
    /// Back to what was there before the dialog.
    ResetMode,
    Exit,
}

/// Whether an event is a key being let go of. Some consoles report a release for every press;
/// every event here acts on a press, so a release passed on would act twice.
pub fn is_key_release(event: &Event) -> (is: bool)
    ensures
        is == (event is Key && event->Key_0.kind == KeyEventKind::Release),
{
    match event {
        Event::Key(key) => key.kind == KeyEventKind::Release,
        _ => false,
    }
}

/// Whether an event is of the mouse and nothing acts on it: movement, drags, releases,
/// scrolling. Some dialogs close on any event at all, so passing these on would close one when
/// the mouse merely crossed the window.
pub fn is_mouse_noise(event: &Event) -> (is: bool)
    ensures
        is == (event is Mouse && !(event->Mouse_0.kind is Down)),
{
    match event {
        Event::Mouse(mouse) => match mouse.kind {
            MouseEventKind::Down(_) => false,
            _ => true,
        },
        _ => false,
    }
}

/// Whether an event reaches the modes at all.
pub fn is_passed_on(event: &Event) -> (is: bool)
    ensures
        is == !((event is Key && event->Key_0.kind == KeyEventKind::Release) || (event is Mouse
            && !(event->Mouse_0.kind is Down))),
{
    !is_key_release(event) && !is_mouse_noise(event)
}

/// The jump that a key makes through the list.
pub open spec fn jump_of(event: Event) -> Option<ListJump> {
    if !(event is Key) || !unmodified(event->Key_0.modifiers) {
        None
    } else {
        match event->Key_0.code {
            KeyCode::PageUp => Some(ListJump::PageUp),
            KeyCode::PageDown => Some(ListJump::PageDown),
            KeyCode::Home => Some(ListJump::Home),
            KeyCode::End => Some(ListJump::End),
            _ => None,
        }
    }
}

/// How far Shift and an arrow extend the marks in the list.
pub open spec fn extension_of(event: Event) -> Option<isize> {
    if !(event is Key) || !event->Key_0.modifiers.shift || event->Key_0.modifiers.control
        || event->Key_0.modifiers.alt || event->Key_0.modifiers.other {
        None
    } else if event->Key_0.code == KeyCode::Down {
        Some(1isize)
    } else if event->Key_0.code == KeyCode::Up {
        Some(-1isize)
    } else {
        None
    }
}

/// What a mouse press does in a mode that shows the board.
pub open spec fn mouse_of(event: Event) -> Option<Control> {
    match event {
        Event::Mouse(mouse) => match mouse.kind {
            MouseEventKind::Down(button) => if button == MouseButton::Left
                && mouse.modifiers.control {
                Some(Control::CtrlClick { column: mouse.column, row: mouse.row })
            } else {
                Some(Control::Click { button, column: mouse.column, row: mouse.row })
            },
            _ => Some(Control::Nothing),
        },
        _ => None,
    }
}

/// The jump that a key makes through the list. Those keys are fixed.
pub fn list_jump(event: &Event) -> (jump: Option<ListJump>)
    ensures
        jump == jump_of(*event),
{
    match event {
        Event::Key(key) => {
            if key.modifiers.shift || key.modifiers.control || key.modifiers.alt
                || key.modifiers.other {
                return None;
            }
            match key.code {
                KeyCode::PageUp => Some(ListJump::PageUp),
                KeyCode::PageDown => Some(ListJump::PageDown),
                KeyCode::Home => Some(ListJump::Home),
                KeyCode::End => Some(ListJump::End),
                _ => None,
            }
        },
        _ => None,
    }
}

/// Shift and the down arrow, or the up one, which extend a selection in the list.
pub fn shift_arrow(event: &Event) -> (delta: Option<isize>)
    ensures
        delta == extension_of(*event),
{
    match event {
        Event::Key(key) => {
            if !key.modifiers.shift || key.modifiers.control || key.modifiers.alt
                || key.modifiers.other {
                return None;
            }
            match key.code {
                KeyCode::Down => Some(1),
                KeyCode::Up => Some(-1),
                _ => None,
            }
        },
        _ => None,
    }
}

/// What a mouse press does in a mode that shows the board. `None` if the event is not of the
/// mouse.
pub fn handle_mouse(event: &Event) -> (control: Option<Control>)
    ensures
        control == mouse_of(*event),
{
    match event {
        Event::Mouse(mouse) => match mouse.kind {
            MouseEventKind::Down(button) => {
                if button == MouseButton::Left && mouse.modifiers.control {
                    Some(Control::CtrlClick { column: mouse.column, row: mouse.row })
                } else {
                    Some(Control::Click { button, column: mouse.column, row: mouse.row })
                }
            },
            _ => Some(Control::Nothing),
        },
        _ => None,
    }
}

/// What an event does in both modes that show the board, before the keys that are bound.
pub open spec fn board_event(event: Event) -> Option<Control> {
    if mouse_of(event) is Some {
        mouse_of(event)
    } else if extension_of(event) is Some {
        Some(Control::ExtendSelection(extension_of(event)->0))
    } else if jump_of(event) is Some {
        Some(Control::JumpList(jump_of(event)->0))
    } else {
        None
    }
}

/// What a bound key does in both modes that show the board.
pub open spec fn moving_key(kb: Keybinds, event: Event) -> Control {
    if kb.toggle_size.matches(event) {
        Control::ToggleSize
    } else if kb.moves_right(event) {
        Control::MoveRight
    } else if kb.moves_left(event) {
        Control::MoveLeft
    } else if kb.moves_down(event) {
        Control::MoveDown
    } else if kb.moves_up(event) {
        Control::MoveUp
    } else if kb.zoom_in.matches(event) {
        Control::ZoomIn
    } else if kb.zoom_out.matches(event) {
        Control::ZoomOut
    } else if kb.reset_zoom.matches(event) {
        Control::ResetZoom
    } else if kb.enter.matches(event) {
        Control::Enter
    } else if kb.parent.matches(event) {
        Control::GoUp
    } else {
        Control::Nothing
    }
}

/// What an event does while the first scan runs.
pub open spec fn loading_control(kb: Keybinds, event: Event) -> Control {
    match board_event(event) {
        Some(control) => control,
        None => if kb.quits(event) {
            Control::PromptExit
        } else if kb.switch_panel.matches(event) {
            Control::SwitchFocus
        } else if kb.delete.matches(event) {
            Control::ShowWarning
        } else {
            moving_key(kb, event)
        },
    }
}

/// What an event does once the scan is done.
pub open spec fn normal_control(kb: Keybinds, event: Event) -> Control {
    match board_event(event) {
        Some(control) => control,
        None => if kb.quits(event) {
            Control::PromptExit
        } else if kb.switch_panel.matches(event) {
            Control::SwitchFocus
        } else if kb.delete.matches(event) {
            Control::PromptDeletion
        } else if kb.rescan.matches(event) {
            Control::RescanSelected
        } else if kb.rescan_all.matches(event) {
            Control::RescanAll
        } else {
            moving_key(kb, event)
        },
    }
}

fn on_board(event: &Event) -> (control: Option<Control>)
    ensures
        control == board_event(*event),
{
    if let Some(control) = handle_mouse(event) {
        return Some(control);
    }
    if let Some(delta) = shift_arrow(event) {
        return Some(Control::ExtendSelection(delta));
    }
    if let Some(jump) = list_jump(event) {
        return Some(Control::JumpList(jump));
    }
    None
}

fn on_moving_key(kb: &Keybinds, event: &Event) -> (control: Control)
    ensures
        control == moving_key(*kb, *event),
{
    if kb.toggle_size.matches_event(event) {
        Control::ToggleSize
    } else if kb.is_move_right(event) {
        Control::MoveRight
    } else if kb.is_move_left(event) {
        Control::MoveLeft
    } else if kb.is_move_down(event) {
        Control::MoveDown
    } else if kb.is_move_up(event) {
        Control::MoveUp
    } else if kb.is_zoom_in(event) {
        Control::ZoomIn
    } else if kb.zoom_out.matches_event(event) {
        Control::ZoomOut
    } else if kb.reset_zoom.matches_event(event) {
        Control::ResetZoom
    } else if kb.is_enter(event) {
        Control::Enter
    } else if kb.parent.matches_event(event) {
        Control::GoUp
    } else {
        Control::Nothing
    }
}

/// What an event does while the first scan runs: nothing that would change the disk.
pub fn handle_keypress_loading_mode(event: &Event, kb: &Keybinds) -> (control: Control)
    ensures
        control == loading_control(*kb, *event),
{
    if let Some(control) = on_board(event) {
        return control;
    }
    if kb.is_quit(event) {
        Control::PromptExit
    } else if kb.switch_panel.matches_event(event) {
        Control::SwitchFocus
    } else if kb.delete.matches_event(event) {
        Control::ShowWarning
    } else {
        on_moving_key(kb, event)
    }
}

/// What an event does once the scan is done.
pub fn handle_keypress_normal_mode(event: &Event, kb: &Keybinds) -> (control: Control)
    ensures
        control == normal_control(*kb, *event),
{
    if let Some(control) = on_board(event) {
        return control;
    }
    if kb.is_quit(event) {
        Control::PromptExit
    } else if kb.switch_panel.matches_event(event) {
        Control::SwitchFocus
    } else if kb.delete.matches_event(event) {
        Control::PromptDeletion
    } else if kb.rescan.matches_event(event) {
        Control::RescanSelected
    } else if kb.rescan_all.matches_event(event) {
        Control::RescanAll
    } else {
        on_moving_key(kb, event)
    }
}

/// What an event does while a deletion is asked about.
pub fn handle_keypress_delete_file_mode(event: &Event, kb: &Keybinds) -> (control: Control)
    ensures
        control == if kb.quits(*event) || kb.cancel.matches(*event) {
            Control::NormalMode
        } else if kb.confirm.matches(*event) {
            Control::DeleteFiles
        } else {
            Control::Nothing
        },
{
    if kb.is_quit(event) || kb.is_cancel(event) {
        Control::NormalMode
    } else if kb.is_confirm(event) {
        Control::DeleteFiles
    } else {
        Control::Nothing
    }
}

/// What an event does while an error is shown.
pub fn handle_keypress_error_message(event: &Event, kb: &Keybinds) -> (control: Control)
    ensures
        control == if kb.quits(*event) || kb.parent.matches(*event) {
            Control::NormalMode
        } else {
            Control::Nothing
        },
{
    if kb.is_quit(event) || kb.parent.matches_event(event) {
        Control::NormalMode
    } else {
        Control::Nothing
    }
}

/// What an event does while the screen is too small for anything else.
pub fn handle_keypress_screen_too_small(event: &Event, kb: &Keybinds) -> (control: Control)
    ensures
        control == if kb.quits(*event) {
            Control::Exit
        } else {
            Control::Nothing
        },
{
    if kb.is_quit(event) {
        Control::Exit
    } else {
        Control::Nothing
    }
}

/// What an event does while quitting is asked about.
pub fn handle_keypress_exiting_mode(event: &Event, kb: &Keybinds) -> (control: Control)
    ensures
        control == if kb.quits(*event) || kb.cancel.matches(*event) {
            Control::ResetMode
        } else if kb.confirm.matches(*event) {
            Control::Exit
        } else {
            Control::Nothing
        },
{
    if kb.is_quit(event) || kb.is_cancel(event) {
        Control::ResetMode
    } else if kb.is_confirm(event) {
        Control::Exit
    } else {
        Control::Nothing
    }
}

/// What an event does while a warning is shown: any takes it away.
pub fn handle_keypress_warning_message(_event: &Event) -> (control: Control)
    ensures
        control == Control::ResetMode,
{
    Control::ResetMode
}

/// Whether to pause after an event, so that the program has time to quit.
pub fn needs_quit_delay(event: &Event, kb: &Keybinds) -> (needs: bool)
    ensures
        needs == (kb.quits(*event) || kb.confirm.matches(*event)),
{
    kb.is_quit(event) || kb.is_confirm(event)
}

/// While the first scan runs no event asks for a deletion or a rescan.
pub proof fn a_running_scan_changes_nothing(kb: Keybinds, event: Event)
    ensures
        loading_control(kb, event) != Control::PromptDeletion,
        loading_control(kb, event) != Control::DeleteFiles,
        loading_control(kb, event) != Control::RescanSelected,
        loading_control(kb, event) != Control::RescanAll,
{
}

/// A mode of the terminal viewer.
#[derive(Debug, Clone, Copy, PartialEq, Eq, Structural)]
pub enum UiMode {
    Loading,
    Normal,
    ScreenTooSmall,
    DeleteFiles,
    ErrorMessage,
    Exiting { app_loaded: bool },
    WarningMessage,
}

/// What a mode shows of what every mode has: the title, the treemap and the bottom line.
#[derive(Debug, Clone, Copy, PartialEq, Eq, Structural)]
pub struct Chrome {
    /// The scan is running, or was when the exit was asked for.
    pub scanning: bool,
    /// The space freed by the last delete flashes in the title.
    pub flashes_space: bool,
    /// What was copied flashes in the title.
    pub flashes_clipboard: bool,
    pub shows_zoom: bool,
}

impl Chrome {
    /// What a mode shows.
    pub fn of(mode: UiMode) -> (chrome: Chrome)
        ensures
            chrome.scanning == (mode == UiMode::Loading || mode == UiMode::WarningMessage || mode
                == UiMode::Exiting { app_loaded: false }),
            chrome.flashes_space == (mode == UiMode::Normal || mode == UiMode::ErrorMessage
                || mode == UiMode::Exiting { app_loaded: true }),
            chrome.flashes_clipboard == (mode == UiMode::Loading || mode == UiMode::Normal),
            chrome.shows_zoom == (mode != UiMode::WarningMessage),
    {
        let (left_early, left_late) = match mode {
            UiMode::Exiting { app_loaded } => (!app_loaded, app_loaded),
            _ => (false, false),
        };
        Chrome {
            scanning: mode == UiMode::Loading || mode == UiMode::WarningMessage || left_early,
            flashes_space: mode == UiMode::Normal || mode == UiMode::ErrorMessage || left_late,
            flashes_clipboard: mode == UiMode::Loading || mode == UiMode::Normal,
            shows_zoom: mode != UiMode::WarningMessage,
        }
    }
}

/// The dialog that a mode has over everything.
#[derive(Debug, Clone, Copy, PartialEq, Eq, Structural)]
pub enum Modal {
    Nothing,
    Deletion,
    Error,
    Confirm,
    Warning,
}

/// The dialog that a mode has over everything.
pub fn modal_of(mode: UiMode) -> (modal: Modal)
    ensures
        modal == match mode {
            UiMode::DeleteFiles => Modal::Deletion,
            UiMode::ErrorMessage => Modal::Error,
            UiMode::Exiting { app_loaded: _ } => Modal::Confirm,
            UiMode::WarningMessage => Modal::Warning,
            _ => Modal::Nothing,
        },
{
    match mode {
        UiMode::DeleteFiles => Modal::Deletion,
        UiMode::ErrorMessage => Modal::Error,
        UiMode::Exiting { app_loaded: _ } => Modal::Confirm,
        UiMode::WarningMessage => Modal::Warning,
        _ => Modal::Nothing,
    }
}

/// Whether a mode shows the disk's figures, which are known once the scan is done.
pub fn shows_disk(mode: UiMode, at_root: bool) -> (shows: bool)
    ensures
        shows == (at_root && mode != UiMode::Loading && mode != UiMode::Exiting {
            app_loaded: false,
        }),
{
    let scanning = match mode {
        UiMode::Loading => true,
        UiMode::Exiting { app_loaded } => !app_loaded,
        _ => false,
    };
    at_root && !scanning
}

/// A cell's size in pixels, by the window's in pixels and in cells where both are known, else as
/// the terminal said when asked, else the usual shape.
pub fn measure_cell_pixels(
    window: Option<((u16, u16), (u16, u16))>,
    queried: Option<(u16, u16)>,
    usual: (u16, u16),
) -> (pixels: (u16, u16))
    ensures
        pixels == match window {
            Some((size, cells)) => if size.0 > 0 && size.1 > 0 && cells.0 > 0 && cells.1 > 0 {
                (cell_share(size.0, cells.0), cell_share(size.1, cells.1))
            } else {
                known_or(queried, usual)
            },
            None => known_or(queried, usual),
        },
{
    if let Some((size, cells)) = window {
        if size.0 > 0 && size.1 > 0 && cells.0 > 0 && cells.1 > 0 {
            let width: u16 = size.0 / cells.0;
            let height: u16 = size.1 / cells.1;
            return (
                if width > 1 {
                    width
                } else {
                    1
                },
                if height > 1 {
                    height
                } else {
                    1
                },
            );
        }
    }
    match queried {
        Some(pixels) => pixels,
        None => usual,
    }
}

/// A cell's share of a length, at least a pixel.
pub open spec fn cell_share(length: u16, cells: u16) -> u16 {
    if length as int / cells as int > 1 {
        (length as int / cells as int) as u16
    } else {
        1
    }
}

pub open spec fn known_or(known: Option<(u16, u16)>, usual: (u16, u16)) -> (u16, u16) {
    match known {
        Some(pixels) => pixels,
        None => usual,
    }
}

/// What an event does in a mode.
pub open spec fn control_in(mode: UiMode, kb: Keybinds, event: Event) -> Control {
    match mode {
        UiMode::Loading => loading_control(kb, event),
        UiMode::Normal => normal_control(kb, event),
        UiMode::ScreenTooSmall => if kb.quits(event) {
            Control::Exit
        } else {
            Control::Nothing
        },
        UiMode::DeleteFiles => if kb.quits(event) || kb.cancel.matches(event) {
            Control::NormalMode
        } else if kb.confirm.matches(event) {
            Control::DeleteFiles
        } else {
            Control::Nothing
        },
        UiMode::ErrorMessage => if kb.quits(event) || kb.parent.matches(event) {
            Control::NormalMode
        } else {
            Control::Nothing
        },
        UiMode::Exiting { app_loaded } => if kb.quits(event) || kb.cancel.matches(event) {
            Control::ResetMode
        } else if kb.confirm.matches(event) {
            Control::Exit
        } else {
            Control::Nothing
        },
        UiMode::WarningMessage => Control::ResetMode,
    }
}

/// What an event does in a mode.
pub fn handle_event(mode: UiMode, event: &Event, kb: &Keybinds) -> (control: Control)
    ensures
        control == control_in(mode, *kb, *event),
{
    match mode {
        UiMode::Loading => handle_keypress_loading_mode(event, kb),
        UiMode::Normal => handle_keypress_normal_mode(event, kb),
        UiMode::ScreenTooSmall => handle_keypress_screen_too_small(event, kb),
        UiMode::DeleteFiles => handle_keypress_delete_file_mode(event, kb),
        UiMode::ErrorMessage => handle_keypress_error_message(event, kb),
        UiMode::Exiting { app_loaded: _ } => handle_keypress_exiting_mode(event, kb),
        UiMode::WarningMessage => handle_keypress_warning_message(event),
    }
}

/// A deletion always asks first: it starts only at the key that confirms, and only while it is
/// asked about; and that is asked only once the scan is done.
pub proof fn a_deletion_asks_first(mode: UiMode, kb: Keybinds, event: Event)
    ensures
        control_in(mode, kb, event) == Control::DeleteFiles ==> mode == UiMode::DeleteFiles
            && kb.confirm.matches(event),
        control_in(mode, kb, event) == Control::PromptDeletion ==> mode == UiMode::Normal
            && kb.delete.matches(event),
{
}

/// Quitting asks first, unless there is no room to ask.
pub proof fn quitting_asks_first(mode: UiMode, kb: Keybinds, event: Event)
    ensures
        control_in(mode, kb, event) == Control::Exit ==> {
            ||| mode is Exiting && kb.confirm.matches(event)
            ||| mode == UiMode::ScreenTooSmall && kb.quits(event)
        },
{
}

/// The keys of the terminal viewer, as they are without a config: each does what it is for, while
/// the folder is shown.
pub proof fn the_usual_keys_do_what_they_are_for(kind: KeyEventKind)
    ensures
        ({
            let plain = KeyModifiers { shift: false, control: false, alt: false, other: false };
            let kb = default_keybinds();
            let does = |code: KeyCode|
                control_in(
                    UiMode::Normal,
                    kb,
                    Event::Key(KeyEvent { code, modifiers: plain, kind }),
                );
            &&& does(KeyCode::Left) == Control::MoveLeft
            &&& does(KeyCode::Right) == Control::MoveRight
            &&& does(KeyCode::Up) == Control::MoveUp
            &&& does(KeyCode::Down) == Control::MoveDown
            &&& does(KeyCode::Char('h')) == Control::MoveLeft
            &&& does(KeyCode::Char('j')) == Control::MoveDown
            &&& does(KeyCode::Char('k')) == Control::MoveUp
            &&& does(KeyCode::Char('l')) == Control::MoveRight
            &&& does(KeyCode::Enter) == Control::Enter
            &&& does(KeyCode::Esc) == Control::GoUp
            &&& does(KeyCode::Char('d')) == Control::PromptDeletion
            &&& does(KeyCode::Char('+')) == Control::ZoomIn
            &&& does(KeyCode::Char('-')) == Control::ZoomOut
            &&& does(KeyCode::Char('0')) == Control::ResetZoom
            &&& does(KeyCode::Char('a')) == Control::ToggleSize
            &&& does(KeyCode::Char('r')) == Control::RescanSelected
            &&& does(KeyCode::Char('R')) == Control::RescanAll
            &&& does(KeyCode::Char('q')) == Control::PromptExit
            &&& does(KeyCode::Tab) == Control::SwitchFocus
            &&& does(KeyCode::PageUp) == Control::JumpList(ListJump::PageUp)
            &&& does(KeyCode::PageDown) == Control::JumpList(ListJump::PageDown)
            &&& does(KeyCode::Home) == Control::JumpList(ListJump::Home)
            &&& does(KeyCode::End) == Control::JumpList(ListJump::End)
        }),
{
}

/// A key that is bound to one action, and to no other, does that action while the folder is shown.
pub proof fn a_bound_key_does_its_action(kb: Keybinds, key: KeyEvent)
    requires
        unmodified(key.modifiers),
        !(key.code is Left || key.code is Right || key.code is Up || key.code is Down),
        !(key.code is PageUp || key.code is PageDown || key.code is Home || key.code is End),
        ({
            let is = |binding: KeyBinding| if binding.code == key.code {
                1int
            } else {
                0int
            };
            is(kb.quit) + is(kb.delete) + is(kb.move_left) + is(kb.move_right) + is(kb.move_up)
                + is(kb.move_down) + is(kb.enter) + is(kb.parent) + is(kb.zoom_in) + is(kb.zoom_out)
                + is(kb.reset_zoom) + is(kb.switch_panel) + is(kb.rescan) + is(kb.rescan_all) + is(
                kb.toggle_size,
            ) == 1
        }),
    ensures
        ({
            let control = control_in(UiMode::Normal, kb, Event::Key(key));
            &&& control == Control::PromptExit <==> kb.quit.code == key.code
            &&& control == Control::PromptDeletion <==> kb.delete.code == key.code
            &&& control == Control::MoveLeft <==> kb.move_left.code == key.code
            &&& control == Control::MoveRight <==> kb.move_right.code == key.code
            &&& control == Control::MoveUp <==> kb.move_up.code == key.code
            &&& control == Control::MoveDown <==> kb.move_down.code == key.code
            &&& control == Control::Enter <==> kb.enter.code == key.code
            &&& control == Control::GoUp <==> kb.parent.code == key.code
            &&& control == Control::ZoomIn <==> kb.zoom_in.code == key.code
            &&& control == Control::ZoomOut <==> kb.zoom_out.code == key.code
            &&& control == Control::ResetZoom <==> kb.reset_zoom.code == key.code
            &&& control == Control::SwitchFocus <==> kb.switch_panel.code == key.code
            &&& control == Control::RescanSelected <==> kb.rescan.code == key.code
            &&& control == Control::RescanAll <==> kb.rescan_all.code == key.code
            &&& control == Control::ToggleSize <==> kb.toggle_size.code == key.code
        }),
{
}

/// While the first scan runs, a key that neither deletes nor scans again does what it does later; a
/// delete is warned of instead.
pub proof fn a_running_scan_stops_only_changes(kb: Keybinds, event: Event)
    ensures
        normal_control(kb, event) == Control::PromptDeletion ==> loading_control(kb, event)
            == Control::ShowWarning,
        normal_control(kb, event) != Control::PromptDeletion && normal_control(kb, event)
            != Control::RescanSelected && normal_control(kb, event) != Control::RescanAll
            ==> loading_control(kb, event) == normal_control(kb, event),
{
}

/// A press of a button is a click at its cell, with Control held and the left button one that
/// marks; Shift and an arrow extend the marks that way. The bindings have no part in either.
pub proof fn clicks_and_shift_arrows_go_by_themselves(kb: Keybinds, mouse: MouseEvent, key: KeyEvent)
    ensures
        ({
            let control = control_in(UiMode::Normal, kb, Event::Mouse(mouse));
            match mouse.kind {
                MouseEventKind::Down(button) => if button == MouseButton::Left
                    && mouse.modifiers.control {
                    control == (Control::CtrlClick { column: mouse.column, row: mouse.row })
                } else {
                    control == (Control::Click { button, column: mouse.column, row: mouse.row })
                },
                _ => control == Control::Nothing,
            }
        }),
        key.modifiers.shift && !key.modifiers.control && !key.modifiers.alt && !key.modifiers.other
            && key.code == KeyCode::Down ==> control_in(UiMode::Normal, kb, Event::Key(key))
            == Control::ExtendSelection(1isize),
        key.modifiers.shift && !key.modifiers.control && !key.modifiers.alt && !key.modifiers.other
            && key.code == KeyCode::Up ==> control_in(UiMode::Normal, kb, Event::Key(key))
            == Control::ExtendSelection(-1isize),
{
}

/// A question is answered by its two keys alone: confirming does what was asked, cancelling or
/// quitting goes back, and any other key leaves it up.
pub proof fn a_question_waits_for_its_answer(kb: Keybinds, event: Event, loaded: bool)
    ensures
        ({
            let deleting = control_in(UiMode::DeleteFiles, kb, event);
            let exiting = control_in(UiMode::Exiting { app_loaded: loaded }, kb, event);
            let (no, yes) = (
                kb.quits(event) || kb.cancel.matches(event),
                kb.confirm.matches(event),
            );
            &&& no ==> deleting == Control::NormalMode && exiting == Control::ResetMode
            &&& !no && yes ==> deleting == Control::DeleteFiles && exiting == Control::Exit
            &&& !no && !yes ==> deleting == Control::Nothing && exiting == Control::Nothing
        }),
{
}

/// A cell's share of the window is as many whole pixels as each of its cells can have, at least one.
pub proof fn cells_share_the_window(length: u16, cells: u16)
    requires
        cells > 0,
    ensures
        cell_share(length, cells) >= 1,
        length >= cells ==> cell_share(length, cells) * cells <= length < (cell_share(
            length,
            cells,
        ) + 1) * cells,
        length < cells ==> cell_share(length, cells) == 1,
{
    vstd::arithmetic::div_mod::lemma_fundamental_div_mod(length as int, cells as int);
    let share = length as int / cells as int;
    assert(share * cells <= length < (share + 1) * cells) by (nonlinear_arith)
        requires
            length == cells * share + length as int % cells as int,
            0 <= length as int % cells as int,
            (length as int % cells as int) < cells,
    ;
    if length >= cells {
        assert(share >= 1) by (nonlinear_arith)
            requires
                length >= cells,
                length < (share + 1) * cells,
                cells > 0,
        ;
    } else {
        assert(share < 1) by (nonlinear_arith)
            requires
                length < cells,
                share * cells <= length,
                cells > 0,
        ;
    }
}

/// The keys that jump through the list jump as they are named, and only when held with no other.
pub proof fn jump_keys_jump_as_named(key: KeyEvent)
    ensures
        jump_of(Event::Key(key)) == Some(ListJump::PageUp) <==> key.code == KeyCode::PageUp
            && unmodified(key.modifiers),
        jump_of(Event::Key(key)) == Some(ListJump::PageDown) <==> key.code == KeyCode::PageDown
            && unmodified(key.modifiers),
        jump_of(Event::Key(key)) == Some(ListJump::Home) <==> key.code == KeyCode::Home
            && unmodified(key.modifiers),
        jump_of(Event::Key(key)) == Some(ListJump::End) <==> key.code == KeyCode::End && unmodified(
            key.modifiers,
        ),
{
}

} // verus!
