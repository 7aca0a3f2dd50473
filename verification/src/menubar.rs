//! A Mac's menu bar: its menus, their commands and the keys that choose them, and which can be
//! chosen.

use vstd::prelude::*;

use crate::text::literal;

verus! {

/// What an item of the menu bar does.
#[derive(Debug, Clone, Copy, PartialEq, Eq, Structural)]
pub enum Command {
    About,
    Hide,
    HideOthers,
    ShowAll,
    Quit,
    ScanFolder,
    OpenSelected,
    EnclosingFolder,
    QuickLook,
    ShowInFinder,
    MoveToTrash,
    DeleteImmediately,
    CloseWindow,
    CopyPath,
    CopyAsPathname,
    MarkAll,
    ToggleApparentSize,
    ZoomIn,
    ZoomOut,
    ResetZoom,
    RescanFolder,
    RescanEverything,
    ToggleSidebar,
    ToggleFullScreen,
    Minimize,
    ZoomWindow,
}

/// The key that chooses an item, with Command held and whatever else it says. A capital letter
/// is its own Shift.
#[derive(Debug, Clone, Copy, PartialEq, Eq, Structural)]
pub struct Shortcut {
    pub key: char,
    pub option: bool,
    pub control: bool,
}

/// A line of a menu.
#[derive(Debug, PartialEq, Eq)]
pub enum BarLine {
    Item { title: String, command: Command, shortcut: Option<Shortcut> },
    Separator,
    /// The menu of services, which the system fills.
    Services,
}

/// A menu of the bar.
#[derive(Debug, PartialEq, Eq)]
pub struct BarMenu {
    pub title: String,
    pub lines: Vec<BarLine>,
}

/// A line of a menu, by the characters of its title.
#[verifier::ext_equal]
pub enum BarLineModel {
    Item { title: Seq<char>, command: Command, shortcut: Option<Shortcut> },
    Separator,
    Services,
}

/// A menu of the bar, by the characters of its title.
#[verifier::ext_equal]
pub struct BarMenuModel {
    pub title: Seq<char>,
    pub lines: Seq<BarLineModel>,
}

impl View for BarLine {
    type V = BarLineModel;

    open spec fn view(&self) -> BarLineModel {
        match self {
            BarLine::Item { title, command, shortcut } => BarLineModel::Item {
                title: title@,
                command: *command,
                shortcut: *shortcut,
            },
            BarLine::Separator => BarLineModel::Separator,
            BarLine::Services => BarLineModel::Services,
        }
    }
}

pub open spec fn lines_model(lines: Seq<BarLine>) -> Seq<BarLineModel> {
    Seq::new(lines.len(), |i: int| lines[i]@)
}

impl View for BarMenu {
    type V = BarMenuModel;

    open spec fn view(&self) -> BarMenuModel {
        BarMenuModel { title: self.title@, lines: lines_model(self.lines@) }
    }
}

pub open spec fn menus_model(menus: Seq<BarMenu>) -> Seq<BarMenuModel> {
    Seq::new(menus.len(), |i: int| menus[i]@)
}

/// An item with a key of its own.
pub open spec fn keyed(title: Seq<char>, command: Command, key: char) -> BarLineModel {
    BarLineModel::Item {
        title,
        command,
        shortcut: Some(Shortcut { key, option: false, control: false }),
    }
}

/// An item with a key that Option goes with.
pub open spec fn keyed_option(title: Seq<char>, command: Command, key: char) -> BarLineModel {
    BarLineModel::Item {
        title,
        command,
        shortcut: Some(Shortcut { key, option: true, control: false }),
    }
}

/// An item with a key that Control goes with.
pub open spec fn keyed_control(title: Seq<char>, command: Command, key: char) -> BarLineModel {
    BarLineModel::Item {
        title,
        command,
        shortcut: Some(Shortcut { key, option: false, control: true }),
    }
}

/// An item with no key.
pub open spec fn unkeyed(title: Seq<char>, command: Command) -> BarLineModel {
    BarLineModel::Item { title, command, shortcut: None }
}

pub open spec fn app_lines() -> Seq<BarLineModel> {
    seq![
        unkeyed("About diskonaut"@, Command::About),
        BarLineModel::Separator,
        BarLineModel::Services,
        BarLineModel::Separator,
        keyed("Hide diskonaut"@, Command::Hide, 'h'),
        keyed_option("Hide Others"@, Command::HideOthers, 'h'),
        unkeyed("Show All"@, Command::ShowAll),
        BarLineModel::Separator,
        keyed("Quit diskonaut"@, Command::Quit, 'q'),
    ]
}

pub open spec fn file_lines() -> Seq<BarLineModel> {
    seq![
        keyed("Scan Folder…"@, Command::ScanFolder, 'o'),
        BarLineModel::Separator,
        keyed("Open"@, Command::OpenSelected, '\u{f701}'),
        keyed("Enclosing Folder"@, Command::EnclosingFolder, '\u{f700}'),
        keyed("Quick Look"@, Command::QuickLook, 'y'),
        keyed_option("Show in Finder"@, Command::ShowInFinder, 'r'),
        BarLineModel::Separator,
        keyed("Move to Trash"@, Command::MoveToTrash, '\u{8}'),
        keyed_option("Delete Immediately…"@, Command::DeleteImmediately, '\u{8}'),
        BarLineModel::Separator,
        keyed("Close Window"@, Command::CloseWindow, 'w'),
    ]
}

pub open spec fn edit_lines() -> Seq<BarLineModel> {
    seq![
        keyed("Copy Path"@, Command::CopyPath, 'c'),
        keyed_option("Copy as Pathname"@, Command::CopyAsPathname, 'c'),
        keyed("Mark All"@, Command::MarkAll, 'a'),
    ]
}

pub open spec fn view_lines() -> Seq<BarLineModel> {
    seq![
        unkeyed("Show Apparent Sizes"@, Command::ToggleApparentSize),
        BarLineModel::Separator,
        keyed("Zoom In"@, Command::ZoomIn, '+'),
        keyed("Zoom Out"@, Command::ZoomOut, '-'),
        keyed("Actual Size"@, Command::ResetZoom, '0'),
        BarLineModel::Separator,
        keyed("Rescan Folder"@, Command::RescanFolder, 'r'),
        keyed("Rescan Everything"@, Command::RescanEverything, 'R'),
        BarLineModel::Separator,
        keyed_control("Hide Sidebar"@, Command::ToggleSidebar, 's'),
        keyed_control("Enter Full Screen"@, Command::ToggleFullScreen, 'f'),
    ]
}

pub open spec fn window_lines() -> Seq<BarLineModel> {
    seq![
        keyed("Minimize"@, Command::Minimize, 'm'),
        unkeyed("Zoom"@, Command::ZoomWindow),
    ]
}

/// The menu bar.
pub open spec fn bar() -> Seq<BarMenuModel> {
    seq![
        BarMenuModel { title: "diskonaut"@, lines: app_lines() },
        BarMenuModel { title: "File"@, lines: file_lines() },
        BarMenuModel { title: "Edit"@, lines: edit_lines() },
        BarMenuModel { title: "View"@, lines: view_lines() },
        BarMenuModel { title: "Window"@, lines: window_lines() },
    ]
}

fn push_line(lines: &mut Vec<BarLine>, line: BarLine)
    ensures
        lines_model(final(lines)@) == lines_model(old(lines)@).push(line@),
{
    let ghost before = lines_model(lines@);
    lines.push(line);
    assert(lines_model(lines@) =~= before.push(line@));
}

fn add_item(
    lines: &mut Vec<BarLine>,
    title: &str,
    command: Command,
    key: char,
    option: bool,
    control: bool,
)
    ensures
        lines_model(final(lines)@) == lines_model(old(lines)@).push(
            BarLineModel::Item {
                title: title@,
                command,
                shortcut: Some(Shortcut { key, option, control }),
            },
        ),
{
    let shortcut = Some(Shortcut { key, option, control });
    push_line(lines, BarLine::Item { title: literal(title), command, shortcut });
}

fn add_plain(lines: &mut Vec<BarLine>, title: &str, command: Command)
    ensures
        lines_model(final(lines)@) == lines_model(old(lines)@).push(unkeyed(title@, command)),
{
    push_line(lines, BarLine::Item { title: literal(title), command, shortcut: None });
}

fn app_menu() -> (lines: Vec<BarLine>)
    ensures
        lines_model(lines@) == app_lines(),
{
    let mut lines: Vec<BarLine> = Vec::new();
    add_plain(&mut lines, "About diskonaut", Command::About);
    push_line(&mut lines, BarLine::Separator);
    push_line(&mut lines, BarLine::Services);
    push_line(&mut lines, BarLine::Separator);
    add_item(&mut lines, "Hide diskonaut", Command::Hide, 'h', false, false);
    add_item(&mut lines, "Hide Others", Command::HideOthers, 'h', true, false);
    add_plain(&mut lines, "Show All", Command::ShowAll);
    push_line(&mut lines, BarLine::Separator);
    add_item(&mut lines, "Quit diskonaut", Command::Quit, 'q', false, false);
    assert(lines_model(lines@) =~= app_lines());
    lines
}

fn file_menu() -> (lines: Vec<BarLine>)
    ensures
        lines_model(lines@) == file_lines(),
{
    let mut lines: Vec<BarLine> = Vec::new();
    add_item(&mut lines, "Scan Folder…", Command::ScanFolder, 'o', false, false);
    push_line(&mut lines, BarLine::Separator);
    add_item(&mut lines, "Open", Command::OpenSelected, '\u{f701}', false, false);
    add_item(
        &mut lines,
        "Enclosing Folder",
        Command::EnclosingFolder,
        '\u{f700}',
        false,
        false,
    );
    add_item(&mut lines, "Quick Look", Command::QuickLook, 'y', false, false);
    add_item(&mut lines, "Show in Finder", Command::ShowInFinder, 'r', true, false);
    push_line(&mut lines, BarLine::Separator);
    add_item(&mut lines, "Move to Trash", Command::MoveToTrash, '\u{8}', false, false);
    add_item(
        &mut lines,
        "Delete Immediately…",
        Command::DeleteImmediately,
        '\u{8}',
        true,
        false,
    );
    push_line(&mut lines, BarLine::Separator);
    add_item(&mut lines, "Close Window", Command::CloseWindow, 'w', false, false);
    assert(lines_model(lines@) =~= file_lines());
    lines
}

fn edit_menu() -> (lines: Vec<BarLine>)
    ensures
        lines_model(lines@) == edit_lines(),
{
    let mut lines: Vec<BarLine> = Vec::new();
    add_item(&mut lines, "Copy Path", Command::CopyPath, 'c', false, false);
    add_item(&mut lines, "Copy as Pathname", Command::CopyAsPathname, 'c', true, false);
    add_item(&mut lines, "Mark All", Command::MarkAll, 'a', false, false);
    assert(lines_model(lines@) =~= edit_lines());
    lines
}

fn view_menu() -> (lines: Vec<BarLine>)
    ensures
        lines_model(lines@) == view_lines(),
{
    let mut lines: Vec<BarLine> = Vec::new();
    add_plain(&mut lines, "Show Apparent Sizes", Command::ToggleApparentSize);
    push_line(&mut lines, BarLine::Separator);
    add_item(&mut lines, "Zoom In", Command::ZoomIn, '+', false, false);
    add_item(&mut lines, "Zoom Out", Command::ZoomOut, '-', false, false);
    add_item(&mut lines, "Actual Size", Command::ResetZoom, '0', false, false);
    push_line(&mut lines, BarLine::Separator);
    add_item(&mut lines, "Rescan Folder", Command::RescanFolder, 'r', false, false);
    add_item(&mut lines, "Rescan Everything", Command::RescanEverything, 'R', false, false);
    push_line(&mut lines, BarLine::Separator);
    add_item(&mut lines, "Hide Sidebar", Command::ToggleSidebar, 's', false, true);
    add_item(&mut lines, "Enter Full Screen", Command::ToggleFullScreen, 'f', false, true);
    assert(lines_model(lines@) =~= view_lines());
    lines
}

fn window_menu() -> (lines: Vec<BarLine>)
    ensures
        lines_model(lines@) == window_lines(),
{
    let mut lines: Vec<BarLine> = Vec::new();
    add_item(&mut lines, "Minimize", Command::Minimize, 'm', false, false);
    add_plain(&mut lines, "Zoom", Command::ZoomWindow);
    assert(lines_model(lines@) =~= window_lines());
    lines
}

/// The menu bar.
pub fn menu_bar() -> (menus: Vec<BarMenu>)
    ensures
        menus_model(menus@) == bar(),
{
    let mut menus: Vec<BarMenu> = Vec::new();
    menus.push(BarMenu { title: literal("diskonaut"), lines: app_menu() });
    menus.push(BarMenu { title: literal("File"), lines: file_menu() });
    menus.push(BarMenu { title: literal("Edit"), lines: edit_menu() });
    menus.push(BarMenu { title: literal("View"), lines: view_menu() });
    menus.push(BarMenu { title: literal("Window"), lines: window_menu() });
    assert(menus_model(menus@) =~= bar());
    menus
}

/// The command that a key chooses.
pub open spec fn chosen_by(shortcut: Shortcut) -> Option<Command> {
    let Shortcut { key, option, control } = shortcut;
    if control {
        if option {
            None
        } else if key == 's' {
            Some(Command::ToggleSidebar)
        } else if key == 'f' {
            Some(Command::ToggleFullScreen)
        } else {
            None
        }
    } else if option {
        if key == 'h' {
            Some(Command::HideOthers)
        } else if key == 'r' {
            Some(Command::ShowInFinder)
        } else if key == '\u{8}' {
            Some(Command::DeleteImmediately)
        } else if key == 'c' {
            Some(Command::CopyAsPathname)
        } else {
            None
        }
    } else {
        match key {
            'h' => Some(Command::Hide),
            'q' => Some(Command::Quit),
            'o' => Some(Command::ScanFolder),
            '\u{f701}' => Some(Command::OpenSelected),
            '\u{f700}' => Some(Command::EnclosingFolder),
            'y' => Some(Command::QuickLook),
            '\u{8}' => Some(Command::MoveToTrash),
            'w' => Some(Command::CloseWindow),
            'c' => Some(Command::CopyPath),
            'a' => Some(Command::MarkAll),
            '+' => Some(Command::ZoomIn),
            '-' => Some(Command::ZoomOut),
            '0' => Some(Command::ResetZoom),
            'r' => Some(Command::RescanFolder),
            'R' => Some(Command::RescanEverything),
            'm' => Some(Command::Minimize),
            _ => None,
        }
    }
}

/// Whether each item that has a key is the one its key chooses.
pub open spec fn keys_choose(lines: Seq<BarLineModel>) -> bool {
    forall|i: int|
        0 <= i < lines.len() ==> match #[trigger] lines[i] {
            BarLineModel::Item { title: _, command, shortcut: Some(shortcut) } => chosen_by(
                shortcut,
            ) == Some(command),
            _ => true,
        }
}

/// No key chooses two commands: each item's key is that of its command and of no other.
pub proof fn a_key_chooses_one_command()
    ensures
        forall|menu: int| 0 <= menu < bar().len() ==> keys_choose((#[trigger] bar()[menu]).lines),
{
    assert(keys_choose(app_lines()));
    assert(keys_choose(file_lines()));
    assert(keys_choose(edit_lines()));
    assert(keys_choose(view_lines()));
    assert(keys_choose(window_lines()));
}

/// What a command can be chosen by.
#[derive(Debug, Clone, Copy, PartialEq, Eq, Structural)]
pub struct Choices {
    /// Whether a window shows a scan at all.
    pub viewer: bool,
    pub has_target: bool,
    pub scanning: bool,
    pub depth: usize,
    pub can_rescan: bool,
}

/// Whether an item of the menu bar can be chosen.
pub fn validate(command: Command, choices: Choices) -> (can: bool)
    ensures
        can == if !choices.viewer {
            command == Command::ScanFolder
        } else if command == Command::MoveToTrash || command == Command::DeleteImmediately {
            choices.has_target && !choices.scanning
        } else if command == Command::OpenSelected || command == Command::QuickLook {
            choices.has_target
        } else if command == Command::EnclosingFolder {
            choices.depth > 0
        } else if command == Command::RescanFolder || command == Command::RescanEverything {
            choices.can_rescan
        } else {
            true
        },
{
    if !choices.viewer {
        return command == Command::ScanFolder;
    }
    match command {
        Command::MoveToTrash | Command::DeleteImmediately => choices.has_target
            && !choices.scanning,
        Command::OpenSelected | Command::QuickLook => choices.has_target,
        Command::EnclosingFolder => choices.depth > 0,
        Command::RescanFolder | Command::RescanEverything => choices.can_rescan,
        _ => true,
    }
}

/// The title of the item that shows or hides the side panel.
pub fn sidebar_title(shown: bool) -> (title: String)
    ensures
        title@ == if shown {
            "Hide Sidebar"@
        } else {
            "Show Sidebar"@
        },
{
    if shown {
        literal("Hide Sidebar")
    } else {
        literal("Show Sidebar")
    }
}

} // verus!
