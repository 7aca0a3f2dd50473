//! The context menu of a window: which items, in which order, with which words, and which of
//! them can be chosen. It is about what a command would act on: every marked entry, or else
//! the row in hand.

use vstd::prelude::*;

use crate::count::{append_count, grouped};
use crate::entries::FileType;
use crate::names::{spelled, Name};
use crate::state::model::ViewerModel;
use crate::state::Viewer;
use crate::text::{append, literal};

verus! {

/// What a menu item does.
#[derive(Clone, Copy, Debug, PartialEq, Eq, Structural)]
pub enum Action {
    /// Go into the folder in hand, or open the file with its default app.
    Open,
    QuickLook,
    /// Show the targets in the file manager, selected.
    Reveal,
    /// Their paths, quoted for the shell, relative to the working directory where they can be.
    CopyPath,
    /// Their paths, quoted for the shell, absolute.
    CopyFullPath,
    /// Their paths as they are, one a line.
    CopyPathname,
    /// Scan the folder in hand again, or the folder holding the file in hand.
    Rescan,
    RescanAll,
    /// Move the targets to the Trash, after asking.
    Trash,
    /// Delete the targets for good, after asking.
    Delete,
}

/// A line of the menu.
#[derive(Debug, PartialEq, Eq)]
pub enum Entry {
    Item { action: Action, label: String, enabled: bool },
    Separator,
}

/// A line of the menu, by the characters of its label.
#[verifier::ext_equal]
pub enum LineModel {
    Item { action: Action, label: Seq<char>, enabled: bool },
    Separator,
}

impl View for Entry {
    type V = LineModel;

    open spec fn view(&self) -> LineModel {
        match self {
            Entry::Item { action, label, enabled } => LineModel::Item {
                action: *action,
                label: label@,
                enabled: *enabled,
            },
            Entry::Separator => LineModel::Separator,
        }
    }
}

pub open spec fn menu_model(menu: Seq<Entry>) -> Seq<LineModel> {
    Seq::new(menu.len(), |i: int| menu[i]@)
}

/// What the window's platform can do beyond what every one does.
#[derive(Debug, PartialEq, Eq)]
pub struct Platform {
    /// The words of [`Action::Reveal`]'s item: `Show in Finder`.
    pub reveal: String,
    pub quick_look: bool,
    /// Whether it has [`Action::CopyPathname`].
    pub pathname: bool,
    /// A Trash to move entries to; without one, deleting is for good.
    pub trash: bool,
}

impl Entry {
    /// The item's action, if it is an item that can be chosen.
    pub fn chosen(&self) -> (action: Option<Action>)
        ensures
            action == match self@ {
                LineModel::Item { action, label: _, enabled } => if enabled {
                    Some(action)
                } else {
                    None
                },
                LineModel::Separator => None,
            },
    {
        match self {
            Entry::Item { action, label: _, enabled } => if *enabled {
                Some(*action)
            } else {
                None
            },
            Entry::Separator => None,
        }
    }
}

pub open spec fn item(action: Action, label: Seq<char>, enabled: bool) -> LineModel {
    LineModel::Item { action, label, enabled }
}

/// A line, where the platform has it.
pub open spec fn line_if(has: bool, line: LineModel) -> Seq<LineModel> {
    if has {
        seq![line]
    } else {
        Seq::empty()
    }
}

/// Words with the number of marked entries between them, when there are several.
pub open spec fn counted(m: ViewerModel, one: Seq<char>, before: Seq<char>, after: Seq<char>) -> Seq<
    char,
> {
    if m.marked.len() > 1 {
        (before + grouped(m.marked.len())) + after
    } else {
        one
    }
}

/// The lines that open things.
pub open spec fn opening_lines(m: ViewerModel, platform: Platform) -> Seq<LineModel> {
    (seq![item(Action::Open, "Open"@, m.marked.len() <= 1)] + line_if(
        platform.quick_look,
        item(Action::QuickLook, "Quick Look"@, true),
    )) + seq![item(Action::Reveal, platform.reveal@, true), LineModel::Separator]
}

/// The lines that copy paths.
pub open spec fn copying_lines(m: ViewerModel, platform: Platform) -> Seq<LineModel> {
    (seq![
        item(Action::CopyPath, counted(m, "Copy Path"@, "Copy "@, " Paths"@), true),
        item(
            Action::CopyFullPath,
            counted(m, "Copy Full Path"@, "Copy "@, " Full Paths"@),
            true,
        ),
    ] + line_if(platform.pathname, item(Action::CopyPathname, "Copy as Pathname"@, true)))
        + seq![LineModel::Separator]
}

/// The lines that scan again. The folder is the one in hand, or the one holding the file.
pub open spec fn rescan_lines(m: ViewerModel) -> Seq<LineModel> {
    seq![
        item(
            Action::Rescan,
            if m.cursor_entry() is Some && m.cursor_entry()->0.entry.file_type
                == FileType::Folder {
                "Rescan Folder"@
            } else {
                "Rescan Enclosing Folder"@
            },
            m.can_rescan(),
        ),
        item(Action::RescanAll, "Rescan Everything"@, m.can_rescan()),
        LineModel::Separator,
    ]
}

/// The lines that delete: not while the first scan runs.
pub open spec fn deleting_lines(m: ViewerModel, platform: Platform) -> Seq<LineModel> {
    if platform.trash {
        seq![
            item(
                Action::Trash,
                counted(m, "Move to Trash"@, "Move "@, " Items to Trash"@),
                !m.scanning,
            ),
            item(
                Action::Delete,
                counted(m, "Delete Immediately…"@, "Delete "@, " Items Immediately…"@),
                !m.scanning,
            ),
        ]
    } else {
        seq![
            item(
                Action::Delete,
                counted(m, "Delete…"@, "Delete "@, " Items…"@),
                !m.scanning,
            ),
        ]
    }
}

/// The menu for what is targeted: nothing when nothing is.
pub open spec fn menu_for(m: ViewerModel, platform: Platform) -> Seq<LineModel> {
    if m.marked.len() == 0 && m.cursor_entry() is None {
        Seq::empty()
    } else {
        ((opening_lines(m, platform) + copying_lines(m, platform)) + rescan_lines(m))
            + deleting_lines(m, platform)
    }
}

fn push_line(menu: &mut Vec<Entry>, line: Entry)
    ensures
        menu_model(final(menu)@) == menu_model(old(menu)@).push(line@),
{
    let ghost before = menu_model(menu@);
    menu.push(line);
    assert(menu_model(menu@) =~= before.push(line@));
}

fn push_item(menu: &mut Vec<Entry>, action: Action, label: String, enabled: bool)
    ensures
        menu_model(final(menu)@) == menu_model(old(menu)@).push(item(action, label@, enabled)),
{
    push_line(menu, Entry::Item { action, label, enabled });
}

impl Viewer {
    fn counted(&self, one: &str, before: &str, after: &str) -> (words: String)
        ensures
            words@ == counted(self@, one@, before@, after@),
    {
        if self.marked.len() > 1 {
            let mut words = literal(before);
            append_count(&mut words, self.marked.len() as u64);
            append(&mut words, after);
            words
        } else {
            literal(one)
        }
    }

    /// The file in hand, for its default app to open. A folder is entered instead.
    pub fn open_in_hand(&self) -> (path: Option<Vec<Name>>)
        ensures
            match path {
                Some(path) => {
                    &&& self@.cursor_entry() is Some
                    &&& self@.cursor_entry()->0.entry.file_type != FileType::Folder
                    &&& spelled(path@) == self@.folder + self@.cursor_entry()->0.path
                },
                None => {
                    ||| self@.cursor_entry() is None
                    ||| self@.cursor_entry()->0.entry.file_type == FileType::Folder
                },
            },
    {
        match self.cursor_entry() {
            Some(row) => if row.entry.file_type != FileType::Folder {
                Some(self.row_path(&row.path))
            } else {
                None
            },
            None => None,
        }
    }

    /// The context menu for what is targeted now: nothing when nothing is, and the scan still
    /// running greys out what would change the tree.
    pub fn context_menu(&self, platform: &Platform) -> (menu: Vec<Entry>)
        ensures
            menu_model(menu@) == menu_for(self@, *platform),
    {
        let mut menu: Vec<Entry> = Vec::new();
        assert(menu_model(menu@) =~= Seq::empty());
        let folder_in_hand = match self.cursor_entry() {
            Some(row) => row.entry.file_type == FileType::Folder,
            None => {
                if self.marked.len() == 0 {
                    return menu;
                }
                false
            },
        };
        let loaded = !self.scanning;
        // One thing opens; several would be a window each.
        push_item(&mut menu, Action::Open, literal("Open"), self.marked.len() <= 1);
        if platform.quick_look {
            push_item(&mut menu, Action::QuickLook, literal("Quick Look"), true);
        }
        push_item(&mut menu, Action::Reveal, literal(platform.reveal.as_str()), true);
        push_line(&mut menu, Entry::Separator);
        assert(menu_model(menu@) =~= opening_lines(self@, *platform));
        let ghost so_far = menu_model(menu@);
        let path = self.counted("Copy Path", "Copy ", " Paths");
        push_item(&mut menu, Action::CopyPath, path, true);
        let full = self.counted("Copy Full Path", "Copy ", " Full Paths");
        push_item(&mut menu, Action::CopyFullPath, full, true);
        if platform.pathname {
            push_item(&mut menu, Action::CopyPathname, literal("Copy as Pathname"), true);
        }
        push_line(&mut menu, Entry::Separator);
        assert(menu_model(menu@) =~= so_far + copying_lines(self@, *platform));
        let ghost so_far = menu_model(menu@);
        let rescan = if folder_in_hand {
            literal("Rescan Folder")
        } else {
            literal("Rescan Enclosing Folder")
        };
        let can_rescan = self.can_rescan();
        push_item(&mut menu, Action::Rescan, rescan, can_rescan);
        push_item(&mut menu, Action::RescanAll, literal("Rescan Everything"), can_rescan);
        push_line(&mut menu, Entry::Separator);
        assert(menu_model(menu@) =~= so_far + rescan_lines(self@));
        let ghost so_far = menu_model(menu@);
        if platform.trash {
            let trash = self.counted("Move to Trash", "Move ", " Items to Trash");
            push_item(&mut menu, Action::Trash, trash, loaded);
            let delete = self.counted(
                "Delete Immediately…",
                "Delete ",
                " Items Immediately…",
            );
            push_item(&mut menu, Action::Delete, delete, loaded);
        } else {
            let delete = self.counted("Delete…", "Delete ", " Items…");
            push_item(&mut menu, Action::Delete, delete, loaded);
        }
        assert(menu_model(menu@) =~= so_far + deleting_lines(self@, *platform));
        menu
    }
}

/// While the first scan runs nothing in the menu changes the disk or scans again.
pub proof fn a_running_scan_greys_out_changes(m: ViewerModel, platform: Platform, i: int)
    requires
        m.scanning,
        0 <= i < menu_for(m, platform).len(),
    ensures
        match menu_for(m, platform)[i] {
            LineModel::Item { action, label: _, enabled } => (action == Action::Trash || action
                == Action::Delete || action == Action::Rescan || action == Action::RescanAll)
                ==> !enabled,
            LineModel::Separator => true,
        },
{
}

/// The menu offers what can be done with what is under the pointer, and nothing where nothing is:
/// opening one entry, copying, scanning again unless the first scan runs, and removing likewise. It
/// offers the Trash where there is one.
pub proof fn the_menu_offers_what_can_be_done(m: ViewerModel, platform: Platform, i: int)
    requires
        0 <= i < menu_for(m, platform).len(),
    ensures
        m.marked.len() > 0 || m.cursor_entry() is Some,
        match menu_for(m, platform)[i] {
            LineModel::Item { action, label, enabled } => {
                &&& action == Action::Open ==> enabled == (m.marked.len() <= 1)
                &&& action == Action::Rescan || action == Action::RescanAll ==> enabled == (
                !m.scanning && m.rescanner)
                &&& action == Action::Trash ==> platform.trash
                &&& action == Action::Trash || action == Action::Delete ==> enabled == !m.scanning
                &&& action == Action::QuickLook ==> platform.quick_look && enabled
                &&& action == Action::CopyPathname ==> platform.pathname && enabled
                &&& action == Action::CopyPath || action == Action::CopyFullPath || action
                    == Action::Reveal ==> enabled
                &&& action == Action::Reveal ==> label == platform.reveal@
            },
            LineModel::Separator => true,
        },
{
    let (a, b, c, d) = (
        opening_lines(m, platform),
        copying_lines(m, platform),
        rescan_lines(m),
        deleting_lines(m, platform),
    );
    let menu = menu_for(m, platform);
    if i < a.len() {
        assert(menu[i] == a[i]);
    } else if i < a.len() + b.len() {
        assert(menu[i] == b[i - a.len()]);
    } else if i < a.len() + b.len() + c.len() {
        assert(menu[i] == c[i - a.len() - b.len()]);
    } else {
        assert(menu[i] == d[i - a.len() - b.len() - c.len()]);
    }
}

/// Whatever is marked or in hand can be opened, shown, copied in two ways, scanned again and deleted
/// from the menu: each has its item.
pub proof fn the_menu_has_an_item_for_each(m: ViewerModel, platform: Platform)
    requires
        m.marked.len() > 0 || m.cursor_entry() is Some,
    ensures
        ({
            let menu = menu_for(m, platform);
            let offers = |action: Action| exists|i: int|
                0 <= i < menu.len() && match #[trigger] menu[i] {
                    LineModel::Item { action: its, label: _, enabled: _ } => its == action,
                    LineModel::Separator => false,
                };
            &&& offers(Action::Open)
            &&& offers(Action::Reveal)
            &&& offers(Action::CopyPath)
            &&& offers(Action::CopyFullPath)
            &&& offers(Action::Rescan)
            &&& offers(Action::RescanAll)
            &&& offers(Action::Delete)
            &&& platform.trash ==> offers(Action::Trash)
            &&& platform.quick_look ==> offers(Action::QuickLook)
            &&& platform.pathname ==> offers(Action::CopyPathname)
        }),
{
    let (a, b, c, d) = (
        opening_lines(m, platform),
        copying_lines(m, platform),
        rescan_lines(m),
        deleting_lines(m, platform),
    );
    let menu = menu_for(m, platform);
    let look = if platform.quick_look {
        1int
    } else {
        0int
    };
    let (n, k, l) = (a.len() as int, b.len() as int, c.len() as int);
    assert(menu[0] == a[0]);
    assert(menu[1] == a[1]);
    assert(menu[1 + look] == a[1 + look]);
    assert(menu[n] == b[0]);
    assert(menu[n + 1] == b[1]);
    assert(menu[n + 2] == b[2]);
    assert(menu[n + k] == c[0]);
    assert(menu[n + k + 1] == c[1]);
    assert(menu[n + k + l] == d[0]);
    if platform.trash {
        assert(menu[n + k + l + 1] == d[1]);
    }
}

/// An item says how many entries it is about when they are several, and names the one otherwise.
pub proof fn items_say_how_many(m: ViewerModel, one: Seq<char>, before: Seq<char>, after: Seq<char>)
    ensures
        m.marked.len() <= 1 ==> counted(m, one, before, after) == one,
        m.marked.len() > 1 ==> counted(m, one, before, after) == before + grouped(m.marked.len())
            + after,
{
}

/// The menu says which folder is scanned again: the one in hand, or the one holding the file.
pub proof fn the_menu_says_which_folder_is_scanned_again(
    m: ViewerModel,
    platform: Platform,
    i: int,
)
    requires
        0 <= i < menu_for(m, platform).len(),
    ensures
        match menu_for(m, platform)[i] {
            LineModel::Item { action, label, enabled } => {
                &&& action == Action::Rescan && m.cursor_entry() is Some
                    && m.cursor_entry()->0.entry.file_type == FileType::Folder ==> label
                    == "Rescan Folder"@
                &&& action == Action::Rescan && m.cursor_entry() is Some
                    && m.cursor_entry()->0.entry.file_type == FileType::File ==> label
                    == "Rescan Enclosing Folder"@
                &&& action == Action::Rescan && m.cursor_entry() is None ==> label
                    == "Rescan Enclosing Folder"@
                &&& action == Action::RescanAll ==> label == "Rescan Everything"@
            },
            LineModel::Separator => true,
        },
{
    let (a, b, c, d) = (
        opening_lines(m, platform),
        copying_lines(m, platform),
        rescan_lines(m),
        deleting_lines(m, platform),
    );
    let menu = menu_for(m, platform);
    if i < a.len() {
        assert(menu[i] == a[i]);
    } else if i < a.len() + b.len() {
        assert(menu[i] == b[i - a.len()]);
    } else if i < a.len() + b.len() + c.len() {
        assert(menu[i] == c[i - a.len() - b.len()]);
    } else {
        assert(menu[i] == d[i - a.len() - b.len() - c.len()]);
    }
}

} // verus!
