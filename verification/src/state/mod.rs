//! What the window shows and how it answers input, with no toolkit in it: the entry in hand,
//! marks, navigation, and what a delete or a rescan changes.
//!
//! The entry in hand is one *name*, which the list highlights and the treemap selects; a plain
//! move, jump, click or folder change clears the marks; a Shift run keeps the marks it started
//! from and shrinks when reversed; a toggling click takes in the entry already in hand only if
//! the user picked it, so nothing unchosen is ever deleted.
//!
//! The tree itself, and the layout of its tiles, are the window's: it hands over the listing,
//! rows and tiles of the folder shown as [`Contents`], and again whenever they change.

pub mod actions;
pub mod beside;
pub mod folders;
pub mod hand;
pub mod laws;
pub mod model;
pub mod outcomes;
pub mod pointer;
pub mod report;
pub mod words;

use vstd::prelude::*;

use crate::entries::{
    listing_model, nested_model, rows_model, tiles_model, FileMetadata, NestedTile, Row, Tile,
};
use crate::names::{name_view, path_view, place, spelled, Name};
use crate::state::model::{ContentsModel, TreemapModel, ViewerModel};

verus! {

/// Which panel the arrow keys drive.
#[derive(Clone, Copy, Debug, PartialEq, Eq, Structural)]
pub enum Focus {
    List,
    Treemap,
}

#[derive(Clone, Copy, Debug, PartialEq, Eq, Structural)]
pub enum Direction {
    Left,
    Right,
    Up,
    Down,
}

/// A jump through the list.
#[derive(Clone, Copy, Debug, PartialEq, Eq, Structural)]
pub enum Jump {
    PageUp,
    PageDown,
    Home,
    End,
}

/// Modifier keys held during a click.
#[derive(Clone, Copy, Debug, PartialEq, Eq, Structural)]
pub struct Mods {
    /// Add or take away one entry from the marks.
    pub toggle: bool,
    /// Mark every entry from the anchor to this one.
    pub range: bool,
}

impl Default for Mods {
    fn default() -> (mods: Self)
        ensures
            mods == (Mods { toggle: false, range: false }),
    {
        Mods { toggle: false, range: false }
    }
}

/// What the preview shows for the entry in hand.
#[derive(Debug, PartialEq, Eq)]
pub enum Preview {
    /// Nothing asked for: a folder, or nothing in hand.
    Empty,
    Loading,
    /// A line instead of the contents: empty, binary, unreadable.
    Info(String),
    Text(Vec<String>),
    /// A picture, by its caption; the image itself is the window's.
    Picture(String),
}

/// What a window shows of a folder, laid out.
pub struct Contents {
    /// The folder's entries, in the order listed.
    pub listing: Vec<FileMetadata>,
    pub tiles: Vec<Tile>,
    /// The first cell of the corner that the entries too small for a tile are folded into.
    pub small_files: Option<(u16, u16)>,
    pub zoom_level: usize,
    /// The list: the folder's entries, and under each folder open in place its own.
    pub rows: Vec<Row>,
    /// The tiles inside the folder tiles, parents first.
    pub nested: Vec<NestedTile>,
}

impl View for Contents {
    type V = ContentsModel;

    open spec fn view(&self) -> ContentsModel {
        ContentsModel {
            listing: listing_model(self.listing@),
            tiles: tiles_model(self.tiles@),
            small_files: self.small_files,
            zoom_level: self.zoom_level as int,
            rows: rows_model(self.rows@),
            nested: nested_model(self.nested@),
        }
    }
}

/// A treemap, laid out.
pub struct Treemap {
    pub tiles: Vec<Tile>,
    pub small_files: Option<(u16, u16)>,
    pub zoom_level: usize,
    pub nested: Vec<NestedTile>,
}

impl View for Treemap {
    type V = TreemapModel;

    open spec fn view(&self) -> TreemapModel {
        TreemapModel {
            tiles: tiles_model(self.tiles@),
            small_files: self.small_files,
            zoom_level: self.zoom_level as int,
            nested: nested_model(self.nested@),
        }
    }
}

/// A window on a scanned folder.
pub struct Viewer {
    /// The folder shown, as the names from the scan's root down.
    pub folder: Vec<Name>,
    /// What is shown of it.
    pub contents: Contents,
    /// The tile of the entry in hand.
    pub tile_in_hand: Option<usize>,
    /// How many whole rows the list shows, when the window is wide enough for a side panel.
    pub list_rows: Option<usize>,
    /// The list as a tree: folders open in place and their entries follow, indented.
    pub tree_view: bool,
    pub focus: Focus,
    /// The entry in hand, by name, so that it stays in hand when the tiles are laid out again.
    pub selected: Option<Name>,
    /// Whether the entry in hand was picked by the user, rather than placed by the viewer.
    pub chosen: bool,
    /// Marked entries, in the order marked. When there are any, they are what is acted on;
    /// otherwise the entry in hand is.
    pub marked: Vec<Name>,
    /// Where a Shift range starts.
    pub anchor: Option<Name>,
    /// The marks there were when the run of Shift moves began.
    pub mark_run: Option<Vec<Name>>,
    /// The row in hand, as its path from the listed folder.
    pub cursor: Option<Vec<Name>>,
    /// The list's first row on screen.
    pub list_top: usize,
    pub hover: Option<Name>,
    /// The row under the pointer.
    pub hover_row: Option<usize>,
    /// The nested tile under the pointer.
    pub hover_nested: Option<usize>,
    /// The zoom level of each folder above this one, to restore on the way back up.
    pub zooms: Vec<usize>,
    /// Whether copied paths go to a clipboard.
    pub clipboard: bool,
    /// Whether the marks changed, so that their paths are to be copied.
    pub copy_due: bool,
    /// Whether folders can be scanned again.
    pub rescanner: bool,
    pub scanning: bool,
    /// Counts the scans started in this window.
    pub scan_id: u64,
    pub entries_scanned: u64,
    pub failed_to_read: u64,
    /// How long the scan took, in nanoseconds.
    pub scan_took: Option<u64>,
    /// A message for the status bar, and when it was posted, in nanoseconds.
    pub message: Option<(String, u64)>,
    /// The file the preview was last asked for, and the pixels it may take.
    pub preview_for: Option<(Vec<Name>, Option<(u32, u32)>)>,
    /// The number of the last request for a preview.
    pub preview_generation: u64,
    pub preview: Preview,
}

/// Places as mathematical integers.
pub open spec fn places(indices: Seq<usize>) -> Seq<int> {
    Seq::new(indices.len(), |i: int| indices[i] as int)
}

impl View for Viewer {
    type V = ViewerModel;

    open spec fn view(&self) -> ViewerModel {
        ViewerModel {
            folder: spelled(self.folder@),
            listing: self.contents@.listing,
            tiles: self.contents@.tiles,
            small_files: self.contents.small_files,
            tile_in_hand: place(self.tile_in_hand),
            zoom_level: self.contents.zoom_level as int,
            rows: self.contents@.rows,
            nested: self.contents@.nested,
            list_rows: place(self.list_rows),
            tree_view: self.tree_view,
            focus: self.focus,
            selected: name_view(self.selected),
            chosen: self.chosen,
            marked: spelled(self.marked@),
            anchor: name_view(self.anchor),
            mark_run: path_view(self.mark_run),
            cursor: path_view(self.cursor),
            list_top: self.list_top as int,
            hover: name_view(self.hover),
            hover_row: place(self.hover_row),
            hover_nested: place(self.hover_nested),
            zooms: places(self.zooms@),
            clipboard: self.clipboard,
            copy_due: self.copy_due,
            rescanner: self.rescanner,
            scanning: self.scanning,
            scan_id: self.scan_id as int,
            entries_scanned: self.entries_scanned as int,
            failed_to_read: self.failed_to_read as int,
            scan_took: self.scan_took,
            message: match self.message {
                Some((message, at)) => Some((message@, at)),
                None => None,
            },
            preview_for: match self.preview_for {
                Some((path, pixels)) => Some((spelled(path@), pixels)),
                None => None,
            },
            preview_generation: self.preview_generation as int,
            preview: self.preview,
        }
    }
}

} // verus!
