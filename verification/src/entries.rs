//! What a viewer shows of a folder: its listing, the rows of its list, and its tiles.

use vstd::prelude::*;

use crate::names::{copy_name, copy_path, spelled, Name};

verus! {

/// What an entry is.
#[derive(Clone, Copy, Debug, PartialEq, Eq, Structural)]
pub enum FileType {
    File,
    Folder,
}

/// An entry of a folder.
pub struct FileMetadata {
    pub name: Name,
    /// Its size in bytes, of the kind shown.
    pub size: u128,
    /// How many entries are under it, when it is a folder and they are known.
    pub descendants: Option<u64>,
    pub file_type: FileType,
}

/// A row of the list: an entry, and where it is under the listed folder.
pub struct Row {
    /// The names from the listed folder down to the entry: one for a top-level row.
    pub path: Vec<Name>,
    pub entry: FileMetadata,
    /// How many folders open in place it is under.
    pub depth: usize,
    /// Whether it is a folder open in place.
    pub open: bool,
}

/// An entry's place in the treemap, in layout cells.
pub struct Tile {
    pub entry: FileMetadata,
    pub x: u16,
    pub y: u16,
    pub width: u16,
    pub height: u16,
}

/// A tile inside a folder's tile.
pub struct NestedTile {
    /// The names from the listed folder down to the entry.
    pub path: Vec<Name>,
    pub tile: Tile,
    /// How many tiles it is inside.
    pub depth: usize,
}

/// An entry by its bytes.
#[verifier::ext_equal]
pub struct EntryModel {
    pub name: Seq<u8>,
    pub size: int,
    pub descendants: Option<u64>,
    pub file_type: FileType,
}

/// A row by the bytes of its path.
#[verifier::ext_equal]
pub struct RowModel {
    pub path: Seq<Seq<u8>>,
    pub entry: EntryModel,
    pub depth: int,
    pub open: bool,
}

/// A tile by its entry and the cells it spans.
#[verifier::ext_equal]
pub struct TileModel {
    pub entry: EntryModel,
    pub x: int,
    pub y: int,
    pub width: int,
    pub height: int,
}

/// A nested tile by the bytes of its path.
#[verifier::ext_equal]
pub struct NestedModel {
    pub path: Seq<Seq<u8>>,
    pub tile: TileModel,
    pub depth: int,
}

impl View for FileMetadata {
    type V = EntryModel;

    open spec fn view(&self) -> EntryModel {
        EntryModel {
            name: self.name@,
            size: self.size as int,
            descendants: self.descendants,
            file_type: self.file_type,
        }
    }
}

impl View for Row {
    type V = RowModel;

    open spec fn view(&self) -> RowModel {
        RowModel {
            path: spelled(self.path@),
            entry: self.entry@,
            depth: self.depth as int,
            open: self.open,
        }
    }
}

impl View for Tile {
    type V = TileModel;

    open spec fn view(&self) -> TileModel {
        TileModel {
            entry: self.entry@,
            x: self.x as int,
            y: self.y as int,
            width: self.width as int,
            height: self.height as int,
        }
    }
}

impl View for NestedTile {
    type V = NestedModel;

    open spec fn view(&self) -> NestedModel {
        NestedModel { path: spelled(self.path@), tile: self.tile@, depth: self.depth as int }
    }
}

impl TileModel {
    /// Whether the tile spans a cell. A tile that would run past the last cell stops there.
    pub open spec fn spans(self, column: int, row: int) -> bool {
        &&& self.x <= column < far_edge(self.x, self.width)
        &&& self.y <= row < far_edge(self.y, self.height)
    }
}

/// The cell after a span, no further than the last there can be.
pub open spec fn far_edge(start: int, length: int) -> int {
    if start + length <= u16::MAX {
        start + length
    } else {
        u16::MAX as int
    }
}

pub open spec fn listing_model(listing: Seq<FileMetadata>) -> Seq<EntryModel> {
    Seq::new(listing.len(), |i: int| listing[i]@)
}

pub open spec fn rows_model(rows: Seq<Row>) -> Seq<RowModel> {
    Seq::new(rows.len(), |i: int| rows[i]@)
}

pub open spec fn tiles_model(tiles: Seq<Tile>) -> Seq<TileModel> {
    Seq::new(tiles.len(), |i: int| tiles[i]@)
}

pub open spec fn nested_model(nested: Seq<NestedTile>) -> Seq<NestedModel> {
    Seq::new(nested.len(), |i: int| nested[i]@)
}

/// The names in a listing, in its order.
pub open spec fn entry_names(listing: Seq<EntryModel>) -> Seq<Seq<u8>> {
    Seq::new(listing.len(), |i: int| listing[i].name)
}

/// The names of tiles, in their order.
pub open spec fn tile_names(tiles: Seq<TileModel>) -> Seq<Seq<u8>> {
    Seq::new(tiles.len(), |i: int| tiles[i].entry.name)
}

/// The paths of rows, in their order.
pub open spec fn row_paths(rows: Seq<RowModel>) -> Seq<Seq<Seq<u8>>> {
    Seq::new(rows.len(), |i: int| rows[i].path)
}

/// The paths of nested tiles, in their order.
pub open spec fn nested_paths(nested: Seq<NestedModel>) -> Seq<Seq<Seq<u8>>> {
    Seq::new(nested.len(), |i: int| nested[i].path)
}

impl FileMetadata {
    /// Another copy of an entry.
    pub fn copy(&self) -> (copy: FileMetadata)
        ensures
            copy@ == self@,
    {
        FileMetadata {
            name: copy_name(&self.name),
            size: self.size,
            descendants: self.descendants,
            file_type: self.file_type,
        }
    }
}

impl Row {
    /// Another copy of a row.
    pub fn copy(&self) -> (copy: Row)
        ensures
            copy@ == self@,
    {
        Row {
            path: copy_path(&self.path),
            entry: self.entry.copy(),
            depth: self.depth,
            open: self.open,
        }
    }
}

impl Tile {
    /// Whether the tile spans a cell.
    pub fn spans(&self, column: u16, row: u16) -> (spans: bool)
        ensures
            spans == self@.spans(column as int, row as int),
    {
        self.x <= column && column < self.x.saturating_add(self.width) && self.y <= row && row
            < self.y.saturating_add(self.height)
    }
}

} // verus!
