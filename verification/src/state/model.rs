//! The mathematical picture of a window: what it shows, what is in hand and what is marked,
//! and what each step makes of it.

use vstd::prelude::*;

use crate::entries::{
    entry_names, nested_paths, row_paths, tile_names, EntryModel, FileType, NestedModel, RowModel,
    TileModel,
};
use crate::state::pointer::{At, Hit};
use crate::state::{Direction, Focus, Jump, Mods, Preview};

verus! {

/// A window as it stands.
#[verifier::ext_equal]
pub struct ViewerModel {
    pub folder: Seq<Seq<u8>>,
    pub listing: Seq<EntryModel>,
    pub tiles: Seq<TileModel>,
    pub small_files: Option<(u16, u16)>,
    pub tile_in_hand: Option<int>,
    pub zoom_level: int,
    pub rows: Seq<RowModel>,
    pub nested: Seq<NestedModel>,
    pub list_rows: Option<int>,
    pub tree_view: bool,
    pub focus: Focus,
    pub selected: Option<Seq<u8>>,
    pub chosen: bool,
    pub marked: Seq<Seq<u8>>,
    pub anchor: Option<Seq<u8>>,
    pub mark_run: Option<Seq<Seq<u8>>>,
    pub cursor: Option<Seq<Seq<u8>>>,
    pub list_top: int,
    pub hover: Option<Seq<u8>>,
    pub hover_row: Option<int>,
    pub hover_nested: Option<int>,
    pub zooms: Seq<int>,
    pub clipboard: bool,
    pub copy_due: bool,
    pub rescanner: bool,
    pub scanning: bool,
    pub scan_id: int,
    pub entries_scanned: int,
    pub failed_to_read: int,
    pub scan_took: Option<u64>,
    pub message: Option<(Seq<char>, u64)>,
    pub preview_for: Option<(Seq<Seq<u8>>, Option<(u32, u32)>)>,
    pub preview_generation: int,
    pub preview: Preview,
}

/// Fresh contents of a window, laid out.
#[verifier::ext_equal]
pub struct ContentsModel {
    pub listing: Seq<EntryModel>,
    pub tiles: Seq<TileModel>,
    pub small_files: Option<(u16, u16)>,
    pub zoom_level: int,
    pub rows: Seq<RowModel>,
    pub nested: Seq<NestedModel>,
}

/// A treemap, laid out.
#[verifier::ext_equal]
pub struct TreemapModel {
    pub tiles: Seq<TileModel>,
    pub small_files: Option<(u16, u16)>,
    pub zoom_level: int,
    pub nested: Seq<NestedModel>,
}

/// The first name of a path.
pub open spec fn top_of(path: Option<Seq<Seq<u8>>>) -> Option<Seq<u8>> {
    match path {
        Some(path) => if path.len() > 0 {
            Some(path[0])
        } else {
            None
        },
        None => None,
    }
}

/// The path of one name, if there is one.
pub open spec fn alone(name: Option<Seq<u8>>) -> Option<Seq<Seq<u8>>> {
    match name {
        Some(name) => Some(seq![name]),
        None => None,
    }
}

/// `base`, then those of `more` that are not there yet, each once, in order.
pub open spec fn joined(base: Seq<Seq<u8>>, more: Seq<Seq<u8>>) -> Seq<Seq<u8>>
    decreases more.len(),
{
    if more.len() == 0 {
        base
    } else {
        let before = joined(base, more.drop_last());
        if before.contains(more.last()) {
            before
        } else {
            before.push(more.last())
        }
    }
}

/// The names from place `from` to place `to`, both taken in, in the order swept.
pub open spec fn swept(names: Seq<Seq<u8>>, from: int, to: int) -> Seq<Seq<u8>> {
    if from <= to {
        names.subrange(from, to + 1)
    } else {
        names.subrange(to, from + 1).reverse()
    }
}

/// Those of `names` that a listing holds, in their order.
pub open spec fn in_listing(listing: Seq<EntryModel>, names: Seq<Seq<u8>>) -> Seq<Seq<u8>> {
    names.filter(|name: Seq<u8>| entry_names(listing).contains(name))
}

/// Whether each row is of an entry in the listing, or under one, as deep as its path is long.
pub open spec fn rows_of(rows: Seq<RowModel>, listing: Seq<EntryModel>) -> bool {
    forall|i: int|
        0 <= i < rows.len() ==> {
            &&& (#[trigger] rows[i]).path.len() == rows[i].depth + 1
            &&& rows[i].depth >= 0
            &&& entry_names(listing).contains(rows[i].path[0])
        }
}

/// Whether each tile is of an entry in the listing.
pub open spec fn tiles_of(tiles: Seq<TileModel>, listing: Seq<EntryModel>) -> bool {
    forall|i: int|
        0 <= i < tiles.len() ==> entry_names(listing).contains(
            (#[trigger] tiles[i]).entry.name,
        )
}

/// Whether each nested tile is of something under an entry in the listing.
pub open spec fn nested_of(nested: Seq<NestedModel>, listing: Seq<EntryModel>) -> bool {
    forall|i: int|
        0 <= i < nested.len() ==> {
            &&& (#[trigger] nested[i]).path.len() > 0
            &&& entry_names(listing).contains(nested[i].path[0])
        }
}

impl ContentsModel {
    /// The rows and tiles are of entries in the listing or under them.
    pub open spec fn wf(self) -> bool {
        &&& rows_of(self.rows, self.listing)
        &&& tiles_of(self.tiles, self.listing)
        &&& nested_of(self.nested, self.listing)
    }
}

impl ViewerModel {
    /// Whether the listing holds an entry of this name.
    pub open spec fn listed(self, name: Seq<u8>) -> bool {
        entry_names(self.listing).contains(name)
    }

    /// Those of `names` that the listing holds.
    pub open spec fn only_listed(self, names: Seq<Seq<u8>>) -> Seq<Seq<u8>> {
        in_listing(self.listing, names)
    }

    /// The place in the listing of an entry by name.
    pub open spec fn listing_index(self, name: Option<Seq<u8>>) -> Option<int> {
        match name {
            Some(name) => entry_names(self.listing).index_of_first(name),
            None => None,
        }
    }

    /// The entry of this name.
    pub open spec fn entry_named(self, name: Seq<u8>) -> Option<EntryModel> {
        match entry_names(self.listing).index_of_first(name) {
            Some(at) => Some(self.listing[at]),
            None => None,
        }
    }

    /// The tile of an entry by name.
    pub open spec fn tile_index(self, name: Option<Seq<u8>>) -> Option<int> {
        match name {
            Some(name) => tile_names(self.tiles).index_of_first(name),
            None => None,
        }
    }

    /// The row in hand, by its place.
    pub open spec fn cursor_row(self) -> Option<int> {
        match self.cursor {
            Some(path) => row_paths(self.rows).index_of_first(path),
            None => None,
        }
    }

    /// The row in hand.
    pub open spec fn cursor_entry(self) -> Option<RowModel> {
        match self.cursor_row() {
            Some(at) => Some(self.rows[at]),
            None => None,
        }
    }

    /// The nested tile of the row in hand.
    pub open spec fn cursor_nested(self) -> Option<int> {
        match self.cursor {
            Some(path) => nested_paths(self.nested).index_of_first(path),
            None => None,
        }
    }

    /// The rows and tiles are of entries in the listing or under them, and what is in hand,
    /// marked or under the pointer is there.
    pub open spec fn wf(self) -> bool {
        &&& rows_of(self.rows, self.listing)
        &&& tiles_of(self.tiles, self.listing)
        &&& nested_of(self.nested, self.listing)
        &&& self.hover_nested is Some ==> self.hover_nested->0 < self.nested.len()
        &&& self.synced() == self
    }

    /// How many rows the list shows, at least one.
    pub open spec fn list_height(self) -> int {
        match self.list_rows {
            Some(rows) => if rows > 1 {
                rows
            } else {
                1
            },
            None => 1,
        }
    }

    /// The furthest the list scrolls down: its last row at the bottom.
    pub open spec fn last_top(self) -> int {
        if self.rows.len() > self.list_height() {
            self.rows.len() - self.list_height()
        } else {
            0
        }
    }

    /// Scrolled no further than the last row.
    pub open spec fn clamped(self) -> Self {
        ViewerModel {
            list_top: if self.list_top <= self.last_top() {
                self.list_top
            } else {
                self.last_top()
            },
            ..self
        }
    }

    /// Scrolled as little as shows the row in hand.
    pub open spec fn scrolled_to_row(self) -> Self {
        let top = match self.cursor_row() {
            Some(at) => if at < self.list_top {
                at
            } else if at >= self.list_top + self.list_height() {
                at + 1 - self.list_height()
            } else {
                self.list_top
            },
            None => self.list_top,
        };
        (ViewerModel { list_top: top, ..self }).clamped()
    }

    /// Scrolled by some rows, no further than the first or the last.
    pub open spec fn scrolled_by(self, rows: int) -> Self {
        (ViewerModel {
            list_top: if self.list_top + rows > 0 {
                self.list_top + rows
            } else {
                0
            },
            ..self
        }).clamped()
    }

    /// What is in hand, marked and under the pointer kept to what is still there, and the
    /// tile in hand that of the entry in hand. A row that has gone leaves the cursor on the
    /// row of the entry in hand.
    pub open spec fn synced(self) -> Self {
        let lost = self.selected is Some && !self.listed(self.selected->0);
        let selected = if lost {
            None
        } else {
            self.selected
        };
        ViewerModel {
            selected,
            chosen: self.chosen && !lost,
            marked: self.only_listed(self.marked),
            hover: if self.hover is Some && !self.listed(self.hover->0) {
                None
            } else {
                self.hover
            },
            cursor: if self.cursor is Some && !row_paths(self.rows).contains(self.cursor->0) {
                alone(selected)
            } else {
                self.cursor
            },
            hover_row: if self.hover_row is Some && self.hover_row->0 >= self.rows.len() {
                None
            } else {
                self.hover_row
            },
            tile_in_hand: self.tile_index(selected),
            ..self
        }
    }

    /// With the row at `path` in hand, and its top-level entry: no Shift run is under way, and
    /// the next one starts here.
    #[verifier::opaque]
    pub open spec fn in_hand(self, path: Option<Seq<Seq<u8>>>, chosen: bool) -> Self {
        (ViewerModel {
            selected: top_of(path),
            chosen: chosen && top_of(path) is Some,
            anchor: top_of(path),
            mark_run: None,
            cursor: path,
            ..self
        }).synced().scrolled_to_row()
    }

    /// With the top of the list in hand, placed rather than picked.
    pub open spec fn first_in_hand(self) -> Self {
        self.in_hand(
            if self.listing.len() > 0 {
                Some(seq![self.listing[0].name])
            } else {
                None
            },
            false,
        )
    }

    /// With no marks, nor a Shift run that could bring them back.
    pub open spec fn unmarked(self) -> Self {
        ViewerModel { marked: Seq::empty(), mark_run: None, ..self }
    }

    /// With the marks' paths to be copied, when there is a clipboard and there are marks.
    pub open spec fn marks_copied(self) -> Self {
        ViewerModel {
            copy_due: self.copy_due || (self.clipboard && self.marked.len() > 0),
            ..self
        }
    }

    /// The marks that a Shift run began from, and still are entries.
    pub open spec fn run_base(self) -> Seq<Seq<u8>> {
        self.only_listed(
            match self.mark_run {
                Some(base) => base,
                None => self.marked,
            },
        )
    }

    /// With everything from `anchor` to the entry at `to` marked, on top of the marks that the
    /// Shift run began from.
    pub open spec fn range_marked(self, anchor: Option<Seq<u8>>, to: int) -> Self {
        let from = match self.listing_index(anchor) {
            Some(from) => from,
            None => to,
        };
        (ViewerModel {
            mark_run: Some(
                match self.mark_run {
                    Some(base) => base,
                    None => self.marked,
                },
            ),
            marked: joined(self.run_base(), swept(entry_names(self.listing), from, to)),
            ..self
        }).marks_copied()
    }

    /// With every entry of the folder marked.
    pub open spec fn all_marked(self) -> Self {
        (ViewerModel {
            marked: entry_names(self.listing),
            mark_run: None,
            ..self
        }).marks_copied()
    }

    /// Whether there is a folder's row at `index`, to open or close.
    pub open spec fn can_toggle(self, index: int) -> bool {
        0 <= index < self.rows.len() && self.rows[index].entry.file_type == FileType::Folder
    }

    /// Where a Shift range starts: the anchor, or else the entry in hand.
    pub open spec fn range_start(self) -> Option<Seq<u8>> {
        match self.anchor {
            Some(name) => Some(name),
            None => self.selected,
        }
    }

    /// With the list moved to the row at `index`, or to the last one if it is further.
    #[verifier::opaque]
    pub open spec fn moved_to(self, index: int, extend: bool) -> Self {
        if self.rows.len() == 0 {
            self
        } else {
            let at = if index < self.rows.len() {
                index
            } else {
                self.rows.len() - 1
            };
            let path = self.rows[at].path;
            if !extend {
                self.unmarked().in_hand(Some(path), true)
            } else {
                let start = self.range_start();
                let taken = ViewerModel {
                    selected: top_of(Some(path)),
                    chosen: true,
                    anchor: start,
                    ..self
                };
                let marked = match taken.listing_index(taken.selected) {
                    Some(to) => taken.range_marked(start, to),
                    None => taken,
                };
                (ViewerModel { cursor: Some(path), ..marked }).synced().scrolled_to_row()
            }
        }
    }

    /// The row that an arrow opens or closes in place, in the tree view.
    pub open spec fn arrow_toggles(self, direction: Direction) -> Option<int> {
        if self.focus != Focus::List || !self.tree_view {
            None
        } else {
            match self.cursor_entry() {
                Some(row) => if direction == Direction::Right && row.entry.file_type
                    == FileType::Folder && !row.open {
                    self.cursor_row()
                } else if direction == Direction::Left && row.open {
                    self.cursor_row()
                } else {
                    None
                },
                None => None,
            }
        }
    }

    /// After an arrow; `beside` is the tile next to the one in hand in that direction.
    pub open spec fn after_arrow(
        self,
        direction: Direction,
        extend: bool,
        beside: Option<int>,
    ) -> Self {
        match (self.focus, direction) {
            (Focus::List, Direction::Up) => self.moved_to(
                match self.cursor_row() {
                    Some(at) => if at > 0 {
                        at - 1
                    } else {
                        0
                    },
                    None => 0,
                },
                extend,
            ),
            (Focus::List, Direction::Down) => self.moved_to(
                match self.cursor_row() {
                    Some(at) => at + 1,
                    None => 0,
                },
                extend,
            ),
            (Focus::List, Direction::Right) => match self.cursor_entry() {
                Some(row) => if self.tree_view && row.entry.file_type == FileType::Folder {
                    if row.open {
                        self.moved_to(self.cursor_row()->0 + 1, false)
                    } else {
                        self
                    }
                } else {
                    ViewerModel { focus: Focus::Treemap, ..self }
                },
                None => ViewerModel { focus: Focus::Treemap, ..self },
            },
            (Focus::List, Direction::Left) => match self.cursor_entry() {
                Some(row) => if self.tree_view && !row.open && row.depth > 0 {
                    self.unmarked().in_hand(Some(row.path.take(row.depth)), true)
                } else {
                    self
                },
                None => self,
            },
            (Focus::Treemap, _) => match beside {
                Some(at) => if 0 <= at < self.tiles.len() {
                    self.unmarked().in_hand(Some(seq![self.tiles[at].entry.name]), true)
                } else {
                    self.off_the_edge(direction)
                },
                None => self.off_the_edge(direction),
            },
        }
    }

    /// After an arrow off the treemap's edge: the tile stays in hand, and off the left edge the
    /// list takes the keyboard.
    pub open spec fn off_the_edge(self, direction: Direction) -> Self {
        ViewerModel {
            focus: if direction == Direction::Left && self.list_rows is Some {
                Focus::List
            } else {
                self.focus
            },
            ..self.unmarked()
        }
    }

    /// The row that a jump goes to.
    pub open spec fn jump_target(self, jump: Jump) -> int {
        let page = if self.list_height() > 2 {
            self.list_height() - 1
        } else {
            1
        };
        let current = match self.cursor_row() {
            Some(at) => at,
            None => 0,
        };
        match jump {
            Jump::PageUp => if current > page {
                current - page
            } else {
                0
            },
            Jump::PageDown => current + page,
            Jump::Home => 0,
            Jump::End => if self.rows.len() > 0 {
                self.rows.len() - 1
            } else {
                0
            },
        }
    }

    /// After a jump, which gives the list the keyboard.
    pub open spec fn after_jump(self, jump: Jump, extend: bool) -> Self {
        (ViewerModel {
            focus: if self.list_rows is Some {
                Focus::List
            } else {
                self.focus
            },
            ..self
        }).moved_to(self.jump_target(jump), extend)
    }

    /// With other rows in the list, and the row at `path` in hand.
    pub open spec fn with_rows(
        self,
        rows: Seq<RowModel>,
        path: Seq<Seq<u8>>,
        chosen: bool,
    ) -> Self {
        (ViewerModel { rows, ..self }).in_hand(Some(path), chosen)
    }

    /// With fresh contents, and what is in hand and marked kept to what they hold.
    pub open spec fn refreshed(self, contents: ContentsModel) -> Self {
        (ViewerModel {
            listing: contents.listing,
            tiles: contents.tiles,
            small_files: contents.small_files,
            zoom_level: contents.zoom_level,
            rows: contents.rows,
            nested: contents.nested,
            hover_nested: if self.hover_nested is Some && self.hover_nested->0
                >= contents.nested.len() {
                None
            } else {
                self.hover_nested
            },
            ..self
        }).synced().clamped()
    }

    /// Whether there is such a row, entry or nested tile.
    pub open spec fn holds(self, hit: Hit) -> bool {
        match hit {
            Hit::Row(index) | Hit::Expander(index) => index < self.rows.len(),
            Hit::Tile(name) => self.listed(name@),
            Hit::Nested(index) => index < self.nested.len(),
            _ => true,
        }
    }

    /// The path of what is under the pointer, if it is an entry.
    pub open spec fn path_hit(self, hit: Hit) -> Option<Seq<Seq<u8>>> {
        match hit {
            Hit::Row(index) | Hit::Expander(index) => Some(self.rows[index as int].path),
            Hit::Tile(name) => Some(seq![name@]),
            Hit::Nested(index) => Some(self.nested[index as int].path),
            Hit::SmallFiles | Hit::Nothing => None,
        }
    }

    /// Whether a place in the window is over `hit`.
    pub open spec fn is_under(self, at: At, hit: Hit) -> bool {
        match at {
            At::List { row, indents } => {
                let index = self.list_top + row;
                if self.list_rows is None || row >= self.list_rows->0 || index
                    >= self.rows.len() {
                    hit is Nothing
                } else if self.tree_view && self.rows[index].entry.file_type == FileType::Folder
                    && indents.0 <= self.rows[index].depth < indents.1 {
                    hit is Expander && hit->Expander_0 == index
                } else {
                    hit is Row && hit->Row_0 == index
                }
            },
            At::Cell(column, row) => if exists|i: int|
                0 <= i < self.nested.len() && (#[trigger] self.nested[i]).tile.spans(
                    column as int,
                    row as int,
                ) {
                hit is Nested && self.deepest_at(column as int, row as int, hit->Nested_0 as int)
            } else if exists|i: int|
                0 <= i < self.tiles.len() && (#[trigger] self.tiles[i]).spans(
                    column as int,
                    row as int,
                ) {
                hit is Tile && exists|i: int|
                    self.first_tile_at(column as int, row as int, i)
                        && (#[trigger] self.tiles[i]).entry.name == hit->Tile_0@
            } else if self.small_files is Some && column >= (self.small_files->0).0 && row >= (
            self.small_files->0).1 {
                hit is SmallFiles
            } else {
                hit is Nothing
            },
            At::Outside => hit is Nothing,
        }
    }

    /// Whether the nested tile at `index` spans a cell, and none deeper does, nor a later one
    /// as deep.
    pub open spec fn deepest_at(self, column: int, row: int, index: int) -> bool {
        &&& 0 <= index < self.nested.len()
        &&& self.nested[index].tile.spans(column, row)
        &&& forall|j: int|
            0 <= j < self.nested.len() && (#[trigger] self.nested[j]).tile.spans(column, row)
                ==> self.nested[j].depth < self.nested[index].depth || (self.nested[j].depth
                == self.nested[index].depth && j <= index)
    }

    /// Whether the tile at `index` is the first that spans a cell.
    pub open spec fn first_tile_at(self, column: int, row: int, index: int) -> bool {
        &&& 0 <= index < self.tiles.len()
        &&& self.tiles[index].spans(column, row)
        &&& forall|j: int| 0 <= j < index ==> !(#[trigger] self.tiles[j]).spans(column, row)
    }

    /// The marks after a toggling click on `name`. Starting a selection takes in the entry
    /// already in hand, when the user picked it.
    pub open spec fn toggled_marks(self, name: Seq<u8>) -> Seq<Seq<u8>> {
        let start = if self.marked.len() == 0 && self.chosen && self.selected is Some
            && self.selected->0 != name {
            seq![self.selected->0]
        } else {
            self.marked
        };
        if start.contains(name) {
            start.remove_value(name)
        } else {
            start.push(name)
        }
    }

    /// After a click on the entry at `path`, in the panel that takes the keyboard.
    pub open spec fn after_entry_click(
        self,
        focus: Focus,
        path: Seq<Seq<u8>>,
        mods: Mods,
    ) -> Self {
        let there = ViewerModel { focus, ..self };
        if mods.range {
            match self.listing_index(Some(path[0])) {
                Some(to) => (ViewerModel {
                    selected: Some(path[0]),
                    chosen: true,
                    anchor: self.range_start(),
                    cursor: Some(path),
                    ..there.range_marked(self.range_start(), to)
                }).synced(),
                None => there,
            }
        } else if mods.toggle {
            (ViewerModel { marked: self.toggled_marks(path[0]), ..there }).in_hand(
                Some(path),
                false,
            ).marks_copied()
        } else {
            there.unmarked().in_hand(Some(path), true)
        }
    }

    /// After a click. A nested tile is not in hand until its row is revealed.
    pub open spec fn after_click(self, hit: Hit, mods: Mods) -> Self {
        match hit {
            Hit::Row(index) | Hit::Expander(index) => self.after_entry_click(
                Focus::List,
                self.rows[index as int].path,
                mods,
            ),
            Hit::Tile(name) => self.after_entry_click(Focus::Treemap, seq![name@], mods),
            Hit::Nested(_) => ViewerModel { focus: Focus::Treemap, ..self.unmarked() },
            Hit::SmallFiles | Hit::Nothing => self,
        }
    }

    /// With the pointer over `hit`.
    pub open spec fn hovering(self, hit: Hit) -> Self {
        ViewerModel {
            hover: top_of(self.path_hit(hit)),
            hover_row: match hit {
                Hit::Row(index) | Hit::Expander(index) => Some(index as int),
                _ => None,
            },
            hover_nested: match hit {
                Hit::Nested(index) => Some(index as int),
                _ => None,
            },
            ..self
        }
    }

    /// With the treemap laid out again.
    pub open spec fn laid_out(self, treemap: TreemapModel) -> Self {
        (ViewerModel {
            tiles: treemap.tiles,
            small_files: treemap.small_files,
            zoom_level: treemap.zoom_level,
            nested: treemap.nested,
            hover_nested: if self.hover_nested is Some && self.hover_nested->0
                >= treemap.nested.len() {
                None
            } else {
                self.hover_nested
            },
            ..self
        }).synced()
    }

    /// In a window of another size. With no list, the treemap has the keyboard.
    pub open spec fn resized(self, list_rows: Option<int>, treemap: TreemapModel) -> Self {
        (ViewerModel {
            list_rows,
            focus: if list_rows is None {
                Focus::Treemap
            } else {
                self.focus
            },
            ..self
        }).laid_out(treemap).scrolled_to_row()
    }

    /// With the list as a tree, or flat again with those rows.
    pub open spec fn as_tree(
        self,
        on: bool,
        flat: Seq<RowModel>,
        treemap: TreemapModel,
    ) -> Self {
        (ViewerModel {
            tree_view: on,
            rows: if on {
                self.rows
            } else {
                flat
            },
            ..self
        }).laid_out(treemap)
    }

    /// Whether there is a folder of this name to enter.
    pub open spec fn can_enter(self, name: Seq<u8>) -> bool {
        match self.entry_named(name) {
            Some(entry) => entry.file_type == FileType::Folder,
            None => false,
        }
    }

    /// In the folder `name`, which holds `contents`, with the top of its list in hand.
    pub open spec fn entered(self, name: Seq<u8>, contents: ContentsModel) -> Self {
        (ViewerModel {
            folder: self.folder.push(name),
            zooms: self.zooms.push(self.zoom_level),
            hover: None,
            hover_row: None,
            list_top: 0,
            ..self.unmarked()
        }).refreshed(contents).first_in_hand()
    }

    /// The zoom level that the folder above had.
    pub open spec fn zoom_above(self) -> int {
        if self.zooms.len() > 0 {
            self.zooms.last()
        } else {
            0
        }
    }

    /// The zoom level to lay the folder shown out at, once out of `levels` folders that are no
    /// longer there: a folder fallen back to is not zoomed.
    pub open spec fn zoom_after_removal(self, levels: int) -> int {
        if levels > 0 {
            0
        } else {
            self.zoom_level
        }
    }

    /// The zoom level to lay a folder out at that the finished tree leaves the window in, `depth`
    /// levels below its root.
    pub open spec fn zoom_after_scan(self, depth: int) -> int {
        if depth < self.zooms.len() {
            0
        } else {
            self.zoom_level
        }
    }

    /// The zoom level to lay a folder out at that a rescan leaves the window in: that of the
    /// folder shown if it is still there, and else none.
    pub open spec fn zoom_after_rescan(self, folder: Seq<Seq<u8>>, levels: int) -> int {
        if folder == self.folder && levels == 0 {
            self.zoom_level
        } else {
            0
        }
    }

    /// In the folder above, which holds `contents`, with the folder just left in hand.
    pub open spec fn gone_up(self, contents: ContentsModel) -> Self {
        (ViewerModel {
            folder: self.folder.drop_last(),
            zooms: if self.zooms.len() > 0 {
                self.zooms.drop_last()
            } else {
                self.zooms
            },
            hover: None,
            hover_row: None,
            ..self.unmarked()
        }).refreshed(contents).in_hand(Some(seq![self.folder.last()]), false)
    }

    /// Up one folder for each of `above`, as far as there are folders to go up to.
    pub open spec fn gone_up_through(self, above: Seq<ContentsModel>) -> Self
        decreases above.len(),
    {
        if above.len() == 0 || self.folder.len() == 0 {
            self
        } else {
            self.gone_up(above[0]).gone_up_through(above.drop_first())
        }
    }

    /// Out of `levels` folders that are no longer there.
    pub open spec fn out_of_vanished(self, levels: int) -> Self {
        if levels == 0 {
            self
        } else {
            ViewerModel {
                folder: self.folder.take(self.folder.len() - levels),
                zooms: if self.zooms.len() > levels {
                    self.zooms.take(self.zooms.len() - levels)
                } else {
                    Seq::empty()
                },
                selected: None,
                list_top: 0,
                ..self
            }
        }
    }

    /// With the top of the list in hand, if nothing is.
    pub open spec fn something_in_hand(self) -> Self {
        if self.selected is None {
            self.first_in_hand()
        } else {
            self
        }
    }

    /// After entries have left the disk. The row now where the one in hand was, if that went
    /// with them, is put in hand.
    pub open spec fn after_removal(self, levels: int, contents: ContentsModel) -> Self {
        let left = self.unmarked().out_of_vanished(levels).refreshed(contents);
        let gone = self.cursor is Some && !row_paths(contents.rows).contains(self.cursor->0);
        match self.cursor_row() {
            Some(at) => if gone && contents.rows.len() > 0 {
                left.in_hand(
                    Some(
                        contents.rows[if at < contents.rows.len() {
                            at
                        } else {
                            contents.rows.len() - 1
                        }].path,
                    ),
                    false,
                )
            } else {
                left
            },
            None => left,
        }
    }

    /// After the finished tree has taken the outline's place, in `folder`.
    pub open spec fn after_scan(
        self,
        folder: Seq<Seq<u8>>,
        entries: int,
        took: u64,
        contents: ContentsModel,
    ) -> Self {
        (ViewerModel {
            folder,
            entries_scanned: entries,
            scanning: false,
            scan_took: Some(took),
            zooms: if folder.len() < self.zooms.len() {
                self.zooms.take(folder.len() as int)
            } else {
                self.zooms
            },
            ..self
        }).refreshed(contents).something_in_hand()
    }

    /// After a rescan has changed the tree, which leaves the window in `folder`, `levels`
    /// folders of which are no longer there.
    pub open spec fn after_rescan(
        self,
        folder: Seq<Seq<u8>>,
        levels: int,
        contents: ContentsModel,
    ) -> Self {
        let moved = if folder == self.folder {
            self
        } else {
            ViewerModel { folder, zooms: Seq::empty(), ..self.unmarked() }
        };
        (ViewerModel {
            preview_for: None,
            ..moved.out_of_vanished(levels)
        }).refreshed(contents).something_in_hand()
    }

    /// Whether a folder can be scanned again: not while the first scan reads them all.
    pub open spec fn can_rescan(self) -> bool {
        !self.scanning && self.rescanner
    }

    /// The folder to scan again, from the scan's root.
    pub open spec fn rescan_target(self) -> Seq<Seq<u8>> {
        if self.selected is Some && self.can_enter(self.selected->0) {
            self.folder.push(self.selected->0)
        } else {
            self.folder
        }
    }

    /// With a message for the status bar.
    pub open spec fn saying(self, message: Seq<char>, now: u64) -> Self {
        ViewerModel { message: Some((message, now)), ..self }
    }
}

} // verus!
