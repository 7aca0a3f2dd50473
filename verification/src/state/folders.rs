//! Moving between folders, and what is shown of them: entering and leaving, the scan's end,
//! and what deletes and rescans leave behind.

use vstd::prelude::*;

use crate::entries::{
    entry_names, listing_model, nested_model, row_paths, rows_model, tiles_model, FileMetadata,
    FileType, NestedTile, Row, Tile,
};
use crate::names::{copy_name, copy_path, same_path, spelled, Name};
use crate::state::hand::{find_entry, find_row};
use crate::state::laws::{
    contents_make_whole, going_up_goes_that_far, kept_names_are_listed, marking_keeps_whole, scrolling_keeps_whole,
    syncing_makes_whole, taking_in_hand_makes_whole, whole_by_what_is_there,
};
use crate::state::model::{
    nested_of, rows_of, tiles_of, ContentsModel, TreemapModel, ViewerModel,
};
use crate::text::literal;
use crate::state::{places, Contents, Focus, Preview, Treemap, Viewer};

verus! {

/// Whether each row is of an entry in the listing, or under one, as deep as its path is long.
pub fn rows_are_of(rows: &Vec<Row>, listing: &Vec<FileMetadata>) -> (are: bool)
    ensures
        are == rows_of(rows_model(rows@), listing_model(listing@)),
{
    let ghost model = rows_model(rows@);
    let mut i: usize = 0;
    while i < rows.len()
        invariant
            i <= rows.len(),
            model == rows_model(rows@),
            forall|j: int|
                0 <= j < i ==> {
                    &&& (#[trigger] model[j]).path.len() == model[j].depth + 1
                    &&& model[j].depth >= 0
                    &&& entry_names(listing_model(listing@)).contains(model[j].path[0])
                },
        decreases rows.len() - i,
    {
        let row = &rows[i];
        assert(model[i as int] == row@);
        if row.path.len() == 0 || row.path.len() - 1 != row.depth {
            return false;
        }
        proof {
            entry_names(listing_model(listing@)).index_of_first_ensures(row.path@[0]@);
        }
        if find_entry(listing, &row.path[0]).is_none() {
            return false;
        }
        i += 1;
    }
    true
}

/// Whether each tile is of an entry in the listing.
pub fn tiles_are_of(tiles: &Vec<Tile>, listing: &Vec<FileMetadata>) -> (are: bool)
    ensures
        are == tiles_of(tiles_model(tiles@), listing_model(listing@)),
{
    let ghost model = tiles_model(tiles@);
    let mut i: usize = 0;
    while i < tiles.len()
        invariant
            i <= tiles.len(),
            model == tiles_model(tiles@),
            forall|j: int|
                0 <= j < i ==> entry_names(listing_model(listing@)).contains(
                    (#[trigger] model[j]).entry.name,
                ),
        decreases tiles.len() - i,
    {
        assert(model[i as int] == tiles[i as int]@);
        proof {
            entry_names(listing_model(listing@)).index_of_first_ensures(
                tiles@[i as int].entry.name@,
            );
        }
        if find_entry(listing, &tiles[i].entry.name).is_none() {
            return false;
        }
        i += 1;
    }
    true
}

/// Whether each nested tile is of something under an entry in the listing.
pub fn nested_are_of(nested: &Vec<NestedTile>, listing: &Vec<FileMetadata>) -> (are: bool)
    ensures
        are == nested_of(nested_model(nested@), listing_model(listing@)),
{
    let ghost model = nested_model(nested@);
    let mut i: usize = 0;
    while i < nested.len()
        invariant
            i <= nested.len(),
            model == nested_model(nested@),
            forall|j: int|
                0 <= j < i ==> {
                    &&& (#[trigger] model[j]).path.len() > 0
                    &&& entry_names(listing_model(listing@)).contains(model[j].path[0])
                },
        decreases nested.len() - i,
    {
        assert(model[i as int] == nested[i as int]@);
        if nested[i].path.len() == 0 {
            return false;
        }
        proof {
            entry_names(listing_model(listing@)).index_of_first_ensures(
                nested@[i as int].path@[0]@,
            );
        }
        if find_entry(listing, &nested[i].path[0]).is_none() {
            return false;
        }
        i += 1;
    }
    true
}

/// What folders hold, by the bytes of the names.
pub open spec fn contents_models(contents: Seq<Contents>) -> Seq<ContentsModel> {
    Seq::new(contents.len(), |i: int| contents[i]@)
}

impl Contents {
    /// Whether the rows and tiles are of entries in the listing or under them.
    pub fn is_whole(&self) -> (whole: bool)
        ensures
            whole == self@.wf(),
    {
        rows_are_of(&self.rows, &self.listing) && tiles_are_of(&self.tiles, &self.listing)
            && nested_are_of(&self.nested, &self.listing)
    }
}

impl Viewer {
    /// A window about to be scanned: it is empty until outlines arrive.
    pub fn new(scan_id: u64) -> (viewer: Viewer)
        ensures
            viewer@.wf(),
            viewer@ == (ViewerModel {
                folder: Seq::empty(),
                listing: Seq::empty(),
                tiles: Seq::empty(),
                small_files: None,
                tile_in_hand: None,
                zoom_level: 0,
                rows: Seq::empty(),
                nested: Seq::empty(),
                list_rows: None,
                tree_view: false,
                focus: Focus::List,
                selected: None,
                chosen: false,
                marked: Seq::empty(),
                anchor: None,
                mark_run: None,
                cursor: None,
                list_top: 0,
                hover: None,
                hover_row: None,
                hover_nested: None,
                zooms: Seq::empty(),
                clipboard: false,
                copy_due: false,
                rescanner: false,
                scanning: true,
                scan_id: scan_id as int,
                entries_scanned: 0,
                failed_to_read: 0,
                scan_took: None,
                message: None,
                preview_for: None,
                preview_generation: 0,
                preview: Preview::Empty,
            }),
    {
        let viewer = Viewer {
            folder: Vec::new(),
            contents: Contents {
                listing: Vec::new(),
                tiles: Vec::new(),
                small_files: None,
                zoom_level: 0,
                rows: Vec::new(),
                nested: Vec::new(),
            },
            tile_in_hand: None,
            list_rows: None,
            tree_view: false,
            focus: Focus::List,
            selected: None,
            chosen: false,
            marked: Vec::new(),
            anchor: None,
            mark_run: None,
            cursor: None,
            list_top: 0,
            hover: None,
            hover_row: None,
            hover_nested: None,
            zooms: Vec::new(),
            clipboard: false,
            copy_due: false,
            rescanner: false,
            scanning: true,
            scan_id,
            entries_scanned: 0,
            failed_to_read: 0,
            scan_took: None,
            message: None,
            preview_for: None,
            preview_generation: 0,
            preview: Preview::Empty,
        };
        let ghost m = viewer@;
        assert(m.folder =~= Seq::empty());
        assert(m.listing =~= Seq::empty());
        assert(m.tiles =~= Seq::empty());
        assert(m.rows =~= Seq::empty());
        assert(m.nested =~= Seq::empty());
        assert(m.marked =~= Seq::empty());
        assert(m.zooms =~= Seq::empty());
        proof {
            kept_names_are_listed(m.listing, m.marked);
            assert(m.synced() =~= m);
        }
        viewer
    }

    /// Lay the folder's entries out again, after the tree or the size shown changed.
    pub fn refresh(&mut self, contents: Contents)
        requires
            old(self)@.wf(),
            contents@.wf(),
        ensures
            final(self)@ == old(self)@.refreshed(contents@),
            final(self)@.wf(),
    {
        proof {
            contents_make_whole(self@, contents@);
        }
        self.load(contents);
    }

    fn load(&mut self, contents: Contents)
        ensures
            final(self)@ == old(self)@.refreshed(contents@),
    {
        let ghost before = self@;
        if let Some(index) = self.hover_nested {
            if index >= contents.nested.len() {
                self.hover_nested = None;
            }
        }
        self.contents = contents;
        assert(self@ =~= (ViewerModel {
            listing: contents@.listing,
            tiles: contents@.tiles,
            small_files: contents@.small_files,
            zoom_level: contents@.zoom_level,
            rows: contents@.rows,
            nested: contents@.nested,
            hover_nested: if before.hover_nested is Some && before.hover_nested->0
                >= contents@.nested.len() {
                None
            } else {
                before.hover_nested
            },
            ..before
        }));
        self.sync_board();
        self.clamp_list_top();
    }

    fn lay_out(&mut self, treemap: Treemap)
        ensures
            final(self)@ == old(self)@.laid_out(treemap@),
    {
        let ghost before = self@;
        if let Some(index) = self.hover_nested {
            if index >= treemap.nested.len() {
                self.hover_nested = None;
            }
        }
        self.contents.tiles = treemap.tiles;
        self.contents.small_files = treemap.small_files;
        self.contents.zoom_level = treemap.zoom_level;
        self.contents.nested = treemap.nested;
        assert(self@ =~= (ViewerModel {
            tiles: treemap@.tiles,
            small_files: treemap@.small_files,
            zoom_level: treemap@.zoom_level,
            nested: treemap@.nested,
            hover_nested: if before.hover_nested is Some && before.hover_nested->0
                >= treemap@.nested.len() {
                None
            } else {
                before.hover_nested
            },
            ..before
        }));
        self.sync_board();
    }

    /// The treemap was zoomed in, out or all the way back.
    pub fn zoom(&mut self, treemap: Treemap)
        requires
            old(self)@.wf(),
            tiles_of(treemap@.tiles, old(self)@.listing),
            nested_of(treemap@.nested, old(self)@.listing),
        ensures
            final(self)@ == old(self)@.laid_out(treemap@),
            final(self)@.wf(),
    {
        proof {
            layouts_make_whole(self@, treemap@);
        }
        self.lay_out(treemap);
    }

    /// The window has another size: the list shows so many rows, or is not there.
    pub fn resize(&mut self, list_rows: Option<usize>, treemap: Treemap)
        requires
            old(self)@.wf(),
            tiles_of(treemap@.tiles, old(self)@.listing),
            nested_of(treemap@.nested, old(self)@.listing),
        ensures
            final(self)@ == old(self)@.resized(crate::names::place(list_rows), treemap@),
            final(self)@.wf(),
    {
        let ghost before = self@;
        self.list_rows = list_rows;
        if list_rows.is_none() {
            self.focus = Focus::Treemap;
        }
        assert(self@ =~= (ViewerModel {
            list_rows: crate::names::place(list_rows),
            focus: if list_rows is None {
                Focus::Treemap
            } else {
                before.focus
            },
            ..before
        }));
        proof {
            layouts_make_whole(self@, treemap@);
            scrolling_keeps_whole(self@.laid_out(treemap@));
        }
        self.lay_out(treemap);
        self.scroll_to_selected();
    }

    /// Show the list as a tree and the treemap nested, or neither: then the rows are the flat
    /// listing's.
    pub fn set_tree_view(&mut self, on: bool, flat: Vec<Row>, treemap: Treemap)
        requires
            old(self)@.wf(),
            rows_of(rows_model(flat@), old(self)@.listing),
            tiles_of(treemap@.tiles, old(self)@.listing),
            nested_of(treemap@.nested, old(self)@.listing),
        ensures
            final(self)@ == old(self)@.as_tree(on, rows_model(flat@), treemap@),
            final(self)@.wf(),
    {
        let ghost before = self@;
        self.tree_view = on;
        if !on {
            self.contents.rows = flat;
        }
        assert(self@ =~= (ViewerModel {
            tree_view: on,
            rows: if on {
                before.rows
            } else {
                rows_model(flat@)
            },
            ..before
        }));
        proof {
            layouts_make_whole(self@, treemap@);
        }
        self.lay_out(treemap);
    }

    /// Whether there is a folder of this name to enter.
    pub fn can_enter(&self, name: &Name) -> (can: bool)
        ensures
            can == self@.can_enter(name@),
    {
        match self.entry_named(name) {
            Some(entry) => entry.file_type == FileType::Folder,
            None => false,
        }
    }

    /// The folders to enter one after another for the row in hand, if it is a folder: down
    /// through each folder above it.
    pub fn enter_selected(&self) -> (path: Option<Vec<Name>>)
        ensures
            match path {
                Some(path) => {
                    &&& self@.cursor_entry() is Some
                    &&& self@.cursor_entry()->0.entry.file_type == FileType::Folder
                    &&& spelled(path@) == self@.cursor_entry()->0.path
                },
                None => {
                    ||| self@.cursor_entry() is None
                    ||| self@.cursor_entry()->0.entry.file_type != FileType::Folder
                },
            },
    {
        match self.cursor_entry() {
            Some(row) => if row.entry.file_type == FileType::Folder {
                Some(copy_path(&row.path))
            } else {
                None
            },
            None => None,
        }
    }

    /// Enter the folder of this name, which holds `contents`, laid out at no zoom. Returns whether
    /// there is one.
    pub fn enter(&mut self, name: &Name, contents: Contents) -> (entered: bool)
        requires
            old(self)@.wf(),
            contents@.wf(),
        ensures
            entered == old(self)@.can_enter(name@),
            final(self)@ == if entered {
                old(self)@.entered(name@, contents@)
            } else {
                old(self)@
            },
            final(self)@.wf(),
    {
        if !self.can_enter(name) {
            return false;
        }
        let ghost before = self@;
        let zoom: usize = self.contents.zoom_level;
        self.zooms.push(zoom);
        assert(places(self.zooms@) =~= before.zooms.push(before.zoom_level));
        self.folder.push(copy_name(name));
        assert(spelled(self.folder@) =~= before.folder.push(name@));
        self.clear_marks();
        self.hover = None;
        self.hover_row = None;
        self.list_top = 0;
        assert(self@ =~= (ViewerModel {
            folder: before.folder.push(name@),
            zooms: before.zooms.push(before.zoom_level),
            hover: None,
            hover_row: None,
            list_top: 0,
            ..before.unmarked()
        }));
        proof {
            marking_keeps_whole(before);
            whole_by_what_is_there(before.unmarked(), self@);
            contents_make_whole(self@, contents@);
        }
        self.load(contents);
        proof {
            taking_in_hand_makes_whole(
                self@,
                if self@.listing.len() > 0 {
                    Some(seq![self@.listing[0].name])
                } else {
                    None
                },
                false,
            );
        }
        self.select_first();
        true
    }

    /// The zoom level that the folder above had, to lay it out at.
    pub fn zoom_above(&self) -> (zoom: usize)
        ensures
            zoom == self@.zoom_above(),
    {
        if self.zooms.len() > 0 {
            self.zooms[self.zooms.len() - 1]
        } else {
            0
        }
    }

    /// The zoom level to lay the folder shown out at, once out of `levels` folders that are no
    /// longer there.
    pub fn zoom_after_removal(&self, levels: usize) -> (zoom: usize)
        ensures
            zoom == self@.zoom_after_removal(levels as int),
    {
        if levels > 0 {
            0
        } else {
            self.contents.zoom_level
        }
    }

    /// The zoom level to lay a folder out at that the finished tree leaves the window in, `depth`
    /// levels below its root.
    pub fn zoom_after_scan(&self, depth: usize) -> (zoom: usize)
        ensures
            zoom == self@.zoom_after_scan(depth as int),
    {
        if depth < self.zooms.len() {
            0
        } else {
            self.contents.zoom_level
        }
    }

    /// The zoom level to lay a folder out at that a rescan leaves the window in, `levels` folders
    /// above `folder`.
    pub fn zoom_after_rescan(&self, folder: &Vec<Name>, levels: usize) -> (zoom: usize)
        ensures
            zoom == self@.zoom_after_rescan(spelled(folder@), levels as int),
    {
        if levels == 0 && same_path(folder, &self.folder) {
            self.contents.zoom_level
        } else {
            0
        }
    }

    /// Up to the parent folder, which holds `contents`, with the folder just left in hand.
    /// Returns whether there was one.
    pub fn go_up(&mut self, contents: Contents) -> (up: bool)
        requires
            old(self)@.wf(),
            contents@.wf(),
        ensures
            up == (old(self)@.folder.len() > 0),
            final(self)@ == if up {
                old(self)@.gone_up(contents@)
            } else {
                old(self)@
            },
            final(self)@.wf(),
    {
        let ghost before = self@;
        let left = match self.folder.pop() {
            Some(left) => left,
            None => {
                assert(self@ =~= before);
                return false;
            },
        };
        assert(left@ == before.folder.last());
        assert(spelled(self.folder@) =~= before.folder.drop_last());
        let _: Option<usize> = self.zooms.pop();
        assert(places(self.zooms@) =~= if before.zooms.len() > 0 {
            before.zooms.drop_last()
        } else {
            before.zooms
        });
        self.clear_marks();
        self.hover = None;
        self.hover_row = None;
        assert(self@ =~= (ViewerModel {
            folder: before.folder.drop_last(),
            zooms: if before.zooms.len() > 0 {
                before.zooms.drop_last()
            } else {
                before.zooms
            },
            hover: None,
            hover_row: None,
            ..before.unmarked()
        }));
        proof {
            marking_keeps_whole(before);
            whole_by_what_is_there(before.unmarked(), self@);
            contents_make_whole(self@, contents@);
        }
        self.load(contents);
        proof {
            taking_in_hand_makes_whole(self@, Some(seq![left@]), false);
        }
        self.select(Some(left), false);
        true
    }

    /// Up to the folder `depth` levels below the root: a breadcrumb. `above` is what the
    /// folders on the way hold, the nearest first.
    pub fn go_to_depth(&mut self, depth: usize, above: Vec<Contents>)
        requires
            old(self)@.wf(),
            above.len() == if old(self)@.folder.len() > depth {
                old(self)@.folder.len() - depth
            } else {
                0
            },
            forall|i: int| 0 <= i < above.len() ==> (#[trigger] above@[i])@.wf(),
        ensures
            final(self)@ == old(self)@.gone_up_through(contents_models(above@)),
            final(self)@.folder == if old(self)@.folder.len() > depth {
                old(self)@.folder.take(depth as int)
            } else {
                old(self)@.folder
            },
            final(self)@.wf(),
    {
        proof {
            going_up_goes_that_far(self@, contents_models(above@));
            assert(self@.folder.take(self@.folder.len() as int) =~= self@.folder);
        }
        self.go_up_through(above);
    }

    fn go_up_through(&mut self, above: Vec<Contents>)
        requires
            old(self)@.wf(),
            forall|i: int| 0 <= i < above.len() ==> (#[trigger] above@[i])@.wf(),
        ensures
            final(self)@ == old(self)@.gone_up_through(contents_models(above@)),
            final(self)@.wf(),
        decreases above.len(),
    {
        let mut above = above;
        let ghost models = contents_models(above@);
        if above.len() == 0 || self.folder.len() == 0 {
            return;
        }
        let nearest = above.remove(0);
        assert(nearest@ == models[0]);
        self.go_up(nearest);
        assert(contents_models(above@) =~= models.drop_first());
        self.go_up_through(above);
    }

    /// How deep below the scan's root the folder shown is.
    pub fn depth(&self) -> (depth: usize)
        ensures
            depth == self@.folder.len(),
    {
        self.folder.len()
    }

    fn leave_vanished_folders(&mut self, levels: usize)
        requires
            levels <= old(self)@.folder.len(),
        ensures
            final(self)@ == old(self)@.out_of_vanished(levels as int),
    {
        let ghost before = self@;
        if levels == 0 {
            return;
        }
        let depth: usize = self.folder.len() - levels;
        self.folder.truncate(depth);
        assert(spelled(self.folder@) =~= before.folder.take(depth as int));
        let kept: usize = if self.zooms.len() > levels {
            self.zooms.len() - levels
        } else {
            0
        };
        self.zooms.truncate(kept);
        assert(places(self.zooms@) =~= if before.zooms.len() > levels {
            before.zooms.take(before.zooms.len() - levels)
        } else {
            Seq::empty()
        });
        self.selected = None;
        self.list_top = 0;
        assert(self@ =~= before.out_of_vanished(levels as int));
    }

    /// Entries have left the disk: out of `levels` folders that went with them, the folder now
    /// shown holds `contents`, laid out at the level that `zoom_after_removal` says. What took the
    /// place of the row in hand, if that went, is put in hand, placed rather than picked.
    pub fn removed(&mut self, levels: usize, contents: Contents)
        requires
            old(self)@.wf(),
            contents@.wf(),
            levels <= old(self)@.folder.len(),
        ensures
            final(self)@ == old(self)@.after_removal(levels as int, contents@),
            final(self)@.wf(),
    {
        let ghost before = self@;
        let at = self.cursor_row();
        let gone = match &self.cursor {
            Some(path) => {
                proof {
                    row_paths(contents@.rows).index_of_first_ensures(spelled(path@));
                }
                find_row(&contents.rows, path).is_none()
            },
            None => false,
        };
        self.clear_marks();
        self.leave_vanished_folders(levels);
        proof {
            contents_make_whole(self@, contents@);
        }
        self.load(contents);
        if gone {
            if let Some(at) = at {
                let rows: usize = self.contents.rows.len();
                assert(self@.rows == contents@.rows);
                if rows > 0 {
                    let row: usize = if at < rows {
                        at
                    } else {
                        rows - 1
                    };
                    let path = copy_path(&self.contents.rows[row].path);
                    assert(spelled(path@) == contents@.rows[row as int].path);
                    proof {
                        taking_in_hand_makes_whole(self@, Some(spelled(path@)), false);
                    }
                    self.select_row(path, false);
                }
            }
        }
    }

    fn take_something_in_hand(&mut self)
        requires
            old(self)@.wf(),
        ensures
            final(self)@ == old(self)@.something_in_hand(),
            final(self)@.wf(),
    {
        if self.selected.is_none() {
            proof {
                taking_in_hand_makes_whole(
                    self@,
                    if self@.listing.len() > 0 {
                        Some(seq![self@.listing[0].name])
                    } else {
                        None
                    },
                    false,
                );
            }
            self.select_first();
        }
    }

    /// The finished tree takes the outline's place, in the folder that was shown or the nearest
    /// one there is, laid out at the level that `zoom_after_scan` says.
    pub fn finish_scan(
        &mut self,
        folder: Vec<Name>,
        entries: u64,
        took: u64,
        contents: Contents,
    )
        requires
            old(self)@.wf(),
            contents@.wf(),
        ensures
            final(self)@ == old(self)@.after_scan(
                spelled(folder@),
                entries as int,
                took,
                contents@,
            ),
            final(self)@.wf(),
    {
        let ghost before = self@;
        let depth: usize = folder.len();
        self.folder = folder;
        self.entries_scanned = entries;
        self.scanning = false;
        self.scan_took = Some(took);
        if depth < self.zooms.len() {
            self.zooms.truncate(depth);
        }
        assert(places(self.zooms@) =~= if depth < before.zooms.len() {
            before.zooms.take(depth as int)
        } else {
            before.zooms
        });
        assert(self@ =~= (ViewerModel {
            folder: spelled(folder@),
            entries_scanned: entries as int,
            scanning: false,
            scan_took: Some(took),
            zooms: if depth < before.zooms.len() {
                before.zooms.take(depth as int)
            } else {
                before.zooms
            },
            ..before
        }));
        proof {
            contents_make_whole(self@, contents@);
        }
        self.load(contents);
        self.take_something_in_hand();
    }

    /// A rescan has changed the tree, and left the window in `folder`; `levels` folders of that
    /// are no longer there, and the one it is then in holds `contents`, laid out at the level that
    /// `zoom_after_rescan` says.
    pub fn rescanned(&mut self, folder: Vec<Name>, levels: usize, contents: Contents)
        requires
            old(self)@.wf(),
            contents@.wf(),
            levels <= folder.len(),
        ensures
            final(self)@ == old(self)@.after_rescan(
                spelled(folder@),
                levels as int,
                contents@,
            ),
            final(self)@.wf(),
    {
        let ghost before = self@;
        if !same_path(&folder, &self.folder) {
            self.folder = folder;
            self.zooms.clear();
            self.clear_marks();
            assert(places(self.zooms@) =~= Seq::empty());
            assert(self@ =~= (ViewerModel {
                folder: spelled(folder@),
                zooms: Seq::empty(),
                ..before.unmarked()
            }));
        }
        assert(self@.folder == spelled(folder@));
        assert(self@.folder.len() == folder.len());
        let ghost moved = self@;
        self.leave_vanished_folders(levels);
        self.preview_for = None;
        assert(self@ =~= (ViewerModel {
            preview_for: None,
            ..moved.out_of_vanished(levels as int)
        }));
        proof {
            contents_make_whole(self@, contents@);
        }
        self.load(contents);
        self.take_something_in_hand();
    }

    /// A rescan has finished, and is no longer under way: say so if its folder was not walked,
    /// and show what it changed.
    pub fn rescan_done(&mut self, found: RescanFindings, now: u64)
        requires
            old(self)@.wf(),
            found.changed is Some ==> {
                &&& found.changed->0.contents@.wf()
                &&& found.changed->0.levels <= found.changed->0.folder.len()
            },
        ensures
            final(self)@ == found.shown_in(old(self)@, now),
            final(self)@.wf(),
    {
        if found.not_walked {
            self.say(
                literal(
                    "That folder is not scanned (another filesystem, or past the depth limit)",
                ),
                now,
            );
        }
        let ghost said = self@;
        if let Some((took, entries)) = found.whole {
            self.scan_took = Some(took);
            self.entries_scanned = entries;
            assert(self@ =~= (ViewerModel {
                scan_took: Some(took),
                entries_scanned: entries as int,
                ..said
            }));
            proof {
                whole_by_what_is_there(said, self@);
            }
        }
        if let Some(change) = found.changed {
            self.rescanned(change.folder, change.levels, change.contents);
        }
    }

    /// Whether a folder can be scanned again.
    pub fn can_rescan(&self) -> (can: bool)
        ensures
            can == self@.can_rescan(),
    {
        !self.scanning && self.rescanner
    }

    /// Allow rescans.
    pub fn enable_rescans(&mut self)
        ensures
            final(self)@ == (ViewerModel { rescanner: true, ..old(self)@ }),
            old(self)@.wf() ==> final(self)@.wf(),
    {
        let ghost before = self@;
        self.rescanner = true;
        proof {
            if before.wf() {
                whole_by_what_is_there(before, self@);
            }
        }
    }

    /// Copy through a clipboard from now on, or do not.
    pub fn set_clipboard(&mut self, clipboard: bool)
        ensures
            final(self)@ == (ViewerModel { clipboard, ..old(self)@ }),
            old(self)@.wf() ==> final(self)@.wf(),
    {
        let ghost before = self@;
        self.clipboard = clipboard;
        proof {
            if before.wf() {
                whole_by_what_is_there(before, self@);
            }
        }
    }

    /// The folder to scan again: the one in hand, or the one shown when a file or nothing is in
    /// hand.
    pub fn rescan_selected(&self) -> (relative: Vec<Name>)
        ensures
            spelled(relative@) == self@.rescan_target(),
    {
        match self.selected_entry() {
            Some(entry) => if entry.file_type == FileType::Folder {
                proof {
                    entry_names(self@.listing).index_of_first_ensures(self@.selected->0);
                }
                self.path_of(&entry.name)
            } else {
                copy_path(&self.folder)
            },
            None => copy_path(&self.folder),
        }
    }

    /// Outlines from the running scan: how many entries they stand for, and how many folders
    /// could not be read. What is shown is not touched until it is laid out again.
    pub fn absorb_summaries(&mut self, entries: u64, failed: u64)
        requires
            old(self).entries_scanned + entries <= u64::MAX,
            old(self).failed_to_read + failed <= u64::MAX,
        ensures
            final(self)@ == (ViewerModel {
                entries_scanned: old(self)@.entries_scanned + entries,
                failed_to_read: old(self)@.failed_to_read + failed,
                ..old(self)@
            }),
            old(self)@.wf() ==> final(self)@.wf(),
    {
        let ghost before = self@;
        self.entries_scanned = self.entries_scanned + entries;
        self.failed_to_read = self.failed_to_read + failed;
        proof {
            if before.wf() {
                whole_by_what_is_there(before, self@);
            }
        }
    }
}

/// What a rescan changed.
pub struct RescanChange {
    /// The folder that the window is left in.
    pub folder: Vec<Name>,
    /// How many folders of that are no longer there.
    pub levels: usize,
    /// What the folder that it is then in holds.
    pub contents: Contents,
}

/// What a rescan found.
pub struct RescanFindings {
    /// Whether its folder is one that is not scanned.
    pub not_walked: bool,
    /// When it was of everything: how long it took, in nanoseconds, and how many entries there
    /// are.
    pub whole: Option<(u64, u64)>,
    pub changed: Option<RescanChange>,
}

impl RescanFindings {
    /// A window once it shows them.
    pub open spec fn shown_in(self, m: ViewerModel, now: u64) -> ViewerModel {
        let said = if self.not_walked {
            m.saying(
                "That folder is not scanned (another filesystem, or past the depth limit)"@,
                now,
            )
        } else {
            m
        };
        let counted = match self.whole {
            Some((took, entries)) => ViewerModel {
                scan_took: Some(took),
                entries_scanned: entries as int,
                ..said
            },
            None => said,
        };
        match self.changed {
            Some(change) => counted.after_rescan(
                spelled(change.folder@),
                change.levels as int,
                change.contents@,
            ),
            None => counted,
        }
    }
}

/// A laid out treemap makes a window whole.
proof fn layouts_make_whole(m: ViewerModel, treemap: TreemapModel)
    requires
        rows_of(m.rows, m.listing),
        tiles_of(treemap.tiles, m.listing),
        nested_of(treemap.nested, m.listing),
    ensures
        m.laid_out(treemap).wf(),
{
    syncing_makes_whole(
        ViewerModel {
            tiles: treemap.tiles,
            small_files: treemap.small_files,
            zoom_level: treemap.zoom_level,
            nested: treemap.nested,
            hover_nested: if m.hover_nested is Some && m.hover_nested->0
                >= treemap.nested.len() {
                None
            } else {
                m.hover_nested
            },
            ..m
        },
    );
}

/// What a rescan found is shown: what it says of a folder that is not scanned, how long a whole one
/// took and how much it found, and the place it leaves the window in. One that found nothing leaves
/// everything as it was.
pub proof fn what_a_rescan_found_is_shown(found: RescanFindings, m: ViewerModel, now: u64)
    requires
        m.wf(),
        found.changed is Some ==> {
            &&& found.changed->0.contents@.wf()
            &&& found.changed->0.levels <= found.changed->0.folder.len()
        },
    ensures
        ({
            let n = found.shown_in(m, now);
            &&& found.not_walked ==> n.message == Some(
                (
                    "That folder is not scanned (another filesystem, or past the depth limit)"@,
                    now,
                ),
            )
            &&& !found.not_walked ==> n.message == m.message
            &&& found.whole is Some ==> n.scan_took == Some((found.whole->0).0)
                && n.entries_scanned == (found.whole->0).1
            &&& found.whole is None ==> n.scan_took == m.scan_took && n.entries_scanned
                == m.entries_scanned
            &&& found.changed is None ==> n.folder == m.folder && n.listing == m.listing && n.rows
                == m.rows && n.marked == m.marked && n.cursor == m.cursor && n.selected
                == m.selected && n.preview_for == m.preview_for
            &&& found.changed is Some ==> n.rows == found.changed->0.contents@.rows && n.listing
                == found.changed->0.contents@.listing && n.preview_for is None && n.folder.len()
                + found.changed->0.levels == found.changed->0.folder.len()
            &&& !found.not_walked && found.whole is None && found.changed is None ==> n == m
            &&& n.scanning == m.scanning && n.scan_id == m.scan_id && n.focus == m.focus
        }),
{
    reveal(ViewerModel::in_hand);
}

} // verus!
