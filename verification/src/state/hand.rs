//! The entry in hand: kept to what is there, moved by arrows and jumps, and marked from.

use vstd::prelude::*;

use crate::entries::{
    entry_names, listing_model, nested_model, nested_paths, row_paths, rows_model, tile_names,
    tiles_model, FileMetadata, FileType, NestedTile, Row, Tile,
};
use crate::names::{
    copy_first, copy_maybe, copy_name, copy_path, first_at, first_nowhere, holds_name, lone,
    name_view, path_view, place, same_name, same_path, spelled, Name,
};
use crate::state::laws::{
    arrows_keep_whole, jumps_keep_whole, marking_keeps_whole, scrolling_keeps_whole,
    taking_in_hand_makes_whole, whole_by_what_is_there,
};
use crate::state::model::{alone, in_listing, joined, rows_of, swept, top_of, ViewerModel};
use crate::state::{Direction, Focus, Jump, Viewer};

verus! {

/// Where an entry is in a listing, by name.
pub fn find_entry(listing: &Vec<FileMetadata>, name: &Name) -> (found: Option<usize>)
    ensures
        place(found) == entry_names(listing_model(listing@)).index_of_first(name@),
{
    let ghost names = entry_names(listing_model(listing@));
    let mut i: usize = 0;
    while i < listing.len()
        invariant
            i <= listing.len(),
            names == entry_names(listing_model(listing@)),
            forall|j: int| 0 <= j < i ==> names[j] != name@,
        decreases listing.len() - i,
    {
        if same_name(&listing[i].name, name) {
            proof {
                first_at(names, name@, i as int);
            }
            return Some(i);
        }
        i += 1;
    }
    proof {
        first_nowhere(names, name@);
    }
    None
}

/// Where the tile of an entry is, by name.
pub fn find_tile(tiles: &Vec<Tile>, name: &Name) -> (found: Option<usize>)
    ensures
        place(found) == tile_names(tiles_model(tiles@)).index_of_first(name@),
{
    let ghost names = tile_names(tiles_model(tiles@));
    let mut i: usize = 0;
    while i < tiles.len()
        invariant
            i <= tiles.len(),
            names == tile_names(tiles_model(tiles@)),
            forall|j: int| 0 <= j < i ==> names[j] != name@,
        decreases tiles.len() - i,
    {
        if same_name(&tiles[i].entry.name, name) {
            proof {
                first_at(names, name@, i as int);
            }
            return Some(i);
        }
        i += 1;
    }
    proof {
        first_nowhere(names, name@);
    }
    None
}

/// Where a row is, by its path.
pub fn find_row(rows: &Vec<Row>, path: &Vec<Name>) -> (found: Option<usize>)
    ensures
        place(found) == row_paths(rows_model(rows@)).index_of_first(spelled(path@)),
{
    let ghost paths = row_paths(rows_model(rows@));
    let mut i: usize = 0;
    while i < rows.len()
        invariant
            i <= rows.len(),
            paths == row_paths(rows_model(rows@)),
            forall|j: int| 0 <= j < i ==> paths[j] != spelled(path@),
        decreases rows.len() - i,
    {
        if same_path(&rows[i].path, path) {
            proof {
                first_at(paths, spelled(path@), i as int);
            }
            return Some(i);
        }
        i += 1;
    }
    proof {
        first_nowhere(paths, spelled(path@));
    }
    None
}

/// Where a nested tile is, by its path.
pub fn find_nested(nested: &Vec<NestedTile>, path: &Vec<Name>) -> (found: Option<usize>)
    ensures
        place(found) == nested_paths(nested_model(nested@)).index_of_first(spelled(path@)),
{
    let ghost paths = nested_paths(nested_model(nested@));
    let mut i: usize = 0;
    while i < nested.len()
        invariant
            i <= nested.len(),
            paths == nested_paths(nested_model(nested@)),
            forall|j: int| 0 <= j < i ==> paths[j] != spelled(path@),
        decreases nested.len() - i,
    {
        if same_path(&nested[i].path, path) {
            proof {
                first_at(paths, spelled(path@), i as int);
            }
            return Some(i);
        }
        i += 1;
    }
    proof {
        first_nowhere(paths, spelled(path@));
    }
    None
}

/// Those of `names` that are in a listing, in their order.
pub fn only_listed(listing: &Vec<FileMetadata>, names: &Vec<Name>) -> (kept: Vec<Name>)
    ensures
        spelled(kept@) == in_listing(listing_model(listing@), spelled(names@)),
{
    let ghost listed = |name: Seq<u8>| entry_names(listing_model(listing@)).contains(name);
    let mut kept: Vec<Name> = Vec::new();
    let mut i: usize = 0;
    assert(spelled(names@).take(0).filter(listed) =~= Seq::empty()) by {
        reveal(Seq::filter);
    }
    assert(spelled(kept@) =~= Seq::empty());
    while i < names.len()
        invariant
            i <= names.len(),
            listed == |name: Seq<u8>| entry_names(listing_model(listing@)).contains(name),
            spelled(kept@) == spelled(names@).take(i as int).filter(listed),
        decreases names.len() - i,
    {
        let ghost before = spelled(kept@);
        proof {
            entry_names(listing_model(listing@)).index_of_first_ensures(names@[i as int]@);
            reveal(Seq::filter);
            assert(spelled(names@).take(i + 1).drop_last() =~= spelled(names@).take(i as int));
            assert(spelled(names@).take(i + 1).last() == names@[i as int]@);
        }
        if find_entry(listing, &names[i]).is_some() {
            kept.push(copy_name(&names[i]));
            assert(spelled(kept@) =~= before.push(names@[i as int]@));
        }
        i += 1;
    }
    assert(spelled(names@).take(names.len() as int) =~= spelled(names@));
    kept
}

impl Viewer {
    /// The place in the listing of an entry by name.
    pub fn listing_index(&self, name: &Option<Name>) -> (found: Option<usize>)
        ensures
            place(found) == self@.listing_index(name_view(*name)),
    {
        match name {
            Some(name) => find_entry(&self.contents.listing, name),
            None => None,
        }
    }

    /// The place in the listing of the entry in hand.
    pub fn selected_listing_index(&self) -> (found: Option<usize>)
        ensures
            place(found) == self@.listing_index(self@.selected),
    {
        self.listing_index(&self.selected)
    }

    fn tile_index(&self, name: &Option<Name>) -> (found: Option<usize>)
        ensures
            place(found) == self@.tile_index(name_view(*name)),
    {
        match name {
            Some(name) => find_tile(&self.contents.tiles, name),
            None => None,
        }
    }

    /// The row in hand, by its place in the list.
    pub fn cursor_row(&self) -> (found: Option<usize>)
        ensures
            place(found) == self@.cursor_row(),
            found is Some ==> found->0 < self.contents.rows.len(),
    {
        match &self.cursor {
            Some(path) => {
                proof {
                    row_paths(self@.rows).index_of_first_ensures(spelled(path@));
                }
                find_row(&self.contents.rows, path)
            },
            None => None,
        }
    }

    /// The row in hand.
    pub fn cursor_entry(&self) -> (row: Option<&Row>)
        ensures
            match row {
                Some(row) => self@.cursor_entry() == Some(row@),
                None => self@.cursor_entry() is None,
            },
    {
        match self.cursor_row() {
            Some(at) => Some(&self.contents.rows[at]),
            None => None,
        }
    }

    /// The nested tile of the row in hand, if it has one.
    pub fn cursor_nested(&self) -> (found: Option<usize>)
        ensures
            place(found) == self@.cursor_nested(),
    {
        match &self.cursor {
            Some(path) => find_nested(&self.contents.nested, path),
            None => None,
        }
    }

    /// The entry of this name.
    pub fn entry_named(&self, name: &Name) -> (entry: Option<&FileMetadata>)
        ensures
            match entry {
                Some(entry) => self@.entry_named(name@) == Some(entry@),
                None => self@.entry_named(name@) is None,
            },
    {
        proof {
            entry_names(self@.listing).index_of_first_ensures(name@);
        }
        match find_entry(&self.contents.listing, name) {
            Some(at) => Some(&self.contents.listing[at]),
            None => None,
        }
    }

    /// The entry in hand.
    pub fn selected_entry(&self) -> (entry: Option<&FileMetadata>)
        ensures
            match entry {
                Some(entry) => self@.selected is Some && self@.entry_named(self@.selected->0)
                    == Some(entry@),
                None => self@.selected is None || self@.entry_named(self@.selected->0) is None,
            },
    {
        match &self.selected {
            Some(name) => self.entry_named(name),
            None => None,
        }
    }

    /// Whether an entry is marked.
    pub fn is_marked(&self, name: &Name) -> (marked: bool)
        ensures
            marked == self@.marked.contains(name@),
    {
        holds_name(&self.marked, name)
    }

    fn is_listed(&self, name: &Name) -> (listed: bool)
        ensures
            listed == self@.listed(name@),
    {
        proof {
            entry_names(self@.listing).index_of_first_ensures(name@);
        }
        find_entry(&self.contents.listing, name).is_some()
    }

    /// Keep the entry in hand and the marks to entries that exist, and put the treemap's
    /// selection on the tile of the entry in hand.
    #[verifier::rlimit(40)]
    pub(crate) fn sync_board(&mut self)
        ensures
            final(self)@ == old(self)@.synced(),
    {
        let ghost before = self@;
        let lost = match &self.selected {
            Some(name) => !self.is_listed(name),
            None => false,
        };
        if lost {
            self.selected = None;
            self.chosen = false;
        }
        self.marked = only_listed(&self.contents.listing, &self.marked);
        let hover_lost = match &self.hover {
            Some(name) => !self.is_listed(name),
            None => false,
        };
        if hover_lost {
            self.hover = None;
        }
        let row_gone = match &self.cursor {
            Some(path) => {
                proof {
                    row_paths(self@.rows).index_of_first_ensures(spelled(path@));
                }
                find_row(&self.contents.rows, path).is_none()
            },
            None => false,
        };
        if row_gone {
            self.cursor = match &self.selected {
                Some(name) => Some(lone(name)),
                None => None,
            };
        }
        if let Some(row) = self.hover_row {
            if row >= self.contents.rows.len() {
                self.hover_row = None;
            }
        }
        self.tile_in_hand = self.tile_index(&self.selected);
        assert(self@ =~= before.synced());
    }

    /// How many rows the list shows, at least one.
    pub(crate) fn list_height(&self) -> (rows: usize)
        ensures
            rows == self@.list_height(),
    {
        match self.list_rows {
            Some(rows) => if rows > 1 {
                rows
            } else {
                1
            },
            None => 1,
        }
    }

    pub(crate) fn clamp_list_top(&mut self)
        ensures
            final(self)@ == old(self)@.clamped(),
    {
        let ghost before = self@;
        let rows: usize = self.list_height();
        let most: usize = if self.contents.rows.len() > rows {
            self.contents.rows.len() - rows
        } else {
            0
        };
        if self.list_top > most {
            self.list_top = most;
        }
        assert(self@ =~= before.clamped());
    }

    pub(crate) fn scroll_to_selected(&mut self)
        ensures
            final(self)@ == old(self)@.scrolled_to_row(),
    {
        let ghost before = self@;
        if let Some(index) = self.cursor_row() {
            let rows: usize = self.list_height();
            if index < self.list_top {
                self.list_top = index;
            } else if index - self.list_top >= rows {
                self.list_top = index + 1 - rows;
            }
        }
        assert(self@ =~= (ViewerModel { list_top: self.list_top as int, ..before }));
        self.clamp_list_top();
    }

    /// Scroll the list by `rows`, without moving what is in hand.
    pub fn scroll_list(&mut self, rows: isize)
        ensures
            final(self)@ == old(self)@.scrolled_by(rows as int),
            old(self)@.wf() ==> final(self)@.wf(),
    {
        let ghost before = self@;
        proof {
            if before.wf() {
                scrolling_keeps_whole(before);
            }
        }
        self.list_top = moved_by(self.list_top, rows);
        assert(self@ =~= (ViewerModel { list_top: self.list_top as int, ..before }));
        self.clamp_list_top();
        assert(self.contents.rows.len() == before.rows.len());
        assert(self@ =~= before.scrolled_by(rows as int));
    }

    /// Put `name` in hand: `chosen` says whether the user picked it or the viewer placed it. A
    /// plain selection ends any Shift run and starts the next range here.
    pub(crate) fn select(&mut self, name: Option<Name>, chosen: bool)
        ensures
            final(self)@ == old(self)@.in_hand(alone(name_view(name)), chosen),
    {
        let path = match &name {
            Some(name) => Some(lone(name)),
            None => None,
        };
        self.take_in_hand(path, chosen);
    }

    /// Put a row in hand by its path; its top-level entry is what the treemap selects.
    pub(crate) fn select_row(&mut self, path: Vec<Name>, chosen: bool)
        ensures
            final(self)@ == old(self)@.in_hand(Some(spelled(path@)), chosen),
    {
        self.take_in_hand(Some(path), chosen);
    }

    fn take_in_hand(&mut self, path: Option<Vec<Name>>, chosen: bool)
        ensures
            final(self)@ == old(self)@.in_hand(path_view(path), chosen),
    {
        let ghost before = self@;
        self.selected = top_name(&path);
        self.chosen = chosen && self.selected.is_some();
        self.anchor = copy_maybe(&self.selected);
        self.mark_run = None;
        self.cursor = path;
        assert(self@ =~= (ViewerModel {
            selected: top_of(path_view(path)),
            chosen: chosen && top_of(path_view(path)) is Some,
            anchor: top_of(path_view(path)),
            mark_run: None,
            cursor: path_view(path),
            ..before
        }));
        self.sync_board();
        self.scroll_to_selected();
        assert(self@ == before.in_hand(path_view(path), chosen)) by {
            reveal(ViewerModel::in_hand);
        }
    }

    /// The top of the list comes into hand, placed rather than picked.
    pub(crate) fn select_first(&mut self)
        ensures
            final(self)@ == old(self)@.first_in_hand(),
    {
        let first = if self.contents.listing.len() > 0 {
            Some(copy_name(&self.contents.listing[0].name))
        } else {
            None
        };
        self.select(first, false);
    }

    /// Take every mark off, and with them the Shift run they were part of: a later Shift move
    /// starts a range from nothing, and never brings back marks the user saw cleared.
    pub(crate) fn clear_marks(&mut self)
        ensures
            final(self)@ == old(self)@.unmarked(),
    {
        let ghost before = self@;
        self.marked.clear();
        self.mark_run = None;
        assert(self@ =~= before.unmarked());
    }

    /// The marks changed: their paths are to be copied, if there is a clipboard to copy to.
    pub(crate) fn copy_marked(&mut self)
        ensures
            final(self)@ == old(self)@.marks_copied(),
    {
        let ghost before = self@;
        if self.clipboard && self.marked.len() > 0 {
            self.copy_due = true;
        }
        assert(self@ =~= before.marks_copied());
    }

    /// Mark every entry from `anchor` to the listing's `to`, swept in that order, on top of the
    /// marks there were when the Shift run began.
    pub(crate) fn mark_range(&mut self, anchor: &Option<Name>, to: usize)
        requires
            to < old(self).contents.listing.len(),
        ensures
            final(self)@ == old(self)@.range_marked(name_view(*anchor), to as int),
    {
        let ghost before = self@;
        let ghost names = entry_names(self@.listing);
        if self.mark_run.is_none() {
            self.mark_run = Some(copy_path(&self.marked));
        }
        let run = match &self.mark_run {
            Some(run) => copy_path(run),
            None => Vec::new(),
        };
        let mut marked = only_listed(&self.contents.listing, &run);
        let ghost base = spelled(marked@);
        let from: usize = match self.listing_index(anchor) {
            Some(from) => from,
            None => to,
        };
        proof {
            if name_view(*anchor) is Some {
                names.index_of_first_ensures(name_view(*anchor)->0);
            }
        }
        let ghost sweep = swept(names, from as int, to as int);
        let count: usize = if from <= to {
            to - from
        } else {
            from - to
        };
        let mut i: usize = 0;
        assert(joined(base, sweep.take(0)) == base);
        while i <= count
            invariant
                0 <= i <= count + 1,
                count < usize::MAX,
                from < self.contents.listing.len(),
                to < self.contents.listing.len(),
                count == if from <= to {
                    to - from
                } else {
                    from - to
                },
                self@.listing == before.listing,
                names == entry_names(self@.listing),
                sweep == swept(names, from as int, to as int),
                sweep.len() == count + 1,
                spelled(marked@) == joined(base, sweep.take(i as int)),
            decreases count + 1 - i,
        {
            let at: usize = if from <= to {
                from + i
            } else {
                from - i
            };
            let name = copy_name(&self.contents.listing[at].name);
            assert(sweep[i as int] == name@);
            assert(sweep.take(i + 1).drop_last() =~= sweep.take(i as int));
            assert(sweep.take(i + 1).last() == name@);
            let ghost so_far = spelled(marked@);
            if !holds_name(&marked, &name) {
                marked.push(name);
                assert(spelled(marked@) =~= so_far.push(name@));
            }
            i += 1;
        }
        assert(sweep.take(count + 1) =~= sweep);
        self.marked = marked;
        assert(self@ =~= (ViewerModel {
            mark_run: Some(
                match before.mark_run {
                    Some(base) => base,
                    None => before.marked,
                },
            ),
            marked: joined(before.run_base(), sweep),
            ..before
        }));
        self.copy_marked();
    }

    fn move_list_to(&mut self, index: usize, extend: bool)
        requires
            rows_of(old(self)@.rows, old(self)@.listing),
        ensures
            final(self)@ == old(self)@.moved_to(index as int, extend),
    {
        reveal(ViewerModel::moved_to);
        let ghost before = self@;
        let len: usize = self.contents.rows.len();
        if len == 0 {
            return;
        }
        let at: usize = if index < len {
            index
        } else {
            len - 1
        };
        let path = copy_path(&self.contents.rows[at].path);
        assert(spelled(path@) == self@.rows[at as int].path);
        if extend {
            let anchor = match &self.anchor {
                Some(name) => Some(copy_name(name)),
                None => copy_maybe(&self.selected),
            };
            self.selected = Some(copy_name(&path[0]));
            self.chosen = true;
            self.anchor = copy_maybe(&anchor);
            assert(self@ =~= (ViewerModel {
                selected: top_of(Some(spelled(path@))),
                chosen: true,
                anchor: before.range_start(),
                ..before
            }));
            proof {
                entry_names(before.listing).index_of_first_ensures(spelled(path@)[0]);
            }
            if let Some(to) = self.selected_listing_index() {
                self.mark_range(&anchor, to);
            }
            let ghost marked = self@;
            self.cursor = Some(path);
            assert(self@ =~= (ViewerModel { cursor: Some(spelled(path@)), ..marked }));
            self.sync_board();
            self.scroll_to_selected();
        } else {
            self.clear_marks();
            self.select_row(path, true);
        }
    }

    /// Move the entry in hand. In the list, up and down go by row (with `extend`, marking the
    /// range from the anchor) and right crosses to the treemap. In the treemap the tile
    /// `beside` it in that direction is taken; left off its left edge crosses to the list.
    ///
    /// In the tree view right opens the folder in hand in place, and once open goes down into
    /// it; left closes the folder in hand, or goes up to the row it is under. A row to open or
    /// close is handed back: it is for [`Viewer::toggle_row`], with the rows there are then.
    pub fn arrow(&mut self, direction: Direction, extend: bool, beside: Option<usize>) -> (toggled:
        Option<usize>)
        requires
            old(self)@.wf(),
        ensures
            final(self)@ == old(self)@.after_arrow(direction, extend, place(beside)),
            place(toggled) == old(self)@.arrow_toggles(direction),
            final(self)@.wf(),
    {
        let ghost before = self@;
        proof {
            arrows_keep_whole(before, direction, extend, place(beside));
            if self@.cursor is Some {
                row_paths(self@.rows).index_of_first_ensures(self@.cursor->0);
            }
        }
        match (self.focus, direction) {
            (Focus::List, Direction::Up) => {
                let next: usize = match self.cursor_row() {
                    Some(index) => if index > 0 {
                        index - 1
                    } else {
                        0
                    },
                    None => 0,
                };
                self.move_list_to(next, extend);
                None
            },
            (Focus::List, Direction::Down) => {
                let next: usize = match self.cursor_row() {
                    Some(index) => index + 1,
                    None => 0,
                };
                self.move_list_to(next, extend);
                None
            },
            (Focus::List, Direction::Right) => {
                if let Some(index) = self.cursor_row() {
                    if self.tree_view && self.contents.rows[index].entry.file_type
                        == FileType::Folder {
                        if self.contents.rows[index].open {
                            self.move_list_to(index + 1, false);
                            return None;
                        }
                        return Some(index);
                    }
                }
                self.focus = Focus::Treemap;
                assert(self@ =~= (ViewerModel { focus: Focus::Treemap, ..before }));
                None
            },
            (Focus::List, Direction::Left) => {
                if self.tree_view {
                    if let Some(index) = self.cursor_row() {
                        let row = &self.contents.rows[index];
                        if row.open {
                            return Some(index);
                        }
                        if row.depth > 0 {
                            let parent = copy_first(&row.path, row.depth);
                            self.clear_marks();
                            self.select_row(parent, true);
                        }
                    }
                }
                None
            },
            (Focus::Treemap, _) => {
                self.clear_marks();
                if let Some(at) = beside {
                    if at < self.contents.tiles.len() {
                        let name = copy_name(&self.contents.tiles[at].entry.name);
                        self.select(Some(name), true);
                        return None;
                    }
                }
                if direction == Direction::Left && self.list_rows.is_some() {
                    self.focus = Focus::List;
                }
                assert(self@ =~= before.off_the_edge(direction));
                None
            },
        }
    }

    /// Jump through the list, which takes the keyboard.
    pub fn jump(&mut self, jump: Jump, extend: bool)
        requires
            old(self)@.wf(),
        ensures
            final(self)@ == old(self)@.after_jump(jump, extend),
            final(self)@.wf(),
    {
        let ghost before = self@;
        proof {
            jumps_keep_whole(before, jump, extend);
            if self@.cursor is Some {
                row_paths(self@.rows).index_of_first_ensures(self@.cursor->0);
            }
        }
        let height: usize = self.list_height();
        let page: usize = if height > 2 {
            height - 1
        } else {
            1
        };
        let current: usize = match self.cursor_row() {
            Some(at) => at,
            None => 0,
        };
        let len: usize = self.contents.rows.len();
        let next: usize = match jump {
            Jump::PageUp => if current > page {
                current - page
            } else {
                0
            },
            Jump::PageDown => current.saturating_add(page),
            Jump::Home => 0,
            Jump::End => if len > 0 {
                len - 1
            } else {
                0
            },
        };
        if self.list_rows.is_some() {
            self.focus = Focus::List;
        }
        assert(self@ =~= (ViewerModel {
            focus: if before.list_rows is Some {
                Focus::List
            } else {
                before.focus
            },
            ..before
        }));
        let ghost focused = self@;
        self.move_list_to(next, extend);
        assert(focused.moved_to(next as int, extend) == focused.moved_to(
            before.jump_target(jump),
            extend,
        )) by {
            reveal(ViewerModel::moved_to);
            assert(len == before.rows.len());
        }
    }

    /// Give the keyboard to the other panel, when it is there.
    pub fn toggle_focus(&mut self)
        ensures
            final(self)@ == (ViewerModel {
                focus: if old(self)@.focus == Focus::Treemap && old(self)@.list_rows is Some {
                    Focus::List
                } else {
                    Focus::Treemap
                },
                ..old(self)@
            }),
            old(self)@.wf() ==> final(self)@.wf(),
    {
        let ghost before = self@;
        self.focus = match self.focus {
            Focus::List => Focus::Treemap,
            Focus::Treemap => if self.list_rows.is_some() {
                Focus::List
            } else {
                Focus::Treemap
            },
        };
        proof {
            if before.wf() {
                whole_by_what_is_there(before, self@);
            }
        }
    }

    /// Mark every entry in the folder.
    pub fn mark_all(&mut self)
        ensures
            final(self)@ == old(self)@.all_marked(),
            old(self)@.wf() ==> final(self)@.wf(),
    {
        let ghost before = self@;
        proof {
            if before.wf() {
                marking_keeps_whole(before);
            }
        }
        let mut marked: Vec<Name> = Vec::new();
        let mut i: usize = 0;
        while i < self.contents.listing.len()
            invariant
                i <= self.contents.listing.len(),
                self@.listing == before.listing,
                spelled(marked@) == entry_names(before.listing).take(i as int),
            decreases self.contents.listing.len() - i,
        {
            let ghost so_far = spelled(marked@);
            marked.push(copy_name(&self.contents.listing[i].name));
            assert(spelled(marked@) =~= so_far.push(before.listing[i as int].name));
            i += 1;
            assert(spelled(marked@) =~= entry_names(before.listing).take(i as int));
        }
        assert(spelled(marked@) =~= entry_names(before.listing));
        self.marked = marked;
        self.mark_run = None;
        assert(self@ =~= (ViewerModel {
            marked: entry_names(before.listing),
            mark_run: None,
            ..before
        }));
        self.copy_marked();
    }

    /// Open a folder's row in place, or close it; `rows` are the rows there are then. The row
    /// stays in hand. Nothing happens unless there is a folder's row there.
    pub fn toggle_row(&mut self, index: usize, rows: Vec<Row>) -> (toggled: bool)
        requires
            old(self)@.wf(),
            rows_of(rows_model(rows@), old(self)@.listing),
        ensures
            final(self)@.wf(),
            toggled == old(self)@.can_toggle(index as int),
            toggled ==> final(self)@ == old(self)@.with_rows(
                rows_model(rows@),
                old(self)@.rows[index as int].path,
                true,
            ),
            !toggled ==> final(self)@ == old(self)@,
    {
        if index >= self.contents.rows.len() || self.contents.rows[index].entry.file_type
            != FileType::Folder {
            return false;
        }
        let path = copy_path(&self.contents.rows[index].path);
        self.reveal_row(path, rows, true);
        true
    }

    /// The folders above `path` are open in the tree, as `rows` shows: put its row in hand.
    pub fn reveal_row(&mut self, path: Vec<Name>, rows: Vec<Row>, chosen: bool)
        requires
            old(self)@.wf(),
            rows_of(rows_model(rows@), old(self)@.listing),
        ensures
            final(self)@.wf(),
            final(self)@ == old(self)@.with_rows(rows_model(rows@), spelled(path@), chosen),
    {
        let ghost before = self@;
        self.contents.rows = rows;
        assert(self@ =~= (ViewerModel { rows: rows_model(rows@), ..before }));
        proof {
            taking_in_hand_makes_whole(self@, Some(spelled(path@)), chosen);
        }
        self.select_row(path, chosen);
    }
}

/// A row moved up or down, no further than the first there is or the last there can be.
fn moved_by(row: usize, by: isize) -> (moved: usize)
    ensures
        moved == if row + by < 0 {
            0
        } else if row + by > usize::MAX {
            usize::MAX as int
        } else {
            row + by
        },
{
    if by >= 0 {
        row.saturating_add(by as usize)
    } else {
        let up: usize = ((-(by as i128)) as u128) as usize;
        row.saturating_sub(up)
    }
}

/// The first name of a path.
fn top_name(path: &Option<Vec<Name>>) -> (name: Option<Name>)
    ensures
        name_view(name) == top_of(path_view(*path)),
{
    match path {
        Some(path) => if path.len() > 0 {
            Some(copy_name(&path[0]))
        } else {
            None
        },
        None => None,
    }
}

} // verus!
