//! The pointer: what it is over, and what a click does.

use vstd::prelude::*;

use crate::entries::{entry_names, FileType};
use crate::names::{
    copy_maybe, copy_name, copy_path, find_name, lone, place, same_maybe, same_name, spelled, Name,
};
use crate::state::laws::{clicks_keep_whole, hovering_keeps_whole, marking_keeps_whole};
use crate::state::model::ViewerModel;
use crate::state::{Focus, Mods, Viewer};

verus! {

/// A place in the window.
#[derive(Clone, Copy, Debug)]
pub enum At {
    /// Over the list: how many rows down, and the levels of indentation whose expander is
    /// there, from the first of them up to the second.
    List { row: usize, indents: (usize, usize) },
    /// Over a cell of the treemap, by column and row.
    Cell(u16, u16),
    Outside,
}

/// What is under the pointer.
#[derive(Debug)]
pub enum Hit {
    /// A row of the list.
    Row(usize),
    /// A tile: its entry's name.
    Tile(Name),
    /// The corner the entries too small for a tile of their own are folded into.
    SmallFiles,
    /// A folder row's expander, in the tree view.
    Expander(usize),
    /// A tile inside a folder's tile, in the tree view.
    Nested(usize),
    Nothing,
}

/// What a click was on.
#[derive(Debug)]
pub enum Clicked {
    Nothing,
    /// An entry, by its name.
    Entry(Name),
    /// A tile inside a folder's: once the folders above it are open, its row at this path is
    /// to be revealed.
    Inside(Vec<Name>),
}

impl Viewer {
    /// The deepest nested tile under a cell.
    fn nested_at(&self, column: u16, row: u16) -> (found: Option<usize>)
        ensures
            match found {
                Some(index) => self@.deepest_at(column as int, row as int, index as int),
                None => forall|i: int|
                    0 <= i < self@.nested.len() ==> !(#[trigger] self@.nested[i]).tile.spans(
                        column as int,
                        row as int,
                    ),
            },
    {
        let mut found: Option<usize> = None;
        let mut i: usize = 0;
        while i < self.contents.nested.len()
            invariant
                i <= self.contents.nested.len(),
                match found {
                    Some(index) => {
                        &&& index < i
                        &&& self@.nested[index as int].tile.spans(column as int, row as int)
                        &&& forall|j: int|
                            0 <= j < i && (#[trigger] self@.nested[j]).tile.spans(
                                column as int,
                                row as int,
                            ) ==> self@.nested[j].depth < self@.nested[index as int].depth || (
                            self@.nested[j].depth == self@.nested[index as int].depth && j
                                <= index)
                    },
                    None => forall|j: int|
                        0 <= j < i ==> !(#[trigger] self@.nested[j]).tile.spans(
                            column as int,
                            row as int,
                        ),
                },
            decreases self.contents.nested.len() - i,
        {
            let nested = &self.contents.nested[i];
            assert(nested@ == self@.nested[i as int]);
            if nested.tile.spans(column, row) {
                let deeper = match found {
                    Some(index) => self.contents.nested[index].depth <= nested.depth,
                    None => true,
                };
                if deeper {
                    found = Some(i);
                }
            }
            i += 1;
        }
        found
    }

    /// The tile under a cell.
    fn tile_at(&self, column: u16, row: u16) -> (found: Option<usize>)
        ensures
            match found {
                Some(index) => self@.first_tile_at(column as int, row as int, index as int),
                None => forall|i: int|
                    0 <= i < self@.tiles.len() ==> !(#[trigger] self@.tiles[i]).spans(
                        column as int,
                        row as int,
                    ),
            },
    {
        let mut i: usize = 0;
        while i < self.contents.tiles.len()
            invariant
                i <= self.contents.tiles.len(),
                forall|j: int|
                    0 <= j < i ==> !(#[trigger] self@.tiles[j]).spans(
                        column as int,
                        row as int,
                    ),
            decreases self.contents.tiles.len() - i,
        {
            let tile = &self.contents.tiles[i];
            assert(tile@ == self@.tiles[i as int]);
            if tile.spans(column, row) {
                return Some(i);
            }
            i += 1;
        }
        None
    }

    /// What a place in the window is over.
    pub fn hit(&self, at: At) -> (hit: Hit)
        requires
            self@.wf(),
        ensures
            self@.is_under(at, hit),
            self@.holds(hit),
    {
        match at {
            At::List { row, indents } => {
                let rows: usize = self.contents.rows.len();
                let shown = match self.list_rows {
                    Some(shown) => row < shown,
                    None => false,
                };
                // Past the last whole row is a sliver where no row is drawn.
                if !shown || self.list_top >= rows || row >= rows - self.list_top {
                    return Hit::Nothing;
                }
                let index: usize = self.list_top + row;
                let entry = &self.contents.rows[index];
                assert(entry@ == self@.rows[index as int]);
                if self.tree_view && entry.entry.file_type == FileType::Folder && indents.0
                    <= entry.depth && entry.depth < indents.1 {
                    return Hit::Expander(index);
                }
                Hit::Row(index)
            },
            At::Cell(column, row) => {
                if let Some(index) = self.nested_at(column, row) {
                    return Hit::Nested(index);
                }
                if let Some(index) = self.tile_at(column, row) {
                    assert(self@.tiles[index as int].entry.name
                        == self.contents.tiles[index as int].entry.name@);
                    return Hit::Tile(copy_name(&self.contents.tiles[index].entry.name));
                }
                match self.contents.small_files {
                    Some((x, y)) => if column >= x && row >= y {
                        Hit::SmallFiles
                    } else {
                        Hit::Nothing
                    },
                    None => Hit::Nothing,
                }
            },
            At::Outside => Hit::Nothing,
        }
    }

    /// A press of the main button: take the entry under the pointer in hand, with the toggling
    /// modifier its mark changing and with the other the range to it from the anchor marked.
    pub fn click(&mut self, hit: &Hit, mods: Mods) -> (clicked: Clicked)
        requires
            old(self)@.wf(),
            old(self)@.holds(*hit),
        ensures
            final(self)@ == old(self)@.after_click(*hit, mods),
            final(self)@.wf(),
            match clicked {
                Clicked::Nothing => old(self)@.path_hit(*hit) is None,
                Clicked::Entry(name) => {
                    &&& !(hit is Nested)
                    &&& old(self)@.path_hit(*hit) is Some
                    &&& name@ == (old(self)@.path_hit(*hit)->0)[0]
                },
                Clicked::Inside(path) => {
                    &&& hit is Nested
                    &&& Some(spelled(path@)) == old(self)@.path_hit(*hit)
                },
            },
    {
        proof {
            clicks_keep_whole(self@, *hit, mods);
        }
        match hit {
            Hit::Row(index) | Hit::Expander(index) => {
                let path = copy_path(&self.contents.rows[*index].path);
                assert(spelled(path@) == self@.rows[*index as int].path);
                assert(spelled(path@)[0] == path@[0]@);
                proof {
                    entry_names(self@.listing).index_of_first_ensures(spelled(path@)[0]);
                }
                self.click_entry(Focus::List, path, mods)
            },
            Hit::Tile(name) => {
                proof {
                    entry_names(self@.listing).index_of_first_ensures(name@);
                }
                self.click_entry(Focus::Treemap, lone(name), mods)
            },
            Hit::Nested(index) => {
                let path = copy_path(&self.contents.nested[*index].path);
                self.clear_marks();
                self.focus = Focus::Treemap;
                Clicked::Inside(path)
            },
            Hit::SmallFiles | Hit::Nothing => Clicked::Nothing,
        }
    }

    fn click_entry(&mut self, focus: Focus, path: Vec<Name>, mods: Mods) -> (clicked: Clicked)
        requires
            path.len() > 0,
        ensures
            final(self)@ == old(self)@.after_entry_click(focus, spelled(path@), mods),
            match clicked {
                Clicked::Nothing => mods.range && old(self)@.listing_index(
                    Some(path@[0]@),
                ) is None,
                Clicked::Entry(name) => name@ == path@[0]@,
                Clicked::Inside(_) => false,
            },
    {
        let ghost before = self@;
        let name = copy_name(&path[0]);
        self.focus = focus;
        assert(self@ =~= (ViewerModel { focus, ..before }));
        if mods.range {
            let wanted = Some(copy_name(&name));
            let to: usize = match self.listing_index(&wanted) {
                Some(to) => to,
                None => return Clicked::Nothing,
            };
            proof {
                entry_names(self@.listing).index_of_first_ensures(name@);
            }
            let anchor = match &self.anchor {
                Some(name) => Some(copy_name(name)),
                None => copy_maybe(&self.selected),
            };
            self.mark_range(&anchor, to);
            let ghost marked = self@;
            self.selected = Some(copy_name(&name));
            self.chosen = true;
            self.anchor = anchor;
            self.cursor = Some(path);
            assert(self@ =~= (ViewerModel {
                selected: Some(name@),
                chosen: true,
                anchor: before.range_start(),
                cursor: Some(spelled(path@)),
                ..marked
            }));
            self.sync_board();
        } else if mods.toggle {
            // Starting a selection takes in the entry already in hand, but only one the user
            // picked, never one the viewer placed there.
            if self.marked.len() == 0 && self.chosen {
                if let Some(selected) = &self.selected {
                    if !same_name(selected, &name) {
                        let taken = copy_name(selected);
                        self.marked.push(taken);
                        assert(self@.marked =~= seq![before.selected->0]);
                    }
                }
            }
            let ghost start = self@.marked;
            proof {
                start.index_of_first_ensures(name@);
            }
            match find_name(&self.marked, &name) {
                Some(at) => {
                    self.marked.remove(at);
                    assert(self@.marked =~= start.remove(at as int));
                },
                None => {
                    self.marked.push(copy_name(&name));
                    assert(self@.marked =~= start.push(name@));
                },
            }
            assert(self@ =~= (ViewerModel {
                focus,
                marked: before.toggled_marks(name@),
                ..before
            }));
            // Placed, not picked: a click that marks does not choose what a later one adds.
            self.select_row(path, false);
            self.copy_marked();
        } else {
            self.clear_marks();
            self.select_row(path, true);
        }
        Clicked::Entry(name)
    }

    /// The entry under the pointer comes in hand for a context menu, keeping the marks if it
    /// is one of them. Hands back the path whose row is then to be revealed, if there is an
    /// entry there.
    pub fn context_click(&mut self, hit: &Hit) -> (path: Option<Vec<Name>>)
        requires
            old(self)@.wf(),
            old(self)@.holds(*hit),
        ensures
            match path {
                Some(path) => Some(spelled(path@)) == old(self)@.path_hit(*hit),
                None => old(self)@.path_hit(*hit) is None,
            },
            final(self)@ == if path is None || old(self)@.marked.contains(
                (old(self)@.path_hit(*hit)->0)[0],
            ) {
                old(self)@
            } else {
                old(self)@.unmarked()
            },
            final(self)@.wf(),
    {
        let path = match hit {
            Hit::Row(index) | Hit::Expander(index) => copy_path(
                &self.contents.rows[*index].path,
            ),
            Hit::Tile(name) => lone(name),
            Hit::Nested(index) => copy_path(&self.contents.nested[*index].path),
            Hit::SmallFiles | Hit::Nothing => return None,
        };
        assert(Some(spelled(path@)) == self@.path_hit(*hit));
        assert(spelled(path@).len() == path.len());
        assert(spelled(path@)[0] == path@[0]@);
        proof {
            marking_keeps_whole(self@);
        }
        if !self.is_marked(&path[0]) {
            self.clear_marks();
        }
        Some(path)
    }

    /// The pointer moved. Returns whether what it is over changed.
    pub fn hover_at(&mut self, hit: &Hit) -> (changed: bool)
        requires
            old(self)@.wf(),
            old(self)@.holds(*hit),
        ensures
            final(self)@ == old(self)@.hovering(*hit),
            final(self)@.wf(),
            changed == (final(self)@ != old(self)@),
    {
        let ghost before = self@;
        proof {
            hovering_keeps_whole(before, *hit);
        }
        let (hover, hover_row, hover_nested): (Option<Name>, Option<usize>, Option<usize>) =
            match hit {
            Hit::Row(index) | Hit::Expander(index) => (
                Some(copy_name(&self.contents.rows[*index].path[0])),
                Some(*index),
                None,
            ),
            Hit::Tile(name) => (Some(copy_name(name)), None, None),
            Hit::Nested(index) => (
                Some(copy_name(&self.contents.nested[*index].path[0])),
                None,
                Some(*index),
            ),
            Hit::SmallFiles | Hit::Nothing => (None, None, None),
        };
        let changed = !same_maybe(&hover, &self.hover) || !same_place(hover_row, self.hover_row)
            || !same_place(hover_nested, self.hover_nested);
        self.hover = hover;
        self.hover_row = hover_row;
        self.hover_nested = hover_nested;
        assert(self@ =~= before.hovering(*hit));
        proof {
            if !changed {
                assert(self@ =~= before);
            }
        }
        changed
    }
}

/// Whether two places, either of which may be missing, are the same.
fn same_place(a: Option<usize>, b: Option<usize>) -> (same: bool)
    ensures
        same == (a == b),
{
    match (a, b) {
        (Some(a), Some(b)) => a == b,
        (None, None) => true,
        _ => false,
    }
}

} // verus!
