//! What a click, a key or fresh contents come to: a window before and after, told by its fields.

use vstd::prelude::*;

use crate::entries::{entry_names, row_paths, tile_names, FileType};
use crate::names::first_at;
use crate::state::laws::{
    a_range_marks_entries, joined_names_are_of_either, kept_names_are_listed,
    swept_names_are_between,
};
use crate::state::model::{in_listing, swept, ContentsModel, TreemapModel, ViewerModel};
use crate::state::pointer::{At, Hit};
use crate::state::{Direction, Focus, Jump, Mods};

verus! {

proof fn the_first_entry_of_a_name(m: ViewerModel, name: Seq<u8>, at: int)
    requires
        0 <= at < m.listing.len(),
        m.listing[at].name == name,
        forall|j: int| 0 <= j < at ==> (#[trigger] m.listing[j]).name != name,
    ensures
        entry_names(m.listing).index_of_first(name) == Some(at),
        m.listed(name),
{
    let names = entry_names(m.listing);
    assert forall|j: int| 0 <= j < at implies names[j] != name by {
        assert(m.listing[j].name != name);
    }
    assert(names[at] == name);
    first_at(names, name, at);
}

proof fn the_first_row_at_a_path(m: ViewerModel, at: int)
    requires
        0 <= at < m.rows.len(),
        forall|j: int| 0 <= j < at ==> (#[trigger] m.rows[j]).path != m.rows[at].path,
    ensures
        row_paths(m.rows).index_of_first(m.rows[at].path) == Some(at),
        row_paths(m.rows).contains(m.rows[at].path),
{
    let paths = row_paths(m.rows);
    assert forall|j: int| 0 <= j < at implies paths[j] != m.rows[at].path by {
        assert(m.rows[j].path != m.rows[at].path);
    }
    assert(paths[at] == m.rows[at].path);
    first_at(paths, m.rows[at].path, at);
}

/// What a range marks: a name is marked if it was among the marks the run began from and is
/// listed, or lies between the two ends.
proof fn a_range_marks_what_is_between(
    m: ViewerModel,
    anchor: Option<Seq<u8>>,
    from: int,
    to: int,
    name: Seq<u8>,
)
    requires
        0 <= from < m.listing.len(),
        0 <= to < m.listing.len(),
        anchor is Some ==> entry_names(m.listing).index_of_first(anchor->0) == Some(from),
        anchor is None ==> from == to,
    ensures
        m.range_marked(anchor, to).marked.contains(name) <==> {
            ||| (match m.mark_run {
                Some(base) => base,
                None => m.marked,
            }).contains(name) && m.listed(name)
            ||| exists|i: int|
                0 <= i < m.listing.len() && (from <= i <= to || to <= i <= from)
                    && (#[trigger] m.listing[i]).name == name
        },
{
    let names = entry_names(m.listing);
    let sweep = swept(names, from, to);
    joined_names_are_of_either(m.run_base(), sweep);
    swept_names_are_between(names, from, to);
    kept_names_are_listed(
        m.listing,
        match m.mark_run {
            Some(base) => base,
            None => m.marked,
        },
    );
    if sweep.contains(name) {
        let i = choose|i: int|
            (from <= i <= to || to <= i <= from) && #[trigger] names[i] == name;
        assert(m.listing[i].name == name);
    }
    if exists|i: int|
        0 <= i < m.listing.len() && (from <= i <= to || to <= i <= from)
            && (#[trigger] m.listing[i]).name == name {
        let i = choose|i: int|
            0 <= i < m.listing.len() && (from <= i <= to || to <= i <= from)
                && (#[trigger] m.listing[i]).name == name;
        assert(names[i] == name);
    }
}

/// A Shift+click on an entry marks everything between where the run began and the entry clicked,
/// both taken in, on top of the marks there were when it began, and nothing else. `from` is the
/// place of the anchor, or with none of the entry in hand, and `to` that of the entry clicked.
pub proof fn a_shift_click_marks_what_is_between(
    m: ViewerModel,
    hit: Hit,
    toggle: bool,
    start: Seq<u8>,
    from: int,
    clicked: Seq<u8>,
    to: int,
    name: Seq<u8>,
)
    requires
        m.wf(),
        m.holds(hit),
        match hit {
            Hit::Row(index) | Hit::Expander(index) => clicked == m.rows[index as int].path[0],
            Hit::Tile(tile) => clicked == tile@,
            _ => false,
        },
        m.anchor == Some(start) || (m.anchor is None && m.selected == Some(start)),
        0 <= from < m.listing.len(),
        m.listing[from].name == start,
        forall|j: int| 0 <= j < from ==> (#[trigger] m.listing[j]).name != start,
        0 <= to < m.listing.len(),
        m.listing[to].name == clicked,
        forall|j: int| 0 <= j < to ==> (#[trigger] m.listing[j]).name != clicked,
    ensures
        ({
            let after = m.after_click(hit, Mods { toggle, range: true });
            &&& after.marked.contains(name) <==> {
                ||| m.mark_run is Some && m.mark_run->0.contains(name) && exists|i: int|
                    0 <= i < m.listing.len() && (#[trigger] m.listing[i]).name == name
                ||| m.mark_run is None && m.marked.contains(name)
                ||| exists|i: int|
                    0 <= i < m.listing.len() && (from <= i <= to || to <= i <= from) && (
                    #[trigger] m.listing[i]).name == name
            }
            &&& after.selected == Some(clicked)
            &&& after.chosen
            &&& after.anchor == Some(start)
            &&& after.listing == m.listing
            &&& m.clipboard ==> after.copy_due
        }),
{
    let mods = Mods { toggle, range: true };
    assert(m.synced() == m);
    the_first_entry_of_a_name(m, start, from);
    the_first_entry_of_a_name(m, clicked, to);
    let focus = match hit {
        Hit::Tile(_) => Focus::Treemap,
        _ => Focus::List,
    };
    let path = match hit {
        Hit::Row(index) | Hit::Expander(index) => m.rows[index as int].path,
        _ => seq![clicked],
    };
    let there = ViewerModel { focus, ..m };
    let ranged = there.range_marked(Some(start), to);
    a_range_marks_what_is_between(there, Some(start), from, to, name);
    a_range_marks_what_is_between(there, Some(start), from, to, clicked);
    a_range_marks_entries(there, Some(start), to);
    assert(m.listing[to].name == clicked);
    assert(ranged.marked.len() > 0) by {
        assert(ranged.marked.contains(clicked));
    }
    let after = m.after_click(hit, mods);
    assert(after.marked == in_listing(m.listing, ranged.marked));
    assert(after.marked == ranged.marked);
    if m.listed(name) {
        let names = entry_names(m.listing);
        let i = choose|i: int| 0 <= i < names.len() && names[i] == name;
        assert(m.listing[i].name == name);
    }
    if exists|i: int| 0 <= i < m.listing.len() && (#[trigger] m.listing[i]).name == name {
        let i = choose|i: int|
            0 <= i < m.listing.len() && (#[trigger] m.listing[i]).name == name;
        assert(entry_names(m.listing)[i] == name);
    }
    if m.mark_run is None && m.marked.contains(name) {
        kept_names_are_listed(m.listing, m.marked);
        assert(in_listing(m.listing, m.marked).contains(name));
    }
}

/// A Shift move through the list marks everything between where the run began and the row it comes
/// to, both taken in, on top of the marks there were when it began, and nothing else.
pub proof fn a_shift_move_marks_what_is_between(
    m: ViewerModel,
    index: int,
    row: int,
    start: Seq<u8>,
    from: int,
    to: int,
    name: Seq<u8>,
)
    requires
        m.wf(),
        0 <= index,
        0 <= row < m.rows.len(),
        row == index || (index >= m.rows.len() && row == m.rows.len() - 1),
        m.anchor == Some(start) || (m.anchor is None && m.selected == Some(start)),
        0 <= from < m.listing.len(),
        m.listing[from].name == start,
        forall|j: int| 0 <= j < from ==> (#[trigger] m.listing[j]).name != start,
        0 <= to < m.listing.len(),
        m.listing[to].name == m.rows[row].path[0],
        forall|j: int| 0 <= j < to ==> (#[trigger] m.listing[j]).name != m.rows[row].path[0],
    ensures
        ({
            let after = m.moved_to(index, true);
            &&& after.marked.contains(name) <==> {
                ||| m.mark_run is Some && m.mark_run->0.contains(name) && exists|i: int|
                    0 <= i < m.listing.len() && (#[trigger] m.listing[i]).name == name
                ||| m.mark_run is None && m.marked.contains(name)
                ||| exists|i: int|
                    0 <= i < m.listing.len() && (from <= i <= to || to <= i <= from) && (
                    #[trigger] m.listing[i]).name == name
            }
            &&& after.cursor == Some(m.rows[row].path)
            &&& after.selected == Some(m.rows[row].path[0])
            &&& after.anchor == Some(start)
            &&& m.clipboard ==> after.copy_due
        }),
{
    reveal(ViewerModel::moved_to);
    assert(m.synced() == m);
    let path = m.rows[row].path;
    let clicked = path[0];
    the_first_entry_of_a_name(m, start, from);
    the_first_entry_of_a_name(m, clicked, to);
    assert(row_paths(m.rows)[row] == path);
    let taken = ViewerModel {
        selected: Some(clicked),
        chosen: true,
        anchor: Some(start),
        ..m
    };
    let ranged = taken.range_marked(Some(start), to);
    a_range_marks_what_is_between(taken, Some(start), from, to, name);
    a_range_marks_what_is_between(taken, Some(start), from, to, clicked);
    a_range_marks_entries(taken, Some(start), to);
    assert(m.listing[to].name == clicked);
    assert(ranged.marked.len() > 0) by {
        assert(ranged.marked.contains(clicked));
    }
    let after = m.moved_to(index, true);
    assert(after.marked == in_listing(m.listing, ranged.marked));
    assert(after.marked == ranged.marked);
    if m.listed(name) {
        let names = entry_names(m.listing);
        let i = choose|i: int| 0 <= i < names.len() && names[i] == name;
        assert(m.listing[i].name == name);
    }
    if exists|i: int| 0 <= i < m.listing.len() && (#[trigger] m.listing[i]).name == name {
        let i = choose|i: int|
            0 <= i < m.listing.len() && (#[trigger] m.listing[i]).name == name;
        assert(entry_names(m.listing)[i] == name);
    }
    if m.mark_run is None && m.marked.contains(name) {
        kept_names_are_listed(m.listing, m.marked);
        assert(in_listing(m.listing, m.marked).contains(name));
    }
}

/// Taking the first of a name out of names that hold it once leaves all the others.
proof fn taking_a_name_out_leaves_the_others(names: Seq<Seq<u8>>, gone: Seq<u8>, name: Seq<u8>)
    requires
        names.no_duplicates(),
        names.contains(gone),
    ensures
        names.remove_value(gone).no_duplicates(),
        !names.remove_value(gone).contains(gone),
        name != gone ==> (names.remove_value(gone).contains(name) <==> names.contains(name)),
        forall|i: int|
            0 <= i < names.remove_value(gone).len() ==> names.contains(
                #[trigger] names.remove_value(gone)[i],
            ),
{
    names.index_of_first_ensures(gone);
    let at = names.index_of_first(gone)->0;
    let left = names.remove(at);
    assert(names.remove_value(gone) == left);
    assert forall|i: int| 0 <= i < left.len() implies #[trigger] left[i] == names[if i < at {
        i
    } else {
        i + 1
    }] by {}
    if left.contains(gone) {
        let i = choose|i: int| 0 <= i < left.len() && left[i] == gone;
        let j = if i < at {
            i
        } else {
            i + 1
        };
        assert(names[j] == gone && names[at] == gone);
    }
    if name != gone && names.contains(name) {
        let i = choose|i: int| 0 <= i < names.len() && names[i] == name;
        let j = if i < at {
            i
        } else {
            i - 1
        };
        assert(left[j] == name);
    }
    if left.contains(name) {
        let i = choose|i: int| 0 <= i < left.len() && left[i] == name;
        assert(names[if i < at {
            i
        } else {
            i + 1
        }] == name);
    }
}

proof fn toggling_flips_one_mark(m: ViewerModel, clicked: Seq<u8>, name: Seq<u8>)
    requires
        m.wf(),
        m.marked.no_duplicates(),
        m.listed(clicked),
    ensures
        ({
            let after = m.toggled_marks(clicked);
            &&& after.contains(clicked) == !m.marked.contains(clicked)
            &&& name != clicked ==> (after.contains(name) <==> m.marked.contains(name) || (
            m.marked.len() == 0 && m.chosen && m.selected == Some(name)))
            &&& after.no_duplicates()
            &&& m.only_listed(after) == after
        }),
{
    assert(m.synced() == m);
    let names = entry_names(m.listing);
    let joins = m.marked.len() == 0 && m.chosen && m.selected is Some && m.selected->0 != clicked;
    let start = if joins {
        seq![m.selected->0]
    } else {
        m.marked
    };
    kept_names_are_listed(m.listing, m.marked);
    assert forall|i: int| 0 <= i < start.len() implies names.contains(#[trigger] start[i]) by {
        if !joins {
            assert(in_listing(m.listing, m.marked)[i] == start[i]);
        }
    }
    let after = m.toggled_marks(clicked);
    if joins {
        assert(start[0] == m.selected->0);
        assert(start.contains(m.selected->0));
        assert(!m.marked.contains(clicked));
        assert(!start.contains(clicked));
        assert(!m.marked.contains(name));
    }
    if start.contains(clicked) {
        taking_a_name_out_leaves_the_others(start, clicked, name);
        assert forall|i: int| 0 <= i < after.len() implies names.contains(#[trigger] after[i]) by {
            assert(start.contains(after[i]));
            let j = choose|j: int| 0 <= j < start.len() && start[j] == after[i];
            assert(names.contains(start[j]));
        }
    } else {
        assert(after == start.push(clicked));
        assert(after[start.len() as int] == clicked);
        if start.contains(name) {
            let i = choose|i: int| 0 <= i < start.len() && start[i] == name;
            assert(after[i] == name);
        }
        if after.contains(name) && name != clicked {
            let i = choose|i: int| 0 <= i < after.len() && after[i] == name;
            assert(start[i] == name);
        }
    }
    kept_names_are_listed(m.listing, after);
}

/// A toggling click marks an entry that was not marked, and takes the mark off one that was; every
/// other mark stays. Only where nothing was marked does the entry in hand join, if the user had
/// picked it.
pub proof fn a_toggling_click_flips_one_mark(
    m: ViewerModel,
    hit: Hit,
    clicked: Seq<u8>,
    name: Seq<u8>,
)
    requires
        m.wf(),
        m.holds(hit),
        m.marked.no_duplicates(),
        match hit {
            Hit::Row(index) | Hit::Expander(index) => clicked == m.rows[index as int].path[0],
            Hit::Tile(tile) => clicked == tile@,
            _ => false,
        },
    ensures
        ({
            let after = m.after_click(hit, Mods { toggle: true, range: false });
            &&& after.marked.contains(clicked) == !m.marked.contains(clicked)
            &&& name != clicked ==> (after.marked.contains(name) <==> m.marked.contains(name) || (
            m.marked.len() == 0 && m.chosen && m.selected == Some(name)))
            &&& after.marked.no_duplicates()
            &&& after.selected == Some(clicked)
            &&& !after.chosen
            &&& after.anchor == Some(clicked)
            &&& after.mark_run is None
            &&& m.clipboard && after.marked.len() > 0 ==> after.copy_due
        }),
{
    reveal(ViewerModel::in_hand);
    assert(m.synced() == m);
    assert(m.listed(clicked));
    toggling_flips_one_mark(m, clicked, name);
    let after = m.after_click(hit, Mods { toggle: true, range: false });
    assert(after.marked == m.only_listed(m.toggled_marks(clicked)));
}

/// A plain click takes the entry under the pointer in hand, picked, and leaves nothing marked; the
/// panel clicked has the keyboard.
pub proof fn a_plain_click_takes_one_entry(m: ViewerModel, hit: Hit)
    requires
        m.wf(),
        m.holds(hit),
    ensures
        ({
            let after = m.after_click(hit, Mods { toggle: false, range: false });
            match hit {
                Hit::Row(index) | Hit::Expander(index) => {
                    &&& after.marked.len() == 0
                    &&& after.cursor == Some(m.rows[index as int].path)
                    &&& after.selected == Some(m.rows[index as int].path[0])
                    &&& after.chosen
                    &&& after.focus == Focus::List
                    &&& after.anchor == after.selected
                    &&& after.mark_run is None
                },
                Hit::Tile(name) => {
                    &&& after.marked.len() == 0
                    &&& after.selected == Some(name@)
                    &&& after.cursor == Some(seq![name@])
                    &&& after.chosen
                    &&& after.focus == Focus::Treemap
                    &&& after.anchor == after.selected
                    &&& after.mark_run is None
                },
                Hit::Nested(_) => {
                    &&& after.marked.len() == 0
                    &&& after.focus == Focus::Treemap
                    &&& after.cursor == m.cursor
                },
                Hit::SmallFiles | Hit::Nothing => after == m,
            }
        }),
{
    reveal(ViewerModel::in_hand);
    reveal(Seq::filter);
    assert(m.synced() == m);
    match hit {
        Hit::Row(index) | Hit::Expander(index) => {
            assert(row_paths(m.rows)[index as int] == m.rows[index as int].path);
        },
        _ => {},
    }
}

/// A plain move through the list takes one row in hand, picked: the row asked for, or the last
/// where there are fewer. Nothing stays marked.
pub proof fn a_plain_move_takes_one_row(m: ViewerModel, index: int, row: int)
    requires
        m.wf(),
        0 <= index,
        0 <= row < m.rows.len(),
        row == index || (index >= m.rows.len() && row == m.rows.len() - 1),
    ensures
        ({
            let after = m.moved_to(index, false);
            &&& after.cursor == Some(m.rows[row].path)
            &&& after.selected == Some(m.rows[row].path[0])
            &&& after.chosen
            &&& after.anchor == after.selected
            &&& after.marked.len() == 0
            &&& after.mark_run is None
            &&& after.folder == m.folder
            &&& after.listing == m.listing
            &&& after.rows == m.rows
            &&& after.focus == m.focus
        }),
{
    reveal(ViewerModel::moved_to);
    reveal(ViewerModel::in_hand);
    reveal(Seq::filter);
    assert(row_paths(m.rows)[row] == m.rows[row].path);
}

/// In the list the Down arrow goes to the next row and the Up arrow to the one before, and at
/// either end the row in hand stays.
pub proof fn arrows_go_by_one_row(m: ViewerModel, at: int)
    requires
        m.wf(),
        m.focus == Focus::List,
        0 <= at < m.rows.len(),
        m.cursor == Some(m.rows[at].path),
        forall|j: int| 0 <= j < at ==> (#[trigger] m.rows[j]).path != m.rows[at].path,
    ensures
        at + 1 < m.rows.len() ==> m.after_arrow(Direction::Down, false, None).cursor == Some(
            m.rows[at + 1].path,
        ),
        at + 1 < m.rows.len() ==> m.after_arrow(Direction::Down, true, None).cursor == Some(
            m.rows[at + 1].path,
        ),
        at + 1 == m.rows.len() ==> m.after_arrow(Direction::Down, false, None).cursor == m.cursor,
        at > 0 ==> m.after_arrow(Direction::Up, false, None).cursor == Some(m.rows[at - 1].path),
        at > 0 ==> m.after_arrow(Direction::Up, true, None).cursor == Some(m.rows[at - 1].path),
        at == 0 ==> m.after_arrow(Direction::Up, false, None).cursor == m.cursor,
        m.after_arrow(Direction::Down, false, None).marked.len() == 0,
        m.after_arrow(Direction::Up, false, None).marked.len() == 0,
        m.after_arrow(Direction::Down, false, None).focus == Focus::List,
        m.after_arrow(Direction::Up, false, None).focus == Focus::List,
{
    the_first_row_at_a_path(m, at);
    let below = if at + 1 < m.rows.len() {
        at + 1
    } else {
        at
    };
    let above = if at > 0 {
        at - 1
    } else {
        0
    };
    a_plain_move_takes_one_row(m, at + 1, below);
    a_plain_move_takes_one_row(m, above, above);
    reveal(ViewerModel::moved_to);
    assert(row_paths(m.rows)[below] == m.rows[below].path);
    assert(row_paths(m.rows)[above] == m.rows[above].path);
}

/// Home goes to the first row and End to the last. A page key goes a page: as many rows as the list
/// shows but one, and never past either end. The list takes the keyboard, where there is one.
pub proof fn jumps_go_to_the_ends_or_by_a_page(m: ViewerModel, at: int, shown: int)
    requires
        m.wf(),
        m.list_rows == Some(shown),
        shown >= 2,
        0 <= at < m.rows.len(),
        m.cursor == Some(m.rows[at].path),
        forall|j: int| 0 <= j < at ==> (#[trigger] m.rows[j]).path != m.rows[at].path,
    ensures
        m.after_jump(Jump::Home, false).cursor == Some(m.rows[0].path),
        m.after_jump(Jump::End, false).cursor == Some(m.rows[m.rows.len() - 1].path),
        at + shown - 1 < m.rows.len() ==> m.after_jump(Jump::PageDown, false).cursor == Some(
            m.rows[at + shown - 1].path,
        ),
        at + shown - 1 >= m.rows.len() ==> m.after_jump(Jump::PageDown, false).cursor == Some(
            m.rows[m.rows.len() - 1].path,
        ),
        at >= shown - 1 ==> m.after_jump(Jump::PageUp, false).cursor == Some(
            m.rows[at - (shown - 1)].path,
        ),
        at < shown - 1 ==> m.after_jump(Jump::PageUp, false).cursor == Some(m.rows[0].path),
        forall|jump: Jump|
            (#[trigger] m.after_jump(jump, false)).marked.len() == 0 && m.after_jump(
                jump,
                false,
            ).focus == Focus::List,
        forall|jump: Jump| #[trigger]
            m.after_jump(jump, true).cursor == m.after_jump(jump, false).cursor,
{
    the_first_row_at_a_path(m, at);
    reveal(ViewerModel::moved_to);
    reveal(ViewerModel::in_hand);
    reveal(Seq::filter);
    assert(m.synced() == m);
    assert forall|i: int| 0 <= i < m.rows.len() implies row_paths(m.rows).contains(
        #[trigger] m.rows[i].path,
    ) by {
        assert(row_paths(m.rows)[i] == m.rows[i].path);
    }
}

/// In the treemap an arrow takes the tile beside the one in hand, and leaves nothing marked. Off
/// the left edge the list takes the keyboard, where there is one; off any other the treemap keeps
/// it, and the tile stays in hand.
pub proof fn treemap_arrows_take_the_tile_beside(
    m: ViewerModel,
    direction: Direction,
    extend: bool,
    at: int,
)
    requires
        m.wf(),
        m.focus == Focus::Treemap,
        0 <= at < m.tiles.len(),
    ensures
        m.after_arrow(direction, extend, Some(at)).selected == Some(m.tiles[at].entry.name),
        m.after_arrow(direction, extend, Some(at)).chosen,
        m.after_arrow(direction, extend, Some(at)).marked.len() == 0,
        m.after_arrow(direction, extend, Some(at)).focus == Focus::Treemap,
        m.after_arrow(direction, extend, None).selected == m.selected,
        m.after_arrow(direction, extend, None).cursor == m.cursor,
        m.after_arrow(direction, extend, None).marked.len() == 0,
        m.after_arrow(direction, extend, None).focus == if direction == Direction::Left
            && m.list_rows is Some {
            Focus::List
        } else {
            Focus::Treemap
        },
{
    reveal(ViewerModel::in_hand);
    reveal(Seq::filter);
    assert(m.synced() == m);
}

/// In the tree view the Right arrow opens a closed folder and goes down into an open one; the Left
/// arrow closes an open folder, and from a row under one goes up to that. In a flat list the Right
/// arrow gives the treemap the keyboard, and the Left arrow does nothing.
pub proof fn sideways_arrows_open_and_close(m: ViewerModel, at: int)
    requires
        m.wf(),
        m.focus == Focus::List,
        0 <= at < m.rows.len(),
        m.cursor == Some(m.rows[at].path),
        forall|j: int| 0 <= j < at ==> (#[trigger] m.rows[j]).path != m.rows[at].path,
    ensures
        ({
            let row = m.rows[at];
            let right = m.after_arrow(Direction::Right, false, None);
            let left = m.after_arrow(Direction::Left, false, None);
            let folder = m.tree_view && row.entry.file_type == FileType::Folder;
            &&& folder && !row.open ==> m.arrow_toggles(Direction::Right) == Some(at) && right == m
            &&& folder && row.open && at + 1 < m.rows.len() ==> m.arrow_toggles(
                Direction::Right,
            ) is None && right.cursor == Some(m.rows[at + 1].path)
            &&& !folder ==> m.arrow_toggles(Direction::Right) is None && right.focus
                == Focus::Treemap && right.cursor == m.cursor
            &&& m.tree_view && row.open ==> m.arrow_toggles(Direction::Left) == Some(at) && left
                == m
            &&& m.tree_view && !row.open && row.depth > 0 && row_paths(m.rows).contains(
                row.path.drop_last(),
            ) ==> m.arrow_toggles(Direction::Left) is None && left.cursor == Some(
                row.path.drop_last(),
            )
            &&& !m.tree_view ==> m.arrow_toggles(Direction::Left) is None && left == m
            &&& m.arrow_toggles(Direction::Up) is None
            &&& m.arrow_toggles(Direction::Down) is None
        }),
{
    the_first_row_at_a_path(m, at);
    let row = m.rows[at];
    if row.open && at + 1 < m.rows.len() {
        a_plain_move_takes_one_row(m, at + 1, at + 1);
    }
    reveal(ViewerModel::in_hand);
    assert(m.synced() == m);
    assert(row.path.take(row.depth) =~= row.path.drop_last());
}

/// Marking everything marks each entry listed, in the order listed.
pub proof fn marking_everything_marks_each_entry(m: ViewerModel, name: Seq<u8>)
    ensures
        m.all_marked().marked.len() == m.listing.len(),
        forall|i: int|
            0 <= i < m.listing.len() ==> #[trigger] m.all_marked().marked[i] == m.listing[i].name,
        m.all_marked().marked.contains(name) <==> exists|i: int|
            0 <= i < m.listing.len() && (#[trigger] m.listing[i]).name == name,
        m.clipboard && m.listing.len() > 0 ==> m.all_marked().copy_due,
        !m.clipboard ==> m.all_marked().copy_due == m.copy_due,
        m.all_marked().selected == m.selected,
        m.all_marked().cursor == m.cursor,
{
    let marked = m.all_marked().marked;
    if marked.contains(name) {
        let i = choose|i: int| 0 <= i < marked.len() && marked[i] == name;
        assert(m.listing[i].name == name);
    }
    if exists|i: int| 0 <= i < m.listing.len() && (#[trigger] m.listing[i]).name == name {
        let i = choose|i: int|
            0 <= i < m.listing.len() && (#[trigger] m.listing[i]).name == name;
        assert(marked[i] == name);
    }
}

/// Fresh contents are shown, and what was in hand and marked stays so by name: the entry in hand
/// if it is still listed, the row in hand if it is still there, and of the marks those still
/// listed, in their order.
pub proof fn fresh_contents_keep_what_is_in_hand(
    m: ViewerModel,
    contents: ContentsModel,
    name: Seq<u8>,
)
    requires
        contents.wf(),
        m.list_top >= 0,
    ensures
        ({
            let after = m.refreshed(contents);
            let there = |name: Seq<u8>| exists|i: int|
                0 <= i < contents.listing.len() && (#[trigger] contents.listing[i]).name == name;
            &&& after.listing == contents.listing
            &&& after.tiles == contents.tiles
            &&& after.rows == contents.rows
            &&& after.nested == contents.nested
            &&& after.small_files == contents.small_files
            &&& after.zoom_level == contents.zoom_level
            &&& after.folder == m.folder
            &&& m.selected is Some && there(m.selected->0) ==> after.selected == m.selected
                && after.chosen == m.chosen
            &&& m.selected is Some && !there(m.selected->0) ==> after.selected is None
                && !after.chosen
            &&& m.selected is None ==> after.selected is None
            &&& after.marked.contains(name) <==> m.marked.contains(name) && there(name)
            &&& (m.cursor is Some && exists|i: int|
                0 <= i < contents.rows.len() && (#[trigger] contents.rows[i]).path
                    == m.cursor->0) ==> after.cursor == m.cursor
            &&& 0 <= after.list_top
            &&& after.list_top > 0 ==> after.list_top < contents.rows.len()
        }),
{
    let after = m.refreshed(contents);
    let names = entry_names(contents.listing);
    kept_names_are_listed(contents.listing, m.marked);
    assert forall|name: Seq<u8>| #[trigger] names.contains(name) <==> exists|i: int|
        0 <= i < contents.listing.len() && (#[trigger] contents.listing[i]).name == name by {
        if names.contains(name) {
            let i = choose|i: int| 0 <= i < names.len() && names[i] == name;
            assert(contents.listing[i].name == name);
        }
        if exists|i: int|
            0 <= i < contents.listing.len() && (#[trigger] contents.listing[i]).name == name {
            let i = choose|i: int|
                0 <= i < contents.listing.len() && (#[trigger] contents.listing[i]).name == name;
            assert(names[i] == name);
        }
    }
    if m.selected is Some {
        assert(names.contains(m.selected->0) == names.contains(m.selected->0));
    }
    assert(names.contains(name) == names.contains(name));
    if exists|i: int|
        0 <= i < contents.rows.len() && (#[trigger] contents.rows[i]).path == m.cursor->0 {
        let i = choose|i: int|
            0 <= i < contents.rows.len() && (#[trigger] contents.rows[i]).path == m.cursor->0;
        assert(row_paths(contents.rows)[i] == m.cursor->0);
    }
}

/// The tile in hand is the first of the entry in hand's name, and there is none where nothing is in
/// hand or the entry has no tile.
pub proof fn the_tile_in_hand_is_of_the_entry_in_hand(m: ViewerModel)
    requires
        m.wf(),
    ensures
        match m.tile_in_hand {
            Some(at) => {
                &&& 0 <= at < m.tiles.len()
                &&& m.selected == Some(m.tiles[at].entry.name)
                &&& forall|i: int| 0 <= i < at ==> Some((#[trigger] m.tiles[i]).entry.name)
                    != m.selected
            },
            None => forall|i: int|
                0 <= i < m.tiles.len() ==> Some((#[trigger] m.tiles[i]).entry.name) != m.selected,
        },
{
    assert(m.synced() == m);
    let names = tile_names(m.tiles);
    if m.selected is Some {
        names.index_of_first_ensures(m.selected->0);
        assert forall|i: int|
            0 <= i < m.tiles.len() && m.tile_in_hand is None implies Some(
            (#[trigger] m.tiles[i]).entry.name,
        ) != m.selected by {
            assert(names[i] == m.tiles[i].entry.name);
        }
        if m.tile_in_hand is Some {
            let at = m.tile_in_hand->0;
            assert forall|i: int| 0 <= i < at implies Some((#[trigger] m.tiles[i]).entry.name)
                != m.selected by {
                assert(names[i] == m.tiles[i].entry.name);
            }
        }
    }
}

/// A place over a row of the list is over that row: as many rows down from the first on screen. A
/// cell is over a tile only where it is inside it, and over a nested tile before the tile that
/// holds it.
pub proof fn the_pointer_is_over_what_is_there(m: ViewerModel, at: At, hit: Hit)
    requires
        m.wf(),
        m.is_under(at, hit),
        m.list_top >= 0,
    ensures
        match (at, hit) {
            (At::List { row, .. }, Hit::Row(index)) | (
                At::List { row, .. },
                Hit::Expander(index),
            ) => index == m.list_top + row && index < m.rows.len() && m.list_rows is Some && row
                < m.list_rows->0,
            (At::Cell(column, row), Hit::Nested(index)) => {
                &&& index < m.nested.len()
                &&& m.nested[index as int].tile.x <= column < m.nested[index as int].tile.x
                    + m.nested[index as int].tile.width
                &&& m.nested[index as int].tile.y <= row < m.nested[index as int].tile.y
                    + m.nested[index as int].tile.height
            },
            (At::Cell(column, row), Hit::Tile(name)) => exists|i: int| {
                &&& 0 <= i < m.tiles.len()
                &&& (#[trigger] m.tiles[i]).entry.name == name@
                &&& m.tiles[i].x <= column < m.tiles[i].x + m.tiles[i].width
                &&& m.tiles[i].y <= row < m.tiles[i].y + m.tiles[i].height
            },
            (At::Cell(column, row), Hit::SmallFiles) => m.small_files is Some && (
            m.small_files->0).0 <= column && (m.small_files->0).1 <= row,
            (_, Hit::Nothing) => true,
            _ => false,
        },
        match (at, hit) {
            (At::Cell(column, row), Hit::Nothing) | (At::Cell(column, row), Hit::SmallFiles) => {
                forall|i: int|
                    0 <= i < m.tiles.len() && (#[trigger] m.tiles[i]).x <= column < m.tiles[i].x
                        + m.tiles[i].width && m.tiles[i].y <= row < m.tiles[i].y
                        + m.tiles[i].height ==> column == u16::MAX || row == u16::MAX
            },
            (At::Cell(column, row), Hit::Tile(_)) => {
                forall|i: int|
                    0 <= i < m.nested.len() && (#[trigger] m.nested[i]).tile.x <= column
                        < m.nested[i].tile.x + m.nested[i].tile.width && m.nested[i].tile.y <= row
                        < m.nested[i].tile.y + m.nested[i].tile.height ==> column == u16::MAX
                        || row == u16::MAX
            },
            (At::List { row, .. }, Hit::Nothing) => m.list_rows is None || row >= m.list_rows->0
                || m.list_top + row >= m.rows.len(),
            _ => true,
        },
{
}

/// Scrolling moves the list by the rows asked for, within its ends, and leaves what is in hand and
/// marked alone. Scrolled back, it is where it was if neither end was met.
pub proof fn scrolling_moves_only_the_list(m: ViewerModel, rows: int, shown: int)
    requires
        m.list_rows == Some(shown),
        shown >= 1,
        0 <= m.list_top,
        m.list_top + shown <= m.rows.len() || m.list_top == 0,
    ensures
        ({
            let after = m.scrolled_by(rows);
            &&& 0 <= after.list_top
            &&& after.list_top + shown <= m.rows.len() || after.list_top == 0
            &&& 0 <= m.list_top + rows && m.list_top + rows + shown <= m.rows.len()
                ==> after.list_top == m.list_top + rows && after.scrolled_by(-rows) == m
            &&& m.list_top + rows <= 0 ==> after.list_top == 0
            &&& after == (ViewerModel { list_top: after.list_top, ..m })
        }),
{
}

/// The pointer over a row or a tile is over its entry, and elsewhere over none; nothing else
/// changes.
pub proof fn hovering_changes_only_what_is_hovered(m: ViewerModel, hit: Hit)
    requires
        m.wf(),
        m.holds(hit),
    ensures
        ({
            let after = m.hovering(hit);
            &&& after == (ViewerModel {
                hover: after.hover,
                hover_row: after.hover_row,
                hover_nested: after.hover_nested,
                ..m
            })
            &&& match hit {
                Hit::Row(index) | Hit::Expander(index) => after.hover == Some(
                    m.rows[index as int].path[0],
                ) && after.hover_row == Some(index as int) && after.hover_nested is None,
                Hit::Tile(name) => after.hover == Some(name@) && after.hover_row is None
                    && after.hover_nested is None,
                Hit::Nested(index) => after.hover == Some(m.nested[index as int].path[0])
                    && after.hover_row is None && after.hover_nested == Some(index as int),
                Hit::SmallFiles | Hit::Nothing => after.hover is None && after.hover_row is None
                    && after.hover_nested is None,
            }
        }),
{
}

/// The folder scanned again is the one in hand, or the folder shown where a file or nothing is in
/// hand; and none is while the first scan runs.
pub proof fn a_rescan_is_of_the_folder_in_hand(m: ViewerModel, at: int)
    requires
        0 <= at < m.listing.len(),
        m.selected == Some(m.listing[at].name),
        forall|j: int| 0 <= j < at ==> (#[trigger] m.listing[j]).name != m.listing[at].name,
    ensures
        m.listing[at].file_type == FileType::Folder ==> {
            &&& m.rescan_target().len() == m.folder.len() + 1
            &&& m.rescan_target().last() == m.listing[at].name
            &&& m.rescan_target().drop_last() == m.folder
        },
        m.listing[at].file_type == FileType::File ==> m.rescan_target() == m.folder,
        m.scanning ==> !m.can_rescan(),
        !m.scanning && m.rescanner ==> m.can_rescan(),
        m.can_enter(m.listing[at].name) == (m.listing[at].file_type == FileType::Folder),
        (ViewerModel { selected: None, ..m }).rescan_target() == m.folder,
{
    the_first_entry_of_a_name(m, m.listing[at].name, at);
    if m.listing[at].file_type == FileType::Folder {
        assert(m.rescan_target().drop_last() =~= m.folder);
    }
}

/// Entering a folder shows it, and remembers the zoom level of the one left.
pub proof fn entering_goes_down_one_folder(m: ViewerModel, name: Seq<u8>, inside: ContentsModel)
    requires
        m.wf(),
        inside.wf(),
    ensures
        ({
            let after = m.entered(name, inside);
            &&& after.folder.len() == m.folder.len() + 1
            &&& after.folder.drop_last() == m.folder
            &&& after.folder.last() == name
            &&& after.listing == inside.listing
            &&& after.rows == inside.rows
            &&& after.tiles == inside.tiles
            &&& after.zooms.len() == m.zooms.len() + 1
            &&& after.zooms.last() == m.zoom_level
            &&& after.hover is None
            &&& after.hover_row is None
            &&& after.mark_run is None
            &&& after.scanning == m.scanning
        }),
{
    reveal(ViewerModel::in_hand);
    assert(m.entered(name, inside).folder.drop_last() =~= m.folder);
}

/// The scan's end shows the finished tree: the first scan no longer runs, and what was in hand
/// stays so if it is listed; with nothing in hand the first entry comes in hand.
pub proof fn the_scans_end_keeps_the_user_in_place(
    m: ViewerModel,
    folder: Seq<Seq<u8>>,
    entries: int,
    took: u64,
    contents: ContentsModel,
    at: int,
)
    requires
        m.wf(),
        contents.wf(),
        0 <= at < contents.listing.len(),
    ensures
        ({
            let after = m.after_scan(folder, entries, took, contents);
            &&& !after.scanning
            &&& after.folder == folder
            &&& after.entries_scanned == entries
            &&& after.scan_took == Some(took)
            &&& after.listing == contents.listing
            &&& m.selected == Some(contents.listing[at].name) ==> after.selected == m.selected
                && after.chosen == m.chosen
            &&& m.selected is None ==> after.selected == Some(contents.listing[0].name)
                && !after.chosen
        }),
{
    reveal(ViewerModel::in_hand);
    assert(entry_names(contents.listing)[at] == contents.listing[at].name);
    assert(entry_names(contents.listing)[0] == contents.listing[0].name);
}

/// A rescan that leaves the window in another folder clears the marks; in the same one the marks
/// that are still listed stay. The preview is asked for again either way.
pub proof fn a_rescan_keeps_the_marks_of_the_folder_shown(
    m: ViewerModel,
    folder: Seq<Seq<u8>>,
    levels: int,
    contents: ContentsModel,
    name: Seq<u8>,
)
    requires
        m.wf(),
        contents.wf(),
        0 <= levels <= folder.len(),
    ensures
        ({
            let after = m.after_rescan(folder, levels, contents);
            &&& after.folder == folder.take(folder.len() - levels)
            &&& after.listing == contents.listing
            &&& after.preview_for is None
            &&& folder != m.folder ==> after.marked.len() == 0
            &&& folder == m.folder ==> (after.marked.contains(name) <==> m.marked.contains(name)
                && exists|i: int|
                0 <= i < contents.listing.len() && (#[trigger] contents.listing[i]).name == name)
        }),
{
    reveal(ViewerModel::in_hand);
    let names = entry_names(contents.listing);
    kept_names_are_listed(contents.listing, m.marked);
    kept_names_are_listed(contents.listing, in_listing(contents.listing, m.marked));
    kept_names_are_listed(contents.listing, Seq::empty());
    let none: Seq<Seq<u8>> = Seq::empty();
    assert(in_listing(contents.listing, none) =~= none) by {
        reveal(Seq::filter);
    }
    assert(folder.take(folder.len() as int) =~= folder);
    if names.contains(name) {
        let i = choose|i: int| 0 <= i < names.len() && names[i] == name;
        assert(contents.listing[i].name == name);
    }
    if exists|i: int|
        0 <= i < contents.listing.len() && (#[trigger] contents.listing[i]).name == name {
        let i = choose|i: int|
            0 <= i < contents.listing.len() && (#[trigger] contents.listing[i]).name == name;
        assert(names[i] == name);
    }
}

/// A window of another size shows the new treemap and as many rows as it has room for. Without a
/// list the treemap has the keyboard; what is in hand and marked stays.
pub proof fn resizing_keeps_what_is_in_hand(
    m: ViewerModel,
    list_rows: Option<int>,
    treemap: TreemapModel,
)
    requires
        m.wf(),
    ensures
        ({
            let after = m.resized(list_rows, treemap);
            &&& after.list_rows == list_rows
            &&& after.tiles == treemap.tiles
            &&& after.nested == treemap.nested
            &&& after.zoom_level == treemap.zoom_level
            &&& after.small_files == treemap.small_files
            &&& after.selected == m.selected
            &&& after.cursor == m.cursor
            &&& after.marked == m.marked
            &&& after.rows == m.rows
            &&& after.listing == m.listing
            &&& list_rows is None ==> after.focus == Focus::Treemap
            &&& list_rows is Some ==> after.focus == m.focus
        }),
{
    assert(m.synced() == m);
}

/// Whether two windows show the same place: the folder, what it holds and how it is laid out.
pub open spec fn same_place(m: ViewerModel, n: ViewerModel) -> bool {
    &&& n.folder == m.folder
    &&& n.zooms == m.zooms
    &&& n.zoom_level == m.zoom_level
    &&& n.listing == m.listing
    &&& n.tiles == m.tiles
    &&& n.small_files == m.small_files
    &&& n.rows == m.rows
    &&& n.nested == m.nested
    &&& n.list_rows == m.list_rows
    &&& n.tree_view == m.tree_view
}

/// Whether two windows are of the same scan, as far as it has come, and have the same to say of it.
pub open spec fn same_scan(m: ViewerModel, n: ViewerModel) -> bool {
    &&& n.scanning == m.scanning
    &&& n.scan_id == m.scan_id
    &&& n.entries_scanned == m.entries_scanned
    &&& n.failed_to_read == m.failed_to_read
    &&& n.scan_took == m.scan_took
    &&& n.rescanner == m.rescanner
    &&& n.clipboard == m.clipboard
    &&& n.message == m.message
    &&& n.preview_generation == m.preview_generation
    &&& n.preview == m.preview
}

/// A click, a key or a mark changes what is in hand, what is marked and what has the keyboard, and
/// nothing of the place shown, of the scan or of what the pointer is over. Without a clipboard it
/// asks for no copy, and it takes back none that was asked for.
pub proof fn keys_and_clicks_change_only_what_is_in_hand(
    m: ViewerModel,
    index: int,
    extend: bool,
    direction: Direction,
    beside: Option<int>,
    jump: Jump,
    hit: Hit,
    mods: Mods,
)
    requires
        m.wf(),
        m.holds(hit),
        index >= 0,
    ensures
        forall|n: ViewerModel|
            n == m.moved_to(index, extend) || n == m.after_arrow(direction, extend, beside) || n
                == m.after_jump(jump, extend) || n == m.after_click(hit, mods) || n == m.unmarked()
                || n == m.all_marked() ==> #[trigger] same_place(m, n) && same_scan(m, n)
                && n.preview_for == m.preview_for && n.hover == m.hover && n.hover_row
                == m.hover_row && n.hover_nested == m.hover_nested && (!m.clipboard ==> n.copy_due
                == m.copy_due) && (m.copy_due ==> n.copy_due),
        m.moved_to(index, extend).focus == m.focus,
        m.unmarked().focus == m.focus,
        m.all_marked().focus == m.focus,
        m.all_marked().cursor == m.cursor,
        m.all_marked().selected == m.selected,
        m.all_marked().list_top == m.list_top,
        m.unmarked().cursor == m.cursor,
        m.unmarked().selected == m.selected,
        m.unmarked().list_top == m.list_top,
        m.unmarked().marked.len() == 0,
        m.unmarked().mark_run is None,
{
    moving_changes_only_what_is_in_hand(m, index, extend);
    let there = ViewerModel {
        focus: if m.list_rows is Some {
            Focus::List
        } else {
            m.focus
        },
        ..m
    };
    let jumped = m.jump_target(jump);
    moving_changes_only_what_is_in_hand(there, jumped, extend);
    if let Some(at) = m.cursor_row() {
        moving_changes_only_what_is_in_hand(m, at - 1, extend);
        moving_changes_only_what_is_in_hand(m, at + 1, extend);
        moving_changes_only_what_is_in_hand(m, at + 1, false);
    }
    moving_changes_only_what_is_in_hand(m, 0, extend);
    if let Some(row) = m.cursor_entry() {
        taking_changes_only_what_is_in_hand(m.unmarked(), Some(row.path.take(row.depth)), true);
    }
    if let Some(at) = beside {
        if 0 <= at < m.tiles.len() {
            taking_changes_only_what_is_in_hand(
                m.unmarked(),
                Some(seq![m.tiles[at].entry.name]),
                true,
            );
        }
    }
    match hit {
        Hit::Row(row) | Hit::Expander(row) => {
            clicking_changes_only_what_is_in_hand(
                m,
                Focus::List,
                m.rows[row as int].path,
                mods,
            );
        },
        Hit::Tile(name) => {
            clicking_changes_only_what_is_in_hand(m, Focus::Treemap, seq![name@], mods);
        },
        _ => {},
    }
}

spec fn only_the_hand_moves(m: ViewerModel, n: ViewerModel) -> bool {
    &&& same_place(m, n)
    &&& same_scan(m, n)
    &&& n.preview_for == m.preview_for
    &&& m.hover is None || m.listed(m.hover->0) ==> n.hover == m.hover
    &&& m.hover_row is None || m.hover_row->0 < m.rows.len() ==> n.hover_row == m.hover_row
    &&& n.hover_nested == m.hover_nested
    &&& !m.clipboard ==> n.copy_due == m.copy_due
    &&& m.copy_due ==> n.copy_due
}

proof fn taking_changes_only_what_is_in_hand(
    m: ViewerModel,
    path: Option<Seq<Seq<u8>>>,
    chosen: bool,
)
    ensures
        only_the_hand_moves(m, m.in_hand(path, chosen)),
        m.in_hand(path, chosen).focus == m.focus,
        m.in_hand(path, chosen).copy_due == m.copy_due,
{
    reveal(ViewerModel::in_hand);
}

proof fn moving_changes_only_what_is_in_hand(m: ViewerModel, index: int, extend: bool)
    ensures
        only_the_hand_moves(m, m.moved_to(index, extend)),
        m.moved_to(index, extend).focus == m.focus,
{
    reveal(ViewerModel::moved_to);
    if m.rows.len() > 0 {
        let at = if index < m.rows.len() {
            index
        } else {
            m.rows.len() - 1
        };
        taking_changes_only_what_is_in_hand(m.unmarked(), Some(m.rows[at].path), true);
    }
}

proof fn clicking_changes_only_what_is_in_hand(
    m: ViewerModel,
    focus: Focus,
    path: Seq<Seq<u8>>,
    mods: Mods,
)
    ensures
        only_the_hand_moves(m, m.after_entry_click(focus, path, mods)),
        m.after_entry_click(focus, path, mods).focus == focus,
{
    let there = ViewerModel { focus, ..m };
    taking_changes_only_what_is_in_hand(there.unmarked(), Some(path), true);
    taking_changes_only_what_is_in_hand(
        ViewerModel { marked: m.toggled_marks(path[0]), ..there },
        Some(path),
        false,
    );
}

/// Fresh contents are shown as they are. They change nothing of the scan, of what has the keyboard
/// or of how the window is set up; only a rescan looks anew for what to preview.
pub proof fn fresh_contents_change_only_the_place(
    m: ViewerModel,
    name: Seq<u8>,
    folder: Seq<Seq<u8>>,
    levels: int,
    contents: ContentsModel,
)
    requires
        m.wf(),
        contents.wf(),
        0 <= levels <= m.folder.len(),
        levels <= folder.len(),
    ensures
        forall|n: ViewerModel|
            n == m.refreshed(contents) || n == m.entered(name, contents) || n == m.gone_up(contents)
                || n == m.after_removal(levels, contents) || n == m.after_rescan(
                folder,
                levels,
                contents,
            ) ==> #[trigger] same_scan(m, n) && n.listing == contents.listing && n.tiles
                == contents.tiles && n.small_files == contents.small_files && n.zoom_level
                == contents.zoom_level && n.rows == contents.rows && n.nested == contents.nested
                && n.focus == m.focus && n.list_rows == m.list_rows && n.tree_view == m.tree_view
                && n.copy_due == m.copy_due,
        m.refreshed(contents).folder == m.folder,
        m.refreshed(contents).zooms == m.zooms,
        m.refreshed(contents).preview_for == m.preview_for,
        m.entered(name, contents).preview_for == m.preview_for,
        m.gone_up(contents).preview_for == m.preview_for,
        m.after_removal(levels, contents).preview_for == m.preview_for,
        m.after_removal(levels, contents).folder == m.folder.take(m.folder.len() - levels),
        m.after_rescan(folder, levels, contents).preview_for is None,
        m.after_rescan(folder, levels, contents).folder == folder.take(folder.len() - levels),
{
    reveal(ViewerModel::in_hand);
    assert(m.folder.take(m.folder.len() as int) =~= m.folder);
    assert(folder.take(folder.len() as int) =~= folder);
}

/// The end of the scan changes nothing of how the window is set up, and says how long it took and
/// how much it found.
pub proof fn the_scans_end_is_kept(
    m: ViewerModel,
    folder: Seq<Seq<u8>>,
    entries: int,
    took: u64,
    contents: ContentsModel,
)
    requires
        m.wf(),
        contents.wf(),
    ensures
        ({
            let n = m.after_scan(folder, entries, took, contents);
            &&& !n.scanning && n.scan_took == Some(took) && n.entries_scanned == entries
            &&& n.folder == folder && n.listing == contents.listing && n.rows == contents.rows
            &&& n.tiles == contents.tiles && n.nested == contents.nested && n.small_files
                == contents.small_files && n.zoom_level == contents.zoom_level
            &&& n.scan_id == m.scan_id && n.failed_to_read == m.failed_to_read
            &&& n.rescanner == m.rescanner && n.clipboard == m.clipboard && n.copy_due == m.copy_due
            &&& n.message == m.message && n.preview == m.preview && n.preview_for == m.preview_for
            &&& n.preview_generation == m.preview_generation
            &&& n.focus == m.focus && n.list_rows == m.list_rows && n.tree_view == m.tree_view
        }),
{
    reveal(ViewerModel::in_hand);
}

/// The treemap laid out again is shown as it is, and the list with what is in hand and marked stays.
pub proof fn a_new_layout_changes_only_the_treemap(
    m: ViewerModel,
    list_rows: Option<int>,
    on: bool,
    flat: Seq<crate::entries::RowModel>,
    treemap: TreemapModel,
)
    requires
        m.wf(),
    ensures
        forall|n: ViewerModel|
            n == m.laid_out(treemap) || n == m.resized(list_rows, treemap) || n == m.as_tree(
                on,
                flat,
                treemap,
            ) ==> #[trigger] same_scan(m, n) && n.tiles == treemap.tiles && n.nested
                == treemap.nested && n.zoom_level == treemap.zoom_level && n.small_files
                == treemap.small_files && n.folder == m.folder && n.zooms == m.zooms && n.listing
                == m.listing && n.selected == m.selected && n.chosen == m.chosen && n.marked
                == m.marked && n.anchor == m.anchor && n.mark_run == m.mark_run && n.hover
                == m.hover && n.preview_for == m.preview_for && n.copy_due == m.copy_due,
        m.laid_out(treemap).rows == m.rows,
        m.laid_out(treemap).cursor == m.cursor,
        m.laid_out(treemap).focus == m.focus,
        m.laid_out(treemap).list_top == m.list_top,
        m.resized(list_rows, treemap).list_rows == list_rows,
        m.resized(list_rows, treemap).rows == m.rows,
        m.resized(list_rows, treemap).tree_view == m.tree_view,
        m.as_tree(on, flat, treemap).tree_view == on,
        m.as_tree(true, flat, treemap).rows == m.rows,
        m.as_tree(false, flat, treemap).rows == flat,
        m.as_tree(on, flat, treemap).focus == m.focus,
        m.as_tree(false, flat, treemap).cursor == m.cursor || m.as_tree(false, flat, treemap).cursor
            == (if m.selected is Some {
            Some(seq![m.selected->0])
        } else {
            None
        }),
{
    kept_names_are_listed(m.listing, m.marked);
}

/// Opening or closing a row shows the rows there are then with that row in hand, and leaves the
/// marks, the treemap and the folder.
pub proof fn opening_a_row_keeps_it_in_hand(
    m: ViewerModel,
    rows: Seq<crate::entries::RowModel>,
    index: int,
    at: int,
)
    requires
        m.wf(),
        0 <= index < m.rows.len(),
        0 <= at < rows.len(),
        rows[at].path == m.rows[index].path,
        m.rows[index].path.len() > 0,
        m.listed(m.rows[index].path[0]),
    ensures
        m.can_toggle(index) <==> m.rows[index].entry.file_type == FileType::Folder,
        !m.can_toggle(m.rows.len() as int),
        ({
            let n = m.with_rows(rows, m.rows[index].path, true);
            &&& n.rows == rows
            &&& n.cursor == Some(m.rows[index].path)
            &&& n.selected == Some(m.rows[index].path[0])
            &&& n.chosen
            &&& n.marked == m.marked
            &&& n.folder == m.folder && n.zooms == m.zooms && n.listing == m.listing
            &&& n.tiles == m.tiles && n.nested == m.nested && n.zoom_level == m.zoom_level
            &&& n.focus == m.focus && n.tree_view == m.tree_view
            &&& same_scan(m, n)
        }),
{
    reveal(ViewerModel::in_hand);
    kept_names_are_listed(m.listing, m.marked);
    assert(row_paths(rows)[at] == m.rows[index].path);
}

/// With nothing in hand an arrow takes the first row, and a jump goes from there; a list of two rows
/// or fewer is gone through a row at a time.
pub proof fn with_nothing_in_hand_the_top_is_taken(m: ViewerModel, shown: int)
    requires
        m.wf(),
        m.cursor is None,
        m.focus == Focus::List,
        m.list_rows == Some(shown),
        shown >= 1,
        m.rows.len() > 0,
    ensures
        m.after_arrow(Direction::Down, false, None).cursor == Some(m.rows[0].path),
        m.after_arrow(Direction::Up, false, None).cursor == Some(m.rows[0].path),
        m.after_jump(Jump::PageUp, false).cursor == Some(m.rows[0].path),
        m.after_jump(Jump::Home, false).cursor == Some(m.rows[0].path),
        shown > 2 && shown <= m.rows.len() ==> m.after_jump(Jump::PageDown, false).cursor == Some(
            m.rows[shown - 1].path,
        ),
        shown <= 2 && m.rows.len() > 1 ==> m.after_jump(Jump::PageDown, false).cursor == Some(
            m.rows[1].path,
        ),
{
    reveal(ViewerModel::moved_to);
    reveal(ViewerModel::in_hand);
    reveal(Seq::filter);
    assert forall|i: int| 0 <= i < m.rows.len() implies row_paths(m.rows).contains(
        #[trigger] m.rows[i].path,
    ) by {
        assert(row_paths(m.rows)[i] == m.rows[i].path);
    }
}

} // verus!
