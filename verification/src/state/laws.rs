//! What holds of a window whatever is done to it.

use vstd::prelude::*;

use crate::entries::{entry_names, row_paths, EntryModel};
use crate::state::model::{
    in_listing, joined, nested_of, rows_of, swept, tiles_of, top_of, ContentsModel, ViewerModel,
};
use crate::state::pointer::Hit;
use crate::state::{Direction, Focus, Jump, Mods};

verus! {

/// Of names that a listing holds, all are kept, and of any others only those it holds are.
pub proof fn kept_names_are_listed(listing: Seq<EntryModel>, names: Seq<Seq<u8>>)
    ensures
        forall|i: int|
            0 <= i < in_listing(listing, names).len() ==> entry_names(listing).contains(
                #[trigger] in_listing(listing, names)[i],
            ),
        (forall|i: int|
            0 <= i < names.len() ==> entry_names(listing).contains(#[trigger] names[i])) ==> in_listing(
            listing,
            names,
        ) == names,
        forall|name: Seq<u8>| #[trigger]
            in_listing(listing, names).contains(name) <==> names.contains(name) && entry_names(
                listing,
            ).contains(name),
    decreases names.len(),
{
    reveal(Seq::filter);
    let kept = in_listing(listing, names);
    if names.len() == 0 {
        assert(kept =~= names);
    } else {
        let front = names.drop_last();
        let kept_front = in_listing(listing, front);
        kept_names_are_listed(listing, front);
        assert(kept == if entry_names(listing).contains(names.last()) {
            kept_front.push(names.last())
        } else {
            kept_front
        });
        if forall|i: int|
            0 <= i < names.len() ==> entry_names(listing).contains(#[trigger] names[i]) {
            assert forall|i: int| 0 <= i < front.len() implies entry_names(listing).contains(
                #[trigger] front[i],
            ) by {
                assert(front[i] == names[i]);
            }
            assert(names =~= front.push(names.last()));
        }
        assert forall|name: Seq<u8>| #[trigger]
            kept.contains(name) <==> names.contains(name) && entry_names(listing).contains(
                name,
            ) by {
            assert(names =~= front.push(names.last()));
            if kept.contains(name) {
                let i = choose|i: int| 0 <= i < kept.len() && kept[i] == name;
                if i < kept_front.len() {
                    assert(kept_front[i] == name);
                    assert(kept_front.contains(name));
                    assert(entry_names(listing).contains(name));
                    assert(front.contains(name));
                    let j = choose|j: int| 0 <= j < front.len() && front[j] == name;
                    assert(names[j] == name);
                } else {
                    assert(names[names.len() - 1] == name);
                }
            }
            if names.contains(name) && entry_names(listing).contains(name) {
                let i = choose|i: int| 0 <= i < names.len() && names[i] == name;
                if i < front.len() {
                    assert(front[i] == name);
                    assert(front.contains(name));
                    assert(in_listing(listing, front).contains(name));
                    let j = choose|j: int| 0 <= j < kept_front.len() && kept_front[j] == name;
                    assert(kept[j] == name);
                } else {
                    assert(kept[kept.len() - 1] == name);
                }
            }
        }
    }
}

/// Keeping what is in hand and marked to what is there makes a window whole, whatever it
/// was before.
pub proof fn syncing_makes_whole(m: ViewerModel)
    requires
        rows_of(m.rows, m.listing),
        tiles_of(m.tiles, m.listing),
        nested_of(m.nested, m.listing),
        m.hover_nested is Some ==> m.hover_nested->0 < m.nested.len(),
    ensures
        m.synced().wf(),
{
    let once = m.synced();
    kept_names_are_listed(m.listing, m.marked);
    kept_names_are_listed(m.listing, once.marked);
    assert(once.synced() =~= once);
}

/// Whether a window is whole rests on what it shows, what is in hand, marked and under the
/// pointer, and on nothing else.
pub proof fn whole_by_what_is_there(m: ViewerModel, n: ViewerModel)
    requires
        m.wf(),
        n.rows == m.rows,
        n.listing == m.listing,
        n.tiles == m.tiles,
        n.nested == m.nested,
        n.hover_nested is Some ==> n.hover_nested->0 < n.nested.len(),
        n.selected == m.selected,
        n.marked == m.marked,
        n.hover == m.hover || n.hover is None || n.listed(n.hover->0),
        n.cursor == m.cursor,
        n.hover_row is Some ==> n.hover_row->0 < n.rows.len(),
        n.tile_in_hand == m.tile_in_hand,
    ensures
        n.wf(),
{
    assert(m.synced() == m);
    assert(n.synced() =~= n);
}

/// Scrolling leaves a window whole.
pub proof fn scrolling_keeps_whole(m: ViewerModel)
    requires
        m.wf(),
    ensures
        m.clamped().wf(),
        m.scrolled_to_row().wf(),
        forall|rows: int| (#[trigger] m.scrolled_by(rows)).wf(),
{
    assert(m.synced() == m);
    whole_by_what_is_there(m, m.clamped());
    whole_by_what_is_there(m, m.scrolled_to_row());
    assert forall|rows: int| (#[trigger] m.scrolled_by(rows)).wf() by {
        whole_by_what_is_there(m, m.scrolled_by(rows));
    }
}

/// Taking something in hand makes a window whole.
pub proof fn taking_in_hand_makes_whole(
    m: ViewerModel,
    path: Option<Seq<Seq<u8>>>,
    chosen: bool,
)
    requires
        rows_of(m.rows, m.listing),
        tiles_of(m.tiles, m.listing),
        nested_of(m.nested, m.listing),
        m.hover_nested is Some ==> m.hover_nested->0 < m.nested.len(),
    ensures
        m.in_hand(path, chosen).wf(),
{
    reveal(ViewerModel::in_hand);
    let taken = ViewerModel {
        selected: top_of(path),
        chosen: chosen && top_of(path) is Some,
        anchor: top_of(path),
        mark_run: None,
        cursor: path,
        ..m
    };
    syncing_makes_whole(taken);
    scrolling_keeps_whole(taken.synced());
}

/// Joined names are those of either part, and no name comes twice unless it did in the first.
pub proof fn joined_names_are_of_either(base: Seq<Seq<u8>>, more: Seq<Seq<u8>>)
    ensures
        forall|name: Seq<u8>| #[trigger]
            joined(base, more).contains(name) <==> base.contains(name) || more.contains(name),
        base.no_duplicates() ==> joined(base, more).no_duplicates(),
        base.is_prefix_of(joined(base, more)),
    decreases more.len(),
{
    if more.len() > 0 {
        let before = joined(base, more.drop_last());
        joined_names_are_of_either(base, more.drop_last());
        let after = joined(base, more);
        assert forall|name: Seq<u8>| #[trigger]
            after.contains(name) <==> base.contains(name) || more.contains(name) by {
            assert(before.contains(name) <==> base.contains(name) || more.drop_last().contains(
                name,
            ));
            if more.contains(name) {
                let i = choose|i: int| 0 <= i < more.len() && more[i] == name;
                if i < more.len() - 1 {
                    assert(more.drop_last()[i] == name);
                    assert(more.drop_last().contains(name));
                }
            }
            if more.drop_last().contains(name) {
                let i = choose|i: int|
                    0 <= i < more.drop_last().len() && more.drop_last()[i] == name;
                assert(more[i] == name);
            }
            assert(more[more.len() - 1] == more.last());
            if !before.contains(more.last()) {
                assert(after == before.push(more.last()));
                assert(after[after.len() - 1] == more.last());
                if before.contains(name) {
                    let i = choose|i: int| 0 <= i < before.len() && before[i] == name;
                    assert(after[i] == name);
                }
            }
        }
    }
}

/// A sweep holds the names between its ends and no others.
pub proof fn swept_names_are_between(names: Seq<Seq<u8>>, from: int, to: int)
    requires
        0 <= from < names.len(),
        0 <= to < names.len(),
    ensures
        forall|name: Seq<u8>| #[trigger]
            swept(names, from, to).contains(name) <==> exists|i: int|
                (from <= i <= to || to <= i <= from) && #[trigger] names[i] == name,
{
    let sweep = swept(names, from, to);
    assert forall|name: Seq<u8>| #[trigger]
        sweep.contains(name) <==> exists|i: int|
            (from <= i <= to || to <= i <= from) && #[trigger] names[i] == name by {
        if sweep.contains(name) {
            let i = choose|i: int| 0 <= i < sweep.len() && sweep[i] == name;
            if from <= to {
                assert(names[from + i] == name);
            } else {
                assert(names[from - i] == name);
            }
        }
        if exists|i: int| (from <= i <= to || to <= i <= from) && #[trigger] names[i] == name {
            let i = choose|i: int|
                (from <= i <= to || to <= i <= from) && #[trigger] names[i] == name;
            if from <= to {
                assert(sweep[i - from] == name);
            } else {
                assert(sweep[from - i] == name);
            }
        }
    }
}

/// A range marks entries of the listing, and only those, with the marks that it began from
/// first.
pub proof fn a_range_marks_entries(m: ViewerModel, anchor: Option<Seq<u8>>, to: int)
    requires
        0 <= to < m.listing.len(),
    ensures
        forall|name: Seq<u8>| #[trigger]
            m.range_marked(anchor, to).marked.contains(name) ==> m.listed(name),
        m.only_listed(m.range_marked(anchor, to).marked) == m.range_marked(anchor, to).marked,
        m.run_base().is_prefix_of(m.range_marked(anchor, to).marked),
{
    let names = entry_names(m.listing);
    if anchor is Some {
        names.index_of_first_ensures(anchor->0);
    }
    let from = match m.listing_index(anchor) {
        Some(from) => from,
        None => to,
    };
    let sweep = swept(names, from, to);
    let marked = m.range_marked(anchor, to).marked;
    joined_names_are_of_either(m.run_base(), sweep);
    swept_names_are_between(names, from, to);
    kept_names_are_listed(
        m.listing,
        match m.mark_run {
            Some(base) => base,
            None => m.marked,
        },
    );
    assert forall|name: Seq<u8>| #[trigger] marked.contains(name) implies m.listed(name) by {
        if sweep.contains(name) {
            let i = choose|i: int|
                (from <= i <= to || to <= i <= from) && #[trigger] names[i] == name;
            assert(names.contains(names[i]));
        }
    }
    assert forall|i: int| 0 <= i < marked.len() implies names.contains(#[trigger] marked[i]) by {
        assert(marked.contains(marked[i]));
    }
    kept_names_are_listed(m.listing, marked);
}

/// Moving through the list leaves a window whole.
pub proof fn moving_keeps_whole(m: ViewerModel, index: int, extend: bool)
    requires
        m.wf(),
        index >= 0,
    ensures
        m.moved_to(index, extend).wf(),
{
    reveal(ViewerModel::moved_to);
    if m.rows.len() > 0 {
        let at = if index < m.rows.len() {
            index
        } else {
            m.rows.len() - 1
        };
        let path = m.rows[at].path;
        if extend {
            let start = m.range_start();
            let taken = ViewerModel {
                selected: top_of(Some(path)),
                chosen: true,
                anchor: start,
                ..m
            };
            let marked = match taken.listing_index(taken.selected) {
                Some(to) => taken.range_marked(start, to),
                None => taken,
            };
            let there = ViewerModel { cursor: Some(path), ..marked };
            syncing_makes_whole(there);
            scrolling_keeps_whole(there.synced());
        } else {
            taking_in_hand_makes_whole(m.unmarked(), Some(path), true);
        }
    }
}

/// Clearing the marks, or marking everything, leaves a window whole.
pub proof fn marking_keeps_whole(m: ViewerModel)
    requires
        m.wf(),
    ensures
        m.unmarked().wf(),
        m.all_marked().wf(),
        m.marks_copied().wf(),
{
    assert(m.synced() == m);
    let none = m.unmarked();
    kept_names_are_listed(m.listing, none.marked);
    assert(none.synced() =~= none);
    let all = m.all_marked();
    let names = entry_names(m.listing);
    assert forall|i: int| 0 <= i < names.len() implies names.contains(#[trigger] names[i]) by {}
    kept_names_are_listed(m.listing, names);
    assert(all.synced() =~= all);
    whole_by_what_is_there(m, m.marks_copied());
}

/// An arrow leaves a window whole.
pub proof fn arrows_keep_whole(
    m: ViewerModel,
    direction: Direction,
    extend: bool,
    beside: Option<int>,
)
    requires
        m.wf(),
    ensures
        m.after_arrow(direction, extend, beside).wf(),
{
    assert(m.synced() == m);
    if m.cursor is Some {
        row_paths(m.rows).index_of_first_ensures(m.cursor->0);
    }
    marking_keeps_whole(m);
    match (m.focus, direction) {
        (Focus::List, Direction::Up) => {
            let next = match m.cursor_row() {
                Some(at) => if at > 0 {
                    at - 1
                } else {
                    0
                },
                None => 0,
            };
            moving_keeps_whole(m, next, extend);
        },
        (Focus::List, Direction::Down) => {
            let next = match m.cursor_row() {
                Some(at) => at + 1,
                None => 0,
            };
            moving_keeps_whole(m, next, extend);
        },
        (Focus::List, Direction::Right) => {
            if m.cursor_row() is Some {
                moving_keeps_whole(m, m.cursor_row()->0 + 1, false);
            }
            whole_by_what_is_there(m, ViewerModel { focus: Focus::Treemap, ..m });
        },
        (Focus::List, Direction::Left) => {
            if let Some(row) = m.cursor_entry() {
                taking_in_hand_makes_whole(m.unmarked(), Some(row.path.take(row.depth)), true);
            }
        },
        (Focus::Treemap, _) => {
            if let Some(at) = beside {
                if 0 <= at < m.tiles.len() {
                    taking_in_hand_makes_whole(
                        m.unmarked(),
                        Some(seq![m.tiles[at].entry.name]),
                        true,
                    );
                }
            }
            whole_by_what_is_there(m.unmarked(), m.off_the_edge(direction));
        },
    }
}

/// A jump leaves a window whole.
pub proof fn jumps_keep_whole(m: ViewerModel, jump: Jump, extend: bool)
    requires
        m.wf(),
    ensures
        m.after_jump(jump, extend).wf(),
{
    let focused = ViewerModel {
        focus: if m.list_rows is Some {
            Focus::List
        } else {
            m.focus
        },
        ..m
    };
    assert(m.synced() == m);
    whole_by_what_is_there(m, focused);
    if m.cursor is Some {
        row_paths(m.rows).index_of_first_ensures(m.cursor->0);
    }
    moving_keeps_whole(focused, m.jump_target(jump), extend);
}

/// A click leaves a window whole.
pub proof fn clicks_keep_whole(m: ViewerModel, hit: Hit, mods: Mods)
    requires
        m.wf(),
        m.holds(hit),
    ensures
        m.after_click(hit, mods).wf(),
{
    assert(m.synced() == m);
    match hit {
        Hit::Row(index) | Hit::Expander(index) => {
            entry_clicks_keep_whole(m, Focus::List, m.rows[index as int].path, mods);
        },
        Hit::Tile(name) => {
            entry_clicks_keep_whole(m, Focus::Treemap, seq![name@], mods);
        },
        Hit::Nested(_) => {
            marking_keeps_whole(m);
            whole_by_what_is_there(m.unmarked(), m.after_click(hit, mods));
        },
        Hit::SmallFiles | Hit::Nothing => {},
    }
}

proof fn entry_clicks_keep_whole(
    m: ViewerModel,
    focus: Focus,
    path: Seq<Seq<u8>>,
    mods: Mods,
)
    requires
        m.wf(),
        path.len() > 0,
    ensures
        m.after_entry_click(focus, path, mods).wf(),
{
    let there = ViewerModel { focus, ..m };
    whole_by_what_is_there(m, there);
    if mods.range {
        if let Some(to) = m.listing_index(Some(path[0])) {
            syncing_makes_whole(
                ViewerModel {
                    selected: Some(path[0]),
                    chosen: true,
                    anchor: m.range_start(),
                    cursor: Some(path),
                    ..there.range_marked(m.range_start(), to)
                },
            );
        }
    } else if mods.toggle {
        let toggled = ViewerModel { marked: m.toggled_marks(path[0]), ..there };
        taking_in_hand_makes_whole(toggled, Some(path), false);
        marking_keeps_whole(toggled.in_hand(Some(path), false));
    } else {
        taking_in_hand_makes_whole(there.unmarked(), Some(path), true);
    }
}

/// The pointer's moving leaves a window whole.
pub proof fn hovering_keeps_whole(m: ViewerModel, hit: Hit)
    requires
        m.wf(),
        m.holds(hit),
    ensures
        m.hovering(hit).wf(),
{
    assert(m.synced() == m);
    whole_by_what_is_there(m, m.hovering(hit));
}

/// Fresh contents make a window whole.
pub proof fn contents_make_whole(m: ViewerModel, contents: ContentsModel)
    requires
        contents.wf(),
    ensures
        m.refreshed(contents).wf(),
{
    let loaded = ViewerModel {
        listing: contents.listing,
        tiles: contents.tiles,
        small_files: contents.small_files,
        zoom_level: contents.zoom_level,
        rows: contents.rows,
        nested: contents.nested,
        hover_nested: if m.hover_nested is Some && m.hover_nested->0 >= contents.nested.len() {
            None
        } else {
            m.hover_nested
        },
        ..m
    };
    syncing_makes_whole(loaded);
    scrolling_keeps_whole(loaded.synced());
}

/// A Shift run goes by where it started and where it has come to, and by nothing in between:
/// turning back takes out what was swept on the way, and nothing that was marked before.
pub proof fn a_shift_run_shrinks_when_reversed(m: ViewerModel, away: int, back: int)
    requires
        m.wf(),
        0 <= away,
        0 <= back,
        m.range_start() is Some,
    ensures
        m.moved_to(away, true).moved_to(back, true).marked == m.moved_to(back, true).marked,
        m.run_base().is_prefix_of(m.moved_to(back, true).marked) || m.rows.len() == 0,
{
    reveal(ViewerModel::moved_to);
    assert(m.synced() == m);
    if m.rows.len() > 0 {
        let far = m.moved_to(away, true);
        extending_marks_from_the_start(m, away);
        extending_marks_from_the_start(m, back);
        moving_keeps_whole(m, away, true);
        extending_marks_from_the_start(far, back);
        assert(far.range_start() == m.range_start());
        assert(far.run_base() == m.run_base());
    }
}

/// What extending a run marks: the names between its start and the row it comes to, on top
/// of the marks it began from.
proof fn extending_marks_from_the_start(m: ViewerModel, index: int)
    requires
        m.wf(),
        index >= 0,
        m.rows.len() > 0,
        m.range_start() is Some,
    ensures
        ({
            let after = m.moved_to(index, true);
            let at = if index < m.rows.len() {
                index
            } else {
                m.rows.len() - 1
            };
            let to = entry_names(m.listing).index_of_first(m.rows[at].path[0]);
            let from = entry_names(m.listing).index_of_first(m.range_start()->0);
            &&& to is Some
            &&& after.marked == joined(
                m.run_base(),
                swept(
                    entry_names(m.listing),
                    if from is Some {
                        from->0
                    } else {
                        to->0
                    },
                    to->0,
                ),
            )
            &&& m.run_base().is_prefix_of(after.marked)
            &&& after.anchor == m.range_start()
            &&& after.mark_run == Some(
                match m.mark_run {
                    Some(base) => base,
                    None => m.marked,
                },
            )
            &&& after.listing == m.listing
            &&& after.rows == m.rows
        }),
{
    reveal(ViewerModel::moved_to);
    let at = if index < m.rows.len() {
        index
    } else {
        m.rows.len() - 1
    };
    let path = m.rows[at].path;
    let start = m.range_start();
    let taken = ViewerModel { selected: top_of(Some(path)), chosen: true, anchor: start, ..m };
    entry_names(m.listing).index_of_first_ensures(path[0]);
    let to = taken.listing_index(taken.selected)->0;
    a_range_marks_entries(taken, start, to);
    assert(taken.run_base() == m.run_base());
}

/// A plain move through the list leaves nothing marked, and the next Shift run has nothing to
/// bring back.
pub proof fn a_plain_move_clears_the_marks(m: ViewerModel, index: int)
    requires
        m.wf(),
        m.rows.len() > 0,
        index >= 0,
    ensures
        m.moved_to(index, false).marked.len() == 0,
        m.moved_to(index, false).mark_run is None,
{
    reveal(ViewerModel::moved_to);
    reveal(ViewerModel::in_hand);
    reveal(Seq::filter);
}

/// A toggling click marks what was clicked, and the entry that was in hand only if the user
/// had picked it: nothing unchosen is ever marked.
pub proof fn nothing_unchosen_is_marked(m: ViewerModel, name: Seq<u8>, other: Seq<u8>)
    requires
        m.toggled_marks(name).contains(other),
    ensures
        m.marked.contains(other) || other == name || (m.chosen && m.selected == Some(other)),
{
    let start = if m.marked.len() == 0 && m.chosen && m.selected is Some && m.selected->0
        != name {
        seq![m.selected->0]
    } else {
        m.marked
    };
    let after = m.toggled_marks(name);
    let i = choose|i: int| 0 <= i < after.len() && after[i] == other;
    if start.contains(name) {
        start.index_of_first_ensures(name);
        let at = start.index_of_first(name)->0;
        assert(after == start.remove(at));
        let j = if i < at {
            i
        } else {
            i + 1
        };
        assert(start[j] == other);
    } else if i < start.len() {
        assert(start[i] == other);
    }
}

/// A second toggling click on an entry takes back the first, when the first marked it and
/// nothing else.
pub proof fn toggling_twice_restores_the_marks(m: ViewerModel, name: Seq<u8>)
    requires
        !m.marked.contains(name),
        m.marked.len() > 0 || !m.chosen || m.selected is None || m.selected == Some(name),
    ensures
        ({
            let once = ViewerModel { marked: m.toggled_marks(name), chosen: false, ..m };
            once.toggled_marks(name) == m.marked
        }),
{
    let once = m.marked.push(name);
    assert(once[once.len() - 1] == name);
    once.index_of_first_ensures(name);
    let at = once.index_of_first(name)->0;
    if at < m.marked.len() {
        assert(m.marked[at] == name);
    }
    assert(once.remove(at) =~= m.marked);
}

/// Coming back up from a folder restores where the window was: the folder shown, and the zoom
/// levels of the folders above it. The level to restore is the one that the folder had, so that
/// laid out at it the folder is as it was; and the folder just left is in hand, placed rather
/// than picked.
pub proof fn going_up_undoes_entering(
    m: ViewerModel,
    name: Seq<u8>,
    inside: ContentsModel,
    back: ContentsModel,
)
    requires
        m.wf(),
        inside.wf(),
        back.wf(),
        entry_names(back.listing).contains(name),
    ensures
        m.entered(name, inside).folder.len() > 0,
        m.entered(name, inside).zoom_above() == m.zoom_level,
        back.zoom_level == m.entered(name, inside).zoom_above() ==> m.entered(name, inside).gone_up(
            back,
        ).zoom_level == m.zoom_level,
        m.entered(name, inside).gone_up(back).folder == m.folder,
        m.entered(name, inside).gone_up(back).zooms == m.zooms,
        m.entered(name, inside).gone_up(back).selected == Some(name),
        !m.entered(name, inside).gone_up(back).chosen,
        m.entered(name, inside).gone_up(back).marked.len() == 0,
{
    reveal(ViewerModel::in_hand);
    reveal(Seq::filter);
    let inner = m.entered(name, inside);
    assert(inner.folder == m.folder.push(name));
    assert(inner.zooms == m.zooms.push(m.zoom_level));
    assert(inner.folder.last() == name);
    assert(inner.folder.drop_last() =~= m.folder);
    assert(inner.zooms.drop_last() =~= m.zooms);
}

/// Into a folder and up again, with the folder above listed as before and laid out at the level
/// that the window says: the window is where it was, at the zoom level it had, with the folder in
/// hand, placed rather than picked, and nothing marked.
pub proof fn there_and_back_again(
    m: ViewerModel,
    name: Seq<u8>,
    inside: ContentsModel,
    back: ContentsModel,
)
    requires
        m.wf(),
        inside.wf(),
        back.wf(),
        m.can_enter(name),
        back.listing == m.listing,
        back.zoom_level == m.entered(name, inside).zoom_above(),
    ensures
        ({
            let after = m.entered(name, inside).gone_up(back);
            &&& after.folder == m.folder
            &&& after.zoom_level == m.zoom_level
            &&& after.zooms == m.zooms
            &&& after.selected == Some(name)
            &&& !after.chosen
            &&& after.marked.len() == 0
        }),
{
    entry_names(m.listing).index_of_first_ensures(name);
    going_up_undoes_entering(m, name, inside, back);
}

/// A folder that the window comes to is not zoomed, and one that it stays in keeps its level:
/// where what the folder holds is laid out at the level that the window says, that is the level
/// after a removal, after the scan's end in the folder shown or one above it, and after a rescan.
/// A folder entered at no zoom is shown so, whatever the level was before.
pub proof fn only_the_folder_shown_stays_zoomed(
    m: ViewerModel,
    name: Seq<u8>,
    folder: Seq<Seq<u8>>,
    levels: int,
    entries: int,
    took: u64,
    contents: ContentsModel,
)
    requires
        m.wf(),
        contents.wf(),
    ensures
        contents.zoom_level == 0 ==> m.entered(name, contents).zoom_level == 0,
        0 <= levels <= m.folder.len() && contents.zoom_level == m.zoom_after_removal(levels) ==> {
            let after = m.after_removal(levels, contents);
            after.zoom_level == if after.folder == m.folder {
                m.zoom_level
            } else {
                0
            }
        },
        folder.is_prefix_of(m.folder) && m.zooms.len() == m.folder.len() && contents.zoom_level
            == m.zoom_after_scan(folder.len() as int) ==> {
            let after = m.after_scan(folder, entries, took, contents);
            after.zoom_level == if after.folder == m.folder {
                m.zoom_level
            } else {
                0
            }
        },
        0 <= levels <= folder.len() && contents.zoom_level == m.zoom_after_rescan(folder, levels)
            ==> {
            let after = m.after_rescan(folder, levels, contents);
            after.zoom_level == if folder == m.folder && after.folder == m.folder {
                m.zoom_level
            } else {
                0
            }
        },
{
    reveal(ViewerModel::in_hand);
    reveal(Seq::filter);
    if folder.is_prefix_of(m.folder) && folder.len() == m.folder.len() {
        assert(folder =~= m.folder);
    }
}

/// Once entries have left the disk nothing is marked, and if the row in hand went with them the
/// row now at its place, or else the last, is in hand, placed rather than picked.
pub proof fn a_removal_puts_the_next_row_in_hand(
    m: ViewerModel,
    levels: int,
    contents: ContentsModel,
)
    requires
        m.wf(),
        contents.wf(),
        0 <= levels <= m.folder.len(),
    ensures
        m.after_removal(levels, contents).marked.len() == 0,
        m.cursor_row() is Some && !row_paths(contents.rows).contains(m.cursor->0)
            && contents.rows.len() > 0 ==> {
            let after = m.after_removal(levels, contents);
            let at = m.cursor_row()->0;
            let place = if at < contents.rows.len() {
                at
            } else {
                contents.rows.len() - 1
            };
            &&& after.cursor == Some(contents.rows[place].path)
            &&& after.rows == contents.rows
            &&& !after.chosen
        },
{
    reveal(ViewerModel::in_hand);
    reveal(Seq::filter);
    if m.cursor is Some {
        row_paths(m.rows).index_of_first_ensures(m.cursor->0);
    }
    if m.cursor_row() is Some && contents.rows.len() > 0 {
        let at = m.cursor_row()->0;
        let place = if at < contents.rows.len() {
            at
        } else {
            contents.rows.len() - 1
        };
        assert(row_paths(contents.rows)[place] == contents.rows[place].path);
    }
}

/// Removing what is already gone changes nothing more: with the folder as the first removal left
/// it, the window stays as it is.
pub proof fn a_second_removal_changes_nothing(
    m: ViewerModel,
    levels: int,
    contents: ContentsModel,
)
    requires
        m.wf(),
        contents.wf(),
        0 <= levels <= m.folder.len(),
    ensures
        m.after_removal(levels, contents).after_removal(0, contents) == m.after_removal(
            levels,
            contents,
        ),
{
    reveal(ViewerModel::in_hand);
    reveal(Seq::filter);
    let left = m.unmarked().out_of_vanished(levels).refreshed(contents);
    contents_make_whole(m.unmarked().out_of_vanished(levels), contents);
    let once = m.after_removal(levels, contents);
    if once != left {
        taking_in_hand_makes_whole(left, once.cursor, false);
    }
    assert(once.wf());
    assert(once.unmarked() =~= once);
    assert(once.refreshed(contents) =~= once);
    if once.cursor is Some {
        row_paths(once.rows).index_of_first_ensures(once.cursor->0);
    }
}

/// Entering a folder clears the marks, and puts its first entry in hand, placed rather than
/// picked.
pub proof fn entering_clears_the_marks(m: ViewerModel, name: Seq<u8>, inside: ContentsModel)
    requires
        m.wf(),
        inside.wf(),
    ensures
        m.entered(name, inside).marked.len() == 0,
        !m.entered(name, inside).chosen,
        m.entered(name, inside).selected == if inside.listing.len() > 0 {
            Some(inside.listing[0].name)
        } else {
            None
        },
{
    reveal(ViewerModel::in_hand);
    reveal(Seq::filter);
    if inside.listing.len() > 0 {
        assert(entry_names(inside.listing)[0] == inside.listing[0].name);
    }
}

/// Going up through folders leaves the window in the one that many levels above, or at the
/// root.
pub proof fn going_up_goes_that_far(m: ViewerModel, above: Seq<ContentsModel>)
    ensures
        m.gone_up_through(above).folder == m.folder.take(
            if above.len() < m.folder.len() {
                m.folder.len() - above.len()
            } else {
                0
            },
        ),
    decreases above.len(),
{
    if above.len() == 0 {
        assert(m.folder.take(m.folder.len() as int) =~= m.folder);
    } else if m.folder.len() == 0 {
        assert(m.folder.take(0) =~= m.folder);
    } else {
        reveal(ViewerModel::in_hand);
        let up = m.gone_up(above[0]);
        assert(up.folder == m.folder.drop_last());
        going_up_goes_that_far(up, above.drop_first());
        assert(m.gone_up_through(above).folder =~= m.folder.take(
            if above.len() < m.folder.len() {
                m.folder.len() - above.len()
            } else {
                0
            },
        ));
    }
}

/// The list never scrolls past its last row once anything was taken in hand, and the row in
/// hand is on screen.
pub proof fn the_row_in_hand_is_on_screen(
    m: ViewerModel,
    path: Option<Seq<Seq<u8>>>,
    chosen: bool,
)
    requires
        m.list_top >= 0,
    ensures
        ({
            let after = m.in_hand(path, chosen);
            &&& 0 <= after.list_top <= after.last_top()
            &&& after.cursor_row() is Some ==> after.list_top <= after.cursor_row()->0
                < after.list_top + after.list_height()
        }),
{
    reveal(ViewerModel::in_hand);
    let after = m.in_hand(path, chosen);
    if after.cursor is Some {
        row_paths(after.rows).index_of_first_ensures(after.cursor->0);
    }
}

} // verus!
