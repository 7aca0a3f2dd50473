//! Which folders are being scanned again. A rescan covered by one under way is not started;
//! one that a new rescan covers is stopped; and a delete inside a folder being rescanned starts
//! it again, or it would put the entry back.

use vstd::prelude::*;

use crate::names::{copy_path, spelled, starts_with, Name};
use crate::state::actions::paths_model;

verus! {

/// A rescan under way: its number, and the folder's path from the scan's root.
pub struct Rescan {
    pub id: u64,
    pub relative: Vec<Name>,
}

/// The rescans under way.
pub struct Rescans {
    pub running: Vec<Rescan>,
    /// The number of the last one started.
    pub last_id: u64,
}

/// What starting a rescan came to.
pub struct Start {
    /// The number of the rescan to run, when one is to be.
    pub id: Option<u64>,
    /// The numbers of those to stop.
    pub stopped: Vec<u64>,
}

/// A rescan to run: its number and its folder.
pub struct Run {
    pub id: u64,
    pub relative: Vec<Name>,
}

/// A rescan under way, by its folder's bytes.
#[verifier::ext_equal]
pub struct RescanModel {
    pub id: int,
    pub relative: Seq<Seq<u8>>,
}

impl View for Rescan {
    type V = RescanModel;

    open spec fn view(&self) -> RescanModel {
        RescanModel { id: self.id as int, relative: spelled(self.relative@) }
    }
}

impl View for Run {
    type V = RescanModel;

    open spec fn view(&self) -> RescanModel {
        RescanModel { id: self.id as int, relative: spelled(self.relative@) }
    }
}

/// The rescans under way, in the order started.
#[verifier::ext_equal]
pub struct RescansModel {
    pub running: Seq<RescanModel>,
    pub last_id: int,
}

pub open spec fn running_model(running: Seq<Rescan>) -> Seq<RescanModel> {
    Seq::new(running.len(), |i: int| running[i]@)
}

pub open spec fn runs_model(runs: Seq<Run>) -> Seq<RescanModel> {
    Seq::new(runs.len(), |i: int| runs[i]@)
}

/// The numbers of rescans.
pub open spec fn ids(running: Seq<RescanModel>) -> Seq<int> {
    Seq::new(running.len(), |i: int| running[i].id)
}

/// Numbers as mathematical integers.
pub open spec fn numbers(ids: Seq<u64>) -> Seq<int> {
    Seq::new(ids.len(), |i: int| ids[i] as int)
}

/// The folders of rescans.
pub open spec fn folders(running: Seq<RescanModel>) -> Seq<Seq<Seq<u8>>> {
    Seq::new(running.len(), |i: int| running[i].relative)
}

impl View for Rescans {
    type V = RescansModel;

    open spec fn view(&self) -> RescansModel {
        RescansModel { running: running_model(self.running@), last_id: self.last_id as int }
    }
}

/// Those of `running` whose folder is `relative` or under it.
pub open spec fn within(running: Seq<RescanModel>, relative: Seq<Seq<u8>>) -> Seq<RescanModel> {
    running.filter(|rescan: RescanModel| relative.is_prefix_of(rescan.relative))
}

/// Those of `running` whose folder is neither `relative` nor under it.
pub open spec fn without(running: Seq<RescanModel>, relative: Seq<Seq<u8>>) -> Seq<RescanModel> {
    running.filter(|rescan: RescanModel| !relative.is_prefix_of(rescan.relative))
}

/// Whether a folder is one of `files`, or holds one.
pub open spec fn holds_any(relative: Seq<Seq<u8>>, files: Seq<Seq<Seq<u8>>>) -> bool {
    exists|i: int| 0 <= i < files.len() && relative.is_prefix_of(#[trigger] files[i])
}

/// Those of `running` whose folder holds one of `files`.
pub open spec fn over(
    running: Seq<RescanModel>,
    files: Seq<Seq<Seq<u8>>>,
) -> Seq<RescanModel> {
    running.filter(|rescan: RescanModel| holds_any(rescan.relative, files))
}

/// Those of `running` whose folder holds none of `files`.
pub open spec fn clear_of(
    running: Seq<RescanModel>,
    files: Seq<Seq<Seq<u8>>>,
) -> Seq<RescanModel> {
    running.filter(|rescan: RescanModel| !holds_any(rescan.relative, files))
}

impl RescansModel {
    /// No folder under way is another or under it, and the numbers are those given out.
    pub open spec fn wf(self) -> bool {
        &&& forall|i: int, j: int|
            0 <= i < self.running.len() && 0 <= j < self.running.len() && i != j
                ==> !(#[trigger] self.running[i]).relative.is_prefix_of(
                (#[trigger] self.running[j]).relative,
            )
        &&& forall|i: int, j: int|
            0 <= i < j < self.running.len() ==> (#[trigger] self.running[i]).id
                < (#[trigger] self.running[j]).id
        &&& forall|i: int|
            0 <= i < self.running.len() ==> 0 < (#[trigger] self.running[i]).id <= self.last_id
    }

    /// Whether a rescan under way brings back the folder at `relative`.
    pub open spec fn covers(self, relative: Seq<Seq<u8>>) -> bool {
        exists|i: int|
            0 <= i < self.running.len() && (#[trigger] self.running[i]).relative.is_prefix_of(
                relative,
            )
    }

    /// With a rescan of the folder at `relative` under way.
    pub open spec fn started(self, relative: Seq<Seq<u8>>) -> Self {
        if self.covers(relative) {
            self
        } else {
            RescansModel {
                running: without(self.running, relative).push(
                    RescanModel { id: self.last_id + 1, relative },
                ),
                last_id: self.last_id + 1,
            }
        }
    }

    /// With a rescan of each of these folders under way.
    pub open spec fn all_started(self, relatives: Seq<Seq<Seq<u8>>>) -> Self
        decreases relatives.len(),
    {
        if relatives.len() == 0 {
            self
        } else {
            self.all_started(relatives.drop_last()).started(relatives.last())
        }
    }

    /// With every rescan whose folder holds one of `files` started again.
    pub open spec fn restarted_under(self, files: Seq<Seq<Seq<u8>>>) -> Self {
        (RescansModel { running: clear_of(self.running, files), ..self }).all_started(
            folders(over(self.running, files)),
        )
    }

    /// The place of the rescan of this number.
    pub open spec fn place_of(self, id: int) -> Option<int> {
        ids(self.running).index_of_first(id)
    }
}

/// What a filter keeps is in order and all that is to be kept.
proof fn filtered<A>(items: Seq<A>, keep: spec_fn(A) -> bool)
    ensures
        forall|i: int| 0 <= i < items.filter(keep).len() ==> keep(#[trigger] items.filter(keep)[i]),
        forall|i: int|
            0 <= i < items.filter(keep).len() ==> items.contains(#[trigger] items.filter(keep)[i]),
        forall|item: A|
            items.contains(item) && keep(item) ==> #[trigger] items.filter(keep).contains(item),
        exists|at: Seq<int>| is_selection(items, items.filter(keep), at),
    decreases items.len(),
{
    reveal(Seq::filter);
    let kept = items.filter(keep);
    if items.len() == 0 {
        assert(is_selection(items, kept, Seq::empty()));
    } else {
        let front = items.drop_last();
        filtered(front, keep);
        let kept_front = front.filter(keep);
        let at = choose|at: Seq<int>| is_selection(front, kept_front, at);
        assert forall|i: int| 0 <= i < front.len() implies items[i] == front[i] by {}
        if keep(items.last()) {
            assert(kept == kept_front.push(items.last()));
            assert(is_selection(items, kept, at.push(items.len() - 1)));
        } else {
            assert(kept == kept_front);
            assert(is_selection(items, kept, at));
        }
        assert forall|i: int| 0 <= i < kept.len() implies items.contains(
            #[trigger] kept[i],
        ) && keep(kept[i]) by {
            if i < kept_front.len() {
                assert(kept[i] == kept_front[i]);
                assert(front.contains(kept_front[i]));
                let j = choose|j: int| 0 <= j < front.len() && front[j] == kept_front[i];
                assert(items[j] == kept[i]);
            } else {
                assert(items[items.len() - 1] == kept[i]);
            }
        }
        assert forall|item: A| items.contains(item) && keep(item) implies #[trigger] kept.contains(
            item,
        ) by {
            let j = choose|j: int| 0 <= j < items.len() && items[j] == item;
            if j < front.len() {
                assert(front[j] == item);
                assert(kept_front.contains(item));
                let k = choose|k: int| 0 <= k < kept_front.len() && kept_front[k] == item;
                assert(kept[k] == item);
            } else {
                assert(kept[kept.len() - 1] == item);
            }
        }
    }
}

/// Whether `kept` are the items at the places `at`, which rise.
spec fn is_selection<A>(items: Seq<A>, kept: Seq<A>, at: Seq<int>) -> bool {
    &&& at.len() == kept.len()
    &&& forall|i: int|
        0 <= i < at.len() ==> 0 <= #[trigger] at[i] < items.len() && items[at[i]] == kept[i]
    &&& forall|i: int, j: int| 0 <= i < j < at.len() ==> #[trigger] at[i] < #[trigger] at[j]
}

/// Leaving out some of the rescans under way leaves the rest in order.
proof fn keeping_some_is_whole(m: RescansModel, keep: spec_fn(RescanModel) -> bool)
    requires
        m.wf(),
    ensures
        (RescansModel { running: m.running.filter(keep), ..m }).wf(),
{
    filtered(m.running, keep);
    let kept = m.running.filter(keep);
    let at = choose|at: Seq<int>| is_selection(m.running, kept, at);
    assert forall|i: int, j: int|
        0 <= i < kept.len() && 0 <= j < kept.len() && i != j implies !(
    #[trigger] kept[i]).relative.is_prefix_of((#[trigger] kept[j]).relative) by {
        if i < j {
            assert(at[i] < at[j]);
        } else {
            assert(at[j] < at[i]);
        }
        assert(m.running[at[i]] == kept[i]);
        assert(m.running[at[j]] == kept[j]);
    }
    assert forall|i: int, j: int| 0 <= i < j < kept.len() implies (#[trigger] kept[i]).id < (
    #[trigger] kept[j]).id by {
        assert(at[i] < at[j]);
        assert(m.running[at[i]] == kept[i]);
        assert(m.running[at[j]] == kept[j]);
    }
    assert forall|i: int| 0 <= i < kept.len() implies 0 < (#[trigger] kept[i]).id
        <= m.last_id by {
        assert(m.running[at[i]] == kept[i]);
    }
}

/// Starting a rescan leaves no folder under way that another covers.
pub proof fn rescans_never_cover_one_another(m: RescansModel, relative: Seq<Seq<u8>>)
    requires
        m.wf(),
        m.last_id >= 0,
    ensures
        m.started(relative).wf(),
        m.started(relative).covers(relative),
{
    if !m.covers(relative) {
        let keep = |rescan: RescanModel| !relative.is_prefix_of(rescan.relative);
        let kept = m.running.filter(keep);
        keeping_some_is_whole(m, keep);
        filtered(m.running, keep);
        let rest = RescansModel { running: kept, ..m };
        let after = m.started(relative);
        assert(after.running == kept.push(RescanModel { id: m.last_id + 1, relative }));
        assert forall|i: int, j: int|
            0 <= i < after.running.len() && 0 <= j < after.running.len() && i != j implies !(
        #[trigger] after.running[i]).relative.is_prefix_of(
            (#[trigger] after.running[j]).relative,
        ) by {
            if i < kept.len() && j < kept.len() {
                assert(after.running[i] == rest.running[i]);
                assert(after.running[j] == rest.running[j]);
            } else if i < kept.len() {
                assert(after.running[i] == kept[i]);
                assert(m.running.contains(kept[i]));
                let k = choose|k: int| 0 <= k < m.running.len() && m.running[k] == kept[i];
                assert(!m.running[k].relative.is_prefix_of(relative));
            } else {
                assert(after.running[j] == kept[j]);
                assert(keep(kept[j]));
            }
        }
        assert forall|i: int, j: int| 0 <= i < j < after.running.len() implies (
        #[trigger] after.running[i]).id < (#[trigger] after.running[j]).id by {
            assert(after.running[i] == rest.running[i]);
            if j < kept.len() {
                assert(after.running[j] == rest.running[j]);
            }
        }
        assert forall|i: int| 0 <= i < after.running.len() implies 0 < (
        #[trigger] after.running[i]).id <= after.last_id by {
            if i < kept.len() {
                assert(after.running[i] == rest.running[i]);
            }
        }
        assert(after.running[after.running.len() - 1].relative.is_prefix_of(relative)) by {
            assert(relative =~= relative.subrange(0, relative.len() as int));
        }
    }
}

/// A folder that neither covers nor is covered by any under way is put behind them.
proof fn starting_apart_appends(m: RescansModel, relative: Seq<Seq<u8>>)
    requires
        m.wf(),
        forall|i: int|
            0 <= i < m.running.len() ==> {
                &&& !(#[trigger] m.running[i]).relative.is_prefix_of(relative)
                &&& !relative.is_prefix_of(m.running[i].relative)
            },
    ensures
        m.started(relative) == (RescansModel {
            running: m.running.push(RescanModel { id: m.last_id + 1, relative }),
            last_id: m.last_id + 1,
        }),
{
    let keep = |rescan: RescanModel| !relative.is_prefix_of(rescan.relative);
    all_kept(m.running, keep);
}

proof fn all_kept<A>(items: Seq<A>, keep: spec_fn(A) -> bool)
    requires
        forall|i: int| 0 <= i < items.len() ==> keep(#[trigger] items[i]),
    ensures
        items.filter(keep) == items,
    decreases items.len(),
{
    reveal(Seq::filter);
    if items.len() > 0 {
        let front = items.drop_last();
        assert forall|i: int| 0 <= i < front.len() implies keep(#[trigger] front[i]) by {
            assert(front[i] == items[i]);
        }
        all_kept(front, keep);
        assert(keep(items[items.len() - 1]));
        assert(front.push(items.last()) =~= items);
    } else {
        assert(items.filter(keep) =~= items);
    }
}

/// The rescans that start again, from the number after `last`.
pub open spec fn renumbered(relatives: Seq<Seq<Seq<u8>>>, last: int) -> Seq<RescanModel> {
    Seq::new(
        relatives.len(),
        |i: int| RescanModel { id: last + 1 + i, relative: relatives[i] },
    )
}

proof fn starting_all_apart_appends(m: RescansModel, relatives: Seq<Seq<Seq<u8>>>)
    requires
        m.wf(),
        m.last_id >= 0,
        forall|i: int, j: int|
            0 <= i < m.running.len() && 0 <= j < relatives.len() ==> {
                &&& !(#[trigger] m.running[i]).relative.is_prefix_of(#[trigger] relatives[j])
                &&& !relatives[j].is_prefix_of(m.running[i].relative)
            },
        forall|i: int, j: int|
            0 <= i < relatives.len() && 0 <= j < relatives.len() && i != j ==> !(
            #[trigger] relatives[i]).is_prefix_of(#[trigger] relatives[j]),
    ensures
        m.all_started(relatives) == (RescansModel {
            running: m.running + renumbered(relatives, m.last_id),
            last_id: m.last_id + relatives.len(),
        }),
        m.all_started(relatives).wf(),
    decreases relatives.len(),
{
    if relatives.len() == 0 {
        assert(m.running + renumbered(relatives, m.last_id) =~= m.running);
    } else {
        let front = relatives.drop_last();
        let last = relatives.last();
        assert forall|i: int| 0 <= i < front.len() implies front[i] == relatives[i] by {}
        starting_all_apart_appends(m, front);
        let before = m.all_started(front);
        assert forall|i: int| 0 <= i < before.running.len() implies {
            &&& !(#[trigger] before.running[i]).relative.is_prefix_of(last)
            &&& !last.is_prefix_of(before.running[i].relative)
        } by {
            if i < m.running.len() {
                assert(before.running[i] == m.running[i]);
                assert(relatives[relatives.len() - 1] == last);
            } else {
                let j = i - m.running.len();
                assert(before.running[i].relative == front[j]);
                assert(relatives[j] == front[j]);
                assert(relatives[relatives.len() - 1] == last);
            }
        }
        starting_apart_appends(before, last);
        rescans_never_cover_one_another(before, last);
        assert(m.all_started(relatives).running =~= m.running + renumbered(
            relatives,
            m.last_id,
        ));
    }
}

/// Starting again what holds a deleted entry leaves the same folders under way: those clear of
/// it as they were, and the others with fresh numbers.
pub proof fn restarting_keeps_the_folders(m: RescansModel, files: Seq<Seq<Seq<u8>>>)
    requires
        m.wf(),
        m.last_id >= 0,
    ensures
        m.restarted_under(files) == (RescansModel {
            running: clear_of(m.running, files) + renumbered(
                folders(over(m.running, files)),
                m.last_id,
            ),
            last_id: m.last_id + over(m.running, files).len(),
        }),
        m.restarted_under(files).wf(),
{
    let holds = |rescan: RescanModel| holds_any(rescan.relative, files);
    let clear = |rescan: RescanModel| !holds_any(rescan.relative, files);
    let kept = RescansModel { running: clear_of(m.running, files), ..m };
    let again = over(m.running, files);
    keeping_some_is_whole(m, clear);
    keeping_some_is_whole(m, holds);
    filtered(m.running, clear);
    filtered(m.running, holds);
    let relatives = folders(again);
    let repeated = RescansModel { running: again, ..m };
    assert forall|i: int, j: int|
        0 <= i < kept.running.len() && 0 <= j < relatives.len() implies {
        &&& !(#[trigger] kept.running[i]).relative.is_prefix_of(#[trigger] relatives[j])
        &&& !relatives[j].is_prefix_of(kept.running[i].relative)
    } by {
        assert(clear(kept.running[i]));
        assert(holds(again[j]));
        assert(m.running.contains(kept.running[i]));
        assert(m.running.contains(again[j]));
        let a = choose|a: int| 0 <= a < m.running.len() && m.running[a] == kept.running[i];
        let b = choose|b: int| 0 <= b < m.running.len() && m.running[b] == again[j];
        assert(a != b);
    }
    assert forall|i: int, j: int|
        0 <= i < relatives.len() && 0 <= j < relatives.len() && i != j implies !(
    #[trigger] relatives[i]).is_prefix_of(#[trigger] relatives[j]) by {
        assert(relatives[i] == repeated.running[i].relative);
        assert(relatives[j] == repeated.running[j].relative);
    }
    starting_all_apart_appends(kept, relatives);
}

impl Rescan {
    /// Whether this rescan's folder is `relative` or holds it, so it will bring back
    /// `relative`.
    pub fn covers(&self, relative: &Vec<Name>) -> (covers: bool)
        ensures
            covers == self@.relative.is_prefix_of(spelled(relative@)),
    {
        starts_with(relative, &self.relative)
    }
}

impl Default for Rescans {
    fn default() -> (rescans: Self)
        ensures
            rescans@.running.len() == 0,
            rescans@.last_id == 0,
            rescans@.wf(),
    {
        Rescans { running: Vec::new(), last_id: 0 }
    }
}

impl Rescans {
    /// How many rescans are under way.
    pub fn len(&self) -> (len: usize)
        ensures
            len == self@.running.len(),
    {
        self.running.len()
    }

    fn any_covers(&self, relative: &Vec<Name>) -> (covers: bool)
        ensures
            covers == self@.covers(spelled(relative@)),
    {
        let mut i: usize = 0;
        while i < self.running.len()
            invariant
                i <= self.running.len(),
                forall|j: int|
                    0 <= j < i ==> !(#[trigger] self@.running[j]).relative.is_prefix_of(
                        spelled(relative@),
                    ),
            decreases self.running.len() - i,
        {
            assert(self@.running[i as int] == self.running@[i as int]@);
            if self.running[i].covers(relative) {
                return true;
            }
            i += 1;
        }
        false
    }

    /// Rescan the folder at `relative`, unless a rescan under way covers it. One that this
    /// covers is stopped, as this brings its folder back too.
    pub fn start(&mut self, relative: Vec<Name>) -> (start: Start)
        requires
            old(self)@.wf(),
            old(self).last_id < u64::MAX,
        ensures
            final(self)@ == old(self)@.started(spelled(relative@)),
            final(self)@.wf(),
            start.id is Some == !old(self)@.covers(spelled(relative@)),
            start.id is Some ==> start.id->0 == old(self)@.last_id + 1,
            numbers(start.stopped@) == if start.id is Some {
                ids(within(old(self)@.running, spelled(relative@)))
            } else {
                Seq::empty()
            },
    {
        let ghost before = self@;
        let ghost wanted = spelled(relative@);
        proof {
            rescans_never_cover_one_another(before, wanted);
        }
        let mut stopped: Vec<u64> = Vec::new();
        if self.any_covers(&relative) {
            assert(numbers(stopped@) =~= Seq::empty());
            return Start { id: None, stopped };
        }
        let mut kept: Vec<Rescan> = Vec::new();
        let mut i: usize = 0;
        assert(within(before.running.take(0), wanted) =~= Seq::empty()) by {
            reveal(Seq::filter);
        }
        assert(without(before.running.take(0), wanted) =~= Seq::empty()) by {
            reveal(Seq::filter);
        }
        while i < self.running.len()
            invariant
                i <= self.running.len(),
                self@ == before,
                wanted == spelled(relative@),
                running_model(kept@) == without(before.running.take(i as int), wanted),
                numbers(stopped@) == ids(within(before.running.take(i as int), wanted)),
            decreases self.running.len() - i,
        {
            let ghost kept_before = running_model(kept@);
            let ghost in_before = within(before.running.take(i as int), wanted);
            proof {
                reveal(Seq::filter);
                assert(before.running.take(i + 1).drop_last() =~= before.running.take(
                    i as int,
                ));
                assert(before.running.take(i + 1).last() == before.running[i as int]);
                assert(before.running[i as int] == self.running@[i as int]@);
            }
            let rescan = &self.running[i];
            if starts_with(&rescan.relative, &relative) {
                let ghost so_far = numbers(stopped@);
                stopped.push(rescan.id);
                assert(numbers(stopped@) =~= so_far.push(rescan@.id));
                assert(ids(in_before.push(rescan@)) =~= ids(in_before).push(rescan@.id));
            } else {
                let copy = Rescan { id: rescan.id, relative: copy_path(&rescan.relative) };
                assert(copy@ == rescan@);
                kept.push(copy);
                assert(running_model(kept@) =~= kept_before.push(rescan@));
            }
            i += 1;
        }
        assert(before.running.take(before.running.len() as int) =~= before.running);
        let ghost left = running_model(kept@);
        let id: u64 = self.last_id + 1;
        let rescan = Rescan { id, relative };
        let ghost model = rescan@;
        kept.push(rescan);
        assert(running_model(kept@) =~= left.push(model));
        self.running = kept;
        self.last_id = id;
        assert(self@ =~= before.started(wanted));
        Start { id: Some(id), stopped }
    }

    /// Start again every rescan whose folder holds one of `files`: one that listed a file
    /// before it was deleted would otherwise put it back. Hands back the numbers of those to
    /// stop, and the rescans to run in their place.
    pub fn restart_under(&mut self, files: &Vec<Vec<Name>>) -> (restart: (Vec<u64>, Vec<Run>))
        requires
            old(self)@.wf(),
            old(self).last_id + old(self).running.len() <= u64::MAX,
        ensures
            final(self)@ == old(self)@.restarted_under(paths_model(files@)),
            final(self)@.wf(),
            numbers(restart.0@) == ids(over(old(self)@.running, paths_model(files@))),
            runs_model(restart.1@) == renumbered(
                folders(over(old(self)@.running, paths_model(files@))),
                old(self)@.last_id,
            ),
    {
        let ghost before = self@;
        let ghost paths = paths_model(files@);
        proof {
            restarting_keeps_the_folders(before, paths);
            over_is_no_more(before.running, paths);
        }
        let mut stopped: Vec<u64> = Vec::new();
        let mut runs: Vec<Run> = Vec::new();
        let mut kept: Vec<Rescan> = Vec::new();
        let mut i: usize = 0;
        assert(over(before.running.take(0), paths) =~= Seq::empty()) by {
            reveal(Seq::filter);
        }
        assert(clear_of(before.running.take(0), paths) =~= Seq::empty()) by {
            reveal(Seq::filter);
        }
        let mut id: u64 = self.last_id;
        while i < self.running.len()
            invariant
                i <= self.running.len(),
                self@ == before,
                paths == paths_model(files@),
                self.last_id + self.running.len() <= u64::MAX,
                runs.len() <= i,
                id == self.last_id + runs.len(),
                running_model(kept@) == clear_of(before.running.take(i as int), paths),
                numbers(stopped@) == ids(over(before.running.take(i as int), paths)),
                runs_model(runs@) == renumbered(
                    folders(over(before.running.take(i as int), paths)),
                    before.last_id,
                ),
            decreases self.running.len() - i,
        {
            let ghost kept_before = running_model(kept@);
            let ghost over_before = over(before.running.take(i as int), paths);
            proof {
                reveal(Seq::filter);
                assert(before.running.take(i + 1).drop_last() =~= before.running.take(
                    i as int,
                ));
                assert(before.running.take(i + 1).last() == before.running[i as int]);
                assert(before.running[i as int] == self.running@[i as int]@);
                assert(runs_model(runs@).len() == over_before.len());
            }
            let rescan = &self.running[i];
            if holds_one(&rescan.relative, files) {
                let ghost so_far = numbers(stopped@);
                let ghost runs_before = runs_model(runs@);
                stopped.push(rescan.id);
                assert(numbers(stopped@) =~= so_far.push(rescan@.id));
                assert(ids(over_before.push(rescan@)) =~= ids(over_before).push(rescan@.id));
                id = id + 1;
                let run = Run { id, relative: copy_path(&rescan.relative) };
                let ghost model = run@;
                runs.push(run);
                assert(runs_model(runs@) =~= runs_before.push(model));
                assert(renumbered(folders(over_before.push(rescan@)), before.last_id)
                    =~= runs_before.push(model));
            } else {
                let copy = Rescan { id: rescan.id, relative: copy_path(&rescan.relative) };
                assert(copy@ == rescan@);
                kept.push(copy);
                assert(running_model(kept@) =~= kept_before.push(rescan@));
            }
            i += 1;
        }
        assert(before.running.take(before.running.len() as int) =~= before.running);
        let ghost left = running_model(kept@);
        let mut k: usize = 0;
        assert(left + runs_model(runs@).take(0) =~= left);
        while k < runs.len()
            invariant
                k <= runs.len(),
                running_model(kept@) == left + runs_model(runs@).take(k as int),
            decreases runs.len() - k,
        {
            let ghost so_far = running_model(kept@);
            let rescan = Rescan { id: runs[k].id, relative: copy_path(&runs[k].relative) };
            let ghost model = rescan@;
            assert(model == runs_model(runs@)[k as int]);
            kept.push(rescan);
            assert(running_model(kept@) =~= so_far.push(model));
            k += 1;
            assert(running_model(kept@) =~= left + runs_model(runs@).take(k as int));
        }
        assert(runs_model(runs@).take(runs.len() as int) =~= runs_model(runs@));
        self.running = kept;
        self.last_id = id;
        assert(self@ =~= before.restarted_under(paths));
        (stopped, runs)
    }

    /// Stop every rescan, as the window moves on to another folder.
    pub fn cancel_all(&mut self) -> (stopped: Vec<u64>)
        ensures
            final(self)@ == (RescansModel { running: Seq::empty(), ..old(self)@ }),
            numbers(stopped@) == ids(old(self)@.running),
    {
        let ghost before = self@;
        let mut stopped: Vec<u64> = Vec::new();
        let mut i: usize = 0;
        while i < self.running.len()
            invariant
                i <= self.running.len(),
                self@ == before,
                numbers(stopped@) == ids(before.running).take(i as int),
            decreases self.running.len() - i,
        {
            let ghost so_far = numbers(stopped@);
            stopped.push(self.running[i].id);
            assert(numbers(stopped@) =~= so_far.push(before.running[i as int].id));
            i += 1;
            assert(numbers(stopped@) =~= ids(before.running).take(i as int));
        }
        assert(numbers(stopped@) =~= ids(before.running));
        self.running = Vec::new();
        assert(self@ =~= (RescansModel { running: Seq::empty(), ..before }));
        stopped
    }

    /// A rescan has finished: it is no longer under way. Hands back its folder; one stopped
    /// meanwhile is dropped.
    pub fn finish(&mut self, id: u64) -> (relative: Option<Vec<Name>>)
        requires
            old(self)@.wf(),
        ensures
            match old(self)@.place_of(id as int) {
                Some(at) => {
                    &&& relative is Some
                    &&& spelled(relative->0@) == old(self)@.running[at].relative
                    &&& final(self)@ == (RescansModel {
                        running: old(self)@.running.remove(at),
                        ..old(self)@
                    })
                },
                None => relative is None && final(self)@ == old(self)@,
            },
            final(self)@.wf(),
    {
        let ghost before = self@;
        let mut i: usize = 0;
        while i < self.running.len()
            invariant
                i <= self.running.len(),
                self@ == before,
                before == old(self)@,
                before.wf(),
                forall|j: int| 0 <= j < i ==> ids(before.running)[j] != id as int,
            decreases self.running.len() - i,
        {
            assert(before.running[i as int] == self.running@[i as int]@);
            if self.running[i].id == id {
                proof {
                    crate::names::first_at(ids(before.running), id as int, i as int);
                }
                let rescan = self.running.remove(i);
                assert(self@.running =~= before.running.remove(i as int));
                assert(self@ =~= (RescansModel {
                    running: before.running.remove(i as int),
                    ..before
                }));
                assert(spelled(rescan.relative@) == before.running[i as int].relative);
                return Some(rescan.relative);
            }
            i += 1;
        }
        proof {
            crate::names::first_nowhere(ids(before.running), id as int);
        }
        None
    }
}

/// Whether a folder is one of `files`, or holds one.
fn holds_one(relative: &Vec<Name>, files: &Vec<Vec<Name>>) -> (holds: bool)
    ensures
        holds == holds_any(spelled(relative@), paths_model(files@)),
{
    let ghost paths = paths_model(files@);
    let mut i: usize = 0;
    while i < files.len()
        invariant
            i <= files.len(),
            paths == paths_model(files@),
            forall|j: int| 0 <= j < i ==> !spelled(relative@).is_prefix_of(#[trigger] paths[j]),
        decreases files.len() - i,
    {
        assert(paths[i as int] == spelled(files@[i as int]@));
        if starts_with(&files[i], relative) {
            return true;
        }
        i += 1;
    }
    false
}

proof fn over_is_no_more(running: Seq<RescanModel>, files: Seq<Seq<Seq<u8>>>)
    ensures
        over(running, files).len() <= running.len(),
    decreases running.len(),
{
    reveal(Seq::filter);
    if running.len() > 0 {
        over_is_no_more(running.drop_last(), files);
    }
}

/// A rescan of a folder takes the place of those of the folders below it, and leaves all others; of
/// a folder that one running covers none is started.
pub proof fn a_rescan_replaces_those_below_it(
    m: RescansModel,
    relative: Seq<Seq<u8>>,
    other: RescanModel,
)
    ensures
        (exists|i: int|
            0 <= i < m.running.len() && (#[trigger] m.running[i]).relative.is_prefix_of(relative))
            ==> m.started(relative) == m,
        !(exists|i: int|
            0 <= i < m.running.len() && (#[trigger] m.running[i]).relative.is_prefix_of(relative))
            ==> {
            &&& m.started(relative).running.contains(other) <==> (m.running.contains(other)
                && !relative.is_prefix_of(other.relative)) || other == (RescanModel {
                id: m.last_id + 1,
                relative,
            })
            &&& m.started(relative).last_id == m.last_id + 1
            &&& ids(within(m.running, relative)).len() == m.running.len() - (m.started(
                relative,
            ).running.len() - 1)
        },
{
    let keep = |rescan: RescanModel| !relative.is_prefix_of(rescan.relative);
    filtering_keeps_what_passes(m.running, keep, other);
    filters_share_all(m.running, |rescan: RescanModel| relative.is_prefix_of(rescan.relative), keep);
    if !m.covers(relative) {
        let new = RescanModel { id: m.last_id + 1, relative };
        let after = without(m.running, relative).push(new);
        assert(after[after.len() - 1] == new);
        if without(m.running, relative).contains(other) {
            let i = choose|i: int|
                0 <= i < without(m.running, relative).len() && without(m.running, relative)[i]
                    == other;
            assert(after[i] == other);
        }
        if after.contains(other) && other != new {
            let i = choose|i: int| 0 <= i < after.len() && after[i] == other;
            assert(without(m.running, relative)[i] == other);
        }
    }
}

proof fn filters_share_all(
    items: Seq<RescanModel>,
    keep: spec_fn(RescanModel) -> bool,
    drop: spec_fn(RescanModel) -> bool,
)
    requires
        forall|item: RescanModel| #[trigger] keep(item) == !drop(item),
    ensures
        items.filter(keep).len() + items.filter(drop).len() == items.len(),
    decreases items.len(),
{
    reveal(Seq::filter);
    if items.len() > 0 {
        filters_share_all(items.drop_last(), keep, drop);
        assert(keep(items.last()) == !drop(items.last()));
    }
}

proof fn filtering_keeps_what_passes(
    items: Seq<RescanModel>,
    keep: spec_fn(RescanModel) -> bool,
    item: RescanModel,
)
    ensures
        items.filter(keep).contains(item) <==> items.contains(item) && keep(item),
    decreases items.len(),
{
    reveal(Seq::filter);
    if items.len() > 0 {
        let front = items.drop_last();
        filtering_keeps_what_passes(front, keep, item);
        assert(items =~= front.push(items.last()));
        let kept = items.filter(keep);
        let before = front.filter(keep);
        if items.contains(item) {
            let i = choose|i: int| 0 <= i < items.len() && items[i] == item;
            if i < front.len() {
                assert(front[i] == item);
            }
        }
        if front.contains(item) {
            let i = choose|i: int| 0 <= i < front.len() && front[i] == item;
            assert(items[i] == item);
        }
        assert(items[items.len() - 1] == items.last());
        if keep(items.last()) {
            assert(kept == before.push(items.last()));
            assert(kept[before.len() as int] == items.last());
            if before.contains(item) {
                let i = choose|i: int| 0 <= i < before.len() && before[i] == item;
                assert(kept[i] == item);
            }
            if kept.contains(item) && item != items.last() {
                let i = choose|i: int| 0 <= i < kept.len() && kept[i] == item;
                assert(before[i] == item);
            }
        }
    }
}

/// A removal restarts the rescans of the folders that held what was removed, and leaves all others
/// as they are: each folder that was being scanned still is.
pub proof fn a_removal_restarts_what_held_it(
    m: RescansModel,
    files: Seq<Seq<Seq<u8>>>,
    other: RescanModel,
)
    requires
        m.wf(),
        m.last_id >= 0,
        m.running.contains(other),
    ensures
        ({
            let held = exists|i: int|
                0 <= i < files.len() && other.relative.is_prefix_of(#[trigger] files[i]);
            let after = m.restarted_under(files);
            &&& !held ==> after.running.contains(other)
            &&& held ==> !after.running.contains(other)
            &&& exists|i: int|
                0 <= i < after.running.len() && (#[trigger] after.running[i]).relative
                    == other.relative
            &&& after.running.len() == m.running.len()
        }),
{
    let holding = |rescan: RescanModel| holds_any(rescan.relative, files);
    let clear = |rescan: RescanModel| !holds_any(rescan.relative, files);
    restarting_keeps_the_folders(m, files);
    filtering_keeps_what_passes(m.running, holding, other);
    filtering_keeps_what_passes(m.running, clear, other);
    filters_share_all(m.running, holding, clear);
    let after = m.restarted_under(files);
    let kept = clear_of(m.running, files);
    let taken = over(m.running, files);
    let again = renumbered(folders(taken), m.last_id);
    assert(after.running == kept + again);
    let at = choose|i: int| 0 <= i < m.running.len() && m.running[i] == other;
    if holds_any(other.relative, files) {
        let i = choose|i: int| 0 <= i < taken.len() && taken[i] == other;
        assert(again[i].relative == other.relative);
        assert(after.running[kept.len() + i].relative == other.relative);
        if after.running.contains(other) {
            let j = choose|j: int| 0 <= j < after.running.len() && after.running[j] == other;
            if j < kept.len() {
                assert(kept[j] == other);
                assert(kept.contains(other));
            } else {
                assert(again[j - kept.len()].id == m.last_id + 1 + (j - kept.len()));
                assert(m.running[at].id <= m.last_id);
            }
        }
    } else {
        let i = choose|i: int| 0 <= i < kept.len() && kept[i] == other;
        assert(after.running[i] == other);
    }
}

} // verus!
