//! A palette fitted to a picture by median cut: the box of colours with the widest spread is
//! split at its median along that channel until there are enough boxes, and each box is
//! coloured by its average.

use vstd::prelude::*;

verus! {

/// A pixel's place among those given, and its colour.
pub type Spot = (usize, [u8; 3]);

/// The most colours a palette can hold.
pub const MOST: usize = 256;

/// The least value of a channel, and 255 where there is no colour.
pub open spec fn low(spots: Seq<Spot>, channel: int) -> int
    decreases spots.len(),
{
    if spots.len() == 0 {
        255
    } else {
        let rest = low(spots.drop_last(), channel);
        let value = spots.last().1@[channel] as int;
        if value < rest {
            value
        } else {
            rest
        }
    }
}

/// The greatest value of a channel, and 0 where there is no colour.
pub open spec fn high(spots: Seq<Spot>, channel: int) -> int
    decreases spots.len(),
{
    if spots.len() == 0 {
        0
    } else {
        let rest = high(spots.drop_last(), channel);
        let value = spots.last().1@[channel] as int;
        if value > rest {
            value
        } else {
            rest
        }
    }
}

/// How far a channel runs.
pub open spec fn range(spots: Seq<Spot>, channel: int) -> int {
    if high(spots, channel) > low(spots, channel) {
        high(spots, channel) - low(spots, channel)
    } else {
        0
    }
}

/// How far the channel that runs furthest does, and which it is: the last of those that run as
/// far.
pub open spec fn spread(spots: Seq<Spot>) -> (int, int) {
    let (r, g, b) = (range(spots, 0), range(spots, 1), range(spots, 2));
    if b >= r && b >= g {
        (b, 2)
    } else if g >= r {
        (g, 1)
    } else {
        (r, 0)
    }
}

/// Whether one spread is no wider than another: by how far, and then by channel.
pub open spec fn no_wider(a: (int, int), b: (int, int)) -> bool {
    a.0 < b.0 || (a.0 == b.0 && a.1 <= b.1)
}

/// The pixels in some order, and where each box of them starts and ends.
#[verifier::ext_equal]
pub struct Cut {
    pub order: Seq<Spot>,
    pub boxes: Seq<(int, int)>,
}

impl Cut {
    /// The pixels of a box.
    pub open spec fn spots(self, at: int) -> Seq<Spot> {
        self.order.subrange(self.boxes[at].0, self.boxes[at].1)
    }

    /// Whether a box has pixels to part.
    pub open spec fn can_part(self, at: int) -> bool {
        0 <= at < self.boxes.len() && self.boxes[at].1 - self.boxes[at].0 > 1
    }

    /// Whether a box is the widest of those with pixels to part, and the last such.
    pub open spec fn is_widest(self, at: int) -> bool {
        &&& self.can_part(at)
        &&& forall|other: int| #[trigger]
            self.can_part(other) ==> no_wider(spread(self.spots(other)), spread(self.spots(at)))
                && (spread(self.spots(other)) == spread(self.spots(at)) ==> other <= at)
    }

    /// Whether each box has pixels, and each pixel is in one box.
    pub open spec fn wf(self) -> bool {
        &&& forall|i: int|
            0 <= i < self.boxes.len() ==> 0 <= (#[trigger] self.boxes[i]).0 < self.boxes[i].1
                <= self.order.len()
        &&& forall|i: int, j: int|
            0 <= i < self.boxes.len() && 0 <= j < self.boxes.len() && i != j ==> (
            #[trigger] self.boxes[i]).1 <= (#[trigger] self.boxes[j]).0 || self.boxes[j].1
                <= self.boxes[i].0
        &&& forall|p: int| 0 <= p < self.order.len() ==> #[trigger] self.is_boxed(p)
    }

    /// Whether the pixel at `p` is in a box.
    pub open spec fn is_boxed(self, p: int) -> bool {
        exists|i: int|
            0 <= i < self.boxes.len() && (#[trigger] self.boxes[i]).0 <= p < self.boxes[i].1
    }

    /// Whether `next` comes of splitting the widest box in two at a place: where its channel's
    /// value changes, as near its median as that is.
    pub open spec fn splits_into(self, at: int, place: int, next: Cut) -> bool {
        let (start, end) = self.boxes[at];
        let channel = spread(self.spots(at)).1;
        &&& self.is_widest(at)
        &&& spread(self.spots(at)).0 > 0
        &&& next.boxes == self.boxes.update(at, (start, place)).push((place, end))
        &&& is_sorted_between(self.order, next.order, start, end, channel)
        &&& is_split_place(next.order, start, end, channel, place)
    }

    /// Whether `next` comes of one split.
    pub open spec fn steps_to(self, next: Cut) -> bool {
        exists|at: int, place: int| #[trigger] self.splits_into(at, place, next)
    }

    /// Whether each box holds all pixels of the colours in it.
    pub open spec fn keeps_colours(self) -> bool {
        forall|i: int, p: int, q: int|
            0 <= i < self.boxes.len() && (#[trigger] self.boxes[i]).0 <= p < self.boxes[i].1 && 0
                <= q < self.order.len() && (#[trigger] self.order[p]).1@ == (
            #[trigger] self.order[q]).1@ ==> self.boxes[i].0 <= q < self.boxes[i].1
    }

    /// Whether the pixels of a box are of one colour.
    pub open spec fn is_of_one_colour(self, at: int) -> bool {
        forall|p: int, q: int|
            self.boxes[at].0 <= p < self.boxes[at].1 && self.boxes[at].0 <= q < self.boxes[at].1
                ==> (#[trigger] self.order[p]).1@ == (#[trigger] self.order[q]).1@
    }

    /// Whether no box is left to split: each with several pixels is of one colour.
    pub open spec fn is_done(self) -> bool {
        forall|at: int| #[trigger] self.can_part(at) ==> spread(self.spots(at)).0 == 0
    }
}

/// Whether `after` is `before` with the pixels from `start` to `end` sorted by a channel.
pub open spec fn is_sorted_between(
    before: Seq<Spot>,
    after: Seq<Spot>,
    start: int,
    end: int,
    channel: int,
) -> bool {
    &&& after.len() == before.len()
    &&& forall|i: int| 0 <= i < start || end <= i < before.len() ==> after[i] == before[i]
    &&& after.subrange(start, end).to_multiset() == before.subrange(start, end).to_multiset()
    &&& forall|i: int, j: int|
        start <= i <= j < end ==> (#[trigger] after[i]).1@[channel] <= (
        #[trigger] after[j]).1@[channel]
}

/// Whether a channel's value changes at a place.
pub open spec fn changes(order: Seq<Spot>, channel: int, place: int) -> bool {
    order[place - 1].1@[channel] != order[place].1@[channel]
}

/// How far a place is from the median of the pixels from `start` to `end`.
pub open spec fn from_median(start: int, end: int, place: int) -> int {
    let median = start + (end - start) / 2;
    if place < median {
        median - place
    } else {
        place - median
    }
}

/// Whether a place is where to split: of those where the channel's value changes the nearest to
/// the median, and of two as near the first.
pub open spec fn is_split_place(
    order: Seq<Spot>,
    start: int,
    end: int,
    channel: int,
    place: int,
) -> bool {
    &&& start < place < end
    &&& changes(order, channel, place)
    &&& forall|other: int|
        start < other < end && #[trigger] changes(order, channel, other) ==> {
            ||| from_median(start, end, place) < from_median(start, end, other)
            ||| from_median(start, end, place) == from_median(start, end, other) && place <= other
        }
}

/// The colours of pixels.
pub open spec fn colours_of(pixels: Seq<(u32, [u8; 3])>) -> Set<Seq<u8>> {
    pixels.map_values(|pixel: (u32, [u8; 3])| pixel.1@).to_set()
}

/// The pixels before any cut: in their order, in one box if there are any.
pub open spec fn uncut(pixels: Seq<(u32, [u8; 3])>) -> Cut {
    Cut {
        order: Seq::new(pixels.len(), |i: int| (i as usize, pixels[i].1)),
        boxes: if pixels.len() == 0 {
            Seq::empty()
        } else {
            seq![(0, pixels.len() as int)]
        },
    }
}

/// Whether `cuts` are the cuts made, one after another, until there are `most` boxes or nothing
/// is left to split.
pub open spec fn is_run(pixels: Seq<(u32, [u8; 3])>, most: int, cuts: Seq<Cut>) -> bool {
    &&& cuts.len() > 0
    &&& cuts[0] == uncut(pixels)
    &&& forall|i: int|
        0 <= i < cuts.len() - 1 ==> (#[trigger] cuts[i]).steps_to(cuts[i + 1])
            && cuts[i].boxes.len() < most
    &&& cuts.last().boxes.len() >= most || cuts.last().is_done()
}

/// How many colours to fit when so many are asked for.
pub open spec fn most_of(colours: int) -> int {
    if colours < MOST {
        colours
    } else {
        MOST as int
    }
}

/// The sum of a channel.
pub open spec fn total(spots: Seq<Spot>, channel: int) -> int
    decreases spots.len(),
{
    if spots.len() == 0 {
        0
    } else {
        total(spots.drop_last(), channel) + spots.last().1@[channel]
    }
}

/// The average of a channel, to the nearest.
pub open spec fn average(spots: Seq<Spot>, channel: int) -> int {
    (total(spots, channel) + spots.len() as int / 2) / spots.len() as int
}

/// Whether each box is coloured by its average, and each pixel has its box's place.
pub open spec fn is_coloured(cut: Cut, palette: Seq<[u8; 3]>, indices: Seq<u8>) -> bool {
    &&& palette.len() == cut.boxes.len()
    &&& forall|at: int, channel: int|
        0 <= at < palette.len() && 0 <= channel < 3 ==> #[trigger] palette[at]@[channel]
            == average(cut.spots(at), channel)
    &&& forall|at: int, p: int|
        0 <= at < cut.boxes.len() && (#[trigger] cut.boxes[at]).0 <= p < cut.boxes[at].1
            ==> indices[(#[trigger] cut.order[p]).0 as int] == at
}

/// Whether each pixel is in the order once, with its colour.
pub open spec fn is_order_of(pixels: Seq<(u32, [u8; 3])>, order: Seq<Spot>) -> bool {
    &&& order.len() == pixels.len()
    &&& forall|p: int|
        0 <= p < order.len() ==> (#[trigger] order[p]).0 < pixels.len() && order[p].1
            == pixels[order[p].0 as int].1
    &&& forall|p: int, q: int|
        0 <= p < q < order.len() ==> (#[trigger] order[p]).0 != (#[trigger] order[q]).0
}

/// `sort_unstable_by_key` of the standard library's slices, on the pixels from `start` to `end`
/// and by a channel: they come out in rising order of it, each as often as before. The order of
/// those that are equal is left open.
#[verifier::external_body]
fn sort_by_channel(order: &mut Vec<Spot>, start: usize, end: usize, channel: usize)
    requires
        start <= end <= old(order).len(),
        channel < 3,
    ensures
        is_sorted_between(
            old(order)@,
            final(order)@,
            start as int,
            end as int,
            channel as int,
        ),
{
    order[start..end].sort_unstable_by_key(|spot| spot.1[channel]);
}

/// A box of pixels, with its spread: measured once, when the box is made.
struct Part {
    start: usize,
    end: usize,
    range: u8,
    channel: u8,
}

spec fn part_boxes(parts: Seq<Part>) -> Seq<(int, int)> {
    Seq::new(parts.len(), |i: int| (parts[i].start as int, parts[i].end as int))
}

/// Whether a channel's values lie between its least and greatest.
proof fn values_lie_between(spots: Seq<Spot>, channel: int, i: int)
    requires
        0 <= i < spots.len(),
        0 <= channel < 3,
    ensures
        low(spots, channel) <= spots[i].1@[channel] <= high(spots, channel),
        0 <= low(spots, channel) <= high(spots, channel) <= 255,
    decreases spots.len(),
{
    reveal_with_fuel(low, 2);
    reveal_with_fuel(high, 2);
    if i < spots.len() - 1 {
        values_lie_between(spots.drop_last(), channel, i);
        assert(spots.drop_last()[i] == spots[i]);
    } else if spots.len() > 1 {
        values_lie_between(spots.drop_last(), channel, 0);
    } else {
        assert(spots.drop_last().len() == 0);
    }
}

/// Pixels with no spread are of one colour.
proof fn no_spread_is_one_colour(spots: Seq<Spot>, i: int, j: int)
    requires
        spread(spots).0 == 0,
        0 <= i < spots.len(),
        0 <= j < spots.len(),
    ensures
        spots[i].1@ == spots[j].1@,
{
    assert forall|channel: int| 0 <= channel < 3 implies spots[i].1@[channel]
        == spots[j].1@[channel] by {
        values_lie_between(spots, channel, i);
        values_lie_between(spots, channel, j);
        if channel == 0 {
            assert(range(spots, 0) == 0);
        } else if channel == 1 {
            assert(range(spots, 1) == 0);
        } else {
            assert(range(spots, 2) == 0);
        }
    }
    assert(spots[i].1@ =~= spots[j].1@);
}

fn channel_range(order: &Vec<Spot>, start: usize, end: usize, channel: usize) -> (width: u8)
    requires
        start <= end <= order.len(),
        channel < 3,
    ensures
        width == range(order@.subrange(start as int, end as int), channel as int),
{
    let mut least: u8 = 255;
    let mut greatest: u8 = 0;
    let mut i: usize = start;
    assert(order@.subrange(start as int, start as int).len() == 0);
    while i < end
        invariant
            start <= i <= end <= order.len(),
            channel < 3,
            least == low(order@.subrange(start as int, i as int), channel as int),
            greatest == high(order@.subrange(start as int, i as int), channel as int),
        decreases end - i,
    {
        let value: u8 = order[i].1[channel];
        assert(order@.subrange(start as int, i + 1).drop_last() =~= order@.subrange(
            start as int,
            i as int,
        ));
        if value < least {
            least = value;
        }
        if value > greatest {
            greatest = value;
        }
        i += 1;
    }
    if greatest > least {
        greatest - least
    } else {
        0
    }
}

fn measure(order: &Vec<Spot>, start: usize, end: usize) -> (part: Part)
    requires
        start <= end <= order.len(),
    ensures
        part.start == start,
        part.end == end,
        (part.range as int, part.channel as int) == spread(
            order@.subrange(start as int, end as int),
        ),
        part.channel < 3,
{
    let r: u8 = channel_range(order, start, end, 0);
    let g: u8 = channel_range(order, start, end, 1);
    let b: u8 = channel_range(order, start, end, 2);
    if b >= r && b >= g {
        Part { start, end, range: b, channel: 2 }
    } else if g >= r {
        Part { start, end, range: g, channel: 1 }
    } else {
        Part { start, end, range: r, channel: 0 }
    }
}

/// The widest box with pixels to part, and the last of those as wide.
fn find_widest(parts: &Vec<Part>, Ghost(cut): Ghost<Cut>) -> (found: Option<usize>)
    requires
        cut.boxes == part_boxes(parts@),
        cut.wf(),
        forall|i: int|
            0 <= i < parts.len() ==> ((#[trigger] parts@[i]).range as int, parts@[i].channel as int)
                == spread(cut.spots(i)),
    ensures
        match found {
            Some(at) => cut.is_widest(at as int),
            None => forall|at: int| !#[trigger] cut.can_part(at),
        },
{
    let mut found: Option<usize> = None;
    let mut i: usize = 0;
    while i < parts.len()
        invariant
            i <= parts.len(),
            cut.boxes == part_boxes(parts@),
            cut.wf(),
            forall|j: int|
                0 <= j < parts.len() ==> (
                    (#[trigger] parts@[j]).range as int,
                    parts@[j].channel as int,
                ) == spread(cut.spots(j)),
            match found {
                Some(at) => {
                    &&& at < i
                    &&& cut.can_part(at as int)
                    &&& forall|other: int| #[trigger]
                        cut.can_part(other) && other < i ==> no_wider(
                            spread(cut.spots(other)),
                            spread(cut.spots(at as int)),
                        ) && (spread(cut.spots(other)) == spread(cut.spots(at as int)) ==> other
                            <= at)
                },
                None => forall|other: int| #[trigger] cut.can_part(other) ==> other >= i,
            },
        decreases parts.len() - i,
    {
        let part = &parts[i];
        assert(cut.boxes[i as int] == (part.start as int, part.end as int));
        if part.end - part.start > 1 {
            assert(cut.can_part(i as int));
            let wider = match found {
                Some(at) => parts[at].range < part.range || (parts[at].range == part.range
                    && parts[at].channel <= part.channel),
                None => true,
            };
            if wider {
                found = Some(i);
            }
        }
        i += 1;
    }
    found
}

/// Sorting some of the pixels leaves each in the order once.
proof fn sorting_keeps_the_pixels(
    pixels: Seq<(u32, [u8; 3])>,
    before: Seq<Spot>,
    after: Seq<Spot>,
    start: int,
    end: int,
    channel: int,
)
    requires
        is_order_of(pixels, before),
        0 <= start <= end <= before.len(),
        is_sorted_between(before, after, start, end, channel),
    ensures
        is_order_of(pixels, after),
{
    broadcast use vstd::seq_lib::group_to_multiset_ensures;

    let old_part = before.subrange(start, end);
    let new_part = after.subrange(start, end);
    assert(old_part.no_duplicates()) by {
        assert forall|i: int, j: int|
            0 <= i < old_part.len() && 0 <= j < old_part.len() && i != j implies old_part[i]
            != old_part[j] by {
            assert(old_part[i] == before[start + i]);
            assert(old_part[j] == before[start + j]);
            if i < j {
                assert(before[start + i].0 != before[start + j].0);
            } else {
                assert(before[start + j].0 != before[start + i].0);
            }
        }
    }
    old_part.lemma_multiset_has_no_duplicates();
    assert(new_part.no_duplicates()) by {
        new_part.lemma_multiset_has_no_duplicates_conv();
    }
    assert forall|p: int| start <= p < end implies exists|q: int|
        start <= q < end && #[trigger] before[q] == #[trigger] after[p] by {
        assert(new_part[p - start] == after[p]);
        assert(new_part.contains(new_part[p - start]));
        assert(new_part.to_multiset().count(after[p]) > 0);
        assert(old_part.contains(after[p]));
        let k = choose|k: int| 0 <= k < old_part.len() && old_part[k] == after[p];
        assert(before[start + k] == after[p]);
    }
    assert forall|p: int| 0 <= p < after.len() implies (#[trigger] after[p]).0 < pixels.len()
        && after[p].1 == pixels[after[p].0 as int].1 by {
        if start <= p < end {
            let q = choose|q: int|
                start <= q < end && #[trigger] before[q] == after[p];
        } else {
            assert(after[p] == before[p]);
        }
    }
    assert forall|p: int, q: int| 0 <= p < q < after.len() implies (#[trigger] after[p]).0 != (
    #[trigger] after[q]).0 by {
        let a = if start <= p < end {
            choose|a: int| start <= a < end && #[trigger] before[a] == after[p]
        } else {
            p
        };
        let b = if start <= q < end {
            choose|b: int| start <= b < end && #[trigger] before[b] == after[q]
        } else {
            q
        };
        assert(before[a] == after[p]);
        assert(before[b] == after[q]);
        if a == b {
            assert(start <= p < end && start <= q < end);
            assert(new_part[p - start] == new_part[q - start]);
        } else if a < b {
            assert(before[a].0 != before[b].0);
        } else {
            assert(before[b].0 != before[a].0);
        }
    }
}

/// Splitting a box leaves each pixel in one box.
proof fn splitting_keeps_the_boxes(cut: Cut, at: int, place: int, next: Cut)
    requires
        cut.wf(),
        cut.splits_into(at, place, next),
    ensures
        next.wf(),
        next.order.len() == cut.order.len(),
{
    let (start, end) = cut.boxes[at];
    let n = cut.boxes.len();
    assert(next.boxes.len() == n + 1);
    assert forall|i: int| 0 <= i < next.boxes.len() implies 0 <= (#[trigger] next.boxes[i]).0
        < next.boxes[i].1 <= next.order.len() by {
        if i < n && i != at {
            assert(next.boxes[i] == cut.boxes[i]);
        }
    }
    assert forall|i: int, j: int|
        0 <= i < next.boxes.len() && 0 <= j < next.boxes.len() && i != j implies (
    #[trigger] next.boxes[i]).1 <= (#[trigger] next.boxes[j]).0 || next.boxes[j].1
        <= next.boxes[i].0 by {
        let i0 = if i == n {
            at
        } else {
            i
        };
        let j0 = if j == n {
            at
        } else {
            j
        };
        assert(cut.boxes[i0].0 <= next.boxes[i].0 && next.boxes[i].1 <= cut.boxes[i0].1);
        assert(cut.boxes[j0].0 <= next.boxes[j].0 && next.boxes[j].1 <= cut.boxes[j0].1);
    }
    assert forall|p: int| 0 <= p < next.order.len() implies #[trigger] next.is_boxed(p) by {
        assert(cut.is_boxed(p));
        let i = choose|i: int|
            0 <= i < cut.boxes.len() && (#[trigger] cut.boxes[i]).0 <= p < cut.boxes[i].1;
        if i != at {
            assert(next.boxes[i] == cut.boxes[i]);
        } else if p < place {
            assert(next.boxes[at] == (start, place));
        } else {
            assert(next.boxes[n as int] == (place, end));
        }
    }
}

/// What is there after sorting was there before, and the other way round.
proof fn sorting_moves_pixels(
    before: Seq<Spot>,
    after: Seq<Spot>,
    start: int,
    end: int,
    channel: int,
    p: int,
)
    requires
        0 <= start <= p < end <= before.len(),
        is_sorted_between(before, after, start, end, channel),
    ensures
        exists|q: int| start <= q < end && #[trigger] before[q] == after[p],
        exists|q: int| start <= q < end && #[trigger] after[q] == before[p],
{
    broadcast use vstd::seq_lib::group_to_multiset_ensures;

    let old_part = before.subrange(start, end);
    let new_part = after.subrange(start, end);
    assert(new_part[p - start] == after[p] && old_part[p - start] == before[p]);
    assert(new_part.contains(after[p]) && old_part.contains(before[p]));
    assert(new_part.to_multiset().count(after[p]) > 0);
    assert(old_part.to_multiset().count(before[p]) > 0);
    assert(old_part.contains(after[p]) && new_part.contains(before[p]));
    let k = choose|k: int| 0 <= k < old_part.len() && old_part[k] == after[p];
    assert(before[start + k] == after[p]);
    let j = choose|j: int| 0 <= j < new_part.len() && new_part[j] == before[p];
    assert(after[start + j] == before[p]);
}

/// Splitting a box leaves all pixels of a colour in one box.
proof fn splitting_keeps_the_colours(cut: Cut, at: int, place: int, next: Cut)
    requires
        cut.wf(),
        cut.keeps_colours(),
        cut.splits_into(at, place, next),
    ensures
        next.keeps_colours(),
{
    let (start, end) = cut.boxes[at];
    let channel = spread(cut.spots(at)).1;
    let n = cut.boxes.len() as int;
    assert forall|i: int, p: int, q: int|
        0 <= i < next.boxes.len() && (#[trigger] next.boxes[i]).0 <= p < next.boxes[i].1 && 0 <= q
            < next.order.len() && (#[trigger] next.order[p]).1@ == (
        #[trigger] next.order[q]).1@ implies next.boxes[i].0 <= q < next.boxes[i].1 by {
        let p0 = if start <= p < end {
            sorting_moves_pixels(cut.order, next.order, start, end, channel, p);
            choose|x: int| start <= x < end && #[trigger] cut.order[x] == next.order[p]
        } else {
            p
        };
        let q0 = if start <= q < end {
            sorting_moves_pixels(cut.order, next.order, start, end, channel, q);
            choose|x: int| start <= x < end && #[trigger] cut.order[x] == next.order[q]
        } else {
            q
        };
        assert(cut.order[p0].1@ == cut.order[q0].1@);
        if i == at || i == n {
            assert(cut.boxes[at].0 <= p0 < cut.boxes[at].1);
            assert(cut.boxes[at].0 <= q0 < cut.boxes[at].1);
            assert(start <= q < end);
            assert(next.order[place - 1].1@[channel] <= next.order[place].1@[channel]);
            if p < place && q >= place {
                assert(next.order[p].1@[channel] <= next.order[place - 1].1@[channel]);
                assert(next.order[place].1@[channel] <= next.order[q].1@[channel]);
            } else if q < place && p >= place {
                assert(next.order[q].1@[channel] <= next.order[place - 1].1@[channel]);
                assert(next.order[place].1@[channel] <= next.order[p].1@[channel]);
            }
        } else {
            assert(next.boxes[i] == cut.boxes[i]);
            assert(cut.boxes[i].1 <= cut.boxes[at].0 || cut.boxes[at].1 <= cut.boxes[i].0);
            assert(p0 == p);
            assert(cut.boxes[i].0 <= q0 < cut.boxes[i].1);
            assert(q0 == q);
        }
    }
}

/// The least and the greatest value of a channel are those of pixels.
proof fn extremes_are_there(spots: Seq<Spot>, channel: int)
    requires
        0 < spots.len(),
        0 <= channel < 3,
    ensures
        exists|i: int| 0 <= i < spots.len() && (#[trigger] spots[i]).1@[channel] == low(spots, channel),
        exists|i: int| 0 <= i < spots.len() && (#[trigger] spots[i]).1@[channel] == high(
            spots,
            channel,
        ),
    decreases spots.len(),
{
    reveal_with_fuel(low, 2);
    reveal_with_fuel(high, 2);
    let last = spots.len() - 1;
    let rest = spots.drop_last();
    assert(spots[last] == spots.last());
    if rest.len() > 0 {
        extremes_are_there(rest, channel);
        let i = choose|i: int|
            0 <= i < rest.len() && (#[trigger] rest[i]).1@[channel] == low(rest, channel);
        assert(spots[i] == rest[i]);
        let j = choose|j: int|
            0 <= j < rest.len() && (#[trigger] rest[j]).1@[channel] == high(rest, channel);
        assert(spots[j] == rest[j]);
    }
}

/// Pixels whose channel changes nowhere have one value of it.
proof fn no_change_is_one_value(order: Seq<Spot>, start: int, end: int, channel: int, p: int)
    requires
        0 <= start <= p < end <= order.len(),
        forall|place: int| start < place < end ==> !#[trigger] changes(order, channel, place),
    ensures
        order[p].1@[channel] == order[start].1@[channel],
    decreases p - start,
{
    if p > start {
        no_change_is_one_value(order, start, end, channel, p - 1);
        assert(!changes(order, channel, p));
    }
}

/// Once sorted, pixels whose channel runs some way change it somewhere.
proof fn a_range_changes(before: Seq<Spot>, after: Seq<Spot>, start: int, end: int, channel: int)
    requires
        0 <= start < end <= before.len(),
        0 <= channel < 3,
        range(before.subrange(start, end), channel) > 0,
        is_sorted_between(before, after, start, end, channel),
    ensures
        exists|place: int| start < place < end && #[trigger] changes(after, channel, place),
{
    if forall|place: int| start < place < end ==> !#[trigger] changes(after, channel, place) {
        let spots = before.subrange(start, end);
        extremes_are_there(spots, channel);
        let i = choose|i: int|
            0 <= i < spots.len() && (#[trigger] spots[i]).1@[channel] == low(spots, channel);
        let j = choose|j: int|
            0 <= j < spots.len() && (#[trigger] spots[j]).1@[channel] == high(spots, channel);
        sorting_moves_pixels(before, after, start, end, channel, start + i);
        sorting_moves_pixels(before, after, start, end, channel, start + j);
        let a = choose|a: int| start <= a < end && #[trigger] after[a] == before[start + i];
        let b = choose|b: int| start <= b < end && #[trigger] after[b] == before[start + j];
        no_change_is_one_value(after, start, end, channel, a);
        no_change_is_one_value(after, start, end, channel, b);
        assert(spots[i] == before[start + i] && spots[j] == before[start + j]);
    }
}

/// Where to split the pixels from `start` to `end`.
fn split_place(order: &Vec<Spot>, start: usize, end: usize, channel: usize) -> (place: usize)
    requires
        start < end <= order.len(),
        channel < 3,
        exists|place: int| start < place < end && #[trigger] changes(order@, channel as int, place),
    ensures
        is_split_place(order@, start as int, end as int, channel as int, place as int),
{
    let median: usize = start + (end - start) / 2;
    let mut best: Option<(usize, usize)> = None;
    let mut i: usize = start + 1;
    while i < end
        invariant
            start < i <= end <= order.len(),
            channel < 3,
            median == start + (end - start) / 2,
            match best {
                Some((away, place)) => {
                    &&& start < place < i
                    &&& changes(order@, channel as int, place as int)
                    &&& away == from_median(start as int, end as int, place as int)
                    &&& forall|other: int|
                        start < other < i && #[trigger] changes(order@, channel as int, other)
                            ==> {
                            ||| away < from_median(start as int, end as int, other)
                            ||| away == from_median(start as int, end as int, other) && place
                                <= other
                        }
                },
                None => forall|other: int|
                    start < other < i ==> !#[trigger] changes(order@, channel as int, other),
            },
        decreases end - i,
    {
        if order[i - 1].1[channel] != order[i].1[channel] {
            assert(changes(order@, channel as int, i as int));
            let away: usize = if i < median {
                median - i
            } else {
                i - median
            };
            let nearer = match best {
                Some((least, _)) => away < least,
                None => true,
            };
            if nearer {
                best = Some((away, i));
            }
        } else {
            assert(!changes(order@, channel as int, i as int));
        }
        i += 1;
    }
    match best {
        Some((_, place)) => place,
        None => {
            let ghost place = choose|place: int|
                start < place < end && #[trigger] changes(order@, channel as int, place);
            assert(!changes(order@, channel as int, place));
            start
        },
    }
}

fn mean(sum: u64, count: u64) -> (value: u8)
    requires
        0 < count <= u32::MAX,
        sum <= 255 * count,
    ensures
        value == (sum + count as int / 2) / (count as int),
{
    assert((sum + count / 2) / count as int <= 255) by (nonlinear_arith)
        requires
            0 < count,
            sum <= 255 * count,
    ;
    ((sum + count / 2) / count) as u8
}

/// A palette of at most `colours` (no more than 256) for `pixels`, and each pixel's index in
/// it. Distinct colours are kept apart while there are places for them.
pub fn median_cut(pixels: &[(u32, [u8; 3])], colours: usize) -> (fitted: (Vec<[u8; 3]>, Vec<u8>))
    requires
        pixels.len() <= u32::MAX,
    ensures
        fitted.1.len() == pixels.len(),
        exists|cuts: Seq<Cut>| #[trigger]
            is_run(pixels@, most_of(colours as int), cuts) && cuts.last().wf() && is_order_of(
                pixels@,
                cuts.last().order,
            ) && is_coloured(cuts.last(), fitted.0@, fitted.1@),
        fitted.0.len() <= if colours == 0 {
            1
        } else {
            most_of(colours as int)
        },
        fitted.0.len() == 0 <==> pixels.len() == 0,
        forall|i: int|
            0 <= i < pixels.len() ==> (#[trigger] fitted.1@[i]) < fitted.0.len(),
        colours_of(pixels@).len() <= most_of(colours as int) ==> forall|i: int|
            0 <= i < pixels.len() ==> fitted.0@[(#[trigger] fitted.1@[i]) as int]@ == pixels@[i].1@,
        fitted.0.len() < most_of(colours as int) ==> forall|i: int|
            0 <= i < pixels.len() ==> fitted.0@[(#[trigger] fitted.1@[i]) as int]@ == pixels@[i].1@,
{
    let most: usize = if colours < MOST {
        colours
    } else {
        MOST
    };
    let mut order: Vec<Spot> = Vec::new();
    let mut i: usize = 0;
    while i < pixels.len()
        invariant
            i <= pixels.len(),
            order@ =~= uncut(pixels@).order.take(i as int),
        decreases pixels.len() - i,
    {
        order.push((i, pixels[i].1));
        i += 1;
    }
    let mut parts: Vec<Part> = Vec::new();
    if order.len() > 0 {
        let whole = measure(&order, 0, order.len());
        parts.push(whole);
    }
    let ghost mut cut = uncut(pixels@);
    let ghost mut cuts: Seq<Cut> = seq![cut];
    proof {
        assert(order@ =~= cut.order);
        assert(part_boxes(parts@) =~= cut.boxes);
        assert(cut.wf()) by {
            if pixels.len() > 0 {
                assert forall|p: int| 0 <= p < cut.order.len() implies #[trigger] cut.is_boxed(
                    p,
                ) by {
                    assert(cut.boxes[0].0 <= p < cut.boxes[0].1);
                }
            }
        }
        assert(cut.keeps_colours());
    }
    let mut looking = true;
    while looking && parts.len() < most
        invariant
            most <= MOST,
            pixels.len() <= u32::MAX,
            order@ == cut.order,
            part_boxes(parts@) == cut.boxes,
            cut.wf(),
            cut.keeps_colours(),
            is_order_of(pixels@, order@),
            parts.len() <= most || parts.len() <= 1,
            parts.len() == 0 <==> pixels.len() == 0,
            forall|i: int|
                0 <= i < parts.len() ==> (
                    (#[trigger] parts@[i]).range as int,
                    parts@[i].channel as int,
                ) == spread(cut.spots(i)) && parts@[i].channel < 3,
            cuts.len() > 0,
            cuts[0] == uncut(pixels@),
            cuts.last() == cut,
            forall|i: int|
                0 <= i < cuts.len() - 1 ==> (#[trigger] cuts[i]).steps_to(cuts[i + 1])
                    && cuts[i].boxes.len() < most,
            !looking ==> cut.is_done(),
        decreases most - parts.len(), if looking {
                1int
            } else {
                0int
            },
    {
        match find_widest(&parts, Ghost(cut)) {
            Some(at) => {
                assert(cut.can_part(at as int));
                assert(cut.boxes[at as int] == (
                    parts@[at as int].start as int,
                    parts@[at as int].end as int,
                ));
                if parts[at].range == 0 {
                    looking = false;
                    assert(cut.is_done()) by {
                        assert forall|other: int| #[trigger] cut.can_part(other) implies spread(
                            cut.spots(other),
                        ).0 == 0 by {
                            assert(no_wider(
                                spread(cut.spots(other)),
                                spread(cut.spots(at as int)),
                            ));
                        }
                    }
                } else {
                    let start: usize = parts[at].start;
                    let end: usize = parts[at].end;
                    let channel: usize = parts[at].channel as usize;
                    sort_by_channel(&mut order, start, end, channel);
                    let ghost before = parts@;
                    let ghost last = cut;
                    proof {
                        assert(spread(last.spots(at as int)).0 > 0);
                        a_range_changes(
                            last.order,
                            order@,
                            start as int,
                            end as int,
                            channel as int,
                        );
                    }
                    let place: usize = split_place(&order, start, end, channel);
                    let first = measure(&order, start, place);
                    let second = measure(&order, place, end);
                    parts[at] = first;
                    parts.push(second);
                    proof {
                        cut = Cut {
                            order: order@,
                            boxes: last.boxes.update(
                                at as int,
                                (start as int, place as int),
                            ).push((place as int, end as int)),
                        };
                        assert(part_boxes(parts@) =~= cut.boxes);
                        assert(last.splits_into(at as int, place as int, cut));
                        splitting_keeps_the_boxes(last, at as int, place as int, cut);
                        splitting_keeps_the_colours(last, at as int, place as int, cut);
                        sorting_keeps_the_pixels(
                            pixels@,
                            last.order,
                            order@,
                            start as int,
                            end as int,
                            channel as int,
                        );
                        let earlier = cuts;
                        cuts = cuts.push(cut);
                        assert forall|i: int| 0 <= i < cuts.len() - 1 implies (
                        #[trigger] cuts[i]).steps_to(cuts[i + 1]) && cuts[i].boxes.len() < most by {
                            if i < earlier.len() - 1 {
                                assert(cuts[i] == earlier[i]);
                                assert(cuts[i + 1] == earlier[i + 1]);
                            } else {
                                assert(cuts[i] == last);
                            }
                        }
                        assert forall|i: int| 0 <= i < parts.len() implies (
                            (#[trigger] parts@[i]).range as int,
                            parts@[i].channel as int,
                        ) == spread(cut.spots(i)) && parts@[i].channel < 3 by {
                            if i < before.len() && i != at {
                                assert(parts@[i] == before[i]);
                                assert(cut.boxes[i] == last.boxes[i]);
                                assert(last.boxes[i].1 <= start || end <= last.boxes[i].0);
                                assert(cut.spots(i) =~= last.spots(i));
                            }
                        }
                    }
                }
            },
            None => {
                looking = false;
            },
        }
    }
    assert(is_run(pixels@, most as int, cuts));
    let mut indices: Vec<u8> = Vec::new();
    let mut filled: usize = 0;
    while filled < pixels.len()
        invariant
            filled <= pixels.len(),
            indices.len() == filled,
        decreases pixels.len() - filled,
    {
        indices.push(0);
        filled += 1;
    }
    let mut palette: Vec<[u8; 3]> = Vec::new();
    let mut at: usize = 0;
    while at < parts.len()
        invariant
            at <= parts.len() <= MOST,
            order@ == cut.order,
            part_boxes(parts@) == cut.boxes,
            cut.wf(),
            pixels.len() <= u32::MAX,
            is_order_of(pixels@, order@),
            indices.len() == pixels.len(),
            palette.len() == at,
            forall|b: int, channel: int|
                0 <= b < at && 0 <= channel < 3 ==> #[trigger] palette@[b]@[channel] == average(
                    cut.spots(b),
                    channel,
                ),
            forall|b: int, p: int|
                0 <= b < at && (#[trigger] cut.boxes[b]).0 <= p < cut.boxes[b].1
                    ==> indices@[(#[trigger] cut.order[p]).0 as int] == b,
        decreases parts.len() - at,
    {
        let start: usize = parts[at].start;
        let end: usize = parts[at].end;
        assert(cut.boxes[at as int] == (start as int, end as int));
        let mut r: u64 = 0;
        let mut g: u64 = 0;
        let mut b: u64 = 0;
        let mut p: usize = start;
        assert(order@.subrange(start as int, start as int).len() == 0);
        while p < end
            invariant
                start <= p <= end <= order.len(),
                order.len() <= u32::MAX,
                at < parts.len() <= MOST,
                order@ == cut.order,
                part_boxes(parts@) == cut.boxes,
                cut.wf(),
                cut.boxes[at as int] == (start as int, end as int),
                is_order_of(pixels@, order@),
                indices.len() == pixels.len(),
                r == total(order@.subrange(start as int, p as int), 0),
                g == total(order@.subrange(start as int, p as int), 1),
                b == total(order@.subrange(start as int, p as int), 2),
                r <= 255 * (p - start),
                g <= 255 * (p - start),
                b <= 255 * (p - start),
                forall|b: int, p: int|
                    0 <= b < at && (#[trigger] cut.boxes[b]).0 <= p < cut.boxes[b].1
                        ==> indices@[(#[trigger] cut.order[p]).0 as int] == b,
                forall|q: int|
                    start <= q < p ==> indices@[(#[trigger] cut.order[q]).0 as int] == at,
            decreases end - p,
        {
            let spot = order[p];
            let ghost before = indices@;
            assert(order@.subrange(start as int, p + 1).drop_last() =~= order@.subrange(
                start as int,
                p as int,
            ));
            r = r + spot.1[0] as u64;
            g = g + spot.1[1] as u64;
            b = b + spot.1[2] as u64;
            indices[spot.0] = at as u8;
            proof {
                assert forall|b: int, q: int|
                    0 <= b < at && (#[trigger] cut.boxes[b]).0 <= q < cut.boxes[b].1 implies
                    indices@[(#[trigger] cut.order[q]).0 as int] == b by {
                    assert(cut.boxes[at as int].0 <= p < cut.boxes[at as int].1);
                    assert(q != p);
                    if q < p {
                        assert(cut.order[q].0 != cut.order[p as int].0);
                    } else {
                        assert(cut.order[p as int].0 != cut.order[q].0);
                    }
                    assert(before[cut.order[q].0 as int] == b);
                }
                assert forall|q: int| start <= q < p + 1 implies indices@[(
                #[trigger] cut.order[q]).0 as int] == at by {
                    if q < p {
                        assert(cut.order[q].0 != cut.order[p as int].0);
                        assert(before[cut.order[q].0 as int] == at);
                    }
                }
            }
            p += 1;
        }
        let count: u64 = (end - start) as u64;
        let colour: [u8; 3] = [mean(r, count), mean(g, count), mean(b, count)];
        let ghost earlier = palette@;
        palette.push(colour);
        proof {
            assert(cut.spots(at as int) == order@.subrange(start as int, end as int));
            assert forall|b: int, channel: int|
                0 <= b < at + 1 && 0 <= channel < 3 implies #[trigger] palette@[b]@[channel]
                == average(cut.spots(b), channel) by {
                if b < at {
                    assert(palette@[b] == earlier[b]);
                    assert(earlier[b]@[channel] == average(cut.spots(b), channel));
                } else {
                    assert(palette@[b] == colour);
                }
            }
        }
        at += 1;
    }
    proof {
        assert(is_coloured(cut, palette@, indices@));
        assert(most_of(colours as int) == most);
        assert(cuts.last() == cut);
        assert(is_run(pixels@, most_of(colours as int), cuts) && cuts.last().wf() && is_order_of(
            pixels@,
            cuts.last().order,
        ) && is_coloured(cuts.last(), palette@, indices@));
        assert forall|i: int| 0 <= i < pixels.len() implies (#[trigger] indices@[i])
            < palette.len() && (palette.len() < most || colours_of(pixels@).len() <= most
            ==> palette@[indices@[i] as int]@ == pixels@[i].1@) by {
            every_pixel_is_ordered(pixels@, order@, i);
            let p = choose|p: int| 0 <= p < order.len() && (#[trigger] order@[p]).0 == i;
            assert(cut.is_boxed(p));
            let b = choose|b: int|
                0 <= b < cut.boxes.len() && (#[trigger] cut.boxes[b]).0 <= p < cut.boxes[b].1;
            assert(indices@[cut.order[p].0 as int] == b);
            if palette.len() < most || colours_of(pixels@).len() <= most {
                if cut.is_done() {
                    done_boxes_are_of_one_colour(cut, b);
                } else {
                    enough_boxes_are_of_one_colour(pixels@, cut, b);
                }
                one_colour_is_its_average(cut, b, p);
                assert forall|channel: int| 0 <= channel < 3 implies palette@[b]@[channel]
                    == pixels@[i].1@[channel] by {
                    assert(palette@[b]@[channel] == average(cut.spots(b), channel));
                }
                assert(palette@[b]@ =~= pixels@[i].1@);
            }
        }
    }
    (palette, indices)
}

/// Every pixel has its place in the order.
proof fn every_pixel_is_ordered(pixels: Seq<(u32, [u8; 3])>, order: Seq<Spot>, item: int)
    requires
        is_order_of(pixels, order),
        0 <= item < pixels.len(),
    ensures
        exists|p: int| 0 <= p < order.len() && (#[trigger] order[p]).0 == item,
{
    let items = Seq::new(order.len(), |p: int| order[p].0 as int);
    assert(items.no_duplicates()) by {
        assert forall|i: int, j: int|
            0 <= i < items.len() && 0 <= j < items.len() && i != j implies items[i] != items[j] by {
            if i < j {
                assert(order[i].0 != order[j].0);
            } else {
                assert(order[j].0 != order[i].0);
            }
        }
    }
    items.unique_seq_to_set();
    let all = vstd::set_lib::set_int_range(0, pixels.len() as int);
    vstd::set_lib::lemma_int_range(0, pixels.len() as int);
    assert(items.to_set().subset_of(all)) by {
        assert forall|x: int| items.to_set().contains(x) implies all.contains(x) by {
            let p = choose|p: int| 0 <= p < items.len() && items[p] == x;
            assert(order[p].0 < pixels.len());
        }
    }
    vstd::set_lib::lemma_subset_equality(items.to_set(), all);
    assert(items.to_set().contains(item));
    let p = choose|p: int| 0 <= p < items.len() && items[p] == item;
    assert(order[p].0 == item);
}

proof fn total_of_one_colour(spots: Seq<Spot>, channel: int, value: int)
    requires
        forall|i: int| 0 <= i < spots.len() ==> (#[trigger] spots[i]).1@[channel] == value,
    ensures
        total(spots, channel) == value * spots.len(),
    decreases spots.len(),
{
    if spots.len() > 0 {
        let front = spots.drop_last();
        assert forall|i: int| 0 <= i < front.len() implies (#[trigger] front[i]).1@[channel]
            == value by {
            assert(front[i] == spots[i]);
        }
        total_of_one_colour(front, channel, value);
        assert(spots[spots.len() - 1].1@[channel] == value);
        assert(value * (spots.len() - 1) + value == value * spots.len()) by (nonlinear_arith);
    }
}

/// Once nothing is left to split, each box is of one colour.
proof fn done_boxes_are_of_one_colour(cut: Cut, at: int)
    requires
        cut.wf(),
        cut.is_done(),
        0 <= at < cut.boxes.len(),
    ensures
        cut.is_of_one_colour(at),
{
    let spots = cut.spots(at);
    assert forall|p: int, q: int|
        cut.boxes[at].0 <= p < cut.boxes[at].1 && cut.boxes[at].0 <= q < cut.boxes[at].1 implies (
    #[trigger] cut.order[p]).1@ == (#[trigger] cut.order[q]).1@ by {
        let (i, j) = (p - cut.boxes[at].0, q - cut.boxes[at].0);
        assert(spots[i] == cut.order[p] && spots[j] == cut.order[q]);
        if spots.len() > 1 {
            assert(cut.can_part(at));
            no_spread_is_one_colour(spots, i, j);
        }
    }
}

/// As many boxes as there are colours, each with all pixels of its colours, are of one colour
/// each.
proof fn enough_boxes_are_of_one_colour(pixels: Seq<(u32, [u8; 3])>, cut: Cut, at: int)
    requires
        cut.wf(),
        cut.keeps_colours(),
        is_order_of(pixels, cut.order),
        colours_of(pixels).len() <= cut.boxes.len(),
        0 <= at < cut.boxes.len(),
    ensures
        cut.is_of_one_colour(at),
{
    let all = colours_of(pixels);
    let each = pixels.map_values(|pixel: (u32, [u8; 3])| pixel.1@);
    let firsts = Seq::new(cut.boxes.len(), |i: int| cut.order[cut.boxes[i].0].1@);
    assert forall|p: int| 0 <= p < cut.order.len() implies all.contains(
        (#[trigger] cut.order[p]).1@,
    ) by {
        let item = cut.order[p].0 as int;
        assert(each[item] == cut.order[p].1@);
    }
    assert forall|p: int| cut.boxes[at].0 <= p < cut.boxes[at].1 implies (
    #[trigger] cut.order[p]).1@ == firsts[at] by {
        if cut.order[p].1@ != firsts[at] {
            let more = firsts.push(cut.order[p].1@);
            assert(more.no_duplicates()) by {
                assert forall|i: int, j: int|
                    0 <= i < more.len() && 0 <= j < more.len() && i != j implies more[i]
                    != more[j] by {
                    let n = cut.boxes.len() as int;
                    let a = if i < n {
                        i
                    } else {
                        at
                    };
                    let b = if j < n {
                        j
                    } else {
                        at
                    };
                    let x = if i < n {
                        cut.boxes[i].0
                    } else {
                        p
                    };
                    let y = if j < n {
                        cut.boxes[j].0
                    } else {
                        p
                    };
                    assert(cut.boxes[a].0 <= x < cut.boxes[a].1);
                    assert(cut.boxes[b].0 <= y < cut.boxes[b].1);
                    assert(more[i] == cut.order[x].1@ && more[j] == cut.order[y].1@);
                    if a != b && more[i] == more[j] {
                        assert(cut.boxes[a].0 <= y < cut.boxes[a].1);
                    }
                }
            }
            more.unique_seq_to_set();
            assert(more.to_set().subset_of(all)) by {
                assert forall|colour: Seq<u8>| more.to_set().contains(colour) implies all.contains(
                    colour,
                ) by {
                    let i = choose|i: int| 0 <= i < more.len() && more[i] == colour;
                    if i < cut.boxes.len() {
                        assert(more[i] == cut.order[cut.boxes[i].0].1@);
                    }
                }
            }
            each.lemma_cardinality_of_set();
            vstd::set_lib::lemma_len_subset(more.to_set(), all);
        }
    }
}

/// The average of a box of one colour is the colour of each of its pixels.
proof fn one_colour_is_its_average(cut: Cut, at: int, p: int)
    requires
        cut.wf(),
        0 <= at < cut.boxes.len(),
        cut.is_of_one_colour(at),
        cut.boxes[at].0 <= p < cut.boxes[at].1,
    ensures
        forall|channel: int|
            0 <= channel < 3 ==> #[trigger] average(cut.spots(at), channel)
                == cut.order[p].1@[channel],
{
    let spots = cut.spots(at);
    assert forall|channel: int| 0 <= channel < 3 implies #[trigger] average(spots, channel)
        == cut.order[p].1@[channel] by {
        let value = cut.order[p].1@[channel] as int;
        assert forall|i: int| 0 <= i < spots.len() implies (#[trigger] spots[i]).1@[channel]
            == value by {
            assert(spots[i] == cut.order[cut.boxes[at].0 + i]);
        }
        total_of_one_colour(spots, channel, value);
        let n = spots.len() as int;
        assert((value * n + n / 2) / n == value) by (nonlinear_arith)
            requires
                n > 0,
        ;
    }
}

/// The lowest and the highest of a channel are values that it has, and no value lies outside them.
pub proof fn the_extremes_are_values(spots: Seq<Spot>, channel: int, p: int)
    requires
        0 <= channel < 3,
        0 <= p < spots.len(),
    ensures
        low(spots, channel) <= spots[p].1@[channel] <= high(spots, channel),
        exists|q: int|
            0 <= q < spots.len() && (#[trigger] spots[q]).1@[channel] == low(spots, channel),
        exists|q: int|
            0 <= q < spots.len() && (#[trigger] spots[q]).1@[channel] == high(spots, channel),
        range(spots, channel) == high(spots, channel) - low(spots, channel),
    decreases spots.len(),
{
    let front = spots.drop_last();
    let last = spots.len() - 1;
    assert(spots[last] == spots.last());
    if front.len() > 0 {
        the_extremes_are_values(front, channel, if p < last {
            p
        } else {
            0
        });
        let a = choose|q: int|
            0 <= q < front.len() && (#[trigger] front[q]).1@[channel] == low(front, channel);
        let b = choose|q: int|
            0 <= q < front.len() && (#[trigger] front[q]).1@[channel] == high(front, channel);
        assert(spots[a].1@[channel] == low(front, channel));
        assert(spots[b].1@[channel] == high(front, channel));
        if p < last {
            assert(front[p] == spots[p]);
        }
    } else {
        assert(low(front, channel) == 255 && high(front, channel) == 0);
        assert(0 <= spots.last().1@[channel] <= 255);
    }
}

/// The channel that a box is split along is one whose values differ most.
pub proof fn a_box_is_split_along_its_widest_channel(spots: Seq<Spot>, channel: int)
    requires
        0 <= channel < 3,
    ensures
        0 <= spread(spots).1 < 3,
        spread(spots).0 == range(spots, spread(spots).1),
        range(spots, channel) <= spread(spots).0,
{
    assert(channel == 0 || channel == 1 || channel == 2);
}

/// A register's channel is the nearest to the mean of its pixels', and lies between the least and
/// the greatest of them: pixels of one value keep it.
pub proof fn an_average_is_between_its_values(spots: Seq<Spot>, channel: int, least: int, most: int)
    requires
        0 <= channel < 3,
        spots.len() > 0,
        forall|p: int|
            0 <= p < spots.len() ==> least <= (#[trigger] spots[p]).1@[channel] <= most,
    ensures
        least <= average(spots, channel) <= most,
        -(spots.len() as int) <= 2 * (average(spots, channel) * spots.len() - total(
            spots,
            channel,
        )) <= spots.len(),
        least * spots.len() <= total(spots, channel) <= most * spots.len(),
{
    totals_are_between(spots, channel, least, most);
    let n = spots.len() as int;
    let sum = total(spots, channel) + n / 2;
    vstd::arithmetic::div_mod::lemma_fundamental_div_mod(sum, n);
    let mean = sum / n;
    assert(least <= mean <= most) by (nonlinear_arith)
        requires
            least * n <= sum - n / 2 <= most * n,
            sum == n * mean + sum % n,
            0 <= sum % n < n,
            0 < n,
    ;
    assert(mean * n == n * mean) by (nonlinear_arith);
}

proof fn totals_are_between(spots: Seq<Spot>, channel: int, least: int, most: int)
    requires
        0 <= channel < 3,
        forall|p: int|
            0 <= p < spots.len() ==> least <= (#[trigger] spots[p]).1@[channel] <= most,
    ensures
        least * spots.len() <= total(spots, channel) <= most * spots.len(),
    decreases spots.len(),
{
    if spots.len() > 0 {
        let front = spots.drop_last();
        assert forall|p: int| 0 <= p < front.len() implies least <= (
        #[trigger] front[p]).1@[channel] <= most by {
            assert(front[p] == spots[p]);
        }
        totals_are_between(front, channel, least, most);
        assert(spots[spots.len() - 1] == spots.last());
        assert(least * spots.len() == least * front.len() + least) by (nonlinear_arith)
            requires
                spots.len() == front.len() + 1,
        ;
        assert(most * spots.len() == most * front.len() + most) by (nonlinear_arith)
            requires
                spots.len() == front.len() + 1,
        ;
    } else {
        assert(least * 0 == 0 && most * 0 == 0);
    }
}

} // verus!
