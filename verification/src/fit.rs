//! Text in the room it has: cut with an ellipsis, or broken into lines.
//!
//! A text's width is that of its characters together. Widths are whole numbers of whatever unit
//! the caller measures in.

use vstd::prelude::*;

use crate::bottom_line::text_views;
use crate::text::{append, chars_of, text_of};

verus! {

/// Where a text that does not fit is cut.
#[derive(Clone, Copy, Debug, PartialEq, Eq, Structural)]
pub enum Cut {
    Tail,
    Middle,
}

#[derive(Clone, Copy, Debug, PartialEq, Eq, Structural)]
pub enum Align {
    Left,
    Right,
    Center,
}

/// Where a text starts in a span, times two, so that a middle is exact.
pub fn aligned(align: Align, start: u32, span: u32, width: u32) -> (twice: i64)
    ensures
        twice == match align {
            Align::Left => 2 * start,
            Align::Right => 2 * (start + span - width),
            Align::Center => 2 * start + span - width,
        },
{
    let (start, span, width): (i64, i64, i64) = (start as i64, span as i64, width as i64);
    match align {
        Align::Left => 2 * start,
        Align::Right => 2 * (start + span - width),
        Align::Center => 2 * start + span - width,
    }
}

/// The width of the characters from `a` to before `b`.
pub open spec fn width_between(advances: Seq<u64>, a: int, b: int) -> int
    decreases b - a,
{
    if b <= a {
        0
    } else {
        width_between(advances, a, b - 1) + advances[b - 1]
    }
}

/// A width is made up of the widths of its parts.
pub proof fn widths_add_up(advances: Seq<u64>, a: int, m: int, b: int)
    requires
        0 <= a <= m <= b <= advances.len(),
    ensures
        width_between(advances, a, b) == width_between(advances, a, m) + width_between(
            advances,
            m,
            b,
        ),
        0 <= width_between(advances, a, m),
        0 <= width_between(advances, m, b),
    decreases b - a,
{
    if b > m {
        widths_add_up(advances, a, m, b - 1);
    } else if m > a {
        widths_add_up(advances, a, m - 1, m - 1);
    }
}

/// How many characters, from the start, fit.
pub open spec fn heads(advances: Seq<u64>, count: int, room: int) -> int
    decreases count,
{
    if count <= 0 {
        0
    } else if width_between(advances, 0, count) <= room {
        count
    } else {
        heads(advances, count - 1, room)
    }
}

/// From where the characters to the end, taken twice, fit.
pub open spec fn tails(advances: Seq<u64>, from: int, room: int) -> int
    decreases advances.len() - from,
{
    if from >= advances.len() {
        from
    } else if 2 * width_between(advances, from, advances.len() as int) <= room {
        from
    } else {
        tails(advances, from + 1, room)
    }
}

/// What is left of a text.
#[derive(Clone, Copy, Debug, PartialEq, Eq, Structural)]
pub enum Fitted {
    Whole,
    Nothing,
    /// The characters before `head`, an ellipsis, and those from `tail`.
    Cut { head: usize, tail: usize },
}

/// What is left of a text with this room: all of it if it fits; else, with the ellipsis, as much
/// of its head as fits, or half of the room for its tail and the rest for its head.
pub open spec fn is_fitted(
    advances: Seq<u64>,
    ellipsis: int,
    room: int,
    cut: Cut,
    fitted: Fitted,
) -> bool {
    let len = advances.len() as int;
    let left = room - ellipsis;
    if width_between(advances, 0, len) <= room {
        fitted is Whole
    } else if left <= 0 {
        fitted is Nothing
    } else {
        match cut {
            Cut::Tail => fitted == (Fitted::Cut {
                head: heads(advances, len, left) as usize,
                tail: len as usize,
            }),
            Cut::Middle => {
                let tail = tails(advances, 0, left);
                fitted == Fitted::Cut {
                    head: heads(advances, tail, left - width_between(advances, tail, len)) as usize,
                    tail: tail as usize,
                }
            },
        }
    }
}

proof fn heads_fit(advances: Seq<u64>, count: int, room: int)
    requires
        0 <= count <= advances.len(),
        0 <= room,
    ensures
        0 <= heads(advances, count, room) <= count,
        width_between(advances, 0, heads(advances, count, room)) <= room,
    decreases count,
{
    if count > 0 {
        heads_fit(advances, count - 1, room);
    }
}

/// Where the characters before `at` fit and those up to `at` do not, `at` is how many do.
proof fn heads_are(advances: Seq<u64>, count: int, room: int, at: int)
    requires
        0 <= at <= count <= advances.len(),
        0 <= room,
        width_between(advances, 0, at) <= room,
        at < count ==> width_between(advances, 0, at + 1) > room,
    ensures
        heads(advances, count, room) == at,
    decreases count,
{
    if at < count {
        widths_add_up(advances, 0, at + 1, count);
        heads_are(advances, count - 1, room, at);
    }
}

proof fn tails_fit(advances: Seq<u64>, from: int, room: int)
    requires
        0 <= from <= advances.len(),
        0 <= room,
    ensures
        from <= tails(advances, from, room) <= advances.len(),
        2 * width_between(advances, tails(advances, from, room), advances.len() as int) <= room,
    decreases advances.len() - from,
{
    if from < advances.len() {
        tails_fit(advances, from + 1, room);
    }
}

proof fn tails_are(advances: Seq<u64>, from: int, room: int, at: int)
    requires
        0 <= from <= at <= advances.len(),
        0 <= room,
        2 * width_between(advances, at, advances.len() as int) <= room,
        from < at ==> 2 * width_between(advances, at - 1, advances.len() as int) > room,
    ensures
        tails(advances, from, room) == at,
    decreases advances.len() - from,
{
    let len = advances.len() as int;
    if from < at {
        widths_add_up(advances, from, at - 1, len);
        tails_are(advances, from + 1, room, at);
    }
}

/// What is drawn never takes more than the room there is, and only what does not fit is cut.
pub proof fn what_is_left_fits(
    advances: Seq<u64>,
    ellipsis: int,
    room: int,
    cut: Cut,
    fitted: Fitted,
)
    requires
        0 <= ellipsis,
        0 <= room,
        advances.len() <= usize::MAX,
        is_fitted(advances, ellipsis, room, cut, fitted),
    ensures
        match fitted {
            Fitted::Whole => width_between(advances, 0, advances.len() as int) <= room,
            Fitted::Nothing => room <= ellipsis,
            Fitted::Cut { head, tail } => head <= tail <= advances.len() && head < advances.len()
                && width_between(advances, 0, head as int) + ellipsis + width_between(
                advances,
                tail as int,
                advances.len() as int,
            ) <= room,
        },
{
    let len = advances.len() as int;
    let left = room - ellipsis;
    if width_between(advances, 0, len) > room && left > 0 {
        match cut {
            Cut::Tail => {
                heads_fit(advances, len, left);
            },
            Cut::Middle => {
                tails_fit(advances, 0, left);
                let tail = tails(advances, 0, left);
                let held = width_between(advances, tail, len);
                widths_add_up(advances, 0, tail, len);
                heads_fit(advances, tail, left - held);
                let head = heads(advances, tail, left - held);
                if head == len {
                    assert(tail == len);
                }
            },
        }
    }
}

/// How many characters from the start, of the first `count`, fit.
fn head_count(advances: &Vec<u64>, count: usize, room: u64) -> (head: usize)
    requires
        count <= advances.len(),
        width_between(advances@, 0, advances.len() as int) <= u64::MAX,
    ensures
        head == heads(advances@, count as int, room as int),
        head <= count,
{
    let mut width: u64 = 0;
    let mut head: usize = 0;
    while head < count
        invariant
            head <= count <= advances.len(),
            width == width_between(advances@, 0, head as int),
            width <= room,
            width_between(advances@, 0, advances.len() as int) <= u64::MAX,
        decreases count - head,
    {
        proof {
            widths_add_up(advances@, 0, head + 1, advances.len() as int);
        }
        width += advances[head];
        if width > room {
            proof {
                heads_are(advances@, count as int, room as int, head as int);
            }
            return head;
        }
        head += 1;
    }
    proof {
        heads_are(advances@, count as int, room as int, head as int);
    }
    head
}

/// From where the characters to the end fit in half of the room, and how wide they are.
fn tail_start(advances: &Vec<u64>, room: u64) -> (tail: (usize, u64))
    requires
        width_between(advances@, 0, advances.len() as int) <= u64::MAX,
    ensures
        tail.0 == tails(advances@, 0, room as int),
        tail.0 <= advances.len(),
        tail.1 == width_between(advances@, tail.0 as int, advances.len() as int),
        2 * tail.1 <= room,
{
    let len: usize = advances.len();
    let mut width: u64 = 0;
    let mut from: usize = len;
    while from > 0
        invariant
            from <= len == advances.len(),
            width == width_between(advances@, from as int, len as int),
            2 * width <= room,
            width_between(advances@, 0, len as int) <= u64::MAX,
        decreases from,
    {
        proof {
            widths_add_up(advances@, 0, from - 1, len as int);
            widths_add_up(advances@, from - 1, from as int, len as int);
            assert(width_between(advances@, from - 1, from as int) == advances@[from - 1]) by {
                assert(width_between(advances@, from - 1, from - 1) == 0);
            }
        }
        let wider: u64 = width + advances[from - 1];
        if wider > room / 2 {
            proof {
                tails_are(advances@, 0, room as int, from as int);
            }
            return (from, width);
        }
        width = wider;
        from -= 1;
    }
    proof {
        tails_are(advances@, 0, room as int, 0);
    }
    (from, width)
}

/// What is left of a text with this room. `advances` are its characters' widths.
pub fn fit(advances: &Vec<u64>, ellipsis: u64, room: u64, cut: Cut) -> (fitted: Fitted)
    requires
        width_between(advances@, 0, advances.len() as int) <= u64::MAX,
    ensures
        is_fitted(advances@, ellipsis as int, room as int, cut, fitted),
{
    let len: usize = advances.len();
    let within: usize = head_count(advances, len, room);
    proof {
        heads_fit(advances@, len as int, room as int);
        if width_between(advances@, 0, len as int) <= room {
            if len > 0 {
                assert(heads(advances@, len as int, room as int) == len);
            }
        }
    }
    if within == len {
        return Fitted::Whole;
    }
    if room <= ellipsis {
        return Fitted::Nothing;
    }
    let left: u64 = room - ellipsis;
    match cut {
        Cut::Tail => Fitted::Cut { head: head_count(advances, len, left), tail: len },
        Cut::Middle => {
            let (tail, width) = tail_start(advances, left);
            Fitted::Cut { head: head_count(advances, tail, left - width), tail }
        },
    }
}

/// What a text looks like once cut.
pub open spec fn cut_text(text: Seq<char>, fitted: Fitted) -> Seq<char> {
    match fitted {
        Fitted::Whole => text,
        Fitted::Nothing => Seq::empty(),
        Fitted::Cut { head, tail } => text.take(head as int) + "…"@ + text.skip(tail as int),
    }
}

/// What a text looks like once cut.
pub fn fitted_text(text: &str, fitted: Fitted) -> (drawn: String)
    requires
        fitted matches Fitted::Cut { head, tail } ==> head <= text@.len() && tail <= text@.len(),
    ensures
        drawn@ == cut_text(text@, fitted),
{
    match fitted {
        Fitted::Whole => text.to_owned(),
        Fitted::Nothing => String::new(),
        Fitted::Cut { head, tail } => {
            let chars = chars_of(text);
            let mut drawn = text_between(&chars, 0, head);
            append(&mut drawn, "…");
            let end = text_between(&chars, tail, chars.len());
            append(&mut drawn, end.as_str());
            assert(text@.subrange(0, head as int) =~= text@.take(head as int));
            assert(text@.subrange(tail as int, text@.len() as int) =~= text@.skip(tail as int));
            drawn
        },
    }
}

fn text_between(chars: &Vec<char>, from: usize, to: usize) -> (text: String)
    requires
        from <= to <= chars.len(),
    ensures
        text@ == chars@.subrange(from as int, to as int),
{
    let mut some: Vec<char> = Vec::new();
    let mut i: usize = from;
    while i < to
        invariant
            from <= i <= to <= chars.len(),
            some@ =~= chars@.subrange(from as int, i as int),
        decreases to - i,
    {
        some.push(chars[i]);
        i += 1;
    }
    text_of(some.as_slice())
}

/// A text being broken into lines: those done, and the one being filled, as where each starts
/// and ends.
pub struct Broken {
    pub lines: Seq<(int, int)>,
    pub line: (int, int),
}

/// The characters up to `to` taken in one at a time, starting a line wherever the last is full.
/// A line always takes one.
pub open spec fn cut_word(advances: Seq<u64>, room: int, broken: Broken, to: int) -> Broken
    decreases to - broken.line.1,
{
    let (start, end) = broken.line;
    if end >= to {
        broken
    } else if width_between(advances, start, end + 1) > room && end > start {
        cut_word(
            advances,
            room,
            Broken { lines: broken.lines.push(broken.line), line: (end, end + 1) },
            to,
        )
    } else {
        cut_word(advances, room, Broken { lines: broken.lines, line: (start, end + 1) }, to)
    }
}

/// The word from `from` to before `to` taken in: on the line being filled if it still fits there,
/// else on lines of its own.
pub open spec fn take_word(
    advances: Seq<u64>,
    room: int,
    broken: Broken,
    from: int,
    to: int,
) -> Broken {
    let (start, end) = broken.line;
    let start = if start == end {
        from
    } else {
        start
    };
    if width_between(advances, start, to) <= room {
        Broken { lines: broken.lines, line: (start, to) }
    } else {
        cut_word(
            advances,
            room,
            Broken {
                lines: if broken.line.0 == broken.line.1 {
                    broken.lines
                } else {
                    broken.lines.push(broken.line)
                },
                line: (from, from),
            },
            to,
        )
    }
}

/// Where the word that starts at `from` ends.
pub open spec fn word_end(text: Seq<char>, from: int) -> int
    decreases text.len() - from,
{
    if from >= text.len() || text[from] == ' ' || text[from] == '\n' {
        from
    } else {
        word_end(text, from + 1)
    }
}

/// The rest of a text, from `from`, taken in word by word.
pub open spec fn lines_from(
    text: Seq<char>,
    advances: Seq<u64>,
    room: int,
    broken: Broken,
    from: int,
) -> Seq<(int, int)>
    decreases text.len() - from,
    via lines_from_goes_on
{
    let to = word_end(text, from);
    let next = take_word(advances, room, broken, from, to);
    if to >= text.len() {
        next.lines.push(next.line)
    } else if text[to] == '\n' {
        lines_from(
            text,
            advances,
            room,
            Broken { lines: next.lines.push(next.line), line: (to + 1, to + 1) },
            to + 1,
        )
    } else {
        lines_from(text, advances, room, next, to + 1)
    }
}

#[via_fn]
proof fn lines_from_goes_on(
    text: Seq<char>,
    advances: Seq<u64>,
    room: int,
    broken: Broken,
    from: int,
) {
    word_ends_on(text, from);
}

proof fn word_ends_on(text: Seq<char>, from: int)
    ensures
        from <= word_end(text, from),
        from <= text.len() ==> word_end(text, from) <= text.len(),
        word_end(text, from) < text.len() ==> text[word_end(text, from)] == ' ' || text[word_end(
            text,
            from,
        )] == '\n',
        forall|i: int|
            from <= i < word_end(text, from) ==> #[trigger] text[i] != ' ' && text[i] != '\n',
    decreases text.len() - from,
{
    if !(from >= text.len() || text[from] == ' ' || text[from] == '\n') {
        word_ends_on(text, from + 1);
    }
}

/// A text as lines no wider than the room, each as where it starts and ends.
pub open spec fn wrapped(text: Seq<char>, advances: Seq<u64>, room: int) -> Seq<(int, int)> {
    lines_from(text, advances, room, Broken { lines: Seq::empty(), line: (0, 0) }, 0)
}

/// Whether a line lies in the text, fits or is one character, and holds no line break.
pub open spec fn good_line(
    text: Seq<char>,
    advances: Seq<u64>,
    room: int,
    line: (int, int),
) -> bool {
    &&& 0 <= line.0 <= line.1 <= text.len()
    &&& width_between(advances, line.0, line.1) <= room || line.1 - line.0 <= 1
    &&& forall|i: int| line.0 <= i < line.1 ==> #[trigger] text[i] != '\n'
}

/// Whether everything broken off so far is good.
pub open spec fn good_so_far(
    text: Seq<char>,
    advances: Seq<u64>,
    room: int,
    broken: Broken,
) -> bool {
    &&& good_line(text, advances, room, broken.line)
    &&& forall|i: int|
        0 <= i < broken.lines.len() ==> good_line(
            text,
            advances,
            room,
            #[trigger] broken.lines[i],
        )
}

proof fn cutting_a_word_is_good(
    text: Seq<char>,
    advances: Seq<u64>,
    room: int,
    broken: Broken,
    to: int,
)
    requires
        good_so_far(text, advances, room, broken),
        broken.line.1 <= to <= text.len(),
        forall|i: int| broken.line.1 <= i < to ==> #[trigger] text[i] != '\n',
    ensures
        good_so_far(text, advances, room, cut_word(advances, room, broken, to)),
        cut_word(advances, room, broken, to).line.1 == to,
    decreases to - broken.line.1,
{
    let (start, end) = broken.line;
    if end < to {
        if width_between(advances, start, end + 1) > room && end > start {
            cutting_a_word_is_good(
                text,
                advances,
                room,
                Broken { lines: broken.lines.push(broken.line), line: (end, end + 1) },
                to,
            );
        } else {
            cutting_a_word_is_good(
                text,
                advances,
                room,
                Broken { lines: broken.lines, line: (start, end + 1) },
                to,
            );
        }
    }
}

proof fn taking_a_word_is_good(
    text: Seq<char>,
    advances: Seq<u64>,
    room: int,
    broken: Broken,
    from: int,
)
    requires
        0 <= room,
        good_so_far(text, advances, room, broken),
        0 <= from <= text.len(),
        broken.line.0 == broken.line.1 || (broken.line.1 + 1 == from && text[broken.line.1] == ' '),
    ensures
        good_so_far(
            text,
            advances,
            room,
            take_word(advances, room, broken, from, word_end(text, from)),
        ),
        ({
            let line = take_word(advances, room, broken, from, word_end(text, from)).line;
            line.0 == line.1 || line.1 == word_end(text, from)
        }),
{
    let to = word_end(text, from);
    word_ends_on(text, from);
    let (start, end) = broken.line;
    let first = if start == end {
        from
    } else {
        start
    };
    if width_between(advances, first, to) <= room {
        assert forall|i: int| first <= i < to implies #[trigger] text[i] != '\n' by {
            if i < end {
                assert(text[i] != '\n');
            }
        }
    } else {
        let next = Broken {
            lines: if start == end {
                broken.lines
            } else {
                broken.lines.push(broken.line)
            },
            line: (from, from),
        };
        cutting_a_word_is_good(text, advances, room, next, to);
    }
}

proof fn going_on_is_good(
    text: Seq<char>,
    advances: Seq<u64>,
    room: int,
    broken: Broken,
    from: int,
)
    requires
        0 <= room,
        good_so_far(text, advances, room, broken),
        0 <= from <= text.len(),
        broken.line.0 == broken.line.1 || (broken.line.1 + 1 == from && text[broken.line.1] == ' '),
    ensures
        forall|i: int|
            0 <= i < lines_from(text, advances, room, broken, from).len() ==> good_line(
                text,
                advances,
                room,
                #[trigger] lines_from(text, advances, room, broken, from)[i],
            ),
        lines_from(text, advances, room, broken, from).len() > 0,
    decreases text.len() - from,
{
    let to = word_end(text, from);
    word_ends_on(text, from);
    taking_a_word_is_good(text, advances, room, broken, from);
    let next = take_word(advances, room, broken, from, to);
    if to < text.len() {
        if text[to] == '\n' {
            going_on_is_good(
                text,
                advances,
                room,
                Broken { lines: next.lines.push(next.line), line: (to + 1, to + 1) },
                to + 1,
            );
        } else {
            going_on_is_good(text, advances, room, next, to + 1);
        }
    }
}

/// Every line of a wrapped text fits the room, unless a single character is wider than that, and
/// none runs over a line break; and there is always a line.
pub proof fn wrapped_lines_fit(text: Seq<char>, advances: Seq<u64>, room: int)
    requires
        0 <= room,
        advances.len() == text.len(),
    ensures
        wrapped(text, advances, room).len() > 0,
        forall|i: int|
            0 <= i < wrapped(text, advances, room).len() ==> good_line(
                text,
                advances,
                room,
                #[trigger] wrapped(text, advances, room)[i],
            ),
{
    going_on_is_good(text, advances, room, Broken { lines: Seq::empty(), line: (0, 0) }, 0);
}

/// Whether one of the lines holds the character at a place.
pub open spec fn holds(lines: Seq<(int, int)>, i: int) -> bool {
    exists|k: int| 0 <= k < lines.len() && (#[trigger] lines[k]).0 <= i < lines[k].1
}

/// Whether a character is one that lines are made of.
pub open spec fn is_kept(c: char) -> bool {
    c != ' ' && c != '\n'
}

/// Whether the lines hold everything before `to` but spaces and line breaks.
pub open spec fn hold_all(text: Seq<char>, lines: Seq<(int, int)>, to: int) -> bool {
    forall|i: int| 0 <= i < to && is_kept(#[trigger] text[i]) ==> holds(lines, i)
}

/// A line more holds no less, nor does one that starts no later and ends no sooner.
proof fn more_lines_hold_more(lines: Seq<(int, int)>, line: (int, int), next: (int, int), i: int)
    requires
        holds(lines.push(line), i),
    ensures
        holds(lines.push(line).push(next), i),
        line.0 == line.1 || (next.0 <= line.0 && line.1 <= next.1) ==> holds(lines.push(next), i),
{
    let all = lines.push(line);
    let k = choose|k: int| 0 <= k < all.len() && (#[trigger] all[k]).0 <= i < all[k].1;
    assert(all.push(next)[k] == all[k]);
    if k < lines.len() {
        assert(lines.push(next)[k] == all[k]);
    } else {
        assert(lines.push(next)[k] == next);
    }
}

proof fn cutting_a_word_keeps_it(
    text: Seq<char>,
    advances: Seq<u64>,
    room: int,
    broken: Broken,
    to: int,
)
    requires
        0 <= broken.line.0 <= broken.line.1 <= to <= text.len(),
        hold_all(text, broken.lines.push(broken.line), broken.line.1),
    ensures
        ({
            let done = cut_word(advances, room, broken, to);
            hold_all(text, done.lines.push(done.line), to) && 0 <= done.line.0 <= done.line.1
                == to
        }),
    decreases to - broken.line.1,
{
    let (start, end) = broken.line;
    if end < to {
        let next = if width_between(advances, start, end + 1) > room && end > start {
            Broken { lines: broken.lines.push(broken.line), line: (end, end + 1) }
        } else {
            Broken { lines: broken.lines, line: (start, end + 1) }
        };
        assert forall|i: int| 0 <= i < end + 1 && is_kept(#[trigger] text[i]) implies holds(
            next.lines.push(next.line),
            i,
        ) by {
            if i < end {
                more_lines_hold_more(broken.lines, broken.line, next.line, i);
            } else {
                assert(next.lines.push(next.line)[next.lines.len() as int] == next.line);
            }
        }
        cutting_a_word_keeps_it(text, advances, room, next, to);
    }
}

proof fn taking_a_word_keeps_it(
    text: Seq<char>,
    advances: Seq<u64>,
    room: int,
    broken: Broken,
    from: int,
)
    requires
        0 <= from <= text.len(),
        0 <= broken.line.0 <= broken.line.1 <= from,
        hold_all(text, broken.lines.push(broken.line), from),
    ensures
        ({
            let to = word_end(text, from);
            let done = take_word(advances, room, broken, from, to);
            hold_all(text, done.lines.push(done.line), to) && 0 <= done.line.0 <= done.line.1
                == to
        }),
{
    let to = word_end(text, from);
    word_ends_on(text, from);
    let (start, end) = broken.line;
    let first = if start == end {
        from
    } else {
        start
    };
    if width_between(advances, first, to) <= room {
        let line = (first, to);
        assert forall|i: int| 0 <= i < to && is_kept(#[trigger] text[i]) implies holds(
            broken.lines.push(line),
            i,
        ) by {
            if i < from {
                more_lines_hold_more(broken.lines, broken.line, line, i);
            } else {
                assert(broken.lines.push(line)[broken.lines.len() as int] == line);
            }
        }
    } else {
        let next = Broken {
            lines: if start == end {
                broken.lines
            } else {
                broken.lines.push(broken.line)
            },
            line: (from, from),
        };
        assert forall|i: int| 0 <= i < from && is_kept(#[trigger] text[i]) implies holds(
            next.lines.push(next.line),
            i,
        ) by {
            more_lines_hold_more(broken.lines, broken.line, next.line, i);
        }
        cutting_a_word_keeps_it(text, advances, room, next, to);
    }
}

proof fn going_on_keeps_everything(
    text: Seq<char>,
    advances: Seq<u64>,
    room: int,
    broken: Broken,
    from: int,
)
    requires
        0 <= from <= text.len(),
        0 <= broken.line.0 <= broken.line.1 <= from,
        hold_all(text, broken.lines.push(broken.line), from),
    ensures
        hold_all(text, lines_from(text, advances, room, broken, from), text.len() as int),
    decreases text.len() - from,
{
    let to = word_end(text, from);
    word_ends_on(text, from);
    taking_a_word_keeps_it(text, advances, room, broken, from);
    let done = take_word(advances, room, broken, from, to);
    if to < text.len() {
        let next = if text[to] == '\n' {
            Broken { lines: done.lines.push(done.line), line: (to + 1, to + 1) }
        } else {
            done
        };
        assert forall|i: int| 0 <= i < to + 1 && is_kept(#[trigger] text[i]) implies holds(
            next.lines.push(next.line),
            i,
        ) by {
            more_lines_hold_more(done.lines, done.line, (to + 1, to + 1), i);
        }
        going_on_keeps_everything(text, advances, room, next, to + 1);
    }
}

/// Wrapping loses nothing but spaces and line breaks: every other character is on a line.
pub proof fn wrapping_keeps_everything(text: Seq<char>, advances: Seq<u64>, room: int, i: int)
    requires
        0 <= i < text.len(),
        is_kept(text[i]),
    ensures
        holds(wrapped(text, advances, room), i),
{
    going_on_keeps_everything(
        text,
        advances,
        room,
        Broken { lines: Seq::empty(), line: (0, 0) },
        0,
    );
}

/// Lines as where each starts and ends.
pub open spec fn spans(lines: Seq<(usize, usize)>) -> Seq<(int, int)> {
    Seq::new(lines.len(), |i: int| (lines[i].0 as int, lines[i].1 as int))
}

fn push_line(lines: &mut Vec<(usize, usize)>, line: (usize, usize))
    ensures
        spans(final(lines)@) == spans(old(lines)@).push((line.0 as int, line.1 as int)),
{
    let ghost before = spans(lines@);
    lines.push(line);
    assert(spans(lines@) =~= before.push((line.0 as int, line.1 as int)));
}

fn width_of(advances: &Vec<u64>, from: usize, to: usize) -> (width: u64)
    requires
        from <= to <= advances.len(),
        width_between(advances@, 0, advances.len() as int) <= u64::MAX,
    ensures
        width == width_between(advances@, from as int, to as int),
{
    let mut width: u64 = 0;
    let mut i: usize = from;
    while i < to
        invariant
            from <= i <= to <= advances.len(),
            width == width_between(advances@, from as int, i as int),
            width_between(advances@, 0, advances.len() as int) <= u64::MAX,
        decreases to - i,
    {
        proof {
            widths_add_up(advances@, 0, i + 1, advances.len() as int);
            widths_add_up(advances@, 0, from as int, i + 1);
        }
        width += advances[i];
        i += 1;
    }
    width
}

/// The word up to `to` taken in a character at a time, from where `line` ends.
fn break_word(
    advances: &Vec<u64>,
    room: u64,
    lines: &mut Vec<(usize, usize)>,
    line: (usize, usize),
    to: usize,
) -> (last: (usize, usize))
    requires
        line.0 <= line.1 <= to <= advances.len(),
        width_between(advances@, 0, advances.len() as int) <= u64::MAX,
    ensures
        ({
            let done = cut_word(
                advances@,
                room as int,
                Broken { lines: spans(old(lines)@), line: (line.0 as int, line.1 as int) },
                to as int,
            );
            spans(final(lines)@) == done.lines && done.line == (last.0 as int, last.1 as int)
        }),
        last.0 <= last.1 <= to,
{
    let ghost done = cut_word(
        advances@,
        room as int,
        Broken { lines: spans(lines@), line: (line.0 as int, line.1 as int) },
        to as int,
    );
    let mut start: usize = line.0;
    let mut end: usize = line.1;
    let mut width: u64 = width_of(advances, start, end);
    while end < to
        invariant
            start <= end <= to <= advances.len(),
            width == width_between(advances@, start as int, end as int),
            width_between(advances@, 0, advances.len() as int) <= u64::MAX,
            done == cut_word(
                advances@,
                room as int,
                Broken { lines: spans(lines@), line: (start as int, end as int) },
                to as int,
            ),
        decreases to - end,
    {
        proof {
            widths_add_up(advances@, 0, end + 1, advances.len() as int);
            widths_add_up(advances@, 0, start as int, end + 1);
        }
        let wider: u64 = width + advances[end];
        if wider > room && end > start {
            push_line(lines, (start, end));
            start = end;
            width = advances[end];
            assert(width_between(advances@, end as int, end as int) == 0);
        } else {
            width = wider;
        }
        end += 1;
    }
    (start, end)
}

fn word_end_at(chars: &Vec<char>, from: usize) -> (to: usize)
    requires
        from <= chars.len(),
    ensures
        to == word_end(chars@, from as int),
        from <= to <= chars.len(),
{
    let mut to: usize = from;
    while to < chars.len() && chars[to] != ' ' && chars[to] != '\n'
        invariant
            from <= to <= chars.len(),
            word_end(chars@, from as int) == word_end(chars@, to as int),
        decreases chars.len() - to,
    {
        to += 1;
    }
    to
}

/// A text as lines no wider than `room`, at spaces where it can be, and anywhere in a word that
/// is itself too wide (a long path): where each starts and ends. `advances` are its characters'
/// widths.
#[verifier::loop_isolation(false)]
fn wrap_spans(chars: &Vec<char>, advances: &Vec<u64>, room: u64) -> (lines: Vec<(usize, usize)>)
    requires
        advances.len() == chars.len(),
        width_between(advances@, 0, advances.len() as int) <= u64::MAX,
    ensures
        spans(lines@) == wrapped(chars@, advances@, room as int),
{
    let len: usize = chars.len();
    let mut lines: Vec<(usize, usize)> = Vec::new();
    let mut line: (usize, usize) = (0, 0);
    let mut from: usize = 0;
    assert(spans(lines@) =~= Seq::empty());
    loop
        invariant
            line.0 <= line.1 <= from <= len,
            wrapped(chars@, advances@, room as int) == lines_from(
                chars@,
                advances@,
                room as int,
                Broken { lines: spans(lines@), line: (line.0 as int, line.1 as int) },
                from as int,
            ),
        decreases len - from,
    {
        let to: usize = word_end_at(chars, from);
        let empty = line.0 == line.1;
        let first: usize = if empty {
            from
        } else {
            line.0
        };
        if width_of(advances, first, to) <= room {
            line = (first, to);
        } else {
            if !empty {
                push_line(&mut lines, line);
            }
            line = break_word(advances, room, &mut lines, (from, from), to);
        }
        if to == len {
            push_line(&mut lines, line);
            return lines;
        }
        if chars[to] == '\n' {
            push_line(&mut lines, line);
            line = (to + 1, to + 1);
        }
        from = to + 1;
    }
}

/// The lines of a text, from where each starts and ends.
pub open spec fn line_texts(text: Seq<char>, lines: Seq<(int, int)>) -> Seq<Seq<char>> {
    Seq::new(lines.len(), |i: int| text.subrange(lines[i].0, lines[i].1))
}

/// A text as lines no wider than `room`, at spaces where it can be, and anywhere in a word that
/// is itself too wide (a long path). `advances` are its characters' widths.
pub fn wrap(text: &str, advances: &Vec<u64>, room: u64) -> (lines: Vec<String>)
    requires
        advances.len() == text@.len(),
        width_between(advances@, 0, advances.len() as int) <= u64::MAX,
    ensures
        text_views(lines@) == line_texts(text@, wrapped(text@, advances@, room as int)),
{
    let chars = chars_of(text);
    let places = wrap_spans(&chars, advances, room);
    let ghost all = line_texts(text@, spans(places@));
    proof {
        wrapped_lines_fit(text@, advances@, room as int);
    }
    let mut lines: Vec<String> = Vec::new();
    let mut i: usize = 0;
    while i < places.len()
        invariant
            i <= places.len(),
            chars@ == text@,
            all == line_texts(text@, spans(places@)),
            spans(places@) == wrapped(text@, advances@, room as int),
            forall|k: int|
                0 <= k < wrapped(text@, advances@, room as int).len() ==> good_line(
                    text@,
                    advances@,
                    room as int,
                    #[trigger] wrapped(text@, advances@, room as int)[k],
                ),
            text_views(lines@) =~= all.take(i as int),
        decreases places.len() - i,
    {
        let (start, end) = places[i];
        assert(spans(places@)[i as int] == (start as int, end as int));
        assert(good_line(text@, advances@, room as int, spans(places@)[i as int]));
        let ghost so_far = text_views(lines@);
        let line = text_between(&chars, start, end);
        assert(line@ == all[i as int]);
        lines.push(line);
        assert(text_views(lines@) =~= so_far.push(line@));
        i += 1;
    }
    assert(text_views(lines@) =~= all);
    lines
}

/// As much of a text is kept as fits. Cut at its end, one more character would not fit; cut in its
/// middle, the end takes no more than half of the room, and neither one more character of it nor one
/// more of the beginning would fit.
pub proof fn as_much_is_kept_as_fits(
    advances: Seq<u64>,
    ellipsis: int,
    room: int,
    cut: Cut,
    head: usize,
    tail: usize,
)
    requires
        0 <= ellipsis,
        0 <= room,
        advances.len() <= usize::MAX,
        is_fitted(advances, ellipsis, room, cut, Fitted::Cut { head, tail }),
    ensures
        cut == Cut::Tail ==> tail == advances.len() && width_between(advances, 0, head + 1)
            + ellipsis > room,
        cut == Cut::Middle ==> {
            let end = width_between(advances, tail as int, advances.len() as int);
            &&& 2 * end <= room - ellipsis
            &&& tail > 0 ==> 2 * width_between(advances, tail - 1, advances.len() as int) > room
                - ellipsis
            &&& head < tail ==> width_between(advances, 0, head + 1) + ellipsis + end > room
        },
        width_between(advances, 0, advances.len() as int) > room,
{
    let len = advances.len() as int;
    let left = room - ellipsis;
    what_is_left_fits(advances, ellipsis, room, cut, Fitted::Cut { head, tail });
    match cut {
        Cut::Tail => {
            one_more_head_does_not_fit(advances, len, left);
            heads_fit(advances, len, left);
        },
        Cut::Middle => {
            one_more_tail_does_not_fit(advances, 0, left);
            tails_fit(advances, 0, left);
            let start = tails(advances, 0, left);
            let end = width_between(advances, start, len);
            one_more_head_does_not_fit(advances, start, left - end);
            heads_fit(advances, start, left - end);
        },
    }
}

proof fn one_more_head_does_not_fit(advances: Seq<u64>, count: int, room: int)
    requires
        0 <= count <= advances.len(),
    ensures
        0 <= heads(advances, count, room) <= count,
        heads(advances, count, room) < count ==> width_between(
            advances,
            0,
            heads(advances, count, room) + 1,
        ) > room,
    decreases count,
{
    if count > 0 && width_between(advances, 0, count) > room {
        one_more_head_does_not_fit(advances, count - 1, room);
    }
}

proof fn one_more_tail_does_not_fit(advances: Seq<u64>, from: int, room: int)
    requires
        0 <= from <= advances.len(),
    ensures
        from <= tails(advances, from, room) <= advances.len(),
        tails(advances, from, room) > from ==> 2 * width_between(
            advances,
            tails(advances, from, room) - 1,
            advances.len() as int,
        ) > room,
    decreases advances.len() - from,
{
    if from < advances.len() && 2 * width_between(advances, from, advances.len() as int) > room {
        one_more_tail_does_not_fit(advances, from + 1, room);
    }
}

/// A cut text is the beginning of the text, an ellipsis and its end, as many characters of each as
/// were kept.
pub proof fn a_cut_text_is_its_two_ends(text: Seq<char>, head: usize, tail: usize, i: int)
    requires
        head <= tail <= text.len(),
    ensures
        ({
            let shown = cut_text(text, Fitted::Cut { head, tail });
            &&& shown.len() == head + 1 + (text.len() - tail)
            &&& 0 <= i < head ==> shown[i] == text[i]
            &&& shown[head as int] == '…'
            &&& 0 <= i < text.len() - tail ==> shown[head + 1 + i] == text[tail + i]
        }),
        cut_text(text, Fitted::Whole) == text,
{
    reveal_strlit("…");
}

/// A text that fits the room, with no line break in it, is one line.
pub proof fn a_text_that_fits_is_one_line(text: Seq<char>, advances: Seq<u64>, room: int)
    requires
        advances.len() == text.len(),
        width_between(advances, 0, text.len() as int) <= room,
        forall|i: int| 0 <= i < text.len() ==> #[trigger] text[i] != '\n',
    ensures
        wrapped(text, advances, room).len() == 1,
{
    stays_one_line(text, advances, room, (0, 0), 0);
}

proof fn stays_one_line(
    text: Seq<char>,
    advances: Seq<u64>,
    room: int,
    line: (int, int),
    from: int,
)
    requires
        advances.len() == text.len(),
        width_between(advances, 0, text.len() as int) <= room,
        forall|i: int| 0 <= i < text.len() ==> #[trigger] text[i] != '\n',
        0 <= line.0 <= line.1 <= from <= text.len(),
    ensures
        lines_from(text, advances, room, Broken { lines: Seq::empty(), line }, from).len() == 1,
    decreases text.len() - from,
{
    let to = word_end(text, from);
    word_ends_on(text, from);
    let start = if line.0 == line.1 {
        from
    } else {
        line.0
    };
    widths_add_up(advances, 0, start, to);
    widths_add_up(advances, 0, to, text.len() as int);
    let next = take_word(advances, room, Broken { lines: Seq::empty(), line }, from, to);
    assert(next == (Broken { lines: Seq::empty(), line: (start, to) }));
    if to < text.len() {
        stays_one_line(text, advances, room, (start, to), to + 1);
    }
}

/// A line ends only where it has to: at a line break, or before a word, or the rest of one, some of
/// which would not have fitted after it. What comes after it starts no earlier than it ends.
pub proof fn a_line_is_broken_only_where_it_is_full(
    text: Seq<char>,
    advances: Seq<u64>,
    room: int,
    i: int,
)
    requires
        advances.len() == text.len(),
        0 <= i < wrapped(text, advances, room).len() - 1,
    ensures
        ({
            let lines = wrapped(text, advances, room);
            let (line, next) = (lines[i], lines[i + 1].0);
            &&& 0 <= line.0 <= line.1 <= next <= text.len()
            &&& {
                ||| exists|p: int| line.1 <= p < next && #[trigger] text[p] == '\n'
                ||| exists|to: int|
                    next <= to <= text.len() && #[trigger] width_between(advances, line.0, to)
                        > room && forall|k: int|
                        next <= k < to ==> #[trigger] text[k] != ' ' && text[k] != '\n'
            }
        }),
{
    let start = Broken { lines: Seq::empty(), line: (0, 0) };
    going_on_breaks_where_full(text, advances, room, start, 0);
    let lines = wrapped(text, advances, room);
    assert(is_broken_off(text, advances, room, lines[i], lines[i + 1].0));
}

spec fn is_broken_off(
    text: Seq<char>,
    advances: Seq<u64>,
    room: int,
    line: (int, int),
    next: int,
) -> bool {
    &&& 0 <= line.0 <= line.1 <= next <= text.len()
    &&& {
        ||| exists|p: int| line.1 <= p < next && #[trigger] text[p] == '\n'
        ||| exists|to: int|
            next <= to <= text.len() && #[trigger] width_between(advances, line.0, to) > room
                && forall|k: int|
                next <= k < to ==> #[trigger] text[k] != ' ' && text[k] != '\n'
    }
}

spec fn is_broken_where_full(
    text: Seq<char>,
    advances: Seq<u64>,
    room: int,
    broken: Broken,
    from: int,
) -> bool {
    &&& 0 <= broken.line.0 <= broken.line.1 <= from <= text.len()
    &&& forall|i: int|
        0 <= i < broken.lines.len() - 1 ==> is_broken_off(
            text,
            advances,
            room,
            #[trigger] broken.lines[i],
            broken.lines[i + 1].0,
        )
    &&& broken.lines.len() > 0 ==> is_broken_off(
        text,
        advances,
        room,
        broken.lines.last(),
        broken.line.0,
    )
}

proof fn still_broken_off(
    text: Seq<char>,
    advances: Seq<u64>,
    room: int,
    line: (int, int),
    next: int,
    later: int,
)
    requires
        advances.len() == text.len(),
        is_broken_off(text, advances, room, line, next),
        next <= later <= text.len(),
    ensures
        is_broken_off(text, advances, room, line, later),
{
    if exists|p: int| line.1 <= p < next && #[trigger] text[p] == '\n' {
        let p = choose|p: int| line.1 <= p < next && #[trigger] text[p] == '\n';
        assert(text[p] == '\n');
    } else {
        let to = choose|to: int|
            next <= to <= text.len() && #[trigger] width_between(advances, line.0, to) > room
                && forall|k: int|
                next <= k < to ==> #[trigger] text[k] != ' ' && text[k] != '\n';
        if to < later {
            widths_add_up(advances, line.0, to, later);
            assert(width_between(advances, line.0, later) > room);
        } else {
            assert(width_between(advances, line.0, to) > room);
        }
    }
}

proof fn cutting_breaks_where_full(
    text: Seq<char>,
    advances: Seq<u64>,
    room: int,
    broken: Broken,
    to: int,
)
    requires
        advances.len() == text.len(),
        is_broken_where_full(text, advances, room, broken, to),
        forall|k: int| broken.line.1 <= k < to ==> #[trigger] text[k] != ' ' && text[k] != '\n',
    ensures
        is_broken_where_full(text, advances, room, cut_word(advances, room, broken, to), to),
    decreases to - broken.line.1,
{
    let (start, end) = broken.line;
    if end < to {
        if width_between(advances, start, end + 1) > room && end > start {
            let next = Broken { lines: broken.lines.push(broken.line), line: (end, end + 1) };
            assert(is_broken_off(text, advances, room, broken.line, end)) by {
                assert(text[end] != ' ');
                assert(width_between(advances, broken.line.0, end + 1) > room);
            }
            pushing_keeps_breaks(text, advances, room, broken, to);
            cutting_breaks_where_full(text, advances, room, next, to);
        } else {
            let next = Broken { lines: broken.lines, line: (start, end + 1) };
            cutting_breaks_where_full(text, advances, room, next, to);
        }
    }
}

proof fn pushing_keeps_breaks(
    text: Seq<char>,
    advances: Seq<u64>,
    room: int,
    broken: Broken,
    from: int,
)
    requires
        is_broken_where_full(text, advances, room, broken, from),
    ensures
        ({
            let lines = broken.lines.push(broken.line);
            forall|i: int|
                0 <= i < lines.len() - 1 ==> is_broken_off(
                    text,
                    advances,
                    room,
                    #[trigger] lines[i],
                    lines[i + 1].0,
                )
        }),
{
    let lines = broken.lines.push(broken.line);
    assert forall|i: int| 0 <= i < lines.len() - 1 implies is_broken_off(
        text,
        advances,
        room,
        #[trigger] lines[i],
        lines[i + 1].0,
    ) by {
        if i + 1 < broken.lines.len() {
            assert(is_broken_off(
                text,
                advances,
                room,
                broken.lines[i],
                broken.lines[i + 1].0,
            ));
        } else {
            assert(lines[i] == broken.lines.last());
        }
    }
}

proof fn going_on_breaks_where_full(
    text: Seq<char>,
    advances: Seq<u64>,
    room: int,
    broken: Broken,
    from: int,
)
    requires
        advances.len() == text.len(),
        is_broken_where_full(text, advances, room, broken, from),
    ensures
        ({
            let lines = lines_from(text, advances, room, broken, from);
            forall|i: int|
                0 <= i < lines.len() - 1 ==> is_broken_off(
                    text,
                    advances,
                    room,
                    #[trigger] lines[i],
                    lines[i + 1].0,
                )
        }),
    decreases text.len() - from,
{
    let to = word_end(text, from);
    word_ends_on(text, from);
    let (start, end) = broken.line;
    let next = take_word(advances, room, broken, from, to);
    if start == end && broken.lines.len() > 0 {
        still_broken_off(text, advances, room, broken.lines.last(), start, from);
    }
    let first = if start == end {
        from
    } else {
        start
    };
    if width_between(advances, first, to) > room {
        let cut = Broken {
            lines: if start == end {
                broken.lines
            } else {
                broken.lines.push(broken.line)
            },
            line: (from, from),
        };
        if start != end {
            assert(is_broken_off(text, advances, room, broken.line, from)) by {
                assert(width_between(advances, broken.line.0, to) > room);
            }
            pushing_keeps_breaks(text, advances, room, broken, from);
        }
        cutting_breaks_where_full(text, advances, room, cut, to);
    }
    assert(is_broken_where_full(text, advances, room, next, to));
    pushing_keeps_breaks(text, advances, room, next, to);
    if to < text.len() {
        if text[to] == '\n' {
            let on = Broken { lines: next.lines.push(next.line), line: (to + 1, to + 1) };
            assert(is_broken_off(text, advances, room, next.line, to + 1)) by {
                assert(text[to] == '\n');
            }
            going_on_breaks_where_full(text, advances, room, on, to + 1);
            assert(lines_from(text, advances, room, broken, from) == lines_from(
                text,
                advances,
                room,
                on,
                to + 1,
            ));
        } else {
            going_on_breaks_where_full(text, advances, room, next, to + 1);
            assert(lines_from(text, advances, room, broken, from) == lines_from(
                text,
                advances,
                room,
                next,
                to + 1,
            ));
        }
    } else {
        assert(lines_from(text, advances, room, broken, from) == next.lines.push(next.line));
    }
}

/// Nothing is left exactly where the text does not fit and the room is no wider than the ellipsis.
pub proof fn nothing_is_left_without_room(
    advances: Seq<u64>,
    ellipsis: int,
    room: int,
    cut: Cut,
    fitted: Fitted,
)
    requires
        is_fitted(advances, ellipsis, room, cut, fitted),
    ensures
        fitted is Nothing <==> width_between(advances, 0, advances.len() as int) > room && room
            <= ellipsis,
        fitted is Whole <==> width_between(advances, 0, advances.len() as int) <= room,
{
}

} // verus!
