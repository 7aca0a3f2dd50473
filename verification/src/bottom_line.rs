//! The bottom of the terminal: the status line, and under it the help line, an endless strip of
//! the keys and a tip in turn, that rests at each stop and then slides to the next.

use vstd::prelude::*;
use vstd::string::StrSliceExecFns;

use crate::count::{append_count, grouped};
use crate::entries::{FileMetadata, FileType};
use crate::keybind::{label_of, KeyBinding, Keybinds};
use crate::text::{append, chars_of, literal, lossy, lossy_text};

verus! {

/// A key as the help shows it.
pub open spec fn shown(binding: KeyBinding) -> Seq<char> {
    label_of(binding.code)
}

/// What cannot be done until the scan is done, and so is left out of the help before.
pub open spec fn scanned_help(kb: Keybinds, scanning: bool) -> Seq<char> {
    if scanning {
        Seq::empty()
    } else {
        (((((("<"@ + shown(kb.delete)) + "> - delete, <"@) + shown(kb.rescan)) + "/"@) + shown(
            kb.rescan_all,
        )) + "> - rescan folder/all, "@)
    }
}

/// The key that moves between the list and the treemap, while there is a list.
pub open spec fn panel_help(kb: Keybinds, switch_panel: bool) -> Seq<char> {
    if switch_panel {
        ("<"@ + shown(kb.switch_panel)) + "> - list/map, "@
    } else {
        Seq::empty()
    }
}

/// The help line's keys.
pub open spec fn legend_words(kb: Keybinds, scanning: bool, switch_panel: bool) -> Seq<char> {
    "<arrows> - move around, "@ + panel_help(kb, switch_panel) + "<"@ + shown(kb.enter)
        + "> - enter folder, <"@ + shown(kb.parent) + "> - parent folder, "@ + scanned_help(
        kb,
        scanning,
    ) + "<"@ + shown(kb.zoom_in) + "/"@ + shown(kb.zoom_out) + "/"@ + shown(kb.reset_zoom)
        + "> - zoom in/out/reset, <"@ + shown(kb.toggle_size) + "> - disk/apparent size, <"@
        + shown(kb.quit) + "> - quit"@
}

fn append_key(text: &mut String, binding: KeyBinding)
    ensures
        final(text)@ == old(text)@ + shown(binding),
{
    let label = binding.label();
    append(text, label.as_str());
}

fn append_scanned_help(text: &mut String, kb: &Keybinds, scanning: bool)
    ensures
        final(text)@ == old(text)@ + scanned_help(*kb, scanning),
{
    let ghost before = text@;
    if !scanning {
        append(text, "<");
        append_key(text, kb.delete);
        append(text, "> - delete, <");
        append_key(text, kb.rescan);
        append(text, "/");
        append_key(text, kb.rescan_all);
        append(text, "> - rescan folder/all, ");
    }
    assert(text@ =~= before + scanned_help(*kb, scanning));
}

fn append_panel_help(text: &mut String, kb: &Keybinds, switch_panel: bool)
    ensures
        final(text)@ == old(text)@ + panel_help(*kb, switch_panel),
{
    let ghost before = text@;
    if switch_panel {
        append(text, "<");
        append_key(text, kb.switch_panel);
        append(text, "> - list/map, ");
    }
    assert(text@ =~= before + panel_help(*kb, switch_panel));
}

/// The help line's keys, as they are bound, so that it cannot disagree with them. While the scan
/// runs it leaves out what has to wait.
pub fn controls_legend(kb: &Keybinds, scanning: bool, switch_panel: bool) -> (legend: String)
    ensures
        legend@ == legend_words(*kb, scanning, switch_panel),
{
    let mut legend = literal("<arrows> - move around, ");
    append_panel_help(&mut legend, kb, switch_panel);
    append(&mut legend, "<");
    append_key(&mut legend, kb.enter);
    append(&mut legend, "> - enter folder, <");
    append_key(&mut legend, kb.parent);
    append(&mut legend, "> - parent folder, ");
    append_scanned_help(&mut legend, kb, scanning);
    append(&mut legend, "<");
    append_key(&mut legend, kb.zoom_in);
    append(&mut legend, "/");
    append_key(&mut legend, kb.zoom_out);
    append(&mut legend, "/");
    append_key(&mut legend, kb.reset_zoom);
    append(&mut legend, "> - zoom in/out/reset, <");
    append_key(&mut legend, kb.toggle_size);
    append(&mut legend, "> - disk/apparent size, <");
    append_key(&mut legend, kb.quit);
    append(&mut legend, "> - quit");
    legend
}

/// The tips that are always there first.
pub open spec fn first_tips() -> Seq<Seq<char>> {
    seq![
        "Tip: Ctrl+click entries in the list or the treemap to mark several at once"@,
        "Tip: right-click an entry to copy its path, relative to where duscape was started"@,
        "Tip: double right-click copies the absolute path instead"@,
        "Tip: double-click a folder to go into it"@,
    ]
}

/// The tip on the list, while there is one.
pub open spec fn panel_tips(kb: Keybinds, switch_panel: bool) -> Seq<Seq<char>> {
    if switch_panel {
        seq![
            ("Tip: Shift+Up/Down in the list marks a range and copies its paths; <"@ + shown(
                kb.switch_panel,
            )) + "> moves between the list and the treemap"@,
        ]
    } else {
        Seq::empty()
    }
}

/// The tips on what has to wait for the scan.
pub open spec fn scanned_tips(kb: Keybinds, scanning: bool) -> Seq<Seq<char>> {
    if scanning {
        Seq::empty()
    } else {
        seq![
            ("Tip: <"@ + shown(kb.delete)) + "> deletes every marked entry at once, after asking"@,
            ((("Tip: <"@ + shown(kb.rescan))
                + "> rescans the selected folder after it changes on disk; <"@) + shown(
                kb.rescan_all,
            )) + "> rescans everything"@,
        ]
    }
}

/// The tips that are always there last.
pub open spec fn last_tips(kb: Keybinds) -> Seq<Seq<char>> {
    seq![
        ((("Tip: <"@ + shown(kb.zoom_in)) + "> zooms in to show more nested folders as tiles, <"@)
            + shown(kb.zoom_out)) + "> back out"@,
        ("Tip: <"@ + shown(kb.toggle_size))
            + "> switches between space used on disk and apparent size (file lengths), without scanning again"@,
        "Tip: every key can be rebound in ~/.config/duscape/config.toml"@,
        "Tip: when files fail to read, `duscape --issues FOLDER` prints why, and where"@,
    ]
}

/// What the help line tells between showings of the keys.
pub open spec fn tips_words(kb: Keybinds, scanning: bool, switch_panel: bool) -> Seq<Seq<char>> {
    ((first_tips() + panel_tips(kb, switch_panel)) + scanned_tips(kb, scanning)) + last_tips(kb)
}

/// Texts by their characters.
pub open spec fn text_views(texts: Seq<String>) -> Seq<Seq<char>> {
    Seq::new(texts.len(), |i: int| texts[i]@)
}

fn push_tip(tips: &mut Vec<String>, tip: String)
    ensures
        text_views(final(tips)@) == text_views(old(tips)@).push(tip@),
{
    let ghost before = text_views(tips@);
    tips.push(tip);
    assert(text_views(tips@) =~= before.push(tip@));
}

/// What the help line tells an idle reader between showings of the keys, with the keys bound.
pub fn tips(kb: &Keybinds, scanning: bool, switch_panel: bool) -> (tips: Vec<String>)
    ensures
        text_views(tips@) == tips_words(*kb, scanning, switch_panel),
{
    let mut tips: Vec<String> = Vec::new();
    push_tip(
        &mut tips,
        literal("Tip: Ctrl+click entries in the list or the treemap to mark several at once"),
    );
    push_tip(
        &mut tips,
        literal(
            "Tip: right-click an entry to copy its path, relative to where duscape was started",
        ),
    );
    push_tip(&mut tips, literal("Tip: double right-click copies the absolute path instead"));
    push_tip(&mut tips, literal("Tip: double-click a folder to go into it"));
    assert(text_views(tips@) =~= first_tips());
    if switch_panel {
        let mut tip = literal(
            "Tip: Shift+Up/Down in the list marks a range and copies its paths; <",
        );
        append_key(&mut tip, kb.switch_panel);
        append(&mut tip, "> moves between the list and the treemap");
        push_tip(&mut tips, tip);
    }
    let ghost so_far = first_tips() + panel_tips(*kb, switch_panel);
    assert(text_views(tips@) =~= so_far);
    if !scanning {
        let mut tip = literal("Tip: <");
        append_key(&mut tip, kb.delete);
        append(&mut tip, "> deletes every marked entry at once, after asking");
        push_tip(&mut tips, tip);
        let mut tip = literal("Tip: <");
        append_key(&mut tip, kb.rescan);
        append(&mut tip, "> rescans the selected folder after it changes on disk; <");
        append_key(&mut tip, kb.rescan_all);
        append(&mut tip, "> rescans everything");
        push_tip(&mut tips, tip);
    }
    let ghost so_far = so_far + scanned_tips(*kb, scanning);
    assert(text_views(tips@) =~= so_far);
    let mut tip = literal("Tip: <");
    append_key(&mut tip, kb.zoom_in);
    append(&mut tip, "> zooms in to show more nested folders as tiles, <");
    append_key(&mut tip, kb.zoom_out);
    append(&mut tip, "> back out");
    push_tip(&mut tips, tip);
    let mut tip = literal("Tip: <");
    append_key(&mut tip, kb.toggle_size);
    append(
        &mut tip,
        "> switches between space used on disk and apparent size (file lengths), without scanning again",
    );
    push_tip(&mut tips, tip);
    push_tip(&mut tips, literal("Tip: every key can be rebound in ~/.config/duscape/config.toml"));
    push_tip(
        &mut tips,
        literal("Tip: when files fail to read, `duscape --issues FOLDER` prints why, and where"),
    );
    assert(text_views(tips@) =~= so_far + last_tips(*kb));
    tips
}

/// Where the help line is, and whether it is on the move. The position is kept within a segment,
/// not as an offset along the strip, so that when the segment's text changes nothing already on
/// screen jumps. Times are in nanoseconds.
#[derive(Clone, Copy, Debug, PartialEq, Eq)]
pub struct Ticker {
    /// Even segments are the keys; odd ones the tips, in turn.
    pub segment: usize,
    /// Columns of the segment off the left edge at the current stop.
    pub column: usize,
    pub slide: Option<Slide>,
    /// When the line reached this stop. `None` until it first moves: it has been there since the
    /// program started.
    pub arrived: Option<u64>,
}

/// A move from one stop to the next, in columns of the current segment; `to` may run past its
/// end, into the next.
#[derive(Clone, Copy, Debug, PartialEq, Eq, Structural)]
pub struct Slide {
    pub from: usize,
    pub to: usize,
    /// Headed for the next segment's start rather than a page within this one.
    pub to_next: bool,
    pub started: u64,
    /// Where it was last drawn.
    pub shown: usize,
}

impl Default for Ticker {
    fn default() -> (ticker: Self)
        ensures
            ticker == (Ticker { segment: 0, column: 0, slide: None, arrived: None }),
    {
        Ticker { segment: 0, column: 0, slide: None, arrived: None }
    }
}

/// How long a slide takes.
pub const SLIDE: u64 = 80_000_000;

/// The shortest time the line stands still at a stop, counted from its arrival or the last key
/// press, whichever is later.
pub const REST: u64 = 5_000_000_000;

/// Ticks while sliding are this far apart: about 60 a second.
pub const FRAME: u64 = 16_000_000;

/// Ticks while resting, which only have to notice that the rest is over.
pub const IDLE_TICK: u64 = 250_000_000;

/// Columns a page of a long segment repeats from the page before, so the reader keeps their
/// place.
pub const PAGE_OVERLAP: usize = 6;

/// How many columns there are between one segment and the next.
pub const GAP: usize = 7;

/// What is between one segment and the next.
pub open spec fn separator() -> Seq<char> {
    "   ·   "@
}

impl Ticker {
    /// Whether a slide goes forward.
    pub open spec fn wf(self) -> bool {
        self.slide is Some ==> self.slide->0.from <= self.slide->0.to
    }

    /// Whether it is sliding, and so wants frames rather than idle ticks.
    pub fn sliding(&self) -> (sliding: bool)
        ensures
            sliding == (self.slide is Some),
    {
        self.slide.is_some()
    }
}

/// The segments of the strip, for the keys and the screen as they are.
pub struct Strip {
    pub legend: String,
    pub tips: Vec<String>,
}

impl Strip {
    /// How many segments there are before they come round.
    pub open spec fn count(self) -> int {
        if self.tips.len() > 0 {
            2 * self.tips.len()
        } else {
            1
        }
    }

    /// A segment's text: the keys, and between their showings the tips in turn.
    pub open spec fn text(self, index: int) -> Seq<char> {
        if index % 2 == 0 || self.tips.len() == 0 {
            self.legend@
        } else {
            self.tips@[(index / 2) % (self.tips.len() as int)]@
        }
    }

    /// Whether the segments, and the columns of each with the separator, can be counted.
    pub open spec fn wf(self) -> bool {
        &&& self.legend@.len() + GAP <= usize::MAX
        &&& self.tips.len() * 2 <= usize::MAX
        &&& forall|i: int|
            0 <= i < self.tips.len() ==> (#[trigger] self.tips@[i])@.len() + GAP <= usize::MAX
    }

    /// The last stop of a segment: where its end is at the right edge.
    pub open spec fn last_stop(self, index: int, width: int) -> int {
        if self.text(index).len() > width {
            self.text(index).len() - width
        } else {
            0
        }
    }

    /// Where the line stands at rest.
    pub open spec fn rest_at(self, ticker: Ticker, width: int) -> int {
        if ticker.column < self.last_stop(ticker.segment as int, width) {
            ticker.column as int
        } else {
            self.last_stop(ticker.segment as int, width)
        }
    }
}

/// How far one page is from the next.
pub open spec fn page_step(width: int) -> int {
    if width > PAGE_OVERLAP + 1 {
        width - PAGE_OVERLAP
    } else {
        1
    }
}

/// The stops from a place on: a page further each time, and the last.
pub open spec fn stops_from(at: int, last: int, step: int) -> Seq<int>
    decreases if at < last {
        last - at
    } else {
        0
    },
{
    if at < last && step > 0 {
        seq![at] + stops_from(at + step, last, step)
    } else {
        seq![last]
    }
}

/// The first stop past a place.
pub open spec fn stop_past(stops: Seq<int>, from: int) -> Option<int>
    decreases stops.len(),
{
    if stops.len() == 0 {
        None
    } else if stops[0] > from {
        Some(stops[0])
    } else {
        stop_past(stops.drop_first(), from)
    }
}

/// How many columns of a slide are done: fast away and gentle into place, as the cube of what is
/// left falls, to the nearest column.
pub open spec fn eased(columns: int, elapsed: int) -> int {
    let left = SLIDE - elapsed;
    let whole = SLIDE * SLIDE * SLIDE;
    (columns * (whole - left * left * left) + whole / 2) / whole
}

impl Strip {
    /// The segment shown, counted round.
    pub open spec fn round(self, ticker: Ticker) -> Ticker {
        Ticker { segment: (ticker.segment as int % self.count()) as usize, ..ticker }
    }

    /// A ticker that is sliding, and whether what is on screen changed.
    pub open spec fn slid(self, ticker: Ticker, slide: Slide, now: u64) -> (Ticker, bool) {
        let elapsed = if now > slide.started {
            now - slide.started
        } else {
            0
        };
        if elapsed >= SLIDE {
            (
                Ticker {
                    segment: if slide.to_next {
                        ((ticker.segment + 1) % self.count()) as usize
                    } else {
                        ticker.segment
                    },
                    column: if slide.to_next {
                        0
                    } else {
                        slide.to
                    },
                    slide: None,
                    arrived: Some(now),
                },
                true,
            )
        } else {
            let shown = slide.from + eased(slide.to - slide.from, elapsed);
            (
                Ticker { slide: Some(Slide { shown: shown as usize, ..slide }), ..ticker },
                shown != slide.shown,
            )
        }
    }

    /// A ticker that has rested long enough, on its way to the next stop.
    pub open spec fn set_off(self, ticker: Ticker, width: int, now: u64) -> Ticker {
        let from = self.rest_at(ticker, width);
        let index = ticker.segment as int;
        let page = stop_past(
            stops_from(0, self.last_stop(index, width), page_step(width)),
            from,
        );
        Ticker {
            column: from as usize,
            slide: Some(
                Slide {
                    from: from as usize,
                    to: match page {
                        Some(stop) => stop as usize,
                        None => (self.text(index).len() + GAP) as usize,
                    },
                    to_next: page is None,
                    started: now,
                    shown: from as usize,
                },
            ),
            ..ticker
        }
    }

    /// A ticker moved on to `now`, and whether what is on screen changed.
    pub open spec fn advanced(
        self,
        ticker: Ticker,
        width: int,
        quiet_since: u64,
        now: u64,
    ) -> (Ticker, bool) {
        let ticker = self.round(ticker);
        match ticker.slide {
            Some(slide) => self.slid(ticker, slide, now),
            None => {
                let since = match ticker.arrived {
                    Some(arrived) => if arrived > quiet_since {
                        arrived
                    } else {
                        quiet_since
                    },
                    None => quiet_since,
                };
                if now - since < REST {
                    (ticker, false)
                } else {
                    (self.set_off(ticker, width, now), false)
                }
            },
        }
    }
}

proof fn labels_are_short(binding: KeyBinding)
    ensures
        shown(binding).len() <= 10,
{
    reveal_strlit("SPACE");
    reveal_strlit("LEFT");
    reveal_strlit("RIGHT");
    reveal_strlit("UP");
    reveal_strlit("DOWN");
    reveal_strlit("ENTER");
    reveal_strlit("ESC");
    reveal_strlit("TAB");
    reveal_strlit("BACKSPACE");
    reveal_strlit("DELETE");
    reveal_strlit("INSERT");
    reveal_strlit("HOME");
    reveal_strlit("END");
    reveal_strlit("PAGEUP");
    reveal_strlit("PAGEDOWN");
    reveal_strlit("F");
    reveal_strlit("?");
    if let crate::keybind::KeyCode::F(n) = binding.code {
        reveal_with_fuel(crate::count::decimal, 4);
        assert(crate::count::decimal(n as nat).len() <= 3);
    }
}

proof fn legends_are_short(kb: Keybinds, scanning: bool, switch_panel: bool)
    ensures
        legend_words(kb, scanning, switch_panel).len() <= 1000,
{
    reveal_strlit("<arrows> - move around, ");
    reveal_strlit("<");
    reveal_strlit("> - enter folder, <");
    reveal_strlit("> - parent folder, ");
    reveal_strlit("/");
    reveal_strlit("> - zoom in/out/reset, <");
    reveal_strlit("> - disk/apparent size, <");
    reveal_strlit("> - quit");
    reveal_strlit("> - delete, <");
    reveal_strlit("> - rescan folder/all, ");
    reveal_strlit("> - list/map, ");
    labels_are_short(kb.enter);
    labels_are_short(kb.parent);
    labels_are_short(kb.zoom_in);
    labels_are_short(kb.zoom_out);
    labels_are_short(kb.reset_zoom);
    labels_are_short(kb.toggle_size);
    labels_are_short(kb.quit);
    labels_are_short(kb.delete);
    labels_are_short(kb.rescan);
    labels_are_short(kb.rescan_all);
    labels_are_short(kb.switch_panel);
    assert(panel_help(kb, switch_panel).len() <= 100);
    assert(scanned_help(kb, scanning).len() <= 100);
}

proof fn tips_are_short(kb: Keybinds, scanning: bool, switch_panel: bool)
    ensures
        0 < tips_words(kb, scanning, switch_panel).len() <= 1000,
        forall|i: int|
            0 <= i < tips_words(kb, scanning, switch_panel).len() ==> (
            #[trigger] tips_words(kb, scanning, switch_panel)[i]).len() <= 1000,
{
    reveal_strlit("Tip: Ctrl+click entries in the list or the treemap to mark several at once");
    reveal_strlit("Tip: right-click an entry to copy its path, relative to where duscape was started");
    reveal_strlit("Tip: double right-click copies the absolute path instead");
    reveal_strlit("Tip: double-click a folder to go into it");
    reveal_strlit("Tip: Shift+Up/Down in the list marks a range and copies its paths; <");
    reveal_strlit("> moves between the list and the treemap");
    reveal_strlit("Tip: <");
    reveal_strlit("> deletes every marked entry at once, after asking");
    reveal_strlit("> rescans the selected folder after it changes on disk; <");
    reveal_strlit("> rescans everything");
    reveal_strlit("> zooms in to show more nested folders as tiles, <");
    reveal_strlit("> back out");
    reveal_strlit("> switches between space used on disk and apparent size (file lengths), without scanning again");
    reveal_strlit("Tip: every key can be rebound in ~/.config/duscape/config.toml");
    reveal_strlit("Tip: when files fail to read, `duscape --issues FOLDER` prints why, and where");
    labels_are_short(kb.zoom_in);
    labels_are_short(kb.zoom_out);
    labels_are_short(kb.toggle_size);
    labels_are_short(kb.delete);
    labels_are_short(kb.rescan);
    labels_are_short(kb.rescan_all);
    labels_are_short(kb.switch_panel);
    let tips = tips_words(kb, scanning, switch_panel);
    let (first, panel, scanned, last) = (
        first_tips(),
        panel_tips(kb, switch_panel),
        scanned_tips(kb, scanning),
        last_tips(kb),
    );
    assert forall|i: int| 0 <= i < first.len() implies (#[trigger] first[i]).len() <= 1000 by {}
    assert forall|i: int| 0 <= i < panel.len() implies (#[trigger] panel[i]).len() <= 1000 by {}
    assert forall|i: int| 0 <= i < scanned.len() implies (#[trigger] scanned[i]).len() <= 1000 by {}
    assert forall|i: int| 0 <= i < last.len() implies (#[trigger] last[i]).len() <= 1000 by {}
    assert forall|i: int| 0 <= i < tips.len() implies (#[trigger] tips[i]).len() <= 1000 by {
        let a = first.len() as int;
        let b = a + panel.len();
        let c = b + scanned.len();
        if i < a {
            assert(tips[i] == first[i]);
        } else if i < b {
            assert(tips[i] == panel[i - a]);
        } else if i < c {
            assert(tips[i] == scanned[i - b]);
        } else {
            assert(tips[i] == last[i - c]);
        }
    }
}

proof fn easing_is_within(columns: int, elapsed: int)
    requires
        0 <= columns,
        0 <= elapsed < SLIDE,
    ensures
        0 <= eased(columns, elapsed) <= columns,
        0 < SLIDE - elapsed,
        (SLIDE - elapsed) * (SLIDE - elapsed) * (SLIDE - elapsed) <= SLIDE * SLIDE * SLIDE,
        0 <= (SLIDE - elapsed) * (SLIDE - elapsed) * (SLIDE - elapsed),
{
    let left = SLIDE - elapsed;
    let whole = SLIDE * SLIDE * SLIDE;
    let cube = left * left * left;
    assert(0 <= cube <= whole) by (nonlinear_arith)
        requires
            0 < left <= 80_000_000,
            cube == left * left * left,
            whole == 80_000_000int * 80_000_000int * 80_000_000int,
    ;
    let done = columns * (whole - cube);
    assert(0 <= done <= columns * whole) by (nonlinear_arith)
        requires
            0 <= columns,
            0 <= cube <= whole,
            done == columns * (whole - cube),
    ;
    let half = whole / 2;
    assert(0 <= done + half < whole * (columns + 1)) by (nonlinear_arith)
        requires
            0 <= done <= columns * whole,
            0 <= half < whole,
    ;
    vstd::arithmetic::div_mod::lemma_div_pos_is_pos(done + half, whole);
    vstd::arithmetic::div_mod::lemma_multiply_divide_lt(done + half, whole, columns + 1);
}

/// How many columns of a slide are done.
fn ease(columns: usize, elapsed: u64) -> (done: usize)
    requires
        elapsed < SLIDE,
    ensures
        done == eased(columns as int, elapsed as int),
        done <= columns,
{
    proof {
        easing_is_within(columns as int, elapsed as int);
    }
    let left: u128 = (SLIDE - elapsed) as u128;
    assert(left * left <= 6_400_000_000_000_000 && 0 <= left * left) by (nonlinear_arith)
        requires
            0 <= left <= 80_000_000,
    ;
    let square: u128 = left * left;
    assert(square * left <= 512_000_000_000_000_000_000_000 && 0 <= square * left)
        by (nonlinear_arith)
        requires
            0 <= square <= 6_400_000_000_000_000,
            0 <= left <= 80_000_000,
    ;
    let cube: u128 = square * left;
    let whole: u128 = 512_000_000_000_000_000_000_000;
    assert(SLIDE * SLIDE * SLIDE == 512_000_000_000_000_000_000_000);
    let part: u128 = whole - cube;
    // The columns go in two halves, so that no product runs over.
    let high: u128 = columns as u128 / 0x1_0000_0000;
    let low: u128 = columns as u128 % 0x1_0000_0000;
    assert(high <= 0x1_0000_0000);
    assert(0 <= high * part <= 0x1_0000_0000 * 512_000_000_000_000_000_000_000int
        && 0 <= low * part <= 0x1_0000_0000 * 512_000_000_000_000_000_000_000int)
        by (nonlinear_arith)
        requires
            0 <= high <= 0x1_0000_0000,
            0 <= low <= 0x1_0000_0000,
            0 <= part <= 512_000_000_000_000_000_000_000,
    ;
    let upper: u128 = high * part;
    let times: u128 = upper / whole;
    let rest: u128 = upper % whole;
    let sum: u128 = rest * 0x1_0000_0000 + low * part + whole / 2;
    proof {
        let product = columns * part + whole / 2;
        assert(upper == times * whole + rest) by {
            vstd::arithmetic::div_mod::lemma_fundamental_div_mod(upper as int, whole as int);
            assert(whole * times == times * whole) by (nonlinear_arith);
        }
        assert(product == sum + (times * 0x1_0000_0000) * whole) by (nonlinear_arith)
            requires
                columns == high * 0x1_0000_0000 + low,
                upper == high * part,
                upper == times * whole + rest,
                sum == rest * 0x1_0000_0000 + low * part + whole / 2,
                product == columns * part + whole / 2,
        ;
        vstd::arithmetic::div_mod::lemma_hoist_over_denominator(
            sum as int,
            times * 0x1_0000_0000,
            whole as nat,
        );
        assert(eased(columns as int, elapsed as int) == product / (whole as int));
        assert(0 <= sum as int / whole as int);
        assert(times * 0x1_0000_0000 <= columns);
    }
    (times * 0x1_0000_0000 + sum / whole) as usize
}

proof fn stops_rise(at: int, last: int, step: int, from: int)
    requires
        step > 0,
        0 <= at,
    ensures
        match stop_past(stops_from(at, last, step), from) {
            Some(stop) => from < stop && (at <= last ==> stop <= last),
            None => last <= from,
        },
    decreases if at < last {
        last - at
    } else {
        0
    },
{
    let stops = stops_from(at, last, step);
    if at < last {
        stops_rise(at + step, last, step, from);
        assert(stops.drop_first() =~= stops_from(at + step, last, step));
        if at <= from {
            // A page that would run past the last stop is not there.
            if at + step > last {
                assert(stops_from(at + step, last, step) =~= seq![last]);
                assert(seq![last].drop_first() =~= Seq::empty());
                reveal_with_fuel(stop_past, 3);
            }
        }
    } else {
        assert(stops.drop_first() =~= Seq::empty());
        reveal_with_fuel(stop_past, 3);
    }
}

/// The first stop past a place, of those from 0 on.
fn next_stop(last: usize, step: usize, from: usize) -> (stop: Option<usize>)
    requires
        step > 0,
    ensures
        crate::names::place(stop) == stop_past(
            stops_from(0, last as int, step as int),
            from as int,
        ),
        stop is Some ==> from < stop->0 <= last,
{
    let mut at: usize = 0;
    proof {
        stops_rise(0, last as int, step as int, from as int);
    }
    while at < last
        invariant
            step > 0,
            stop_past(stops_from(at as int, last as int, step as int), from as int) == stop_past(
                stops_from(0, last as int, step as int),
                from as int,
            ),
            at <= last ==> match stop_past(
                stops_from(0, last as int, step as int),
                from as int,
            ) {
                Some(stop) => from < stop <= last,
                None => last <= from,
            },
            match stop_past(stops_from(0, last as int, step as int), from as int) {
                Some(stop) => from < stop <= last,
                None => last <= from,
            },
        decreases if at < last {
            last - at
        } else {
            0
        },
    {
        let ghost stops = stops_from(at as int, last as int, step as int);
        assert(stops.drop_first() =~= stops_from(at + step, last as int, step as int));
        if at > from {
            return Some(at);
        }
        if step > last - at {
            assert(stops_from(at + step, last as int, step as int) =~= seq![last as int]);
            assert(seq![last as int].drop_first() =~= Seq::empty());
            reveal_with_fuel(stop_past, 3);
            return if last > from {
                Some(last)
            } else {
                None
            };
        }
        at += step;
    }
    assert(stops_from(at as int, last as int, step as int) =~= seq![last as int]);
    assert(seq![last as int].drop_first() =~= Seq::empty());
    reveal_with_fuel(stop_past, 3);
    if last > from {
        Some(last)
    } else {
        None
    }
}

impl Strip {
    /// The strip for the keys bound.
    pub fn new(kb: &Keybinds, scanning: bool, switch_panel: bool) -> (strip: Strip)
        ensures
            strip.legend@ == legend_words(*kb, scanning, switch_panel),
            text_views(strip.tips@) == tips_words(*kb, scanning, switch_panel),
            strip.wf(),
    {
        let strip = Strip {
            legend: controls_legend(kb, scanning, switch_panel),
            tips: tips(kb, scanning, switch_panel),
        };
        proof {
            legends_are_short(*kb, scanning, switch_panel);
            tips_are_short(*kb, scanning, switch_panel);
            assert(text_views(strip.tips@).len() == strip.tips.len());
            assert forall|i: int| 0 <= i < strip.tips.len() implies (#[trigger] strip.tips@[i])@.len()
                + GAP <= usize::MAX by {
                assert(text_views(strip.tips@)[i] == strip.tips@[i]@);
            }
        }
        strip
    }

    /// A segment's text.
    pub fn segment(&self, index: usize) -> (text: &str)
        ensures
            text@ == self.text(index as int),
    {
        if index % 2 == 0 || self.tips.len() == 0 {
            self.legend.as_str()
        } else {
            self.tips[(index / 2) % self.tips.len()].as_str()
        }
    }

    /// How many segments there are before they come round.
    pub fn segments(&self) -> (count: usize)
        requires
            self.wf(),
        ensures
            count == self.count(),
            count > 0,
    {
        if self.tips.len() > 0 {
            self.tips.len() * 2
        } else {
            1
        }
    }

    /// A segment's columns, with the separator after it.
    pub fn span(&self, index: usize) -> (columns: usize)
        requires
            self.wf(),
        ensures
            columns == self.text(index as int).len() + GAP,
    {
        self.segment(index).unicode_len() + GAP
    }

    /// Where the line stands at rest: the stop it is at, or the segment's last stop if the
    /// segment has since grown shorter than that.
    pub fn resting(&self, ticker: &Ticker, width: usize) -> (column: usize)
        requires
            self.wf(),
        ensures
            column == self.rest_at(*ticker, width as int),
    {
        let length: usize = self.segment(ticker.segment).unicode_len();
        let last: usize = if length > width {
            length - width
        } else {
            0
        };
        if ticker.column < last {
            ticker.column
        } else {
            last
        }
    }

    /// Where a segment rests, in `width` columns: its start, and for one too long to fit, a page
    /// further each time, the last with the segment's end at the right edge.
    pub fn stops(&self, index: usize, width: usize) -> (stops: Vec<usize>)
        requires
            self.wf(),
        ensures
            crate::state::places(stops@) == stops_from(
                0,
                self.last_stop(index as int, width as int),
                page_step(width as int),
            ),
    {
        let length: usize = self.segment(index).unicode_len();
        let last: usize = if length > width {
            length - width
        } else {
            0
        };
        let step: usize = if width > PAGE_OVERLAP + 1 {
            width - PAGE_OVERLAP
        } else {
            1
        };
        let ghost all = stops_from(0, last as int, step as int);
        let mut stops: Vec<usize> = Vec::new();
        let mut at: usize = 0;
        let mut more = true;
        assert(crate::state::places(stops@) + all =~= all);
        while more && at < last
            invariant
                step > 0,
                more ==> crate::state::places(stops@) + stops_from(
                    at as int,
                    last as int,
                    step as int,
                ) == all,
                !more ==> crate::state::places(stops@) + seq![last as int] == all,
            decreases if more && at < last {
                last - at
            } else {
                0
            },
        {
            let ghost so_far = crate::state::places(stops@);
            stops.push(at);
            assert(crate::state::places(stops@) =~= so_far.push(at as int));
            assert(so_far.push(at as int) + stops_from(at + step, last as int, step as int)
                =~= so_far + (seq![at as int] + stops_from(at + step, last as int, step as int)));
            if step > last - at {
                assert(stops_from(at + step, last as int, step as int) == seq![last as int]);
                more = false;
            } else {
                at += step;
            }
        }
        let ghost so_far = crate::state::places(stops@);
        stops.push(last);
        assert(crate::state::places(stops@) =~= so_far + seq![last as int]);
        stops
    }

    /// Move `ticker` on to `now`, `width` columns wide, with no key pressed since `quiet_since`.
    /// Returns whether what is on screen changed.
    pub fn advance(&self, ticker: &mut Ticker, width: u16, quiet_since: u64, now: u64) -> (changed:
        bool)
        requires
            self.wf(),
            old(ticker).wf(),
        ensures
            (*final(ticker), changed) == self.advanced(
                *old(ticker),
                width as int,
                quiet_since,
                now,
            ),
            final(ticker).wf(),
    {
        let width: usize = width as usize;
        let count: usize = self.segments();
        ticker.segment = ticker.segment % count;
        if let Some(slide) = ticker.slide {
            let elapsed: u64 = now.saturating_sub(slide.started);
            if elapsed >= SLIDE {
                if slide.to_next {
                    ticker.segment = (ticker.segment + 1) % count;
                    ticker.column = 0;
                } else {
                    ticker.column = slide.to;
                }
                ticker.slide = None;
                ticker.arrived = Some(now);
                return true;
            }
            // Eased out: fast away, gentle into place.
            let shown: usize = slide.from + ease(slide.to - slide.from, elapsed);
            ticker.slide = Some(Slide { shown, ..slide });
            return shown != slide.shown;
        }
        let since: u64 = match ticker.arrived {
            Some(arrived) => if arrived > quiet_since {
                arrived
            } else {
                quiet_since
            },
            None => quiet_since,
        };
        if now < since || now - since < REST {
            return false;
        }
        let from: usize = self.resting(ticker, width);
        let length: usize = self.segment(ticker.segment).unicode_len();
        let last: usize = if length > width {
            length - width
        } else {
            0
        };
        let step: usize = if width > PAGE_OVERLAP + 1 {
            width - PAGE_OVERLAP
        } else {
            1
        };
        let page: Option<usize> = next_stop(last, step, from);
        let to: usize = match page {
            Some(stop) => stop,
            None => self.span(ticker.segment),
        };
        ticker.column = from;
        ticker.slide = Some(
            Slide { from, to, to_next: page.is_none(), started: now, shown: from },
        );
        false
    }
}

/// A segment's characters and those of the separator, and whether they are of the keys.
pub open spec fn cells_of(strip: Strip, index: int) -> Seq<(char, bool)> {
    let text = strip.text(index) + separator();
    Seq::new(text.len(), |i: int| (text[i], index % 2 == 0))
}

/// The cells of the line: `width` of them from `skip` into a segment, and on into the next.
pub open spec fn line_cells(strip: Strip, index: int, skip: int, width: int) -> Seq<(char, bool)>
    decreases
            (if skip > 0 {
                skip
            } else {
                0
            }) + (if width > 0 {
                width
            } else {
                0
            }),
{
    let cells = cells_of(strip, index);
    let next = (index + 1) % strip.count();
    if width <= 0 || skip < 0 || cells.len() == 0 {
        Seq::empty()
    } else if skip >= cells.len() {
        line_cells(strip, next, skip - cells.len(), width)
    } else if cells.len() - skip >= width {
        cells.subrange(skip, skip + width)
    } else {
        cells.skip(skip) + line_cells(strip, next, 0, width - (cells.len() - skip))
    }
}

/// The cells of the help line as a ticker has it.
pub open spec fn ticker_cells(strip: Strip, ticker: Ticker, width: int) -> Seq<(char, bool)> {
    line_cells(
        strip,
        ticker.segment as int % strip.count(),
        match ticker.slide {
            Some(slide) => slide.shown as int,
            None => strip.rest_at(ticker, width),
        },
        width,
    )
}

impl Strip {
    /// The `width` cells of the strip at `ticker`: each its character, and whether it is of the
    /// keys, which are bold.
    pub fn render(&self, ticker: &Ticker, width: u16) -> (cells: Vec<(char, bool)>)
        requires
            self.wf(),
        ensures
            cells@ == ticker_cells(*self, *ticker, width as int),
    {
        let width: usize = width as usize;
        let count: usize = self.segments();
        let mut segment: usize = ticker.segment % count;
        let mut skip: usize = match ticker.slide {
            Some(slide) => slide.shown,
            None => self.resting(ticker, width),
        };
        proof {
            reveal_strlit("   ·   ");
        }
        let gap = chars_of("   ·   ");
        let mut cells: Vec<(char, bool)> = Vec::new();
        let ghost all = line_cells(*self, segment as int, skip as int, width as int);
        assert(cells@ + all =~= all);
        while cells.len() < width
            invariant
                self.wf(),
                count == self.count(),
                count > 0,
                segment < count,
                gap@ == separator(),
                gap.len() == 7,
                cells.len() <= width,
                cells@ + line_cells(
                    *self,
                    segment as int,
                    skip as int,
                    width - cells.len(),
                ) == all,
            decreases skip + (width - cells.len()),
        {
            let text = chars_of(self.segment(segment));
            let keys = segment % 2 == 0;
            let ghost so_far = cells@;
            let ghost here = cells_of(*self, segment as int);
            let ghost room = width - cells.len();
            let ghost started = skip as int;
            assert(here.len() == text.len() + 7);
            let next: usize = (segment + 1) % count;
            if skip >= text.len() + gap.len() {
                skip = skip - (text.len() + gap.len());
                segment = next;
            } else {
                let mut at: usize = skip;
                while at < text.len() + gap.len() && cells.len() < width
                    invariant
                        text.len() + 7 <= usize::MAX,
                        gap.len() == 7,
                        gap@ == separator(),
                        text@ == self.text(segment as int),
                        keys == (segment % 2 == 0),
                        here == cells_of(*self, segment as int),
                        here.len() == text.len() + 7,
                        started <= at <= here.len(),
                        0 <= started,
                        so_far.len() + room == width,
                        cells.len() == so_far.len() + (at - started),
                        cells.len() <= width,
                        cells@ == so_far + here.subrange(started, at as int),
                    decreases text.len() + gap.len() - at,
                {
                    let c: char = if at < text.len() {
                        text[at]
                    } else {
                        gap[at - text.len()]
                    };
                    assert(here[at as int] == (c, keys));
                    cells.push((c, keys));
                    at += 1;
                    assert(cells@ =~= so_far + here.subrange(started, at as int));
                }
                proof {
                    if here.len() - started >= room {
                        assert(cells@ =~= so_far + here.subrange(started, started + room));
                        assert(line_cells(*self, next as int, 0, 0) =~= Seq::empty());
                    } else {
                        assert(here.subrange(started, here.len() as int) =~= here.skip(started));
                    }
                }
                assert(cells@ + line_cells(*self, next as int, 0, width - cells.len()) =~= so_far
                    + line_cells(*self, segment as int, started, room));
                skip = 0;
                segment = next;
            }
        }
        assert(line_cells(*self, segment as int, skip as int, 0) =~= Seq::empty());
        cells
    }
}

/// At a stop the line stands still until it has rested, however often it is ticked: a key press
/// starts the rest again.
pub proof fn the_line_rests(
    strip: Strip,
    ticker: Ticker,
    width: int,
    quiet_since: u64,
    now: u64,
)
    requires
        ticker.slide is None,
        now - quiet_since < REST || (ticker.arrived is Some && now - ticker.arrived->0 < REST),
    ensures
        strip.advanced(ticker, width, quiet_since, now) == (strip.round(ticker), false),
{
}

/// A slide is over once its time is, and while it lasts it lies between its ends.
pub proof fn a_slide_ends(strip: Strip, ticker: Ticker, width: int, quiet_since: u64, now: u64)
    requires
        ticker.wf(),
        ticker.slide is Some,
    ensures
        ({
            let slide = ticker.slide->0;
            let after = strip.advanced(ticker, width, quiet_since, now).0;
            &&& now - slide.started >= SLIDE ==> after.slide is None && after.arrived == Some(now)
            &&& now - slide.started < SLIDE ==> after.slide is Some && slide.from
                <= after.slide->0.shown <= slide.to
        }),
{
    let slide = ticker.slide->0;
    if now - slide.started < SLIDE {
        let elapsed = if now > slide.started {
            now - slide.started
        } else {
            0
        };
        easing_is_within(slide.to - slide.from, elapsed);
    }
}

/// The keys come between every two tips, and every tip in turn.
pub proof fn tips_come_in_turn(strip: Strip, tip: int)
    requires
        0 <= tip < strip.tips.len(),
    ensures
        strip.text(2 * tip) == strip.legend@,
        strip.text(2 * tip + 1) == strip.tips@[tip]@,
        strip.count() == 2 * strip.tips.len(),
{
    assert((2 * tip) % 2 == 0);
    assert((2 * tip + 1) % 2 == 1);
    assert((2 * tip + 1) / 2 == tip);
    assert(tip % (strip.tips.len() as int) == tip) by (nonlinear_arith)
        requires
            0 <= tip < strip.tips.len(),
    ;
}

/// The lines for the entry in hand, the fullest first.
pub open spec fn selected_lines(entry: crate::entries::EntryModel, size: Seq<char>) -> Seq<
    Seq<char>,
> {
    let name = lossy_text(entry.name);
    let plain = seq![
        "SELECTED: "@ + name + " ("@ + size + ")"@,
        "SELECTED: "@ + name,
        name,
    ];
    match entry.file_type {
        FileType::File => plain,
        FileType::Folder => seq![
            "SELECTED: "@ + name + " ("@ + size + ", "@ + grouped(
                entry.descendants->0 as nat,
            ) + " files)"@,
        ] + plain,
    }
}

/// Whether a line is shorter than the room there is.
pub open spec fn is_shorter(line: Seq<char>, room: u16) -> bool {
    line.len() < room
}

/// The first of some lines that is shorter than the room there is, from a place on.
pub open spec fn first_shorter(lines: Seq<Seq<char>>, from: int, room: u16) -> Option<Seq<char>>
    decreases lines.len() - from,
{
    if from < 0 || from >= lines.len() {
        None
    } else if is_shorter(lines[from], room) {
        Some(lines[from])
    } else {
        first_shorter(lines, from + 1, room)
    }
}

fn shorter(line: &String, room: u16) -> (is: bool)
    ensures
        is == is_shorter(line@, room),
{
    line.as_str().unicode_len() < room as usize
}

fn plain_line(name: &String, size: &str) -> (line: String)
    ensures
        line@ == "SELECTED: "@ + name@ + " ("@ + size@ + ")"@,
{
    let mut line = literal("SELECTED: ");
    append(&mut line, name.as_str());
    append(&mut line, " (");
    append(&mut line, size);
    append(&mut line, ")");
    line
}

/// The line for the entry in hand: the fullest that is shorter than the room there is.
pub fn selected_line(entry: &FileMetadata, size: &str, room: u16) -> (line: Option<String>)
    requires
        entry.file_type == FileType::Folder ==> entry.descendants is Some,
    ensures
        match line {
            Some(line) => first_shorter(selected_lines(entry@, size@), 0, room) == Some(line@),
            None => first_shorter(selected_lines(entry@, size@), 0, room) is None,
        },
{
    let ghost lines = selected_lines(entry@, size@);
    reveal_with_fuel(first_shorter, 6);
    let name = lossy(&entry.name);
    if entry.file_type == FileType::Folder {
        if let Some(count) = entry.descendants {
            let mut line = literal("SELECTED: ");
            append(&mut line, name.as_str());
            append(&mut line, " (");
            append(&mut line, size);
            append(&mut line, ", ");
            append_count(&mut line, count);
            append(&mut line, " files)");
            assert(line@ == lines[0]);
            if shorter(&line, room) {
                return Some(line);
            }
        }
    }
    let ghost skipped: int = if entry.file_type == FileType::Folder {
        1
    } else {
        0
    };
    let line = plain_line(&name, size);
    assert(line@ == lines[skipped]);
    if shorter(&line, room) {
        return Some(line);
    }
    let mut line = literal("SELECTED: ");
    append(&mut line, name.as_str());
    assert(line@ == lines[skipped + 1]);
    if shorter(&line, room) {
        return Some(line);
    }
    assert(name@ == lines[skipped + 2]);
    if shorter(&name, room) {
        return Some(name);
    }
    None
}

/// What the status line shows.
#[derive(Debug, PartialEq, Eq)]
pub enum StatusLine {
    Nothing,
    /// What is being scanned again: a line to cut to so many columns.
    Rescanning(String, u16),
    /// The entry in hand, if a line for it fits, and whether it is a folder.
    Selected(Option<String>, bool),
    /// The path last read, if it is shorter than the room, else to be cut to it.
    LastRead { whole: bool },
}

/// The legend of the small files, at the right end of the status line.
pub fn small_files_legend() -> (legend: String)
    ensures
        legend@ == "(x = Small files)"@,
{
    literal("(x = Small files)")
}

/// How many columns of the status line there are for what it says, in a screen so wide, with
/// or without the legend of the small files.
pub fn status_room(width: u16, legend: bool) -> (room: u16)
    requires
        width >= if legend {
            18int
        } else {
            1int
        },
    ensures
        room == width - if legend {
            18int
        } else {
            1int
        },
{
    if legend {
        width - 18
    } else {
        width - 1
    }
}

/// What the status line shows in `room` columns: what is being scanned again, else the entry in
/// hand, of this size, else the path last read.
pub fn status_line(
    rescanning: &Option<String>,
    selected: &Option<FileMetadata>,
    size: &str,
    last_read: &Option<String>,
    room: u16,
) -> (line: StatusLine)
    requires
        selected is Some && selected->0.file_type == FileType::Folder
            ==> selected->0.descendants is Some,
    ensures
        match *rescanning {
            Some(what) => line is Rescanning && line->Rescanning_0@ == "RESCANNING: "@ + what@
                && line->Rescanning_1 == if room > 0 {
                room - 1
            } else {
                0
            },
            None => match *selected {
                Some(entry) => {
                    &&& line is Selected
                    &&& line->Selected_1 == (entry.file_type == FileType::Folder)
                    &&& match line->Selected_0 {
                        Some(text) => first_shorter(selected_lines(entry@, size@), 0, room)
                            == Some(text@),
                        None => first_shorter(selected_lines(entry@, size@), 0, room) is None,
                    }
                },
                None => match *last_read {
                    Some(path) => line is LastRead && line->whole == is_shorter(path@, room),
                    None => line is Nothing,
                },
            },
        },
{
    if let Some(what) = rescanning {
        let mut line = literal("RESCANNING: ");
        append(&mut line, what.as_str());
        return StatusLine::Rescanning(line, room.saturating_sub(1));
    }
    if let Some(entry) = selected {
        return StatusLine::Selected(
            selected_line(entry, size, room),
            entry.file_type == FileType::Folder,
        );
    }
    if let Some(path) = last_read {
        return StatusLine::LastRead { whole: shorter(path, room) };
    }
    StatusLine::Nothing
}

/// The help names each action by the key that it is bound to, in angle brackets before it.
pub proof fn the_help_names_the_keys_bound(kb: Keybinds, scanning: bool, switch_panel: bool)
    ensures
        ({
            let legend = legend_words(kb, scanning, switch_panel);
            &&& exists|before: Seq<char>, after: Seq<char>|
                legend == #[trigger] (before + ("<"@ + label_of(kb.enter.code)
                    + "> - enter folder, <"@ + label_of(kb.parent.code) + "> - parent folder, "@)
                    + after)
            &&& exists|before: Seq<char>|
                legend == #[trigger] (before + ("<"@ + label_of(kb.zoom_in.code) + "/"@ + label_of(
                    kb.zoom_out.code,
                ) + "/"@ + label_of(kb.reset_zoom.code) + "> - zoom in/out/reset, <"@ + label_of(
                    kb.toggle_size.code,
                ) + "> - disk/apparent size, <"@ + label_of(kb.quit.code) + "> - quit"@))
        }),
{
    let legend = legend_words(kb, scanning, switch_panel);
    let (start, entering) = (help_start(kb, switch_panel), help_of_entering(kb));
    let (changing, ending) = (scanned_help(kb, scanning), help_ending(kb));
    the_help_is_in_parts(kb, scanning, switch_panel);
    last_two_in_one(start + entering, changing, ending);
    assert(legend == start + entering + (changing + ending));
    assert(legend == (start + entering + changing) + ending);
}

/// What the help leaves out while the scan runs is what a delete and the rescans are bound to, and
/// nothing else.
pub proof fn what_waits_for_the_scan_is_not_in_the_help(kb: Keybinds, switch_panel: bool)
    ensures
        exists|before: Seq<char>, after: Seq<char>|
            legend_words(kb, true, switch_panel) == #[trigger] (before + after) && legend_words(
                kb,
                false,
                switch_panel,
            ) == before + ("<"@ + label_of(kb.delete.code) + "> - delete, <"@ + label_of(
                kb.rescan.code,
            ) + "/"@ + label_of(kb.rescan_all.code) + "> - rescan folder/all, "@) + after,
{
    the_help_is_in_parts(kb, true, switch_panel);
    the_help_is_in_parts(kb, false, switch_panel);
    let before = help_start(kb, switch_panel) + help_of_entering(kb);
    let after = help_ending(kb);
    assert(before + scanned_help(kb, true) =~= before);
    assert(legend_words(kb, true, switch_panel) == before + after);
}

spec fn help_start(kb: Keybinds, switch_panel: bool) -> Seq<char> {
    "<arrows> - move around, "@ + panel_help(kb, switch_panel)
}

spec fn help_of_entering(kb: Keybinds) -> Seq<char> {
    "<"@ + label_of(kb.enter.code) + "> - enter folder, <"@ + label_of(kb.parent.code)
        + "> - parent folder, "@
}

spec fn help_ending(kb: Keybinds) -> Seq<char> {
    "<"@ + label_of(kb.zoom_in.code) + "/"@ + label_of(kb.zoom_out.code) + "/"@ + label_of(
        kb.reset_zoom.code,
    ) + "> - zoom in/out/reset, <"@ + label_of(kb.toggle_size.code) + "> - disk/apparent size, <"@
        + label_of(kb.quit.code) + "> - quit"@
}

proof fn the_help_is_in_parts(kb: Keybinds, scanning: bool, switch_panel: bool)
    ensures
        legend_words(kb, scanning, switch_panel) == ((help_start(kb, switch_panel)
            + help_of_entering(kb)) + scanned_help(kb, scanning)) + help_ending(kb),
{
    let opening = help_start(kb, switch_panel) + help_of_entering(kb);
    let begun = opening + scanned_help(kb, scanning);
    five_in_one(
        help_start(kb, switch_panel),
        "<"@,
        label_of(kb.enter.code),
        "> - enter folder, <"@,
        label_of(kb.parent.code),
        "> - parent folder, "@,
    );
    let zooms = "<"@ + label_of(kb.zoom_in.code) + "/"@ + label_of(kb.zoom_out.code) + "/"@;
    five_in_one(
        begun,
        "<"@,
        label_of(kb.zoom_in.code),
        "/"@,
        label_of(kb.zoom_out.code),
        "/"@,
    );
    let sizes = zooms + label_of(kb.reset_zoom.code) + "> - zoom in/out/reset, <"@ + label_of(
        kb.toggle_size.code,
    ) + "> - disk/apparent size, <"@;
    five_in_one(
        begun,
        zooms,
        label_of(kb.reset_zoom.code),
        "> - zoom in/out/reset, <"@,
        label_of(kb.toggle_size.code),
        "> - disk/apparent size, <"@,
    );
    last_two_in_one(begun, sizes, label_of(kb.quit.code));
    last_two_in_one(begun, sizes + label_of(kb.quit.code), "> - quit"@);
}

proof fn last_two_in_one(a: Seq<char>, b: Seq<char>, c: Seq<char>)
    ensures
        a + b + c == a + (b + c),
{
    assert(a + b + c =~= a + (b + c));
}

proof fn three_in_one(start: Seq<char>, a: Seq<char>, b: Seq<char>, c: Seq<char>)
    ensures
        start + a + b + c == start + (a + b + c),
{
    assert(start + a + b + c =~= start + (a + b + c));
}

proof fn five_in_one(
    start: Seq<char>,
    a: Seq<char>,
    b: Seq<char>,
    c: Seq<char>,
    d: Seq<char>,
    e: Seq<char>,
)
    ensures
        start + a + b + c + d + e == start + (a + b + c + d + e),
{
    three_in_one(start, a, b, c);
    three_in_one(start, a + b + c, d, e);
}

/// The stops of a segment rise from its start to where its end is at the right edge, and no page
/// skips a column: each is no further from the one before than the columns shown.
pub proof fn no_page_skips_a_column(at: int, last: int, step: int, i: int)
    requires
        0 <= at <= last,
        0 < step,
        0 <= i < stops_from(at, last, step).len(),
    ensures
        stops_from(at, last, step)[0] == at,
        stops_from(at, last, step).last() == last,
        at <= stops_from(at, last, step)[i] <= last,
        i + 1 < stops_from(at, last, step).len() ==> stops_from(at, last, step)[i] < stops_from(
            at,
            last,
            step,
        )[i + 1] <= stops_from(at, last, step)[i] + step,
    decreases last - at,
{
    let stops = stops_from(at, last, step);
    if at < last {
        let rest = stops_from(at + step, last, step);
        assert(stops == seq![at] + rest);
        if at + step <= last {
            no_page_skips_a_column(at + step, last, step, if i > 0 {
                i - 1
            } else {
                0
            });
            assert(rest[0] == at + step);
        } else {
            assert(rest =~= seq![last]);
        }
        if i > 0 {
            assert(stops[i] == rest[i - 1]);
        }
        if i + 1 < stops.len() {
            assert(stops[i + 1] == rest[i]);
        }
        assert(stops.last() == rest.last());
    }
}

/// A page is no wider than the line, and at the last stop the end of the segment is in sight.
pub proof fn the_last_stop_shows_the_end(strip: Strip, index: int, width: int)
    requires
        width >= 1,
    ensures
        1 <= page_step(width) <= width,
        strip.last_stop(index, width) >= 0,
        strip.text(index).len() <= strip.last_stop(index, width) + width,
        strip.last_stop(index, width) > 0 ==> strip.text(index).len() == strip.last_stop(
            index,
            width,
        ) + width,
        width > 7 ==> page_step(width) == width - 6,
{
}

/// A slide starts where it was and goes on without turning back: the columns done are the nearest to
/// the share of them that the cube of the time left leaves.
pub proof fn a_slide_goes_on_without_turning_back(columns: int, early: int, late: int)
    requires
        0 <= columns,
        0 <= early <= late < SLIDE,
    ensures
        eased(columns, 0) == 0,
        eased(columns, early) <= eased(columns, late),
        ({
            let left = SLIDE - early;
            let whole = SLIDE * SLIDE * SLIDE;
            -whole <= 2 * (eased(columns, early) * whole - columns * (whole - left * left * left))
                <= whole
        }),
{
    let whole: int = SLIDE * SLIDE * SLIDE;
    assert(whole == 512_000_000_000_000_000_000_000);
    easing_is_within(columns, early);
    easing_is_within(columns, late);
    let (a, b) = (SLIDE - early, SLIDE - late);
    assert(b * b * b <= a * a * a) by (nonlinear_arith)
        requires
            0 < b <= a,
    ;
    let (x, y) = (columns * (whole - a * a * a), columns * (whole - b * b * b));
    assert(x <= y) by (nonlinear_arith)
        requires
            0 <= columns,
            b * b * b <= a * a * a,
            x == columns * (whole - a * a * a),
            y == columns * (whole - b * b * b),
    ;
    vstd::arithmetic::div_mod::lemma_div_is_ordered(x + whole / 2, y + whole / 2, whole);
    vstd::arithmetic::div_mod::lemma_fundamental_div_mod(x + whole / 2, whole);
    let done = (x + whole / 2) / whole;
    assert(done * whole == whole * done) by (nonlinear_arith);
    assert(SLIDE - 0 == SLIDE);
    assert(columns * (whole - whole) == 0) by (nonlinear_arith);
}

/// The line for the entry in hand is the fullest that is shorter than the room: every fuller one is
/// not, and there is none only where no line is.
pub proof fn the_fullest_line_that_is_shorter(
    lines: Seq<Seq<char>>,
    from: int,
    room: u16,
    i: int,
)
    requires
        0 <= from <= i < lines.len(),
    ensures
        match first_shorter(lines, from, room) {
            Some(line) => line.len() < room && exists|at: int|
                from <= at < lines.len() && #[trigger] lines[at] == line && forall|j: int|
                    from <= j < at ==> (#[trigger] lines[j]).len() >= room,
            None => lines[i].len() >= room,
        },
    decreases lines.len() - from,
{
    if lines[from].len() < room {
        assert(lines[from] == first_shorter(lines, from, room)->0);
    } else if from + 1 < lines.len() {
        the_fullest_line_that_is_shorter(lines, from + 1, room, if i > from {
            i
        } else {
            from + 1
        });
        if let Some(line) = first_shorter(lines, from + 1, room) {
            let at = choose|at: int|
                from + 1 <= at < lines.len() && #[trigger] lines[at] == line && forall|j: int|
                    from + 1 <= j < at ==> (#[trigger] lines[j]).len() >= room;
            assert(lines[at] == line);
            assert forall|j: int| from <= j < at implies (#[trigger] lines[j]).len() >= room by {
                if j > from {
                    assert(lines[j].len() >= room);
                }
            }
        }
    }
}

/// The line is always as wide as the screen, and one column further along it is the same line less
/// its first cell.
pub proof fn the_line_slides_by_cells(strip: Strip, index: int, skip: int, width: int)
    requires
        0 <= skip,
        0 < width,
    ensures
        line_cells(strip, index, skip, width).len() == width,
        line_cells(strip, index, skip + 1, width - 1) == line_cells(
            strip,
            index,
            skip,
            width,
        ).drop_first(),
        skip < strip.text(index).len() ==> line_cells(strip, index, skip, width)[0] == (
            strip.text(index)[skip],
            index % 2 == 0,
        ),
    decreases skip + width,
{
    reveal_strlit("   ·   ");
    let cells = cells_of(strip, index);
    let next = (index + 1) % strip.count();
    let line = line_cells(strip, index, skip, width);
    assert(cells.len() == strip.text(index).len() + 7);
    if skip >= cells.len() {
        the_line_slides_by_cells(strip, next, skip - cells.len(), width);
    } else if cells.len() - skip >= width {
        if width > 1 {
            assert(line_cells(strip, index, skip + 1, width - 1) =~= line.drop_first());
        } else {
            assert(line_cells(strip, index, skip + 1, 0) =~= line.drop_first());
        }
    } else {
        let left = width - (cells.len() - skip);
        the_line_slides_by_cells(strip, next, 0, left);
        if skip + 1 < cells.len() {
            assert(line_cells(strip, index, skip + 1, width - 1) =~= line.drop_first());
        } else {
            assert(skip + 1 == cells.len());
            assert(line_cells(strip, index, skip + 1, width - 1) == line_cells(
                strip,
                next,
                0,
                width - 1,
            ));
            assert(line.drop_first() =~= line_cells(strip, next, 0, left));
        }
    }
}

/// The tips on a delete and on the rescans are the only ones that are not told while the scan runs,
/// and each names the key that it is about.
pub proof fn tips_on_changes_wait_for_the_scan(kb: Keybinds, switch_panel: bool)
    ensures
        exists|before: Seq<Seq<char>>, after: Seq<Seq<char>>|
            tips_words(kb, true, switch_panel) == #[trigger] (before + after) && tips_words(
                kb,
                false,
                switch_panel,
            ) == before + seq![
                "Tip: <"@ + label_of(kb.delete.code)
                    + "> deletes every marked entry at once, after asking"@,
                "Tip: <"@ + label_of(kb.rescan.code)
                    + "> rescans the selected folder after it changes on disk; <"@ + label_of(
                    kb.rescan_all.code,
                ) + "> rescans everything"@,
            ] + after && before.len() == (if switch_panel {
                5int
            } else {
                4int
            }) && after.len() == 4,
        tips_words(kb, false, true)[4] == "Tip: Shift+Up/Down in the list marks a range and copies its paths; <"@
            + label_of(kb.switch_panel.code) + "> moves between the list and the treemap"@,
{
    let before = first_tips() + panel_tips(kb, switch_panel);
    let after = last_tips(kb);
    assert(tips_words(kb, true, switch_panel) =~= before + after);
    assert(tips_words(kb, false, switch_panel) =~= before + scanned_tips(kb, false) + after);
    assert(scanned_tips(kb, false) =~= seq![
        "Tip: <"@ + label_of(kb.delete.code)
            + "> deletes every marked entry at once, after asking"@,
        "Tip: <"@ + label_of(kb.rescan.code)
            + "> rescans the selected folder after it changes on disk; <"@ + label_of(
            kb.rescan_all.code,
        ) + "> rescans everything"@,
    ]);
}

/// Every line for the entry in hand names it, each is no longer than the one before, and the
/// fullest ones say its size too. A folder's says how many files are in it.
pub proof fn the_entry_in_hand_is_named(
    entry: crate::entries::EntryModel,
    size: Seq<char>,
    i: int,
)
    requires
        0 <= i < selected_lines(entry, size).len(),
    ensures
        ({
            let (lines, name) = (selected_lines(entry, size), lossy_text(entry.name));
            &&& lines.len() == if entry.file_type == FileType::Folder {
                4int
            } else {
                3int
            }
            &&& lines.last() == name
            &&& i + 1 < lines.len() ==> lines[i + 1].len() <= lines[i].len()
            &&& i + 1 < lines.len() ==> exists|after: Seq<char>|
                lines[i] == #[trigger] ("SELECTED: "@ + name + after)
            &&& i + 2 < lines.len() ==> exists|after: Seq<char>|
                lines[i] == #[trigger] ("SELECTED: "@ + name + " ("@ + size + after)
            &&& entry.file_type == FileType::Folder && entry.descendants is Some ==> exists|
                before: Seq<char>,
            |
                lines[0] == #[trigger] (before + grouped(entry.descendants->0 as nat)
                    + " files)"@)
        }),
{
    reveal_strlit(")");
    reveal_strlit(", ");
    reveal_strlit(" files)");
    let (lines, name) = (selected_lines(entry, size), lossy_text(entry.name));
    let named = "SELECTED: "@ + name;
    let sized = named + " ("@ + size;
    let count = grouped(entry.descendants->0 as nat);
    assert(named =~= named + Seq::<char>::empty());
    assert(sized + ")"@ =~= named + (" ("@ + size + ")"@));
    assert(sized + ", "@ + count + " files)"@ =~= sized + (", "@ + count + " files)"@));
    assert(sized + ", "@ + count + " files)"@ =~= named + (" ("@ + size + ", "@ + count
        + " files)"@));
    if entry.file_type == FileType::Folder {
        assert(lines[0] == (sized + ", "@) + count + " files)"@);
    }
}

/// The next stop is the first one past a place: every stop before it is not past it, and there is
/// none only where none is.
pub proof fn the_next_stop_is_the_first_past(stops: Seq<int>, from: int)
    ensures
        match stop_past(stops, from) {
            Some(stop) => stop > from && exists|i: int|
                0 <= i < stops.len() && #[trigger] stops[i] == stop && forall|j: int|
                    0 <= j < i ==> #[trigger] stops[j] <= from,
            None => forall|j: int| 0 <= j < stops.len() ==> #[trigger] stops[j] <= from,
        },
    decreases stops.len(),
{
    if stops.len() > 0 {
        if stops[0] > from {
            assert(stops[0] == stop_past(stops, from)->0);
        } else {
            let rest = stops.drop_first();
            the_next_stop_is_the_first_past(rest, from);
            if let Some(stop) = stop_past(rest, from) {
                let i = choose|i: int|
                    0 <= i < rest.len() && #[trigger] rest[i] == stop && forall|j: int|
                        0 <= j < i ==> #[trigger] rest[j] <= from;
                assert(stops[i + 1] == stop);
                assert forall|j: int| 0 <= j < i + 1 implies #[trigger] stops[j] <= from by {
                    if j > 0 {
                        assert(rest[j - 1] <= from);
                    }
                }
            } else {
                assert forall|j: int| 0 <= j < stops.len() implies #[trigger] stops[j] <= from by {
                    if j > 0 {
                        assert(rest[j - 1] <= from);
                    }
                }
            }
        }
    }
}

/// A slide takes the line to where it was going: to the stop it set out for, or to the start of the
/// segment after, the first one coming after the last.
pub proof fn a_slide_ends_where_it_was_going(
    strip: Strip,
    ticker: Ticker,
    slide: Slide,
    now: u64,
)
    requires
        ticker.segment < strip.count() <= usize::MAX,
        now - slide.started >= SLIDE,
    ensures
        ({
            let after = strip.slid(ticker, slide, now).0;
            &&& after.slide is None
            &&& !slide.to_next ==> after.column == slide.to && after.segment == ticker.segment
            &&& slide.to_next ==> after.column == 0
            &&& slide.to_next && ticker.segment + 1 < strip.count() ==> after.segment
                == ticker.segment + 1
            &&& slide.to_next && ticker.segment + 1 == strip.count() ==> after.segment == 0
        }),
{
    let next = ticker.segment + 1;
    if next < strip.count() {
        vstd::arithmetic::div_mod::lemma_small_mod(next as nat, strip.count() as nat);
    } else {
        vstd::arithmetic::div_mod::lemma_mod_self_0(strip.count());
    }
}

/// A line that sets out goes on from where it rests: to the next page of a segment that is not all
/// seen, and past one whose end is in sight, with the gap after it, to the next.
pub proof fn a_line_sets_out_from_where_it_rests(
    strip: Strip,
    ticker: Ticker,
    width: int,
    now: u64,
)
    requires
        width >= 1,
        strip.text(ticker.segment as int).len() + 7 <= usize::MAX,
    ensures
        ({
            let out = strip.set_off(ticker, width, now).slide->0;
            let (length, segment) = (
                strip.text(ticker.segment as int).len(),
                strip.set_off(ticker, width, now).segment,
            );
            &&& strip.set_off(ticker, width, now).slide is Some
            &&& segment == ticker.segment
            &&& out.started == now
            &&& out.shown == out.from
            &&& out.from <= ticker.column
            &&& out.from < ticker.column ==> out.from + width >= length
            &&& out.to_next <==> out.from + width >= length
            &&& out.to_next ==> out.to == length + 7
            &&& !out.to_next ==> out.from < out.to && out.to + width <= length
        }),
{
    let index = ticker.segment as int;
    let last = strip.last_stop(index, width);
    let stops = stops_from(0, last, page_step(width));
    let from = strip.rest_at(ticker, width);
    stops_are_there(0, last, page_step(width));
    no_page_skips_a_column(0, last, page_step(width), 0);
    the_next_stop_is_the_first_past(stops, from);
    assert(stops[stops.len() - 1] == last);
    if let Some(stop) = stop_past(stops, from) {
        let i = choose|i: int|
            0 <= i < stops.len() && #[trigger] stops[i] == stop && forall|j: int|
                0 <= j < i ==> #[trigger] stops[j] <= from;
        no_page_skips_a_column(0, last, page_step(width), i);
    }
}

proof fn stops_are_there(at: int, last: int, step: int)
    requires
        0 <= at <= last,
        0 < step,
    ensures
        stops_from(at, last, step).len() > 0,
{
}

/// A line that has rested long enough, since it came and since the last key, sets out.
pub proof fn a_rested_line_sets_out(
    strip: Strip,
    ticker: Ticker,
    width: int,
    quiet_since: u64,
    now: u64,
)
    requires
        ticker.slide is None,
        now - quiet_since >= 5_000_000_000,
        ticker.arrived is Some ==> now - ticker.arrived->0 >= 5_000_000_000,
    ensures
        strip.advanced(ticker, width, quiet_since, now).0.slide is Some,
        strip.advanced(ticker, width, quiet_since, now).0.slide->0.started == now,
        !strip.advanced(ticker, width, quiet_since, now).1,
{
}

} // verus!
