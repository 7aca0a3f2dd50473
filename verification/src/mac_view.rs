//! The pointer in a Mac's window: presses, the wheel, the trackpad and the pinch.
//!
//! What the system gives as fractions comes in millionths.

use vstd::prelude::*;

use crate::state::pointer::Hit;
use crate::state::Mods;
use crate::text::{append, literal};

verus! {

/// What a press asks for.
#[derive(Debug, Clone, Copy, PartialEq, Eq, Structural)]
pub enum MacPress {
    Nothing,
    GoToDepth(usize),
    /// Open a folder's row in place, or close it.
    Toggle(usize),
    /// Take what is under the pointer in hand or mark it; then, if told so, open it.
    Click { open: bool },
    /// Say where the entries too small for a tile are.
    SayWhere,
}

/// What a press of the main button asks for. `crumb` is the depth of the breadcrumb under the
/// pointer, and `clicks` how many clicks in a row this makes: the second of a double click on an
/// expander is not a second toggle, and a double click without modifiers opens the entry.
pub fn mouse_down(crumb: Option<usize>, hit: &Hit, clicks: i64, mods: Mods) -> (press: MacPress)
    ensures
        press == match crumb {
            Some(depth) => MacPress::GoToDepth(depth),
            None => match *hit {
                Hit::Expander(index) => if clicks == 1 {
                    MacPress::Toggle(index)
                } else {
                    MacPress::Nothing
                },
                Hit::SmallFiles => MacPress::SayWhere,
                Hit::Nothing => MacPress::Nothing,
                _ => MacPress::Click { open: clicks == 2 && !mods.toggle && !mods.range },
            },
        },
{
    match crumb {
        Some(depth) => MacPress::GoToDepth(depth),
        None => match hit {
            Hit::Expander(index) => {
                if clicks == 1 {
                    MacPress::Toggle(*index)
                } else {
                    MacPress::Nothing
                }
            },
            Hit::SmallFiles => MacPress::SayWhere,
            Hit::Nothing => MacPress::Nothing,
            _ => MacPress::Click { open: clicks == 2 && !mods.toggle && !mods.range },
        },
    }
}

/// Where the entries too small for a tile are.
pub fn small_files_words() -> (words: String)
    ensures
        words@ == "Entries too small for a tile of their own: they are all in the list"@,
{
    literal("Entries too small for a tile of their own: they are all in the list")
}

/// One, in millionths.
pub const ONE: i64 = 1_000_000;

/// The whole part of a number of millionths, towards zero.
pub open spec fn whole_part(millionths: int) -> int {
    if millionths >= 0 {
        millionths / 1_000_000
    } else {
        -((-millionths) / 1_000_000)
    }
}

/// What has been turned or pinched and is not yet a whole step, in millionths.
#[derive(Debug, Clone, Copy, PartialEq, Eq, Structural)]
pub struct Turned {
    pub left: i64,
}

impl Turned {
    /// Whether less than a step is left.
    pub open spec fn wf(self) -> bool {
        -1_000_000 < self.left < 1_000_000
    }

    /// Turn by so many millionths of a step. Returns the whole steps there are now; the rest is
    /// kept.
    pub fn turn(&mut self, by: i32) -> (steps: i64)
        requires
            old(self).wf(),
        ensures
            steps == whole_part(old(self).left + by),
            final(self).left == old(self).left + by - steps * 1_000_000,
            final(self).wf(),
    {
        let all: i64 = self.left + by as i64;
        let steps: i64 = if all >= 0 {
            all / ONE
        } else {
            -((-all) / ONE)
        };
        assert(-2200 <= steps <= 2200);
        self.left = all - steps * ONE;
        steps
    }
}

/// A turn one way comes to the same steps, and leaves the same, in one piece as in two.
pub proof fn turns_add_up(turned: Turned, a: int, b: int)
    requires
        turned.wf(),
        turned.left >= 0,
        a >= 0,
        b >= 0,
    ensures
        ({
            let first = whole_part(turned.left + a);
            let left = turned.left + a - first * 1_000_000;
            let second = whole_part(left + b);
            &&& first + second == whole_part(turned.left + a + b)
            &&& left + b - second * 1_000_000 == turned.left + a + b - (first + second) * 1_000_000
        }),
{
}

/// What the wheel or two fingers on the trackpad do.
#[derive(Debug, Clone, Copy, PartialEq, Eq, Structural)]
pub enum Scrolled {
    Nothing,
    ZoomIn,
    ZoomOut,
    /// Scroll the list by so many rows.
    Rows(i64),
}

/// Whether turning the wheel zooms: over the treemap, where a trackpad's two fingers do not, as
/// they scroll everywhere else.
pub fn wheel_zooms(over_treemap: bool, trackpad: bool, delta: i32) -> (zoom: Option<Scrolled>)
    ensures
        zoom == if over_treemap && !trackpad {
            Some(
                if delta > 0 {
                    Scrolled::ZoomIn
                } else if delta < 0 {
                    Scrolled::ZoomOut
                } else {
                    Scrolled::Nothing
                },
            )
        } else {
            None
        },
{
    if over_treemap && !trackpad {
        Some(
            if delta > 0 {
                Scrolled::ZoomIn
            } else if delta < 0 {
                Scrolled::ZoomOut
            } else {
                Scrolled::Nothing
            },
        )
    } else {
        None
    }
}

/// What the wheel or two fingers do over the list: `rows` is how many rows they went, in
/// millionths.
pub fn scroll_list(turned: &mut Turned, over_list: bool, rows: i32) -> (scrolled: Scrolled)
    requires
        old(turned).wf(),
    ensures
        final(turned).wf(),
        !over_list ==> scrolled == Scrolled::Nothing && *final(turned) == *old(turned),
        over_list ==> {
            let steps = whole_part(old(turned).left + rows);
            &&& final(turned).left == old(turned).left + rows - steps * 1_000_000
            &&& scrolled == if steps == 0 {
                Scrolled::Nothing
            } else {
                Scrolled::Rows(steps as i64)
            }
        },
{
    if !over_list {
        return Scrolled::Nothing;
    }
    let steps: i64 = turned.turn(rows);
    if steps == 0 {
        Scrolled::Nothing
    } else {
        Scrolled::Rows(steps)
    }
}

/// Whether a mouse's button, by its number, is the one that goes up a folder.
pub fn goes_up(button: i64) -> (up: bool)
    ensures
        up == (button == 3),
{
    button == 3
}

/// What a scan takes over from the folder shown before: whether sizes are the files' lengths,
/// and whether there is a side panel. `asked` is whether the command line asks for lengths.
pub fn carried_over(before: Option<(bool, bool)>, asked: bool) -> (shown: (bool, bool))
    ensures
        shown == match before {
            Some(before) => before,
            None => (asked, true),
        },
{
    match before {
        Some(before) => before,
        None => (asked, true),
    }
}

/// What is said when what is to be scanned is no folder.
pub fn not_a_folder(path: &str) -> (words: (String, String))
    ensures
        words.0@ == "“"@ + path@ + "” is not a folder"@,
        words.1@
            == "Choose a folder to scan with File ▸ Scan Folder…, or drop one on the window."@,
{
    let mut title = literal("“");
    append(&mut title, path);
    append(&mut title, "” is not a folder");
    (
        title,
        literal("Choose a folder to scan with File ▸ Scan Folder…, or drop one on the window."),
    )
}

/// The whole part of a number is as near to it as a whole number is, towards nothing: turned the
/// other way it is the same the other way.
pub proof fn whole_parts_are_towards_nothing(millionths: int)
    ensures
        whole_part(-millionths) == -whole_part(millionths),
        millionths >= 0 ==> 0 <= millionths - 1_000_000 * whole_part(millionths) < 1_000_000,
        millionths <= 0 ==> -1_000_000 < millionths - 1_000_000 * whole_part(millionths) <= 0,
{
}

} // verus!
