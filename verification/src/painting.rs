//! What the window paints and where its breadcrumbs and buttons go.
//!
//! Widths and places are whole numbers of whatever unit the caller measures in.

use vstd::prelude::*;

use crate::bytes::append_bytes;
use crate::count::{append_count, grouped};
use crate::entries::FileType;
use crate::names::{spelled, starts_with, Name};
use crate::state::Preview;
use crate::text::{append, literal, lossy, lossy_text};
use crate::window::TitleButton;

verus! {

/// What is said of a folder with nothing to show.
pub open spec fn empty_text(scanning: bool) -> Seq<char> {
    if scanning {
        "Scanning…"@
    } else {
        "Empty folder"@
    }
}

/// What is said of a folder with nothing to show.
pub fn empty_words(scanning: bool) -> (words: String)
    ensures
        words@ == empty_text(scanning),
{
    if scanning {
        literal("Scanning…")
    } else {
        literal("Empty folder")
    }
}

/// How a row of the list is set off.
#[derive(Clone, Copy, Debug, PartialEq, Eq, Structural)]
pub enum RowLook {
    /// In hand, in a list that has the keyboard.
    Emphasised,
    /// In hand.
    Quiet,
    Marked,
    Hovered,
    Plain,
}

/// How a row is set off: the one in hand first, then a marked one, then the one under the
/// pointer. `listens` is whether the list has the keyboard.
pub fn row_look(in_hand: bool, marked: bool, hovered: bool, listens: bool) -> (look: RowLook)
    ensures
        look == if in_hand {
            if listens {
                RowLook::Emphasised
            } else {
                RowLook::Quiet
            }
        } else if marked {
            RowLook::Marked
        } else if hovered {
            RowLook::Hovered
        } else {
            RowLook::Plain
        },
{
    if in_hand {
        if listens {
            RowLook::Emphasised
        } else {
            RowLook::Quiet
        }
    } else if marked {
        RowLook::Marked
    } else if hovered {
        RowLook::Hovered
    } else {
        RowLook::Plain
    }
}

/// What is said of the entry in hand, under its name.
pub open spec fn summary_text(
    file_type: FileType,
    descendants: Option<u64>,
    size: Seq<char>,
    share: Seq<char>,
) -> Seq<char> {
    let line = size + " · "@ + share + "%"@;
    match descendants {
        Some(count) => if file_type == FileType::Folder {
            "Folder · "@ + grouped(count as nat) + " items · "@ + line
        } else {
            line
        },
        None => line,
    }
}

/// What is said of the entry in hand, under its name: how much it holds and its share of the
/// folder, in percent.
pub fn summary(file_type: FileType, descendants: Option<u64>, size: &str, share: &str) -> (words:
    String)
    ensures
        words@ == summary_text(file_type, descendants, size@, share@),
{
    let mut line = literal(size);
    append(&mut line, " · ");
    append(&mut line, share);
    append(&mut line, "%");
    match descendants {
        Some(count) => {
            if file_type == FileType::Folder {
                let mut words = literal("Folder · ");
                append_count(&mut words, count);
                append(&mut words, " items · ");
                append(&mut words, line.as_str());
                words
            } else {
                line
            }
        },
        None => line,
    }
}

/// What goes under the summary.
#[derive(Debug, PartialEq, Eq)]
pub enum Body<'a> {
    Nothing,
    Line(String),
    Lines(&'a Vec<String>),
    /// A picture over its caption.
    Picture(&'a String),
}

/// What goes under the summary of the entry in hand: its preview, or for a folder `hint`, the
/// keys that open and rescan it.
pub fn body<'a>(preview: &'a Preview, file_type: FileType, hint: &str) -> (body: Body<'a>)
    ensures
        match *preview {
            Preview::Empty => if file_type == FileType::Folder {
                body is Line && body->Line_0@ == hint@
            } else {
                body is Nothing
            },
            Preview::Loading => body is Line && body->Line_0@ == "…"@,
            Preview::Info(info) => body is Line && body->Line_0@ == info@,
            Preview::Text(lines) => body is Lines && body->Lines_0 == lines,
            Preview::Picture(caption) => body is Picture && body->Picture_0 == caption,
        },
{
    match preview {
        Preview::Empty => {
            if file_type == FileType::Folder {
                Body::Line(literal(hint))
            } else {
                Body::Nothing
            }
        },
        Preview::Loading => Body::Line(literal("…")),
        Preview::Info(info) => Body::Line(literal(info.as_str())),
        Preview::Text(lines) => Body::Lines(lines),
        Preview::Picture(caption) => Body::Picture(caption),
    }
}

/// The hint for a folder in a window of the X11 or Wayland kind.
pub fn folder_hint() -> (hint: String)
    ensures
        hint@ == "Enter or double-click to open · r to rescan"@,
{
    literal("Enter or double-click to open · r to rescan")
}

/// The hint for a folder in a Mac's window.
pub fn mac_folder_hint() -> (hint: String)
    ensures
        hint@ == "Return or double-click to open · ⌘R to rescan"@,
{
    literal("Return or double-click to open · ⌘R to rescan")
}

/// The names of a path from `from` on, with slashes between.
pub open spec fn slashed(path: Seq<Seq<u8>>, from: int) -> Seq<u8>
    decreases path.len() - from,
{
    if from >= path.len() {
        Seq::empty()
    } else if from + 1 == path.len() {
        path[from]
    } else {
        path[from] + seq![47u8] + slashed(path, from + 1)
    }
}

fn slashed_bytes(path: &Vec<Name>, from: usize) -> (bytes: Vec<u8>)
    requires
        from <= path.len(),
    ensures
        bytes@ == slashed(spelled(path@), from as int),
{
    let ghost names = spelled(path@);
    let mut bytes: Vec<u8> = Vec::new();
    let mut i: usize = from;
    assert(bytes@ + slashed(names, from as int) =~= slashed(names, from as int));
    while i < path.len()
        invariant
            from <= i <= path.len(),
            names == spelled(path@),
            bytes@ + slashed(names, i as int) == slashed(names, from as int),
        decreases path.len() - i,
    {
        let ghost before = bytes@;
        assert(names[i as int] == path@[i as int]@);
        append_bytes(&mut bytes, path[i].as_slice());
        if i + 1 < path.len() {
            bytes.push(47);
        }
        i += 1;
        assert(bytes@ + slashed(names, i as int) =~= before + slashed(names, i - 1));
    }
    assert(bytes@ =~= bytes@ + slashed(names, path.len() as int));
    bytes
}

/// A path as shown, with the home folder as `~`. `whole` is the path in full.
pub open spec fn abbreviated(
    path: Seq<Seq<u8>>,
    home: Option<Seq<Seq<u8>>>,
    whole: Seq<char>,
) -> Seq<char> {
    match home {
        Some(home) => if !home.is_prefix_of(path) {
            whole
        } else if path.len() == home.len() {
            "~"@
        } else {
            "~/"@ + lossy_text(slashed(path, home.len() as int))
        },
        None => whole,
    }
}

/// `/home/me/Music` as `~/Music`. The path and the home folder are given as their parts, the
/// root being one, and `whole` is the path in full.
pub fn abbreviate_home(path: &Vec<Name>, home: &Option<Vec<Name>>, whole: &str) -> (shown: String)
    ensures
        shown@ == abbreviated(
            spelled(path@),
            crate::names::path_view(*home),
            whole@,
        ),
{
    match home {
        Some(home) => {
            if !starts_with(path, home) {
                return literal(whole);
            }
            if path.len() == home.len() {
                return literal("~");
            }
            let rest = slashed_bytes(path, home.len());
            let mut shown = literal("~/");
            append(&mut shown, lossy(&rest).as_str());
            shown
        },
        None => literal(whole),
    }
}

/// How wide the breadcrumbs from `from` on are, each after a separator.
pub open spec fn crumbs_width(widths: Seq<u32>, from: int, separator: int) -> int
    decreases widths.len() - from,
{
    if from >= widths.len() {
        0
    } else {
        separator + widths[from] + crumbs_width(widths, from + 1, separator)
    }
}

/// How wide the breadcrumbs are with so many after the first given up for an ellipsis.
pub open spec fn bar_width(widths: Seq<u32>, separator: int, ellipsis: int, hidden: int) -> int {
    widths[0] + crumbs_width(widths, 1 + hidden, separator) + if hidden > 0 {
        separator + ellipsis
    } else {
        0
    }
}

/// How many breadcrumbs after the first give way: as few as make the rest fit, and never the
/// last.
pub open spec fn is_hidden(
    widths: Seq<u32>,
    separator: int,
    ellipsis: int,
    room: int,
    hidden: int,
) -> bool {
    &&& 0 <= hidden
    &&& hidden == 0 || hidden + 1 < widths.len()
    &&& hidden + 2 < widths.len() ==> bar_width(widths, separator, ellipsis, hidden) <= room
    &&& forall|fewer: int|
        0 <= fewer < hidden ==> #[trigger] bar_width(widths, separator, ellipsis, fewer) > room
}

/// There is one number of breadcrumbs to hide.
pub proof fn one_number_is_hidden(
    widths: Seq<u32>,
    separator: int,
    ellipsis: int,
    room: int,
    a: int,
    b: int,
)
    requires
        is_hidden(widths, separator, ellipsis, room, a),
        is_hidden(widths, separator, ellipsis, room, b),
    ensures
        a == b,
{
    if a < b {
        assert(bar_width(widths, separator, ellipsis, a) > room);
    } else if b < a {
        assert(bar_width(widths, separator, ellipsis, b) > room);
    }
}

proof fn crumbs_width_is_small(widths: Seq<u32>, from: int, separator: int)
    requires
        0 <= from <= widths.len(),
        0 <= separator <= u32::MAX,
    ensures
        0 <= crumbs_width(widths, from, separator) <= (widths.len() - from) * 0x1_ffff_fffe,
    decreases widths.len() - from,
{
    if from < widths.len() {
        crumbs_width_is_small(widths, from + 1, separator);
        assert((widths.len() - from) * 0x1_ffff_fffe == (widths.len() - from - 1) * 0x1_ffff_fffe
            + 0x1_ffff_fffe) by (nonlinear_arith);
    }
}

/// How many breadcrumbs after the first give way to "…": as few as make the rest fit, and never
/// the last. `widths` are theirs.
pub fn hidden_crumbs(widths: &Vec<u32>, separator: u32, ellipsis: u32, room: u64) -> (hidden: usize)
    requires
        0 < widths.len() <= 0x4000_0000,
    ensures
        is_hidden(widths@, separator as int, ellipsis as int, room as int, hidden as int),
{
    let ghost (sep, dots) = (separator as int, ellipsis as int);
    // All of them, from the last back to the second.
    let mut width: u64 = 0;
    let mut i: usize = widths.len();
    while i > 1
        invariant
            1 <= i <= widths.len() <= 0x4000_0000,
            sep == separator,
            width == crumbs_width(widths@, i as int, sep),
        decreases i,
    {
        proof {
            crumbs_width_is_small(widths@, i - 1, sep);
        }
        i -= 1;
        width += separator as u64 + widths[i] as u64;
    }
    let mut hidden: usize = 0;
    while hidden + 2 < widths.len()
        invariant
            0 < widths.len() <= 0x4000_0000,
            sep == separator,
            dots == ellipsis,
            hidden == 0 || hidden + 1 < widths.len(),
            width == crumbs_width(widths@, 1 + hidden, sep),
            forall|fewer: int|
                0 <= fewer < hidden ==> #[trigger] bar_width(widths@, sep, dots, fewer) > room,
        decreases widths.len() - hidden,
    {
        proof {
            crumbs_width_is_small(widths@, 1 + hidden, sep);
            crumbs_width_is_small(widths@, 2 + hidden, sep);
        }
        let mut all: u64 = widths[0] as u64 + width;
        if hidden > 0 {
            all += separator as u64 + ellipsis as u64;
        }
        assert(all == bar_width(widths@, sep, dots, hidden as int));
        if all <= room {
            return hidden;
        }
        width -= separator as u64 + widths[hidden + 1] as u64;
        hidden += 1;
    }
    hidden
}

/// Part of the breadcrumb bar.
#[derive(Clone, Copy, Debug, PartialEq, Eq, Structural)]
pub enum Crumb {
    Separator { x: u64 },
    Ellipsis { x: u64 },
    /// A folder's name. Every one but the last goes up to its depth when clicked.
    Folder { x: u64, width: u64, depth: usize, last: bool },
}

/// Where a name ends that starts at `x`: no farther than `end`.
pub open spec fn crumb_width(width: int, x: int, end: int) -> int {
    if x + width <= end {
        width
    } else if x <= end {
        end - x
    } else {
        0
    }
}

/// The bar from the folder at `depth` on, which starts at `x`.
pub open spec fn bar_from(
    widths: Seq<u32>,
    separator: int,
    ellipsis: int,
    end: int,
    hidden: int,
    depth: int,
    x: int,
) -> Seq<Crumb>
    decreases widths.len() - depth,
{
    if depth >= widths.len() {
        Seq::empty()
    } else if 0 < depth <= hidden {
        let (start, next) = if depth == 1 {
            (
                seq![
                    Crumb::Separator { x: x as u64 },
                    Crumb::Ellipsis { x: (x + separator) as u64 },
                ],
                x + separator + ellipsis,
            )
        } else {
            (Seq::empty(), x)
        };
        start + bar_from(widths, separator, ellipsis, end, hidden, depth + 1, next)
    } else {
        let (start, at) = if depth > 0 {
            (seq![Crumb::Separator { x: x as u64 }], x + separator)
        } else {
            (Seq::empty(), x)
        };
        let width = crumb_width(widths[depth] as int, at, end);
        start.push(
            Crumb::Folder {
                x: at as u64,
                width: width as u64,
                depth: depth as usize,
                last: depth + 1 == widths.len(),
            },
        ) + bar_from(widths, separator, ellipsis, end, hidden, depth + 1, at + width)
    }
}

/// The breadcrumbs: the scan's root, then each folder down to the one shown. `hidden` of them
/// after the first give way to "…". They start at `x` and end by `end` at the latest.
pub fn path_bar(
    widths: &Vec<u32>,
    separator: u32,
    ellipsis: u32,
    x: u32,
    end: u32,
    hidden: usize,
) -> (bar: Vec<Crumb>)
    requires
        widths.len() <= 0x4000_0000,
    ensures
        bar@ == bar_from(
            widths@,
            separator as int,
            ellipsis as int,
            end as int,
            hidden as int,
            0,
            x as int,
        ),
{
    let ghost (sep, dots) = (separator as int, ellipsis as int);
    let ghost whole = bar_from(widths@, sep, dots, end as int, hidden as int, 0, x as int);
    let mut bar: Vec<Crumb> = Vec::new();
    let mut at: u64 = x as u64;
    let mut depth: usize = 0;
    assert(bar@ + whole =~= whole);
    while depth < widths.len()
        invariant
            depth <= widths.len() <= 0x4000_0000,
            sep == separator,
            dots == ellipsis,
            at <= 0xffff_ffff + depth * 0x2_0000_0000,
            bar@ + bar_from(
                widths@,
                sep,
                dots,
                end as int,
                hidden as int,
                depth as int,
                at as int,
            ) == whole,
        decreases widths.len() - depth,
    {
        let ghost before = bar@;
        let ghost was = at;
        if depth > 0 && depth <= hidden {
            if depth == 1 {
                bar.push(Crumb::Separator { x: at });
                at += separator as u64;
                bar.push(Crumb::Ellipsis { x: at });
                at += ellipsis as u64;
            }
        } else {
            if depth > 0 {
                bar.push(Crumb::Separator { x: at });
                at += separator as u64;
            }
            let full: u64 = widths[depth] as u64;
            let width: u64 = if at + full <= end as u64 {
                full
            } else if at <= end as u64 {
                end as u64 - at
            } else {
                0
            };
            bar.push(Crumb::Folder { x: at, width, depth, last: depth + 1 == widths.len() });
            at += width;
        }
        depth += 1;
        assert(bar@ + bar_from(
            widths@,
            sep,
            dots,
            end as int,
            hidden as int,
            depth as int,
            at as int,
        ) =~= before + bar_from(
            widths@,
            sep,
            dots,
            end as int,
            hidden as int,
            depth - 1,
            was as int,
        ));
    }
    assert(bar@ =~= whole);
    bar
}

/// How a dialog's button is coloured.
#[derive(Clone, Copy, Debug, PartialEq, Eq, Structural)]
pub enum ButtonLook {
    Danger,
    Accent,
    Plain,
}

/// A dialog's button.
pub struct DialogButton {
    pub label: String,
    pub confirms: bool,
    pub look: ButtonLook,
}

/// A dialog's buttons from the right: the confirming one first, where the eye ends up.
pub fn dialog_buttons(confirm: &Option<String>, dangerous: bool) -> (buttons: Vec<DialogButton>)
    ensures
        match *confirm {
            Some(verb) => {
                &&& buttons@.len() == 2
                &&& buttons@[0].label@ == verb@ && buttons@[0].confirms
                &&& buttons@[0].look == if dangerous {
                    ButtonLook::Danger
                } else {
                    ButtonLook::Accent
                }
                &&& buttons@[1].label@ == "Cancel"@ && !buttons@[1].confirms
                &&& buttons@[1].look == ButtonLook::Plain
            },
            None => {
                &&& buttons@.len() == 1
                &&& buttons@[0].label@ == "OK"@ && buttons@[0].confirms
                &&& buttons@[0].look == ButtonLook::Accent
            },
        },
{
    let mut buttons: Vec<DialogButton> = Vec::new();
    match confirm {
        Some(verb) => {
            let look = if dangerous {
                ButtonLook::Danger
            } else {
                ButtonLook::Accent
            };
            buttons.push(DialogButton { label: literal(verb.as_str()), confirms: true, look });
            buttons.push(
                DialogButton {
                    label: literal("Cancel"),
                    confirms: false,
                    look: ButtonLook::Plain,
                },
            );
        },
        None => {
            buttons.push(
                DialogButton { label: literal("OK"), confirms: true, look: ButtonLook::Accent },
            );
        },
    }
    buttons
}

/// The keys that answer a dialog.
pub fn dialog_hint(asks: bool) -> (hint: String)
    ensures
        hint@ == if asks {
            "Enter or y confirms · Esc or n cancels"@
        } else {
            "Enter or Esc closes"@
        },
{
    if asks {
        literal("Enter or y confirms · Esc or n cancels")
    } else {
        literal("Enter or Esc closes")
    }
}

/// The buttons of the title bar that the window draws itself, from the right, and their signs.
pub fn title_buttons() -> (buttons: Vec<(TitleButton, char)>)
    ensures
        buttons@ == seq![
            (TitleButton::Close, '×'),
            (TitleButton::Maximize, '▢'),
            (TitleButton::Minimize, '–'),
        ],
{
    let mut buttons: Vec<(TitleButton, char)> = Vec::new();
    buttons.push((TitleButton::Close, '×'));
    buttons.push((TitleButton::Maximize, '▢'));
    buttons.push((TitleButton::Minimize, '–'));
    assert(buttons@ =~= seq![
        (TitleButton::Close, '×'),
        (TitleButton::Maximize, '▢'),
        (TitleButton::Minimize, '–'),
    ]);
    buttons
}

/// The window's title, from the folder's and what is said of it.
pub fn window_title(title: &str, subtitle: &str) -> (words: String)
    ensures
        words@ == title@ + " — "@ + subtitle@ + " — diskonaut"@,
{
    let mut words = literal(title);
    append(&mut words, " — ");
    append(&mut words, subtitle);
    append(&mut words, " — diskonaut");
    words
}

/// Hiding one more folder saves its name and a separator; hiding the first puts an ellipsis in its
/// place.
pub proof fn hiding_a_folder_saves_its_width(
    widths: Seq<u32>,
    separator: int,
    ellipsis: int,
    hidden: int,
)
    requires
        0 <= hidden,
        hidden + 2 < widths.len(),
    ensures
        hidden == 0 ==> bar_width(widths, separator, ellipsis, 0) - bar_width(
            widths,
            separator,
            ellipsis,
            1,
        ) == widths[1] - ellipsis,
        hidden > 0 ==> bar_width(widths, separator, ellipsis, hidden) - bar_width(
            widths,
            separator,
            ellipsis,
            hidden + 1,
        ) == widths[hidden + 1] + separator,
        crumbs_width(widths, widths.len() as int, separator) == 0,
        bar_width(widths.take(1), separator, ellipsis, 0) == widths[0],
{
}

/// Every folder that is not hidden has its crumb, and only the last says that it is the last.
pub proof fn every_folder_shown_has_its_crumb(
    widths: Seq<u32>,
    separator: int,
    ellipsis: int,
    end: int,
    hidden: int,
    from: int,
    x: int,
    depth: int,
)
    requires
        0 <= from <= depth < widths.len() <= usize::MAX,
        depth == 0 || depth > hidden,
    ensures
        ({
            let bar = bar_from(widths, separator, ellipsis, end, hidden, from, x);
            exists|i: int|
                0 <= i < bar.len() && match #[trigger] bar[i] {
                    Crumb::Folder { x: _, width: _, depth: its, last } => its == depth && last == (
                    depth == widths.len() - 1),
                    _ => false,
                }
        }),
    decreases widths.len() - from,
{
    let bar = bar_from(widths, separator, ellipsis, end, hidden, from, x);
    if 0 < from <= hidden {
        let (start, next) = if from == 1 {
            (
                seq![
                    Crumb::Separator { x: x as u64 },
                    Crumb::Ellipsis { x: (x + separator) as u64 },
                ],
                x + separator + ellipsis,
            )
        } else {
            (Seq::empty(), x)
        };
        every_folder_shown_has_its_crumb(
            widths,
            separator,
            ellipsis,
            end,
            hidden,
            from + 1,
            next,
            depth,
        );
        let rest = bar_from(widths, separator, ellipsis, end, hidden, from + 1, next);
        let i = choose|i: int|
            0 <= i < rest.len() && match #[trigger] rest[i] {
                Crumb::Folder { x: _, width: _, depth: its, last } => its == depth && last == (depth
                    == widths.len() - 1),
                _ => false,
            };
        assert(bar[start.len() + i] == rest[i]);
    } else {
        let (start, at) = if from > 0 {
            (seq![Crumb::Separator { x: x as u64 }], x + separator)
        } else {
            (Seq::empty(), x)
        };
        let width = crumb_width(widths[from] as int, at, end);
        if from == depth {
            assert(bar[start.len() as int] == Crumb::Folder {
                x: at as u64,
                width: width as u64,
                depth: from as usize,
                last: from + 1 == widths.len(),
            });
        } else {
            every_folder_shown_has_its_crumb(
                widths,
                separator,
                ellipsis,
                end,
                hidden,
                from + 1,
                at + width,
                depth,
            );
            let rest = bar_from(widths, separator, ellipsis, end, hidden, from + 1, at + width);
            let i = choose|i: int|
                0 <= i < rest.len() && match #[trigger] rest[i] {
                    Crumb::Folder { x: _, width: _, depth: its, last } => its == depth && last == (
                    depth == widths.len() - 1),
                    _ => false,
                };
            assert(bar[start.len() + 1 + i] == rest[i]);
        }
    }
}

/// A crumb stays inside the bar, and is as wide as its name where there is room for that.
pub proof fn a_crumb_stays_inside_the_bar(width: int, x: int, end: int)
    requires
        0 <= width,
        0 <= x <= end,
    ensures
        0 <= crumb_width(width, x, end) <= width,
        x + crumb_width(width, x, end) <= end,
        x + width <= end ==> crumb_width(width, x, end) == width,
        x + width > end ==> x + crumb_width(width, x, end) == end,
{
}

/// A path below the home folder is shown from there, one name after the other with a slash between;
/// any other is shown whole.
pub proof fn paths_below_home_are_abbreviated(
    home: Seq<Seq<u8>>,
    below: Seq<Seq<u8>>,
    whole: Seq<char>,
)
    ensures
        abbreviated(home, Some(home), whole) == "~"@,
        below.len() > 0 ==> abbreviated(home + below, Some(home), whole) == "~/"@ + lossy_text(
            slashed(below, 0),
        ),
        abbreviated(home, None, whole) == whole,
        !home.is_prefix_of(below) ==> abbreviated(below, Some(home), whole) == whole,
{
    let path = home + below;
    assert(home.is_prefix_of(path));
    assert(path.skip(home.len() as int) =~= below.skip(0));
    slashes_go_by_what_is_left(path, home.len() as int, below, 0);
}

proof fn slashes_go_by_what_is_left(path: Seq<Seq<u8>>, from: int, names: Seq<Seq<u8>>, at: int)
    requires
        0 <= from <= path.len(),
        0 <= at <= names.len(),
        path.skip(from) == names.skip(at),
    ensures
        slashed(path, from) == slashed(names, at),
    decreases path.len() - from,
{
    assert(path.skip(from).len() == path.len() - from);
    assert(names.skip(at).len() == names.len() - at);
    if from < path.len() {
        assert(path.skip(from)[0] == path[from + 0]);
        assert(names.skip(at)[0] == names[at + 0]);
        assert(path.skip(from + 1) =~= path.skip(from).skip(1));
        assert(names.skip(at + 1) =~= names.skip(at).skip(1));
        slashes_go_by_what_is_left(path, from + 1, names, at + 1);
    }
}

/// One name more is one slash and that name more.
pub proof fn a_name_more_is_a_slash_more(names: Seq<Seq<u8>>, name: Seq<u8>, from: int)
    requires
        0 <= from < names.len(),
    ensures
        slashed(names.push(name), from) == slashed(names, from) + seq![0x2fu8] + name,
        slashed(seq![name], 0) == name,
    decreases names.len() - from,
{
    let more = names.push(name);
    if from + 1 == names.len() {
        assert(slashed(more, from + 1) == name);
        assert(slashed(more, from) =~= slashed(names, from) + seq![0x2fu8] + name);
    } else {
        a_name_more_is_a_slash_more(names, name, from + 1);
        assert(slashed(more, from) =~= slashed(names, from) + seq![0x2fu8] + name);
    }
}

/// What is said of the entry in hand ends with its size and its share; only a folder's says before
/// them how many items it holds.
pub proof fn only_a_folder_counts_its_items(
    file_type: FileType,
    descendants: Option<u64>,
    size: Seq<char>,
    share: Seq<char>,
)
    ensures
        ({
            let text = summary_text(file_type, descendants, size, share);
            let end = size + " · "@ + share + "%"@;
            &&& exists|start: Seq<char>| text == #[trigger] (start + end)
            &&& file_type == FileType::File ==> text == end
            &&& file_type == FileType::Folder && descendants is Some ==> text == "Folder · "@
                + grouped(descendants->0 as nat) + " items · "@ + end
        }),
{
    let end = size + " · "@ + share + "%"@;
    let text = summary_text(file_type, descendants, size, share);
    if file_type == FileType::Folder && descendants is Some {
        let start = "Folder · "@ + grouped(descendants->0 as nat) + " items · "@;
        assert(text == start + end);
    } else {
        assert(end =~= Seq::<char>::empty() + end);
        assert(text == Seq::<char>::empty() + end);
    }
}

} // verus!
