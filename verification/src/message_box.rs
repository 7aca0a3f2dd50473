//! The question before a deletion in the terminal: its words, as full as they fit, and where
//! they go.

use unicode_width::UnicodeWidthStr;
use vstd::prelude::*;

use crate::bottom_line::text_views;
use crate::count::{append_count, grouped};
use crate::entries::FileType;
use crate::terminal::Cells;
use crate::text::{append, chars_of, literal, text_of};

verus! {

/// How many columns of a terminal a text takes.
pub uninterp spec fn columns_of(text: Seq<char>) -> nat;

/// `UnicodeWidthStr::width` of `unicode-width`: how many columns a text takes depends on the
/// text alone.
#[verifier::external_body]
fn columns(text: &str) -> (count: usize)
    ensures
        count == columns_of(text@),
{
    UnicodeWidthStr::width(text)
}

/// Whether a character would reach the terminal as a command.
pub open spec fn is_control(c: char) -> bool {
    c <= '\u{1f}' || '\u{7f}' <= c <= '\u{9f}'
}

/// A text with its control characters replaced.
pub open spec fn printed(text: Seq<char>) -> Seq<char> {
    Seq::new(
        text.len(),
        |i: int|
            if is_control(text[i]) {
                '?'
            } else {
                text[i]
            },
    )
}

/// Text as it may be drawn: with control characters replaced, since one would reach the terminal
/// as a command.
pub fn printable(text: &str) -> (drawn: String)
    ensures
        drawn@ == printed(text@),
{
    let chars = chars_of(text);
    let mut drawn: Vec<char> = Vec::new();
    let mut i: usize = 0;
    while i < chars.len()
        invariant
            i <= chars.len(),
            chars@ == text@,
            drawn@ =~= printed(text@).take(i as int),
        decreases chars.len() - i,
    {
        let c: char = chars[i];
        let control = c <= '\u{1f}' || ('\u{7f}' <= c && c <= '\u{9f}');
        drawn.push(
            if control {
                '?'
            } else {
                c
            },
        );
        i += 1;
    }
    assert(drawn@ =~= printed(text@));
    text_of(drawn.as_slice())
}

/// No text that is drawn holds a command to the terminal.
pub proof fn drawn_text_holds_no_commands(text: Seq<char>, i: int)
    requires
        0 <= i < text.len(),
    ensures
        !is_control(printed(text)[i]),
        !is_control(text[i]) ==> printed(text)[i] == text[i],
{
}

/// An entry to delete, in words.
pub struct DoomedFile {
    /// Its own name.
    pub name: String,
    /// Its whole path.
    pub path: String,
    pub file_type: FileType,
    /// How many entries are under it.
    pub descendants: Option<u64>,
}

/// A line to draw.
#[derive(Debug, PartialEq, Eq)]
pub enum Line {
    Whole(String),
    /// One that does not fit: it is to be cut in the middle.
    Cut(String),
}

/// The names of the first `count` entries, each after a comma but the first.
pub open spec fn names_joined(files: Seq<DoomedFile>, count: int) -> Seq<char>
    decreases count,
{
    if count <= 0 {
        Seq::empty()
    } else if count == 1 {
        printed(files[0].name@)
    } else {
        names_joined(files, count - 1) + ", "@ + printed(files[count - 1].name@)
    }
}

/// The first `shown` names, and how many more there are, if there are.
pub open spec fn names_shown(files: Seq<DoomedFile>, shown: int) -> Seq<char> {
    if shown >= files.len() {
        names_joined(files, files.len() as int)
    } else {
        names_joined(files, shown) + " and "@ + grouped((files.len() - shown) as nat) + " more"@
    }
}

fn append_names(text: &mut String, files: &Vec<DoomedFile>, count: usize)
    requires
        count <= files.len(),
    ensures
        final(text)@ == old(text)@ + names_joined(files@, count as int),
{
    let ghost before = text@;
    let mut i: usize = 0;
    assert(before + names_joined(files@, 0) =~= before);
    while i < count
        invariant
            i <= count <= files.len(),
            text@ == before + names_joined(files@, i as int),
        decreases count - i,
    {
        if i > 0 {
            append(text, ", ");
        }
        let name = printable(files[i].name.as_str());
        append(text, name.as_str());
        i += 1;
        assert(text@ =~= before + names_joined(files@, i as int));
    }
}

/// The first `shown` names, and how many more there are, if there are.
pub fn names_text(files: &Vec<DoomedFile>, shown: usize) -> (text: String)
    requires
        shown <= files.len(),
    ensures
        text@ == names_shown(files@, shown as int),
{
    let mut text = String::new();
    append_names(&mut text, files, shown);
    assert(text@ =~= names_joined(files@, shown as int));
    if shown < files.len() {
        append(&mut text, " and ");
        append_count(&mut text, (files.len() - shown) as u64);
        append(&mut text, " more");
    }
    text
}

/// How many names are shown: all of them, or as many as fit, or none if not even one does.
pub open spec fn names_that_fit(files: Seq<DoomedFile>, shown: int, room: u16) -> int
    decreases shown,
{
    if shown <= 0 {
        0
    } else if columns_of(names_shown(files, shown)) <= room {
        shown
    } else {
        names_that_fit(files, shown - 1, room)
    }
}

/// What is about to go, as a line in so many columns: one entry's path, or its name if that does
/// not fit; or several names, as many as fit, then how many more. Of no entries it is empty.
pub open spec fn is_names_line(files: Seq<DoomedFile>, room: u16, line: Line) -> bool {
    if files.len() == 0 {
        line is Whole && line->Whole_0@ == Seq::<char>::empty()
    } else if files.len() == 1 {
        if room > columns_of(printed(files[0].path@)) {
            line is Whole && line->Whole_0@ == printed(files[0].path@)
        } else {
            line is Cut && line->Cut_0@ == printed(files[0].name@)
        }
    } else {
        let shown = names_that_fit(files, files.len() as int, room);
        if shown > 0 {
            line is Whole && line->Whole_0@ == names_shown(files, shown)
        } else {
            line is Cut && line->Cut_0@ == names_shown(files, 1)
        }
    }
}

/// What is about to go: one entry's path, or several names, as many as fit in `room` columns,
/// then how many more.
pub fn names_line(files: &Vec<DoomedFile>, room: u16) -> (line: Line)
    ensures
        is_names_line(files@, room, line),
{
    if files.len() == 0 {
        return Line::Whole(String::new());
    }
    if files.len() == 1 {
        let path = printable(files[0].path.as_str());
        let width: usize = columns(path.as_str());
        return lone_line(path, width, printable(files[0].name.as_str()), room);
    }
    let mut shown: usize = files.len();
    while shown > 0
        invariant
            shown <= files.len(),
            names_that_fit(files@, files.len() as int, room) == names_that_fit(
                files@,
                shown as int,
                room,
            ),
            files.len() > 1,
        decreases shown,
    {
        let text = names_text(files, shown);
        if fits(columns(text.as_str()), room) {
            return Line::Whole(text);
        }
        shown -= 1;
    }
    Line::Cut(names_text(files, 1))
}

/// Whether a text so many columns wide fits.
pub fn fits(width: usize, room: u16) -> (does: bool)
    ensures
        does == (width <= room),
{
    width <= room as usize
}

/// The line for one entry: its path, which is so wide, if there is more room than that, and else
/// its name, to be cut.
pub fn lone_line(path: String, width: usize, name: String, room: u16) -> (line: Line)
    ensures
        line == if room > width {
            Line::Whole(path)
        } else {
            Line::Cut(name)
        },
{
    if room as usize > width {
        Line::Whole(path)
    } else {
        Line::Cut(name)
    }
}

/// The questions that could be asked, the fullest first. `size` is what several entries hold
/// together.
pub open spec fn question_options(files: Seq<DoomedFile>, size: Seq<char>) -> Seq<Seq<char>> {
    if files.len() == 1 {
        match files[0].file_type {
            FileType::File => seq!["Delete this file?"@, "Delete?"@],
            FileType::Folder => seq![
                "Delete folder with "@ + grouped(
                    match files[0].descendants {
                        Some(count) => count as nat,
                        None => 0,
                    },
                ) + " children?"@,
                "Delete folder?"@,
                "Delete?"@,
            ],
        }
    } else {
        seq![
            "Delete these "@ + grouped(files.len()) + " items ("@ + size + ")?"@,
            "Delete "@ + grouped(files.len()) + " items?"@,
            "Delete?"@,
        ]
    }
}

fn push_option(options: &mut Vec<String>, option: String)
    ensures
        text_views(final(options)@) == text_views(old(options)@).push(option@),
{
    let ghost before = text_views(options@);
    options.push(option);
    assert(text_views(options@) =~= before.push(option@));
}

/// The questions that could be asked, the fullest first.
pub fn questions(files: &Vec<DoomedFile>, size: &str) -> (options: Vec<String>)
    ensures
        text_views(options@) == question_options(files@, size@),
{
    let mut options: Vec<String> = Vec::new();
    assert(text_views(options@) =~= Seq::empty());
    if files.len() == 1 {
        match files[0].file_type {
            FileType::File => push_option(&mut options, literal("Delete this file?")),
            FileType::Folder => {
                let mut full = literal("Delete folder with ");
                let count: u64 = match files[0].descendants {
                    Some(count) => count,
                    None => 0,
                };
                append_count(&mut full, count);
                append(&mut full, " children?");
                push_option(&mut options, full);
                push_option(&mut options, literal("Delete folder?"));
            },
        }
    } else {
        let mut full = literal("Delete these ");
        append_count(&mut full, files.len() as u64);
        append(&mut full, " items (");
        append(&mut full, size);
        append(&mut full, ")?");
        push_option(&mut options, full);
        let mut short = literal("Delete ");
        append_count(&mut short, files.len() as u64);
        append(&mut short, " items?");
        push_option(&mut options, short);
    }
    push_option(&mut options, literal("Delete?"));
    assert(text_views(options@) =~= question_options(files@, size@));
    options
}

/// The first of some widths that fits, and the last where none does.
pub open spec fn first_fitting(widths: Seq<int>, room: u16) -> int
    decreases widths.len(),
{
    if widths.len() <= 1 || widths[0] <= room {
        0
    } else {
        1 + first_fitting(widths.drop_first(), room)
    }
}

/// The first of some widths that fits, and the last where none does.
pub fn first_that_fits(widths: &Vec<usize>, room: u16) -> (at: usize)
    requires
        widths.len() > 0,
    ensures
        at == first_fitting(crate::state::places(widths@), room),
        at < widths.len(),
{
    let ghost all = crate::state::places(widths@);
    let mut i: usize = 0;
    assert(all.skip(0) =~= all);
    while i + 1 < widths.len()
        invariant
            i < widths.len(),
            all == crate::state::places(widths@),
            first_fitting(all, room) == i + first_fitting(all.skip(i as int), room),
        decreases widths.len() - i,
    {
        assert(all.skip(i as int)[0] == widths@[i as int]);
        if fits(widths[i], room) {
            return i;
        }
        assert(all.skip(i as int).drop_first() =~= all.skip(i + 1));
        i += 1;
    }
    i
}

/// The widths of texts, in columns.
pub open spec fn widths_of(texts: Seq<Seq<char>>) -> Seq<int> {
    Seq::new(texts.len(), |i: int| columns_of(texts[i]) as int)
}

/// The question to ask, the fullest that fits in `room` columns.
pub fn question_line(files: &Vec<DoomedFile>, size: &str, room: u16) -> (question: String)
    ensures
        ({
            let options = question_options(files@, size@);
            question@ == options[first_fitting(widths_of(options), room)]
        }),
{
    let options = questions(files, size);
    let ghost views = text_views(options@);
    assert(views.len() > 0);
    let mut widths: Vec<usize> = Vec::new();
    let mut i: usize = 0;
    while i < options.len()
        invariant
            i <= options.len(),
            views == text_views(options@),
            crate::state::places(widths@) =~= widths_of(views).take(i as int),
        decreases options.len() - i,
    {
        let ghost so_far = crate::state::places(widths@);
        let width: usize = columns(options[i].as_str());
        assert(views[i as int] == options@[i as int]@);
        widths.push(width);
        assert(crate::state::places(widths@) =~= so_far.push(width as int));
        i += 1;
    }
    assert(crate::state::places(widths@) =~= widths_of(views));
    assert(crate::state::places(widths@).len() == widths.len());
    assert(views.len() == options.len());
    let at: usize = first_that_fits(&widths, room);
    assert(views[at as int] == options@[at as int]@);
    options[at].clone()
}

/// Where a text starts that is centred across a span.
pub fn centred(x: u16, span: u16, width: u16) -> (start: u16)
    requires
        x + span <= u16::MAX,
    ensures
        start == x + if span > width {
            (span - width + 1) / 2
        } else {
            0
        },
{
    let spare: u16 = span.saturating_sub(width);
    x + spare / 2 + spare % 2
}

/// Where the question goes: in the middle of the screen.
pub fn message_cells(area: Cells) -> (cells: Cells)
    requires
        area.width >= 50,
        area.y + area.height >= 10,
        area.x + area.width <= u16::MAX,
        area.y + area.height <= u16::MAX,
    ensures
        cells.width == if area.width > 150 {
            150
        } else {
            area.width as int / 2
        },
        cells.height == 10,
        cells.x == (area.x + area.width) / 2 - cells.width as int / 2,
        cells.y == (area.y + area.height) / 2 - 5,
{
    let width: u16 = if area.width > 150 {
        150
    } else {
        area.width / 2
    };
    Cells {
        x: (area.x + area.width) / 2 - width / 2,
        y: (area.y + area.height) / 2 - 5,
        width,
        height: 10,
    }
}

/// The rows of what the box says: the question, the names and the answer, or that it is being
/// done and the names.
pub fn message_rows(cells: Cells, in_progress: bool) -> (rows: Vec<u16>)
    requires
        cells.height == 10,
        cells.y + cells.height <= u16::MAX,
    ensures
        rows@ == if in_progress {
            seq![(cells.y + 4) as u16, (cells.y + 6) as u16]
        } else {
            seq![(cells.y + 2) as u16, (cells.y + 5) as u16, (cells.y + 8) as u16]
        },
{
    let middle: u16 = cells.y + cells.height / 2;
    let mut rows: Vec<u16> = Vec::new();
    if in_progress {
        rows.push(middle - 1);
        rows.push(middle + 1);
        assert(rows@ =~= seq![(cells.y + 4) as u16, (cells.y + 6) as u16]);
    } else {
        rows.push(middle - 3);
        rows.push(middle);
        rows.push(middle + 3);
        assert(rows@ =~= seq![(cells.y + 2) as u16, (cells.y + 5) as u16, (cells.y + 8) as u16]);
    }
    rows
}

/// As many names are shown as fit: those that are shown fit the room, and no larger number does.
pub proof fn as_many_names_as_fit(files: Seq<DoomedFile>, most: int, room: u16, more: int)
    requires
        0 <= most,
    ensures
        0 <= names_that_fit(files, most, room) <= most,
        names_that_fit(files, most, room) > 0 ==> columns_of(
            names_shown(files, names_that_fit(files, most, room)),
        ) <= room,
        names_that_fit(files, most, room) < more <= most ==> columns_of(names_shown(files, more))
            > room,
    decreases most,
{
    if most > 0 {
        as_many_names_as_fit(files, most - 1, room, more);
    }
}

/// The fullest question that fits is asked, and the last where none does.
pub proof fn the_fullest_that_fits_is_taken(widths: Seq<int>, room: u16, fuller: int)
    requires
        widths.len() > 0,
    ensures
        0 <= first_fitting(widths, room) < widths.len(),
        widths[first_fitting(widths, room)] <= room || first_fitting(widths, room) == widths.len()
            - 1,
        0 <= fuller < first_fitting(widths, room) ==> widths[fuller] > room,
    decreases widths.len(),
{
    if widths.len() > 1 && widths[0] > room {
        the_fullest_that_fits_is_taken(widths.drop_first(), room, fuller - 1);
    }
}

/// Every entry about to go is named in the line or counted in it: the names shown come in their
/// order, with a comma between each two, and the number after them is that of the rest.
pub proof fn names_are_shown_or_counted(files: Seq<DoomedFile>, shown: int)
    requires
        0 < shown <= files.len(),
    ensures
        shown == files.len() ==> names_shown(files, shown) == names_joined(files, shown),
        shown < files.len() ==> names_shown(files, shown) == names_joined(files, shown) + " and "@
            + grouped((files.len() - shown) as nat) + " more"@,
        names_joined(files, 1) == printed(files[0].name@),
        shown > 1 ==> names_joined(files, shown) == names_joined(files, shown - 1) + ", "@ + printed(
            files[shown - 1].name@,
        ),
{
}

/// Every question asks to delete, the shortest one last, and the fullest says how many entries are
/// to go.
pub proof fn every_question_asks_to_delete(files: Seq<DoomedFile>, size: Seq<char>, i: int)
    requires
        0 <= i < question_options(files, size).len(),
    ensures
        ({
            let options = question_options(files, size);
            &&& "Delete"@.is_prefix_of(options[i])
            &&& options[i].last() == '?'
            &&& options.last() == "Delete?"@
            &&& files.len() != 1 ==> exists|before: Seq<char>, after: Seq<char>|
                options[0] == #[trigger] (before + grouped(files.len()) + after) && after.len()
                    > size.len()
            &&& files.len() != 1 ==> options[1] == "Delete "@ + grouped(files.len()) + " items?"@
            &&& files.len() == 1 && files[0].file_type == FileType::Folder
                && files[0].descendants is Some ==> exists|before: Seq<char>, after: Seq<char>|
                options[0] == #[trigger] (before + grouped(files[0].descendants->0 as nat) + after)
            &&& files.len() == 1 ==> (options.len() == 3 <==> files[0].file_type
                == FileType::Folder)
        }),
{
    reveal_strlit("Delete");
    reveal_strlit("Delete?");
    reveal_strlit("Delete this file?");
    reveal_strlit("Delete folder?");
    reveal_strlit("Delete folder with ");
    reveal_strlit(" children?");
    reveal_strlit("Delete these ");
    reveal_strlit(" items (");
    reveal_strlit(")?");
    reveal_strlit("Delete ");
    reveal_strlit(" items?");
    let options = question_options(files, size);
    assert(options[i].take(6) =~= "Delete"@);
    assert("Delete"@ =~= options[i].take("Delete"@.len() as int));
    if files.len() != 1 {
        assert(options[0] =~= "Delete these "@ + grouped(files.len()) + (" items ("@ + size
            + ")?"@));
    } else if files[0].file_type == FileType::Folder && files[0].descendants is Some {
        assert(options[0] =~= "Delete folder with "@ + grouped(files[0].descendants->0 as nat)
            + " children?"@);
    }
}

/// What can be printed is no control, and everything before the space and just after the tilde is.
pub proof fn what_can_be_printed_is_no_control(c: char)
    ensures
        c < ' ' ==> is_control(c),
        ' ' <= c <= '~' ==> !is_control(c),
        '~' < c < '\u{a0}' ==> is_control(c),
        '\u{a0}' <= c ==> !is_control(c),
{
}

} // verus!
