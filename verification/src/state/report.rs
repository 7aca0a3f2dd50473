//! What the window holds, as lines of text for a script to compare.

use vstd::prelude::*;

use crate::count::{append_decimal, decimal};
use crate::entries::{entry_names, row_paths, FileMetadata, Row};
use crate::names::{copy_path, spelled, Name};
use crate::state::actions::paths_model;
use crate::state::model::ViewerModel;
use crate::state::{Focus, Viewer};
use crate::text::{append, literal, lossy, lossy_text};

verus! {

/// What the window knows beyond the viewer.
pub struct Around {
    pub title: String,
    /// The window that has the keyboard.
    pub key_window: String,
    /// Whether the sizes shown are the files' lengths.
    pub apparent: bool,
    pub sidebar: bool,
    /// The preview, spelled out.
    pub preview: String,
    /// Whether a picture is shown.
    pub image: bool,
    pub status: String,
    pub totals: String,
}

/// Names as text, with a separator between them.
pub open spec fn names_text(names: Seq<Seq<u8>>, separator: Seq<char>) -> Seq<char>
    decreases names.len(),
{
    if names.len() == 0 {
        Seq::empty()
    } else if names.len() == 1 {
        lossy_text(names[0])
    } else {
        names_text(names.drop_last(), separator) + separator + lossy_text(names.last())
    }
}

/// Paths as text, with a bar between them.
pub open spec fn paths_text(paths: Seq<Seq<Seq<u8>>>) -> Seq<char>
    decreases paths.len(),
{
    if paths.len() == 0 {
        Seq::empty()
    } else if paths.len() == 1 {
        names_text(paths[0], "/"@)
    } else {
        paths_text(paths.drop_last()) + " | "@ + names_text(paths.last(), "/"@)
    }
}

/// A line of the report.
pub open spec fn line(name: Seq<char>, value: Seq<char>) -> Seq<char> {
    name + ": "@ + value + "\n"@
}

/// Yes or no.
pub open spec fn truth(is: bool) -> Seq<char> {
    if is {
        "true"@
    } else {
        "false"@
    }
}

/// What there is of a choice, or nothing.
pub open spec fn one_or_none(name: Option<Seq<u8>>) -> Seq<char> {
    match name {
        Some(name) => lossy_text(name),
        None => Seq::empty(),
    }
}

impl ViewerModel {
    /// The first lines: what is shown and what is in hand.
    pub open spec fn report_start(self, around: Around) -> Seq<char> {
        line("title"@, around.title@) + line("key window"@, around.key_window@) + line(
            "path"@,
            names_text(self.folder, " | "@),
        ) + line("listing"@, names_text(entry_names(self.listing), " | "@)) + line(
            "selected"@,
            one_or_none(self.selected),
        ) + line("rows"@, paths_text(row_paths(self.rows))) + line(
            "cursor"@,
            match self.cursor_entry() {
                Some(row) => names_text(row.path, "/"@),
                None => Seq::empty(),
            },
        ) + line("marked"@, names_text(self.marked, " | "@))
    }

    /// What the window holds, line by line.
    pub open spec fn report(self, around: Around) -> Seq<char> {
        self.report_start(around) + line(
            "focus"@,
            match self.focus {
                Focus::List => "List"@,
                Focus::Treemap => "Treemap"@,
            },
        ) + line("zoom"@, decimal(self.zoom_level as nat)) + line(
            "apparent"@,
            truth(around.apparent),
        ) + line("sidebar"@, truth(around.sidebar)) + line("scanning"@, truth(self.scanning)) + line(
            "preview"@,
            around.preview@,
        ) + line("image"@, truth(around.image)) + line("status"@, around.status@) + line(
            "totals"@,
            around.totals@,
        )
    }

    /// What a command acts on: the marked entries or the one in hand, else the folder shown.
    pub open spec fn paths_or_folder(self) -> Seq<Seq<Seq<u8>>> {
        if self.target_paths().len() == 0 {
            seq![self.folder]
        } else {
            self.target_paths()
        }
    }
}

fn append_names(text: &mut String, names: &Vec<Name>, separator: &str)
    ensures
        final(text)@ == old(text)@ + names_text(spelled(names@), separator@),
{
    let ghost before = text@;
    let ghost all = spelled(names@);
    let mut i: usize = 0;
    assert(before + names_text(all.take(0), separator@) =~= before);
    while i < names.len()
        invariant
            i <= names.len(),
            all == spelled(names@),
            text@ == before + names_text(all.take(i as int), separator@),
        decreases names.len() - i,
    {
        let ghost so_far = text@;
        assert(all.take(i + 1).drop_last() =~= all.take(i as int));
        assert(all.take(i + 1).last() == names@[i as int]@);
        if i > 0 {
            append(text, separator);
        }
        let name = lossy(&names[i]);
        append(text, name.as_str());
        i += 1;
        assert(text@ =~= before + names_text(all.take(i as int), separator@));
    }
    assert(all.take(names.len() as int) =~= all);
}

fn append_rows(text: &mut String, rows: &Vec<Row>)
    ensures
        final(text)@ == old(text)@ + paths_text(row_paths(crate::entries::rows_model(rows@))),
{
    let ghost before = text@;
    let ghost all = row_paths(crate::entries::rows_model(rows@));
    let mut i: usize = 0;
    assert(before + paths_text(all.take(0)) =~= before);
    while i < rows.len()
        invariant
            i <= rows.len(),
            all == row_paths(crate::entries::rows_model(rows@)),
            text@ == before + paths_text(all.take(i as int)),
        decreases rows.len() - i,
    {
        assert(all.take(i + 1).drop_last() =~= all.take(i as int));
        assert(all.take(i + 1).last() == spelled(rows@[i as int].path@));
        if i > 0 {
            append(text, " | ");
        }
        append_names(text, &rows[i].path, "/");
        i += 1;
        assert(text@ =~= before + paths_text(all.take(i as int)));
    }
    assert(all.take(rows.len() as int) =~= all);
}

fn append_listing(text: &mut String, entries: &Vec<FileMetadata>)
    ensures
        final(text)@ == old(text)@ + names_text(
            entry_names(crate::entries::listing_model(entries@)),
            " | "@,
        ),
{
    let ghost before = text@;
    let ghost all = entry_names(crate::entries::listing_model(entries@));
    let mut i: usize = 0;
    assert(before + names_text(all.take(0), " | "@) =~= before);
    while i < entries.len()
        invariant
            i <= entries.len(),
            all == entry_names(crate::entries::listing_model(entries@)),
            text@ == before + names_text(all.take(i as int), " | "@),
        decreases entries.len() - i,
    {
        assert(all.take(i + 1).drop_last() =~= all.take(i as int));
        assert(all.take(i + 1).last() == entries@[i as int].name@);
        if i > 0 {
            append(text, " | ");
        }
        let name = lossy(&entries[i].name);
        append(text, name.as_str());
        i += 1;
        assert(text@ =~= before + names_text(all.take(i as int), " | "@));
    }
    assert(all.take(entries.len() as int) =~= all);
}

fn append_line(text: &mut String, name: &str, value: &str)
    ensures
        final(text)@ == old(text)@ + line(name@, value@),
{
    let ghost before = text@;
    append(text, name);
    append(text, ": ");
    append(text, value);
    append(text, "\n");
    assert(text@ =~= before + line(name@, value@));
}

fn truth_text(is: bool) -> (text: &'static str)
    ensures
        text@ == truth(is),
{
    if is {
        "true"
    } else {
        "false"
    }
}

impl Viewer {
    fn report_first(&self, around: &Around) -> (text: String)
        ensures
            text@ == self@.report_start(*around),
    {
        let mut text = String::new();
        append_line(&mut text, "title", around.title.as_str());
        assert(text@ =~= line("title"@, around.title@));
        append_line(&mut text, "key window", around.key_window.as_str());
        let mut value = String::new();
        append_names(&mut value, &self.folder, " | ");
        assert(value@ =~= names_text(self@.folder, " | "@));
        append_line(&mut text, "path", value.as_str());
        let mut value = String::new();
        append_listing(&mut value, &self.contents.listing);
        assert(value@ =~= names_text(entry_names(self@.listing), " | "@));
        append_line(&mut text, "listing", value.as_str());
        let value = match &self.selected {
            Some(name) => lossy(name),
            None => String::new(),
        };
        assert(value@ =~= one_or_none(self@.selected));
        append_line(&mut text, "selected", value.as_str());
        let mut value = String::new();
        append_rows(&mut value, &self.contents.rows);
        assert(value@ =~= paths_text(row_paths(self@.rows)));
        append_line(&mut text, "rows", value.as_str());
        let mut value = String::new();
        if let Some(row) = self.cursor_entry() {
            append_names(&mut value, &row.path, "/");
            assert(value@ =~= names_text(self@.cursor_entry()->0.path, "/"@));
        }
        append_line(&mut text, "cursor", value.as_str());
        let mut value = String::new();
        append_names(&mut value, &self.marked, " | ");
        assert(value@ =~= names_text(self@.marked, " | "@));
        append_line(&mut text, "marked", value.as_str());
        text
    }

    /// What the window holds, as `name: value` lines, for a script to compare.
    pub fn state_for_script(&self, around: &Around) -> (text: String)
        ensures
            text@ == self@.report(*around),
    {
        let mut text = self.report_first(around);
        append_line(
            &mut text,
            "focus",
            match self.focus {
                Focus::List => "List",
                Focus::Treemap => "Treemap",
            },
        );
        let mut value = String::new();
        append_decimal(&mut value, self.contents.zoom_level as u64);
        assert(value@ =~= decimal(self@.zoom_level as nat));
        append_line(&mut text, "zoom", value.as_str());
        append_line(&mut text, "apparent", truth_text(around.apparent));
        append_line(&mut text, "sidebar", truth_text(around.sidebar));
        append_line(&mut text, "scanning", truth_text(self.scanning));
        append_line(&mut text, "preview", around.preview.as_str());
        append_line(&mut text, "image", truth_text(around.image));
        append_line(&mut text, "status", around.status.as_str());
        append_line(&mut text, "totals", around.totals.as_str());
        text
    }

    /// What a command acts on: the marked entries or the one in hand, else the folder shown.
    pub fn paths_or_folder(&self) -> (paths: Vec<Vec<Name>>)
        ensures
            paths_model(paths@) == self@.paths_or_folder(),
    {
        let mut paths = self.target_paths();
        assert(paths_model(paths@).len() == paths.len());
        if paths.len() == 0 {
            paths.push(copy_path(&self.folder));
            assert(paths_model(paths@) =~= seq![self@.folder]);
        }
        paths
    }
}

/// What the report is of a window that shows no folder.
pub fn no_viewer(title: &str) -> (text: String)
    ensures
        text@ == "viewer: none\ntitle: "@ + title@ + "\n"@,
{
    let mut text = literal("viewer: none\ntitle: ");
    append(&mut text, title);
    append(&mut text, "\n");
    text
}

/// A command acts on the marked entries, or on the row in hand, or with neither on the folder shown:
/// there is always something.
pub proof fn a_command_acts_on_something(m: ViewerModel)
    ensures
        m.paths_or_folder().len() > 0,
        m.marked.len() > 0 ==> m.paths_or_folder() == m.target_paths() && m.paths_or_folder().len()
            == m.marked.len(),
        m.marked.len() == 0 && m.selected is None && m.cursor is None ==> m.paths_or_folder()
            == seq![m.folder],
        forall|i: int|
            0 <= i < m.paths_or_folder().len() ==> m.folder.is_prefix_of(
                #[trigger] m.paths_or_folder()[i],
            ),
{
    crate::state::actions::paths_acted_on_are_below_the_folder(m);
    assert forall|i: int| 0 <= i < m.paths_or_folder().len() implies m.folder.is_prefix_of(
        #[trigger] m.paths_or_folder()[i],
    ) by {
        if m.target_paths().len() > 0 {
            assert(m.target_paths()[i].take(m.folder.len() as int) == m.folder);
        }
    }
}

/// Names stand with the separator between them, and paths with a bar.
pub proof fn names_and_paths_are_set_apart(
    names: Seq<Seq<u8>>,
    more: Seq<u8>,
    separator: Seq<char>,
    paths: Seq<Seq<Seq<u8>>>,
)
    ensures
        names.len() > 0 ==> names_text(names.push(more), separator) == names_text(names, separator)
            + separator + lossy_text(more),
        names_text(seq![more], separator) == lossy_text(more),
        paths.len() > 0 ==> paths_text(paths.push(names)) == paths_text(paths) + " | "@
            + names_text(names, "/"@),
        paths_text(seq![names]) == names_text(names, "/"@),
{
    assert(names.push(more).drop_last() =~= names);
    assert(paths.push(names).drop_last() =~= paths);
}

/// The report starts with the window's title and ends with what the totals say, and has a line of
/// what is marked and one of how far the treemap is zoomed.
pub proof fn the_report_tells_what_the_window_holds(m: ViewerModel, around: Around)
    ensures
        exists|after: Seq<char>| m.report(around) == #[trigger] ("title: "@ + around.title@ + after),
        exists|before: Seq<char>|
            m.report(around) == #[trigger] (before + "totals: "@ + around.totals@ + "\n"@),
        exists|before: Seq<char>, focus: Seq<char>, after: Seq<char>|
            m.report(around) == #[trigger] (before + ("marked: "@ + names_text(m.marked, " | "@)
                + "\n"@ + "focus: "@ + focus + "\n"@ + "zoom: "@ + decimal(m.zoom_level as nat)
                + "\n"@) + after) && (m.focus == Focus::List ==> focus == "List"@) && (m.focus
                == Focus::Treemap ==> focus == "Treemap"@),
{
    reveal_strlit("title: ");
    reveal_strlit("title");
    reveal_strlit("totals: ");
    reveal_strlit("totals");
    reveal_strlit("marked: ");
    reveal_strlit("marked");
    reveal_strlit("focus: ");
    reveal_strlit("focus");
    reveal_strlit("zoom: ");
    reveal_strlit("zoom");
    reveal_strlit(": ");
    assert("title"@ + ": "@ =~= "title: "@);
    assert("totals"@ + ": "@ =~= "totals: "@);
    assert("marked"@ + ": "@ =~= "marked: "@);
    assert("focus"@ + ": "@ =~= "focus: "@);
    assert("zoom"@ + ": "@ =~= "zoom: "@);
    let report = m.report(around);
    let start = m.report_start(around);
    let focus = match m.focus {
        Focus::List => "List"@,
        Focus::Treemap => "Treemap"@,
    };
    let early = line("title"@, around.title@) + line("key window"@, around.key_window@) + line(
        "path"@,
        names_text(m.folder, " | "@),
    ) + line("listing"@, names_text(entry_names(m.listing), " | "@)) + line(
        "selected"@,
        one_or_none(m.selected),
    ) + line("rows"@, paths_text(row_paths(m.rows))) + line(
        "cursor"@,
        match m.cursor_entry() {
            Some(row) => names_text(row.path, "/"@),
            None => Seq::empty(),
        },
    );
    let marked = line("marked"@, names_text(m.marked, " | "@));
    let focused = line("focus"@, focus);
    let zoomed = line("zoom"@, decimal(m.zoom_level as nat));
    assert(start == early + marked);
    let a = line("apparent"@, truth(around.apparent));
    let b = line("sidebar"@, truth(around.sidebar));
    let c = line("scanning"@, truth(m.scanning));
    let d = line("preview"@, around.preview@);
    let e = line("image"@, truth(around.image));
    let f = line("status"@, around.status@);
    let g = line("totals"@, around.totals@);
    let upto = early + marked + focused + zoomed;
    assert(report == upto + a + b + c + d + e + f + g);
    seven_after(upto, a, b, c, d, e, f, g);
    four_in_a_row(early, marked, focused, zoomed, a + b + c + d + e + f + g);
    let middle = "marked: "@ + names_text(m.marked, " | "@) + "\n"@ + "focus: "@ + focus + "\n"@
        + "zoom: "@ + decimal(m.zoom_level as nat) + "\n"@;
    lines_in_one(
        "marked: "@ + names_text(m.marked, " | "@) + "\n"@,
        "focus: "@,
        focus,
        "\n"@,
    );
    lines_in_one(
        "marked: "@ + names_text(m.marked, " | "@) + "\n"@ + ("focus: "@ + focus + "\n"@),
        "zoom: "@,
        decimal(m.zoom_level as nat),
        "\n"@,
    );
    assert(middle == marked + focused + zoomed);
    assert(report == early + middle + (a + b + c + d + e + f + g));
    let most = upto + a + b + c + d + e + f;
    lines_in_one(most, "totals: "@, around.totals@, "\n"@);
    assert(report == most + "totals: "@ + around.totals@ + "\n"@);
    let titled = "title: "@ + around.title@;
    assert(titled.is_prefix_of(line("title"@, around.title@)));
    prefix_stays(titled, m, around);
    let after = report.skip(titled.len() as int);
    assert(report =~= titled + after);
}

proof fn prefix_stays(titled: Seq<char>, m: ViewerModel, around: Around)
    requires
        titled.is_prefix_of(line("title"@, around.title@)),
    ensures
        titled.is_prefix_of(m.report(around)),
{
    let first = line("title"@, around.title@);
    let start = m.report_start(around);
    assert(first.is_prefix_of(start)) by {
        assert(start.take(first.len() as int) =~= first);
    }
    assert(start.is_prefix_of(m.report(around))) by {
        assert(m.report(around).take(start.len() as int) =~= start);
    }
    assert(m.report(around).take(titled.len() as int) =~= titled);
}

proof fn lines_in_one(start: Seq<char>, a: Seq<char>, b: Seq<char>, c: Seq<char>)
    ensures
        start + a + b + c == start + (a + b + c),
{
    assert(start + a + b + c =~= start + (a + b + c));
}

proof fn four_in_a_row(
    start: Seq<char>,
    a: Seq<char>,
    b: Seq<char>,
    c: Seq<char>,
    rest: Seq<char>,
)
    ensures
        start + a + b + c + rest == start + (a + b + c) + rest,
{
    lines_in_one(start, a, b, c);
}

proof fn seven_after(
    start: Seq<char>,
    a: Seq<char>,
    b: Seq<char>,
    c: Seq<char>,
    d: Seq<char>,
    e: Seq<char>,
    f: Seq<char>,
    g: Seq<char>,
)
    ensures
        start + a + b + c + d + e + f + g == start + (a + b + c + d + e + f + g),
{
    lines_in_one(start, a, b, c);
    lines_in_one(start, a + b + c, d, e);
    lines_in_one(start, a + b + c + d + e, f, g);
}

} // verus!
