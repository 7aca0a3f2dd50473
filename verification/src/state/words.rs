//! What the window says: the status bar, the title, one line on an entry, and the words of a
//! delete.

use vstd::prelude::*;

use crate::count::{append_count, append_decimal, decimal, grouped};
use crate::entries::{entry_names, EntryModel, FileMetadata, FileType};
use crate::names::{place, Name};
use crate::paths::{file_name, file_name_of};
use crate::state::model::ViewerModel;
use crate::state::Viewer;
use crate::text::{append, literal, lossy, lossy_text};

verus! {

/// How long a message holds the status bar, in nanoseconds.
pub const MESSAGE_TIME: u64 = 4_000_000_000;

/// What the left of the status bar speaks of.
pub enum StatusLeft {
    /// A message, while it lasts.
    Message(String),
    /// How many entries are marked, and their size in bytes.
    Marked(usize, u128),
    /// The nested tile under the pointer, by its place.
    Nested(usize),
    /// The entry under the pointer, or in hand.
    Entry(FileMetadata),
    Scanning,
    Nothing,
}

/// A size in bytes, and how it is shown.
pub struct Amount {
    pub bytes: u128,
    pub text: String,
}

/// An entry to delete, in words.
pub struct Doomed {
    /// Its whole path.
    pub path: String,
    /// Its own name.
    pub name: String,
    /// Its size, as it is shown.
    pub size: String,
}

/// An entry that could not be deleted, and why.
pub struct Failure {
    pub path: String,
    pub name: String,
    pub error: String,
}

/// The size of the entries of these names; a name with no entry adds nothing.
pub open spec fn size_of_named(m: ViewerModel, names: Seq<Seq<u8>>) -> int
    decreases names.len(),
{
    if names.len() == 0 {
        0
    } else {
        size_of_named(m, names.drop_last()) + match m.entry_named(names.last()) {
            Some(entry) => entry.size,
            None => 0,
        }
    }
}

proof fn sizes_grow(m: ViewerModel, names: Seq<Seq<u8>>, count: int)
    requires
        0 <= count <= names.len(),
        forall|i: int| 0 <= i < m.listing.len() ==> (#[trigger] m.listing[i]).size >= 0,
    ensures
        0 <= size_of_named(m, names.take(count)) <= size_of_named(m, names),
    decreases names.len(),
{
    if names.len() == 0 {
        assert(names.take(count) =~= names);
    } else {
        entry_names(m.listing).index_of_first_ensures(names.last());
        if count == names.len() {
            assert(names.take(count) =~= names);
            assert(names.drop_last().take(names.len() - 1) =~= names.drop_last());
            sizes_grow(m, names.drop_last(), names.len() - 1);
        } else {
            sizes_grow(m, names.drop_last(), count);
            assert(names.drop_last().take(count) =~= names.take(count));
        }
    }
}

/// The entry that the status bar describes: the row under the pointer, or else the entry
/// there, or else the row in hand.
pub open spec fn pointed_entry(m: ViewerModel) -> Option<EntryModel> {
    if m.hover_row is Some && m.hover_row->0 < m.rows.len() {
        Some(m.rows[m.hover_row->0].entry)
    } else if m.hover is Some && m.entry_named(m.hover->0) is Some {
        m.entry_named(m.hover->0)
    } else {
        match m.cursor_entry() {
            Some(row) => Some(row.entry),
            None => None,
        }
    }
}

/// Whether a message is still showing.
pub open spec fn is_saying(m: ViewerModel, now: u64) -> bool {
    m.message is Some && now - (m.message->0).1 < MESSAGE_TIME
}

/// Whether `left` is what the left of the status bar speaks of.
pub open spec fn is_status(m: ViewerModel, now: u64, left: StatusLeft) -> bool {
    if is_saying(m, now) {
        left is Message && left->Message_0@ == (m.message->0).0
    } else if m.marked.len() > 0 && m.hover is None {
        left is Marked && left->Marked_0 == m.marked.len() && left->Marked_1 == size_of_named(
            m,
            m.marked,
        )
    } else if m.hover_nested is Some && m.hover_nested->0 < m.nested.len() {
        left is Nested && left->Nested_0 == m.hover_nested->0
    } else if pointed_entry(m) is Some {
        left is Entry && left->Entry_0@ == pointed_entry(m)->0
    } else if m.scanning {
        left is Scanning
    } else {
        left is Nothing
    }
}

/// What an entry is, in words.
pub open spec fn kind_words(entry: EntryModel) -> Seq<char> {
    match (entry.file_type, entry.descendants) {
        (FileType::Folder, Some(count)) => ("folder, "@ + grouped(count as nat)) + " items"@,
        (FileType::Folder, None) => "folder"@,
        (FileType::File, _) => "file"@,
    }
}

/// One line on an entry: name, size, share of its folder, and what it is.
pub open spec fn description(
    entry: EntryModel,
    size: Seq<char>,
    share: Seq<char>,
) -> Seq<char> {
    ((((((lossy_text(entry.name) + " — "@) + size) + " ("@) + share) + "%) · "@)
        + kind_words(entry))
}

/// Put what an entry is, in words, on the end of a text.
fn append_kind(text: &mut String, entry: &FileMetadata)
    ensures
        final(text)@ == old(text)@ + kind_words(entry@),
{
    let ghost before = text@;
    match (entry.file_type, entry.descendants) {
        (FileType::Folder, Some(count)) => {
            append(text, "folder, ");
            append_count(text, count);
            append(text, " items");
            assert(text@ =~= before + kind_words(entry@));
        },
        (FileType::Folder, None) => append(text, "folder"),
        (FileType::File, _) => append(text, "file"),
    }
}

/// One line on an entry. `size` is its size, and `share` its share of the folder in per cent,
/// as they are shown.
pub fn describe(entry: &FileMetadata, size: &str, share: &str) -> (line: String)
    ensures
        line@ == description(entry@, size@, share@),
{
    let mut line = lossy(&entry.name);
    append(&mut line, " — ");
    append(&mut line, size);
    append(&mut line, " (");
    append(&mut line, share);
    append(&mut line, "%) · ");
    append_kind(&mut line, entry);
    line
}

/// Words with a dot between each two.
pub open spec fn dotted(words: Seq<Seq<char>>) -> Seq<char>
    decreases words.len(),
{
    if words.len() == 0 {
        Seq::empty()
    } else if words.len() == 1 {
        words[0]
    } else {
        (dotted(words.drop_last()) + " · "@) + words.last()
    }
}

/// The texts of words.
pub open spec fn word_views(words: Seq<String>) -> Seq<Seq<char>> {
    Seq::new(words.len(), |i: int| words[i]@)
}

/// The words that say it, if there is anything to say.
pub open spec fn said(say: bool, words: Seq<char>) -> Seq<Seq<char>> {
    if say {
        seq![words]
    } else {
        Seq::empty()
    }
}

/// What the scan found, in words: `took` is how long it took in seconds, as it is shown.
pub open spec fn scan_words(m: ViewerModel, took: Seq<char>) -> Seq<Seq<char>> {
    if m.scanning {
        seq![("scanning, "@ + grouped(m.entries_scanned as nat)) + " entries"@]
    } else if m.scan_took is Some {
        seq![((grouped(m.entries_scanned as nat) + " entries in "@) + took) + "s"@]
    } else {
        Seq::empty()
    }
}

/// How many folders are being rescanned, in words.
pub open spec fn rescan_words(rescans: nat) -> Seq<Seq<char>> {
    if rescans == 0 {
        Seq::empty()
    } else if rescans == 1 {
        seq!["rescanning 1 folder"@]
    } else {
        seq![("rescanning "@ + grouped(rescans)) + " folders"@]
    }
}

/// The right of the status bar, in words.
pub open spec fn totals_words(
    m: ViewerModel,
    took: Seq<char>,
    outside: Option<Amount>,
    freed: Amount,
    rescans: nat,
) -> Seq<Seq<char>> {
    (((((scan_words(m, took) + said(
        m.failed_to_read > 0,
        grouped(m.failed_to_read as nat) + " unreadable"@,
    )) + said(
        outside is Some && outside->0.bytes > 0,
        outside->0.text@ + " not found by the scan"@,
    )) + said(freed.bytes > 0, freed.text@ + " freed"@)) + said(
        m.zoom_level > 0,
        "zoom ×"@ + decimal(m.zoom_level as nat),
    )) + rescan_words(rescans))
}

/// Put a text on the end of others.
fn push_words(words: &mut Vec<String>, text: String)
    ensures
        word_views(final(words)@) == word_views(old(words)@) + seq![text@],
{
    let ghost before = word_views(words@);
    words.push(text);
    assert(word_views(words@) =~= before + seq![text@]);
}

/// Words with a dot between each two.
fn join_dotted(words: &Vec<String>) -> (text: String)
    ensures
        text@ == dotted(word_views(words@)),
{
    if words.len() == 0 {
        return String::new();
    }
    let ghost views = word_views(words@);
    let mut text = words[0].clone();
    let mut i: usize = 1;
    assert(views.take(1) =~= seq![views[0]]);
    while i < words.len()
        invariant
            1 <= i <= words.len(),
            views == word_views(words@),
            text@ == dotted(views.take(i as int)),
        decreases words.len() - i,
    {
        append(&mut text, " · ");
        append(&mut text, words[i].as_str());
        i += 1;
        assert(views.take(i as int).drop_last() =~= views.take(i - 1));
    }
    assert(views.take(words.len() as int) =~= views);
    text
}

impl Viewer {
    /// How long the status bar's message has left, in nanoseconds, if one is showing.
    pub fn message_left(&self, now: u64) -> (left: Option<u64>)
        requires
            self.message is Some ==> (self.message->0).1 <= now,
        ensures
            left is Some == is_saying(self@, now),
            left is Some ==> left->0 == MESSAGE_TIME - (now - (self@.message->0).1),
    {
        match &self.message {
            Some((_, at)) => if now - *at < MESSAGE_TIME {
                Some(MESSAGE_TIME - (now - *at))
            } else {
                None
            },
            None => None,
        }
    }

    /// The size of every marked entry together.
    fn marked_size(&self) -> (size: u128)
        requires
            size_of_named(self@, self@.marked) <= u128::MAX,
        ensures
            size == size_of_named(self@, self@.marked),
    {
        let mut size: u128 = 0;
        let mut i: usize = 0;
        let ghost names = self@.marked;
        while i < self.marked.len()
            invariant
                i <= self.marked.len(),
                names == self@.marked,
                size == size_of_named(self@, names.take(i as int)),
                size_of_named(self@, names) <= u128::MAX,
            decreases self.marked.len() - i,
        {
            proof {
                sizes_grow(self@, names, i + 1);
                assert(names.take(i + 1).drop_last() =~= names.take(i as int));
                assert(names.take(i + 1).last() == self.marked@[i as int]@);
            }
            if let Some(entry) = self.entry_named(&self.marked[i]) {
                size = size + entry.size;
            }
            i += 1;
        }
        assert(names.take(names.len() as int) =~= names);
        size
    }

    /// What the left of the status bar speaks of: a message while it lasts, else the marks'
    /// count and size, else what the pointer or the keyboard is on.
    pub fn status(&self, now: u64) -> (left: StatusLeft)
        requires
            self.message is Some ==> (self.message->0).1 <= now,
            size_of_named(self@, self@.marked) <= u128::MAX,
        ensures
            is_status(self@, now, left),
    {
        if let Some((message, at)) = &self.message {
            if now - *at < MESSAGE_TIME {
                return StatusLeft::Message(message.clone());
            }
        }
        if self.marked.len() > 0 && self.hover.is_none() {
            return StatusLeft::Marked(self.marked.len(), self.marked_size());
        }
        if let Some(index) = self.hover_nested {
            if index < self.contents.nested.len() {
                return StatusLeft::Nested(index);
            }
        }
        if let Some(row) = self.hover_row {
            if row < self.contents.rows.len() {
                assert(self@.rows[row as int] == self.contents.rows@[row as int]@);
                return StatusLeft::Entry(self.contents.rows[row].entry.copy());
            }
        }
        if let Some(name) = &self.hover {
            if let Some(entry) = self.entry_named(name) {
                return StatusLeft::Entry(entry.copy());
            }
        }
        if let Some(row) = self.cursor_entry() {
            return StatusLeft::Entry(row.entry.copy());
        }
        if self.scanning {
            StatusLeft::Scanning
        } else {
            StatusLeft::Nothing
        }
    }

    /// The right of the status bar: what the scan found. `took` is how long it took in seconds;
    /// `outside` what the filesystem holds beyond it, when that is known; `freed` what deletes
    /// gave back; and `rescans` how many folders are being scanned again.
    pub fn totals(
        &self,
        took: &str,
        outside: &Option<Amount>,
        freed: &Amount,
        rescans: usize,
    ) -> (text: String)
        ensures
            text@ == dotted(totals_words(self@, took@, *outside, *freed, rescans as nat)),
    {
        let mut words: Vec<String> = Vec::new();
        assert(word_views(words@) =~= Seq::empty());
        if self.scanning {
            let mut text = literal("scanning, ");
            append_count(&mut text, self.entries_scanned);
            append(&mut text, " entries");
            push_words(&mut words, text);
        } else if self.scan_took.is_some() {
            let mut text = crate::count::DisplayCount(self.entries_scanned).text();
            append(&mut text, " entries in ");
            append(&mut text, took);
            append(&mut text, "s");
            push_words(&mut words, text);
        }
        assert(word_views(words@) =~= scan_words(self@, took@));
        let ghost so_far = word_views(words@);
        if self.failed_to_read > 0 {
            let mut text = crate::count::DisplayCount(self.failed_to_read).text();
            append(&mut text, " unreadable");
            push_words(&mut words, text);
        }
        let ghost so_far = so_far + said(
            self@.failed_to_read > 0,
            grouped(self@.failed_to_read as nat) + " unreadable"@,
        );
        assert(word_views(words@) =~= so_far);
        if let Some(amount) = outside {
            if amount.bytes > 0 {
                let mut text = amount.text.clone();
                append(&mut text, " not found by the scan");
                push_words(&mut words, text);
            }
        }
        let ghost so_far = so_far + said(
            outside is Some && outside->0.bytes > 0,
            outside->0.text@ + " not found by the scan"@,
        );
        assert(word_views(words@) =~= so_far);
        if freed.bytes > 0 {
            let mut text = freed.text.clone();
            append(&mut text, " freed");
            push_words(&mut words, text);
        }
        let ghost so_far = so_far + said(freed.bytes > 0, freed.text@ + " freed"@);
        assert(word_views(words@) =~= so_far);
        if self.contents.zoom_level > 0 {
            let mut text = literal("zoom ×");
            append_decimal(&mut text, self.contents.zoom_level as u64);
            push_words(&mut words, text);
        }
        let ghost so_far = so_far + said(
            self@.zoom_level > 0,
            "zoom ×"@ + decimal(self@.zoom_level as nat),
        );
        assert(word_views(words@) =~= so_far);
        if rescans == 1 {
            push_words(&mut words, literal("rescanning 1 folder"));
        } else if rescans > 1 {
            let mut text = literal("rescanning ");
            append_count(&mut text, rescans as u64);
            append(&mut text, " folders");
            push_words(&mut words, text);
        }
        assert(word_views(words@) =~= so_far + rescan_words(rescans as nat));
        join_dotted(&words)
    }

    /// The window's title: the folder shown. At the scan's root that is the last name of its
    /// path, or the whole path where it ends in none.
    pub fn title(&self, root: &Vec<u8>) -> (title: String)
        ensures
            title@ == lossy_text(
                if self@.folder.len() > 0 {
                    self@.folder.last()
                } else {
                    match file_name_of(root@) {
                        Some(name) => name,
                        None => root@,
                    }
                },
            ),
    {
        if self.folder.len() > 0 {
            return lossy(&self.folder[self.folder.len() - 1]);
        }
        match file_name(root.as_slice()) {
            Some(name) => lossy(&vstd::slice::slice_to_vec(name)),
            None => lossy(root),
        }
    }

    /// Under the title: the folder's size, and below the root the whole scan's.
    pub fn subtitle(&self, size: &str, apparent: bool, scanned: &str) -> (words: String)
        ensures
            words@ == if self@.folder.len() > 0 {
                ((((size@ + " · "@) + if apparent {
                    "apparent size"@
                } else {
                    "on disk"@
                }) + " · "@) + scanned@) + " scanned"@
            } else {
                (size@ + " · "@) + if apparent {
                    "apparent size"@
                } else {
                    "on disk"@
                }
            },
    {
        let mut words = literal(size);
        append(&mut words, " · ");
        if apparent {
            append(&mut words, "apparent size");
        } else {
            append(&mut words, "on disk");
        }
        if self.folder.len() > 0 {
            append(&mut words, " · ");
            append(&mut words, scanned);
            append(&mut words, " scanned");
        }
        words
    }
}

/// How many entries a question names before it counts the rest.
pub const SHOWN: usize = 10;

/// The line of one entry in a question about several.
pub open spec fn doomed_line(file: Doomed) -> Seq<char> {
    ((("  "@ + file.name@) + "  ("@) + file.size@) + ")"@
}

/// The lines of the first `count` entries, each after a line's end but the first.
pub open spec fn doomed_lines(files: Seq<Doomed>, count: int) -> Seq<char>
    decreases count,
{
    if count <= 0 {
        Seq::empty()
    } else if count == 1 {
        doomed_line(files[0])
    } else {
        (doomed_lines(files, count - 1) + "\n"@) + doomed_line(files[count - 1])
    }
}

/// The entries that a question names, and how many more there are.
pub open spec fn doomed_list(files: Seq<Doomed>) -> Seq<char> {
    if files.len() > SHOWN {
        (((doomed_lines(files, SHOWN as int) + "\n"@) + "  and "@) + grouped(
            (files.len() - SHOWN) as nat,
        )) + " more"@
    } else {
        doomed_lines(files, files.len() as int)
    }
}

/// The question to ask before deleting entries for good.
pub open spec fn prompt_for(files: Seq<Doomed>, size: Seq<char>) -> Seq<char> {
    if files.len() == 1 {
        ((("Delete "@ + files[0].path@) + "?\n\n"@) + size)
            + " will be permanently removed from disk."@
    } else {
        ((((("Delete these "@ + grouped(files.len())) + " entries?\n\n"@) + doomed_list(files))
            + "\n\n"@) + size) + " will be permanently removed from disk."@
    }
}

fn append_doomed(text: &mut String, file: &Doomed)
    ensures
        final(text)@ == old(text)@ + doomed_line(*file),
{
    let ghost before = text@;
    append(text, "  ");
    append(text, file.name.as_str());
    append(text, "  (");
    append(text, file.size.as_str());
    append(text, ")");
    assert(text@ =~= before + doomed_line(*file));
}

fn doomed_text(files: &Vec<Doomed>) -> (text: String)
    ensures
        text@ == doomed_list(files@),
{
    let count: usize = if files.len() > SHOWN {
        SHOWN
    } else {
        files.len()
    };
    let mut text = String::new();
    let mut i: usize = 0;
    while i < count
        invariant
            i <= count <= files.len(),
            text@ == doomed_lines(files@, i as int),
        decreases count - i,
    {
        if i > 0 {
            append(&mut text, "\n");
        }
        append_doomed(&mut text, &files[i]);
        i += 1;
        assert(text@ =~= doomed_lines(files@, i as int));
    }
    if files.len() > SHOWN {
        append(&mut text, "\n");
        append(&mut text, "  and ");
        append_count(&mut text, (files.len() - SHOWN) as u64);
        append(&mut text, " more");
    }
    text
}

/// The question to ask before deleting `files` for good; `size` is what they hold together.
pub fn delete_prompt(files: &Vec<Doomed>, size: &str) -> (question: String)
    ensures
        question@ == prompt_for(files@, size@),
{
    let mut question = literal("Delete ");
    if files.len() == 1 {
        append(&mut question, files[0].path.as_str());
        append(&mut question, "?\n\n");
    } else {
        question = literal("Delete these ");
        append_count(&mut question, files.len() as u64);
        append(&mut question, " entries?\n\n");
        let list = doomed_text(files);
        append(&mut question, list.as_str());
        append(&mut question, "\n\n");
    }
    append(&mut question, size);
    append(&mut question, " will be permanently removed from disk.");
    question
}

/// Why entries may not be deleted, when `name` is one of the filesystem's own.
pub fn refusal(name: &Option<String>) -> (why: Option<String>)
    ensures
        match (name, why) {
            (Some(name), Some(why)) => why@
                == "NTFS metadata belongs to the filesystem and cannot be deleted: "@ + name@,
            (None, None) => true,
            _ => false,
        },
{
    match name {
        Some(name) => {
            let mut why = literal(
                "NTFS metadata belongs to the filesystem and cannot be deleted: ",
            );
            append(&mut why, name.as_str());
            Some(why)
        },
        None => None,
    }
}

/// What is said when of `asked` entries `deleted` were deleted and some were not.
pub open spec fn failure_words(
    asked: nat,
    deleted: nat,
    failures: Seq<Failure>,
) -> Seq<char> {
    if asked == 1 && failures.len() == 1 {
        (("Could not delete "@ + failures[0].path@) + ": "@) + failures[0].error@
    } else {
        let first = (((((("Deleted "@ + grouped(deleted)) + " of "@) + grouped(asked)) + "; "@)
            + failures[0].name@) + ": "@) + failures[0].error@;
        if failures.len() == 1 {
            first
        } else {
            ((first + " (and "@) + grouped((failures.len() - 1) as nat)) + " more)"@
        }
    }
}

/// What a delete of `asked` entries came to: nothing to say when none failed, else the first
/// failure and how many more.
pub fn delete_outcome(asked: usize, deleted: usize, failures: &Vec<Failure>) -> (outcome: Result<
    (),
    String,
>)
    ensures
        outcome is Ok == (failures.len() == 0),
        outcome is Err ==> outcome->Err_0@ == failure_words(
            asked as nat,
            deleted as nat,
            failures@,
        ),
{
    if failures.len() == 0 {
        return Ok(());
    }
    if asked == 1 && failures.len() == 1 {
        let mut text = literal("Could not delete ");
        append(&mut text, failures[0].path.as_str());
        append(&mut text, ": ");
        append(&mut text, failures[0].error.as_str());
        return Err(text);
    }
    let mut text = literal("Deleted ");
    append_count(&mut text, deleted as u64);
    append(&mut text, " of ");
    append_count(&mut text, asked as u64);
    append(&mut text, "; ");
    append(&mut text, failures[0].name.as_str());
    append(&mut text, ": ");
    append(&mut text, failures[0].error.as_str());
    if failures.len() > 1 {
        append(&mut text, " (and ");
        append_count(&mut text, (failures.len() - 1) as u64);
        append(&mut text, " more)");
    }
    Err(text)
}

/// An entry's own name, from its path.
pub fn last_name(path: &Vec<Name>) -> (name: String)
    ensures
        name@ == if path.len() > 0 {
            lossy_text(path@.last()@)
        } else {
            Seq::empty()
        },
{
    if path.len() > 0 {
        lossy(&path[path.len() - 1])
    } else {
        String::new()
    }
}

/// The words of the marks' count and size, as the size is shown.
pub fn marked_words(count: usize, size: &str) -> (words: String)
    ensures
        words@ == (grouped(count as nat) + " marked, "@) + size@,
{
    let mut words = crate::count::DisplayCount(count as u64).text();
    append(&mut words, " marked, ");
    append(&mut words, size);
    words
}

/// The size shown of marks is the sum of the sizes of their entries: each mark more adds the size of
/// its entry in the listing.
pub proof fn each_mark_adds_its_size(m: ViewerModel, names: Seq<Seq<u8>>, at: int)
    requires
        0 <= at < m.listing.len(),
        forall|j: int| 0 <= j < at ==> (#[trigger] m.listing[j]).name != m.listing[at].name,
    ensures
        size_of_named(m, names.push(m.listing[at].name)) == size_of_named(m, names)
            + m.listing[at].size,
        size_of_named(m, Seq::empty()) == 0,
{
    let all = entry_names(m.listing);
    let name = m.listing[at].name;
    assert forall|j: int| 0 <= j < at implies all[j] != name by {
        assert(m.listing[j].name != name);
    }
    crate::names::first_at(all, name, at);
    assert(names.push(name).drop_last() =~= names);
}

/// A message holds the status bar for four seconds, and no longer. After that it is the marks that
/// are told of, and where nothing is marked, or the pointer is over an entry, what the pointer is on
/// or else the row in hand.
pub proof fn the_status_bar_tells_of_what_matters(
    m: ViewerModel,
    now: u64,
    left: StatusLeft,
    at: int,
)
    requires
        is_status(m, now, left),
        0 <= at < m.rows.len(),
    ensures
        m.message is Some && now < (m.message->0).1 + 4_000_000_000 ==> left is Message
            && left->Message_0@ == (m.message->0).0,
        m.message is Some && now >= (m.message->0).1 + 4_000_000_000 ==> !(left is Message),
        m.message is None ==> !(left is Message),
        m.message is None && m.marked.len() > 0 && m.hover is None ==> left is Marked
            && left->Marked_0 == m.marked.len(),
        m.message is None && m.hover_row == Some(at) && m.hover_nested is None && m.hover is Some
            ==> left is Entry && left->Entry_0@ == m.rows[at].entry,
        m.message is None && m.marked.len() == 0 && m.hover is None && m.hover_row is None
            && m.hover_nested is None && m.cursor == Some(m.rows[at].path) && (forall|j: int|
            0 <= j < at ==> (#[trigger] m.rows[j]).path != m.rows[at].path) ==> left is Entry
            && left->Entry_0@ == m.rows[at].entry,
        m.message is None && m.marked.len() == 0 && m.hover is None && m.hover_row is None
            && m.hover_nested is None && m.cursor is None ==> (left is Scanning) == m.scanning,
{
    let paths = crate::entries::row_paths(m.rows);
    if forall|j: int| 0 <= j < at ==> (#[trigger] m.rows[j]).path != m.rows[at].path {
        assert forall|j: int| 0 <= j < at implies paths[j] != m.rows[at].path by {
            assert(m.rows[j].path != m.rows[at].path);
        }
        crate::names::first_at(paths, m.rows[at].path, at);
    }
}

/// Words are put one after the other with a dot between each two.
pub proof fn words_are_a_dot_apart(words: Seq<Seq<char>>, more: Seq<char>)
    ensures
        words.len() > 0 ==> dotted(words.push(more)) == dotted(words) + " · "@ + more,
        dotted(seq![more]) == more,
        dotted(Seq::empty()).len() == 0,
{
    assert(words.push(more).drop_last() =~= words);
}

/// The right of the status bar says what there is to say and no more: what the scan found, what
/// could not be read, what it did not find, what was freed, the zoom, and the rescans under way.
pub proof fn the_totals_say_what_there_is(
    m: ViewerModel,
    took: Seq<char>,
    outside: Option<Amount>,
    freed: Amount,
    rescans: nat,
)
    ensures
        ({
            let words = totals_words(m, took, outside, freed, rescans);
            let one = |say: bool| if say {
                1int
            } else {
                0int
            };
            &&& words.len() == one(m.scanning || m.scan_took is Some) + one(m.failed_to_read > 0)
                + one(outside is Some && outside->0.bytes > 0) + one(freed.bytes > 0) + one(
                m.zoom_level > 0,
            ) + one(rescans > 0)
            &&& m.failed_to_read > 0 ==> words.contains(
                grouped(m.failed_to_read as nat) + " unreadable"@,
            )
            &&& freed.bytes > 0 ==> words.contains(freed.text@ + " freed"@)
            &&& outside is Some && outside->0.bytes > 0 ==> words.contains(
                outside->0.text@ + " not found by the scan"@,
            )
            &&& m.zoom_level > 0 ==> words.contains("zoom ×"@ + decimal(m.zoom_level as nat))
            &&& m.scanning ==> words[0] == "scanning, "@ + grouped(m.entries_scanned as nat)
                + " entries"@
            &&& !m.scanning && m.scan_took is Some ==> words[0] == grouped(m.entries_scanned as nat)
                + " entries in "@ + took + "s"@
        }),
{
    let words = totals_words(m, took, outside, freed, rescans);
    let a = scan_words(m, took);
    let b = said(m.failed_to_read > 0, grouped(m.failed_to_read as nat) + " unreadable"@);
    let c = said(
        outside is Some && outside->0.bytes > 0,
        outside->0.text@ + " not found by the scan"@,
    );
    let d = said(freed.bytes > 0, freed.text@ + " freed"@);
    let e = said(m.zoom_level > 0, "zoom ×"@ + decimal(m.zoom_level as nat));
    let na = a.len() as int;
    let nb = na + b.len();
    let nc = nb + c.len();
    let nd = nc + d.len();
    if b.len() > 0 {
        assert(words[na] == b[0]);
    }
    if c.len() > 0 {
        assert(words[nb] == c[0]);
    }
    if d.len() > 0 {
        assert(words[nc] == d[0]);
    }
    if e.len() > 0 {
        assert(words[nd] == e[0]);
    }
    if a.len() > 0 {
        assert(words[0] == a[0]);
    }
}

/// The entries about to go are listed one a line: all of them up to ten, and of more the first ten
/// and how many more there are.
pub proof fn up_to_ten_entries_are_listed(files: Seq<Doomed>, i: int)
    requires
        0 <= i < files.len(),
    ensures
        files.len() <= 10 ==> doomed_list(files) == doomed_lines(files, files.len() as int),
        files.len() > 10 ==> doomed_list(files) == doomed_lines(files, 10) + "\n"@ + "  and "@
            + grouped((files.len() - 10) as nat) + " more"@,
        i > 0 ==> doomed_lines(files, i + 1) == doomed_lines(files, i) + "\n"@ + "  "@
            + files[i].name@ + "  ("@ + files[i].size@ + ")"@,
        doomed_lines(files, 1) == "  "@ + files[0].name@ + "  ("@ + files[0].size@ + ")"@,
{
    if i > 0 {
        assert(doomed_lines(files, i + 1) =~= doomed_lines(files, i) + "\n"@ + "  "@ + files[i].name@
            + "  ("@ + files[i].size@ + ")"@);
    }
}

/// What is said of an entry starts with its name and its size, and ends with what it is: a folder's
/// with how many items are in it.
pub proof fn an_entry_is_described_from_its_name_on(
    entry: EntryModel,
    size: Seq<char>,
    share: Seq<char>,
)
    ensures
        ({
            let said = description(entry, size, share);
            let start = lossy_text(entry.name) + " — "@ + size + " ("@ + share + "%) · "@;
            &&& entry.file_type == FileType::File ==> said == start + "file"@
            &&& entry.file_type == FileType::Folder && entry.descendants is None ==> said == start
                + "folder"@
            &&& entry.file_type == FileType::Folder && entry.descendants is Some ==> said == start
                + ("folder, "@ + grouped(entry.descendants->0 as nat) + " items"@)
        }),
{
}

/// What could not be deleted is told with the reason for the first of them, and of several how many
/// went and how many more did not.
pub proof fn a_failure_is_told_with_its_reason(
    asked: nat,
    deleted: nat,
    failures: Seq<Failure>,
)
    requires
        failures.len() > 0,
    ensures
        ({
            let said = failure_words(asked, deleted, failures);
            &&& asked == 1 && failures.len() == 1 ==> said == "Could not delete "@
                + failures[0].path@ + ": "@ + failures[0].error@
            &&& asked > 1 ==> exists|after: Seq<char>|
                said == #[trigger] ("Deleted "@ + grouped(deleted) + " of "@ + grouped(asked)
                    + "; "@ + failures[0].name@ + ": "@ + failures[0].error@ + after) && (
                after.len() == 0 <==> failures.len() == 1) && (failures.len() > 1 ==> after
                    == " (and "@ + grouped((failures.len() - 1) as nat) + " more)"@)
        }),
{
    reveal_strlit(" (and ");
    reveal_strlit(" more)");
    let said = failure_words(asked, deleted, failures);
    let first = "Deleted "@ + grouped(deleted) + " of "@ + grouped(asked) + "; "@
        + failures[0].name@ + ": "@ + failures[0].error@;
    if asked > 1 {
        if failures.len() == 1 {
            assert(first =~= first + Seq::<char>::empty());
            assert(said == first + Seq::<char>::empty());
        } else {
            let after = " (and "@ + grouped((failures.len() - 1) as nat) + " more)"@;
            assert(said =~= first + after);
        }
    }
}

/// The question before a delete asks of one entry by its path, and of several by how many there are
/// and by their list; either way it ends with how much goes for good.
pub proof fn a_question_says_how_much_goes(files: Seq<Doomed>, size: Seq<char>)
    ensures
        ({
            let end = "\n\n"@ + size + " will be permanently removed from disk."@;
            &&& exists|start: Seq<char>| prompt_for(files, size) == #[trigger] (start + end)
            &&& files.len() == 1 ==> prompt_for(files, size) == "Delete "@ + files[0].path@ + "?"@
                + end
            &&& files.len() != 1 ==> prompt_for(files, size) == "Delete these "@ + grouped(
                files.len(),
            ) + " entries?\n\n"@ + doomed_list(files) + end
        }),
{
    reveal_strlit("\n\n");
    reveal_strlit("?");
    reveal_strlit("?\n\n");
    let end = "\n\n"@ + size + " will be permanently removed from disk."@;
    assert("?\n\n"@ =~= "?"@ + "\n\n"@);
    if files.len() == 1 {
        assert(prompt_for(files, size) =~= ("Delete "@ + files[0].path@ + "?"@) + end);
    } else {
        let start = "Delete these "@ + grouped(files.len()) + " entries?\n\n"@ + doomed_list(files);
        assert(prompt_for(files, size) =~= start + end);
    }
}

} // verus!
