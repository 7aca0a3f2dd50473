//! Removing entries: the question that is asked first, and what is said after.

use vstd::prelude::*;

use crate::count::{append_count, grouped, DisplayCount};
use crate::entries::FileType;
use crate::text::{append, literal};

verus! {

/// How many names a question gives before it counts the rest.
pub const NAMED: usize = 5;

/// An entry to remove, in words.
pub struct RemovedFile {
    /// Its own name, if it has one.
    pub name: Option<String>,
    /// Its whole path.
    pub path: String,
    pub file_type: FileType,
    /// How many entries are under it, when that is known.
    pub descendants: Option<u64>,
}

/// What a removal comes to before it is asked about.
#[derive(Debug, PartialEq, Eq)]
pub enum Removal {
    /// There is nothing to remove.
    Nothing,
    /// It waits until the scan has finished; this says so.
    Waits(String),
    /// One of the entries may not be removed: a notice's title and detail.
    Refused(String, String),
    Ask,
}

/// What a removal comes to: `count` entries, one of which has the `refused` name.
pub fn removal(count: usize, scanning: bool, refused: &Option<String>) -> (removal: Removal)
    ensures
        if count == 0 {
            if scanning {
                removal is Waits && removal->Waits_0@
                    == "Deleting waits until the scan has finished"@
            } else {
                removal is Nothing
            }
        } else {
            match *refused {
                Some(name) => {
                    &&& removal is Refused
                    &&& removal->Refused_0@ == "This cannot be deleted"@
                    &&& removal->Refused_1@ == "NTFS metadata belongs to the filesystem: "@
                        + name@
                },
                None => removal is Ask,
            }
        },
{
    if count == 0 {
        return if scanning {
            Removal::Waits(literal("Deleting waits until the scan has finished"))
        } else {
            Removal::Nothing
        };
    }
    match refused {
        Some(name) => {
            let mut detail = literal("NTFS metadata belongs to the filesystem: ");
            append(&mut detail, name.as_str());
            Removal::Refused(literal("This cannot be deleted"), detail)
        },
        None => Removal::Ask,
    }
}

/// A name, or nothing.
pub open spec fn name_text(name: Option<String>) -> Seq<char> {
    match name {
        Some(name) => name@,
        None => Seq::empty(),
    }
}

/// What is removed, in a few words.
pub open spec fn what_words(files: Seq<RemovedFile>) -> Seq<char> {
    if files.len() == 1 {
        ("“"@ + name_text(files[0].name)) + "”"@
    } else {
        grouped(files.len()) + " items"@
    }
}

/// The question's title.
pub open spec fn title_words(files: Seq<RemovedFile>, permanently: bool) -> Seq<char> {
    if permanently {
        ("Delete "@ + what_words(files)) + " immediately?"@
    } else {
        ("Move "@ + what_words(files)) + " to the Trash?"@
    }
}

/// The names of the first `count` entries that have one, each after a comma but the first.
pub open spec fn names_words(files: Seq<RemovedFile>, count: int) -> Seq<char>
    decreases count,
{
    if count <= 0 {
        Seq::empty()
    } else {
        let before = names_words(files, count - 1);
        match files[count - 1].name {
            Some(name) => if any_named(files, count - 1) {
                (before + ", "@) + name@
            } else {
                name@
            },
            None => before,
        }
    }
}

/// Whether one of the first `count` entries has a name.
pub open spec fn any_named(files: Seq<RemovedFile>, count: int) -> bool
    decreases count,
{
    count > 0 && (files[count - 1].name is Some || any_named(files, count - 1))
}

/// What is removed, in detail: `gap` is between the size and the path of one entry.
pub open spec fn what_detail(
    files: Seq<RemovedFile>,
    size: Seq<char>,
    gap: Seq<char>,
) -> Seq<char> {
    if files.len() == 1 {
        let contents = if files[0].descendants is Some && files[0].file_type == FileType::Folder {
            (", a folder of "@ + grouped(files[0].descendants->0 as nat)) + " items"@
        } else {
            Seq::empty()
        };
        ((size + contents) + gap) + files[0].path@
    } else if files.len() > NAMED {
        (((((size + " in all: "@) + names_words(files, NAMED as int)) + " and "@) + grouped(
            (files.len() - NAMED) as nat,
        )) + " more"@)
    } else {
        (size + " in all: "@) + names_words(files, files.len() as int)
    }
}

fn append_names(text: &mut String, files: &Vec<RemovedFile>, count: usize)
    requires
        count <= files.len(),
    ensures
        final(text)@ == old(text)@ + names_words(files@, count as int),
{
    let ghost before = text@;
    let mut first = true;
    let mut i: usize = 0;
    assert(before + names_words(files@, 0) =~= before);
    while i < count
        invariant
            i <= count <= files.len(),
            first == !any_named(files@, i as int),
            first ==> names_words(files@, i as int).len() == 0,
            text@ == before + names_words(files@, i as int),
        decreases count - i,
    {
        if let Some(name) = &files[i].name {
            if !first {
                append(text, ", ");
            }
            append(text, name.as_str());
            first = false;
        }
        i += 1;
        assert(text@ =~= before + names_words(files@, i as int));
    }
}

fn detail_of(files: &Vec<RemovedFile>, size: &str, gap: &str) -> (detail: String)
    ensures
        detail@ == what_detail(files@, size@, gap@),
{
    let mut detail = literal(size);
    if files.len() == 1 {
        let file = &files[0];
        if let Some(count) = file.descendants {
            if file.file_type == FileType::Folder {
                append(&mut detail, ", a folder of ");
                append_count(&mut detail, count);
                append(&mut detail, " items");
            }
        }
        assert(detail@ =~= size@ + (if file.descendants is Some && file.file_type
            == FileType::Folder {
            (", a folder of "@ + grouped(file.descendants->0 as nat)) + " items"@
        } else {
            Seq::empty()
        }));
        append(&mut detail, gap);
        append(&mut detail, file.path.as_str());
        return detail;
    }
    append(&mut detail, " in all: ");
    if files.len() > NAMED {
        append_names(&mut detail, files, NAMED);
        append(&mut detail, " and ");
        append_count(&mut detail, (files.len() - NAMED) as u64);
        append(&mut detail, " more");
    } else {
        append_names(&mut detail, files, files.len());
    }
    detail
}

fn title_of(files: &Vec<RemovedFile>, permanently: bool) -> (title: String)
    ensures
        title@ == title_words(files@, permanently),
{
    let what = if files.len() == 1 {
        let mut what = literal("“");
        if let Some(name) = &files[0].name {
            append(&mut what, name.as_str());
        }
        assert(what@ =~= "“"@ + name_text(files@[0].name));
        append(&mut what, "”");
        what
    } else {
        let mut what = DisplayCount(files.len() as u64).text();
        append(&mut what, " items");
        what
    };
    let mut title = if permanently {
        literal("Delete ")
    } else {
        literal("Move ")
    };
    append(&mut title, what.as_str());
    if permanently {
        append(&mut title, " immediately?");
    } else {
        append(&mut title, " to the Trash?");
    }
    title
}

/// The question a removal asks, and its detail: what, how much, and where. `size` is what the
/// entries hold together.
pub fn confirmation(files: &Vec<RemovedFile>, size: &str, permanently: bool) -> (words: (
    String,
    String,
))
    ensures
        words.0@ == title_words(files@, permanently),
        words.1@ == what_detail(files@, size@, "\n"@) + if permanently {
            "\n\nThis can’t be undone."@
        } else {
            "\n\nThe Trash frees nothing until it is emptied."@
        },
{
    let mut detail = detail_of(files, size, "\n");
    if permanently {
        append(&mut detail, "\n\nThis can’t be undone.");
    } else {
        append(&mut detail, "\n\nThe Trash frees nothing until it is emptied.");
    }
    (title_of(files, permanently), detail)
}

/// The words of the button that confirms a removal.
pub fn confirm_button(permanently: bool) -> (words: String)
    ensures
        words@ == if permanently {
            "Delete"@
        } else {
            "Move to Trash"@
        },
{
    if permanently {
        literal("Delete")
    } else {
        literal("Move to Trash")
    }
}

/// What an alert says of the entries to remove.
pub fn describe_files(files: &Vec<RemovedFile>, size: &str, permanently: bool) -> (words: String)
    ensures
        words@ == if permanently {
            what_detail(files@, size@, "\n\n"@) + "\n\nThis can’t be undone."@
        } else {
            what_detail(files@, size@, "\n\n"@)
        },
{
    let mut words = detail_of(files, size, "\n\n");
    if permanently {
        append(&mut words, "\n\nThis can’t be undone.");
    }
    words
}

/// A number of items, in words.
pub open spec fn items_words(count: nat) -> Seq<char> {
    if count == 1 {
        "1 item"@
    } else {
        grouped(count) + " items"@
    }
}

/// What is said once `count` entries are removed, of that size together. Nothing when none was.
pub fn removed_words(count: usize, size: &str, permanently: bool) -> (words: Option<String>)
    ensures
        words is Some == (count > 0),
        words is Some ==> words->0@ == if permanently {
            (("Deleted "@ + items_words(count as nat)) + ", freeing "@) + size@
        } else {
            ((("Moved "@ + items_words(count as nat)) + " ("@) + size@) + ") to the Trash"@
        },
{
    if count == 0 {
        return None;
    }
    let items = if count == 1 {
        literal("1 item")
    } else {
        let mut items = DisplayCount(count as u64).text();
        append(&mut items, " items");
        items
    };
    let mut words = if permanently {
        literal("Deleted ")
    } else {
        literal("Moved ")
    };
    append(&mut words, items.as_str());
    if permanently {
        append(&mut words, ", freeing ");
        append(&mut words, size);
    } else {
        append(&mut words, " (");
        append(&mut words, size);
        append(&mut words, ") to the Trash");
    }
    Some(words)
}

/// The notice of what could not be removed: the first by its path, why, and how many more.
pub fn failure_notice(path: &str, error: &str, failures: usize) -> (words: (String, String))
    requires
        failures > 0,
    ensures
        words.0@ == "Could not remove "@ + path@,
        words.1@ == if failures == 1 {
            error@
        } else {
            ((error@ + "\n\n"@) + grouped((failures - 1) as nat))
                + " more could not be removed either."@
        },
{
    let mut title = literal("Could not remove ");
    append(&mut title, path);
    let mut detail = literal(error);
    if failures > 1 {
        append(&mut detail, "\n\n");
        append_count(&mut detail, (failures - 1) as u64);
        append(&mut detail, " more could not be removed either.");
    }
    (title, detail)
}

/// What is said once paths were copied, or could not be: `text` is what was copied.
pub fn copied_words(copied: bool, text: &str, count: usize) -> (words: String)
    ensures
        words@ == if !copied {
            "Could not copy to the clipboard"@
        } else if count == 1 {
            "Copied "@ + text@
        } else {
            ("Copied "@ + grouped(count as nat)) + " paths"@
        },
{
    if !copied {
        return literal("Could not copy to the clipboard");
    }
    let mut words = literal("Copied ");
    if count == 1 {
        append(&mut words, text);
    } else {
        append_count(&mut words, count as u64);
        append(&mut words, " paths");
    }
    words
}

/// The sizes of what was taken off the tree, together: nothing for what was not there.
pub open spec fn taken_off(sizes: Seq<Option<u128>>) -> int
    decreases sizes.len(),
{
    if sizes.len() == 0 {
        0
    } else {
        taken_off(sizes.drop_last()) + match sizes.last() {
            Some(size) => size as int,
            None => 0,
        }
    }
}

/// The space freed in all once entries have been removed. `sizes` has what each of them was in
/// the tree when it was taken off, and nothing for one that was not there any more. What went to
/// the Trash frees nothing.
pub fn space_freed(before: u128, sizes: &Vec<Option<u128>>, for_good: bool) -> (freed: u128)
    requires
        for_good ==> before + taken_off(sizes@) <= u128::MAX,
    ensures
        freed == before + if for_good {
            taken_off(sizes@)
        } else {
            0
        },
{
    if !for_good {
        return before;
    }
    let mut freed: u128 = before;
    let mut i: usize = 0;
    assert(sizes@.take(0) =~= Seq::empty());
    while i < sizes.len()
        invariant
            i <= sizes.len(),
            freed == before + taken_off(sizes@.take(i as int)),
            before + taken_off(sizes@) <= u128::MAX,
        decreases sizes.len() - i,
    {
        proof {
            taken_off_grows(sizes@, i + 1);
            assert(sizes@.take(i + 1).drop_last() =~= sizes@.take(i as int));
        }
        if let Some(size) = sizes[i] {
            freed += size;
        }
        i += 1;
    }
    assert(sizes@.take(i as int) =~= sizes@);
    freed
}

proof fn taken_off_grows(sizes: Seq<Option<u128>>, count: int)
    requires
        0 <= count <= sizes.len(),
    ensures
        0 <= taken_off(sizes.take(count)) <= taken_off(sizes),
    decreases sizes.len(),
{
    if count == sizes.len() {
        assert(sizes.take(count) =~= sizes);
        if count > 0 {
            taken_off_grows(sizes.drop_last(), count - 1);
        }
    } else {
        taken_off_grows(sizes.drop_last(), count);
        assert(sizes.drop_last().take(count) =~= sizes.take(count));
    }
}

/// Removing what is already gone frees nothing more.
pub proof fn what_is_gone_frees_nothing(sizes: Seq<Option<u128>>)
    requires
        forall|i: int| 0 <= i < sizes.len() ==> #[trigger] sizes[i] is None,
    ensures
        taken_off(sizes) == 0,
    decreases sizes.len(),
{
    if sizes.len() > 0 {
        assert(sizes[sizes.len() - 1] is None);
        what_is_gone_frees_nothing(sizes.drop_last());
    }
}

/// What is taken off is the sum of what each removal takes off, whichever part of them comes first,
/// and what was not there adds nothing.
pub proof fn what_is_taken_off_adds_up(a: Seq<Option<u128>>, b: Seq<Option<u128>>, size: u128)
    ensures
        taken_off(a + b) == taken_off(a) + taken_off(b),
        taken_off(seq![Some(size)]) == size,
        taken_off(seq![None::<u128>]) == 0,
        taken_off(Seq::empty()) == 0,
    decreases b.len(),
{
    let one = seq![Some(size)];
    assert(one.drop_last() =~= Seq::empty());
    let none = seq![None::<u128>];
    assert(none.drop_last() =~= Seq::empty());
    assert(taken_off(one.drop_last()) == 0 && taken_off(none.drop_last()) == 0);
    reveal_with_fuel(taken_off, 2);
    if b.len() == 0 {
        assert(a + b =~= a);
    } else {
        what_is_taken_off_adds_up(a, b.drop_last(), size);
        assert((a + b).drop_last() =~= a + b.drop_last());
    }
}

/// A question says how many entries it is about, or the one's name, and of each way of removing what
/// it does.
pub proof fn a_question_says_what_goes_and_where(files: Seq<RemovedFile>)
    ensures
        exists|what: Seq<char>|
            title_words(files, true) == #[trigger] ("Delete "@ + what + " immediately?"@)
                && title_words(files, false) == "Move "@ + what + " to the Trash?"@ && what == (
            if files.len() == 1 && files[0].name is Some {
                "“"@ + files[0].name->0@ + "”"@
            } else if files.len() == 1 {
                "“”"@
            } else {
                grouped(files.len()) + " items"@
            }),
{
    reveal_strlit("“");
    reveal_strlit("”");
    reveal_strlit("“”");
    let what = what_words(files);
    if files.len() == 1 && files[0].name is None {
        assert(what =~= "“”"@);
    }
    assert(title_words(files, true) == "Delete "@ + what + " immediately?"@);
}

/// Names stand in turn with a comma between them: the text with one more is the text before it, a
/// comma and the name, or the name alone where nothing is before it.
pub proof fn names_stand_in_turn(files: Seq<RemovedFile>, count: int)
    requires
        0 <= count < files.len(),
        files[count].name is Some,
    ensures
        (forall|i: int| 0 <= i < count ==> (#[trigger] files[i]).name is None) ==> names_words(
            files,
            count + 1,
        ) == files[count].name->0@,
        (exists|i: int| 0 <= i < count && (#[trigger] files[i]).name is Some) ==> names_words(
            files,
            count + 1,
        ) == names_words(files, count) + ", "@ + files[count].name->0@,
{
    a_name_is_among(files, count);
}

proof fn a_name_is_among(files: Seq<RemovedFile>, count: int)
    requires
        0 <= count <= files.len(),
    ensures
        any_named(files, count) <==> exists|i: int|
            0 <= i < count && (#[trigger] files[i]).name is Some,
    decreases count,
{
    if count > 0 {
        a_name_is_among(files, count - 1);
        if files[count - 1].name is Some {
            assert(files[count - 1].name is Some);
        } else if any_named(files, count - 1) {
            let i = choose|i: int| 0 <= i < count - 1 && (#[trigger] files[i]).name is Some;
            assert(files[i].name is Some);
        }
    }
}

/// What goes is told with its size first. Of many entries the first few are named, and the rest
/// counted; all are told of one way or the other.
pub proof fn what_goes_is_told_in_full(
    files: Seq<RemovedFile>,
    size: Seq<char>,
    gap: Seq<char>,
)
    ensures
        ({
            let told = what_detail(files, size, gap);
            &&& size.is_prefix_of(told)
            &&& files.len() == 1 ==> exists|before: Seq<char>|
                told == #[trigger] (before + gap + files[0].path@)
            &&& files.len() == 1 && files[0].file_type == FileType::File ==> told == size + gap
                + files[0].path@
            &&& files.len() > NAMED ==> exists|named: nat, rest: nat|
                named + rest == files.len() && named == NAMED && told == #[trigger] (size
                    + " in all: "@ + names_words(files, named as int) + " and "@ + grouped(rest)
                    + " more"@)
            &&& files.len() != 1 && files.len() <= NAMED ==> told == size + " in all: "@
                + names_words(files, files.len() as int)
        }),
{
    let told = what_detail(files, size, gap);
    if files.len() == 1 {
        let contents = if files[0].descendants is Some && files[0].file_type == FileType::Folder {
            (", a folder of "@ + grouped(files[0].descendants->0 as nat)) + " items"@
        } else {
            Seq::empty()
        };
        assert(told == (size + contents) + gap + files[0].path@);
        if files[0].file_type == FileType::File {
            assert(size + contents =~= size);
        }
        assert(told.take(size.len() as int) =~= size);
    } else if files.len() > NAMED {
        let rest = (files.len() - NAMED) as nat;
        assert(told == size + " in all: "@ + names_words(files, NAMED as int) + " and "@ + grouped(
            rest,
        ) + " more"@);
        assert(told.take(size.len() as int) =~= size);
    } else {
        assert(told.take(size.len() as int) =~= size);
    }
}

/// A number of items goes in the singular for one alone.
pub proof fn one_item_is_in_the_singular(count: nat)
    ensures
        count == 1 ==> items_words(count) == "1 item"@,
        count != 1 ==> items_words(count) == grouped(count) + " items"@,
{
}

} // verus!
