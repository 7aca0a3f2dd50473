//! What the window acts on: the entries to delete or copy, and the preview of the one in hand.

use vstd::prelude::*;

use crate::count::{append_count, grouped};
use crate::entries::{entry_names, EntryModel, FileMetadata, FileType};
use crate::names::{copy_name, copy_path, lone, same_path, spelled, Name};
use crate::state::laws::whole_by_what_is_there;
use crate::state::model::ViewerModel;
use crate::state::{Preview, Viewer};
use crate::text::{append, literal};

verus! {

/// An entry to delete.
pub struct FileToDelete {
    /// The names from the scan's root down to it.
    pub path_to_file: Vec<Name>,
    pub entry: FileMetadata,
}

/// An entry to delete, by its bytes.
#[verifier::ext_equal]
pub struct TargetModel {
    pub path_to_file: Seq<Seq<u8>>,
    pub entry: EntryModel,
}

impl View for FileToDelete {
    type V = TargetModel;

    open spec fn view(&self) -> TargetModel {
        TargetModel { path_to_file: spelled(self.path_to_file@), entry: self.entry@ }
    }
}

pub open spec fn targets_model(targets: Seq<FileToDelete>) -> Seq<TargetModel> {
    Seq::new(targets.len(), |i: int| targets[i]@)
}

/// Paths by their bytes.
pub open spec fn paths_model(paths: Seq<Vec<Name>>) -> Seq<Seq<Seq<u8>>> {
    Seq::new(paths.len(), |i: int| spelled(paths[i]@))
}

/// A path as it is copied.
pub struct CopiedPath {
    /// What kind of path it is: relative, absolute.
    pub kind: String,
    /// The path, quoted for the shell.
    pub text: String,
}

/// What to put on the clipboard, and what to say of it.
pub struct CopyRequest {
    pub text: String,
    pub label: String,
}

/// The texts of paths, each after a space but the first.
pub open spec fn spaced(paths: Seq<CopiedPath>) -> Seq<char>
    decreases paths.len(),
{
    if paths.len() == 0 {
        Seq::empty()
    } else if paths.len() == 1 {
        paths[0].text@
    } else {
        (spaced(paths.drop_last()) + " "@) + paths.last().text@
    }
}

/// What is said of copied paths.
pub open spec fn copy_label(paths: Seq<CopiedPath>, none_marked: bool) -> Seq<char> {
    if paths.len() == 1 && none_marked {
        ("Copied "@ + paths[0].kind@) + " path:"@
    } else if paths.len() == 1 {
        "Copied 1 path:"@
    } else {
        ("Copied "@ + grouped(paths.len())) + " paths:"@
    }
}

impl ViewerModel {
    /// The names acted on: every marked entry, or else the one in hand.
    pub open spec fn target_names(self) -> Seq<Seq<u8>> {
        if self.marked.len() > 0 {
            self.marked
        } else {
            match self.selected {
                Some(name) => seq![name],
                None => Seq::empty(),
            }
        }
    }

    /// Where the entries acted on are, from the scan's root. With nothing marked it is the row
    /// in hand, wherever in the tree it is.
    pub open spec fn target_paths(self) -> Seq<Seq<Seq<u8>>> {
        if self.marked.len() == 0 && self.cursor_entry() is Some {
            seq![self.folder + self.cursor_entry()->0.path]
        } else {
            Seq::new(
                self.target_names().len(),
                |i: int| self.folder.push(self.target_names()[i]),
            )
        }
    }

    /// The entries of these names, each as a target; a name with no entry gives none.
    pub open spec fn targets_named(self, names: Seq<Seq<u8>>) -> Seq<TargetModel>
        decreases names.len(),
    {
        if names.len() == 0 {
            Seq::empty()
        } else {
            let before = self.targets_named(names.drop_last());
            match self.entry_named(names.last()) {
                Some(entry) => before.push(
                    TargetModel { path_to_file: self.folder.push(entry.name), entry },
                ),
                None => before,
            }
        }
    }

    /// What a delete would act on: nothing while the first scan runs.
    pub open spec fn targets(self) -> Seq<TargetModel> {
        if self.scanning {
            Seq::empty()
        } else if self.marked.len() == 0 && self.cursor_entry() is Some {
            seq![
                TargetModel {
                    path_to_file: self.folder + self.cursor_entry()->0.path,
                    entry: self.cursor_entry()->0.entry,
                },
            ]
        } else {
            self.targets_named(self.target_names())
        }
    }

    /// The file in hand, from the scan's root, and the pixels its preview may take.
    pub open spec fn preview_target(self, pixels: Option<(u32, u32)>) -> Option<
        (Seq<Seq<u8>>, Option<(u32, u32)>),
    > {
        match self.cursor_entry() {
            Some(row) => if row.entry.file_type == FileType::File {
                Some((self.folder + row.path, pixels))
            } else {
                None
            },
            None => None,
        }
    }

    /// With the preview of the file in hand asked for.
    pub open spec fn preview_asked(self, pixels: Option<(u32, u32)>) -> Self {
        let target = self.preview_target(pixels);
        if target == self.preview_for {
            self
        } else {
            ViewerModel {
                preview_for: target,
                preview_generation: self.preview_generation + 1,
                preview: if target is Some {
                    Preview::Loading
                } else {
                    Preview::Empty
                },
                ..self
            }
        }
    }
}

/// A path, and more names after it.
fn path_below(folder: &Vec<Name>, below: &Vec<Name>) -> (path: Vec<Name>)
    ensures
        spelled(path@) == spelled(folder@) + spelled(below@),
{
    let mut path = copy_path(folder);
    let mut i: usize = 0;
    assert(spelled(folder@) + spelled(below@).take(0) =~= spelled(folder@));
    while i < below.len()
        invariant
            i <= below.len(),
            spelled(path@) == spelled(folder@) + spelled(below@).take(i as int),
        decreases below.len() - i,
    {
        let ghost so_far = spelled(path@);
        path.push(copy_name(&below[i]));
        assert(spelled(path@) =~= so_far.push(below@[i as int]@));
        i += 1;
        assert(spelled(path@) =~= spelled(folder@) + spelled(below@).take(i as int));
    }
    assert(spelled(below@).take(below.len() as int) =~= spelled(below@));
    path
}

/// A path, and one name after it.
fn path_to(folder: &Vec<Name>, name: &Name) -> (path: Vec<Name>)
    ensures
        spelled(path@) == spelled(folder@).push(name@),
{
    let mut path = copy_path(folder);
    path.push(copy_name(name));
    assert(spelled(path@) =~= spelled(folder@).push(name@));
    path
}

impl Viewer {
    /// The names acted on: every marked entry, or else the one in hand.
    pub fn target_names(&self) -> (names: Vec<Name>)
        ensures
            spelled(names@) == self@.target_names(),
    {
        if self.marked.len() > 0 {
            copy_path(&self.marked)
        } else {
            match &self.selected {
                Some(name) => lone(name),
                None => {
                    let none: Vec<Name> = Vec::new();
                    assert(spelled(none@) =~= Seq::empty());
                    none
                },
            }
        }
    }

    /// Where an entry of the folder shown is, from the scan's root.
    pub fn path_of(&self, name: &Name) -> (path: Vec<Name>)
        ensures
            spelled(path@) == self@.folder.push(name@),
    {
        path_to(&self.folder, name)
    }

    /// Where a row's entry is, from the scan's root.
    pub fn row_path(&self, relative: &Vec<Name>) -> (path: Vec<Name>)
        ensures
            spelled(path@) == self@.folder + spelled(relative@),
    {
        path_below(&self.folder, relative)
    }

    /// Where the entries acted on are, from the scan's root.
    pub fn target_paths(&self) -> (paths: Vec<Vec<Name>>)
        ensures
            paths_model(paths@) == self@.target_paths(),
    {
        let mut paths: Vec<Vec<Name>> = Vec::new();
        if self.marked.len() == 0 {
            if let Some(row) = self.cursor_entry() {
                paths.push(self.row_path(&row.path));
                assert(paths_model(paths@) =~= self@.target_paths());
                return paths;
            }
        }
        let names = self.target_names();
        let mut i: usize = 0;
        while i < names.len()
            invariant
                i <= names.len(),
                spelled(names@) == self@.target_names(),
                paths.len() == i,
                forall|j: int|
                    0 <= j < i ==> spelled((#[trigger] paths@[j])@) == self@.folder.push(
                        names@[j]@,
                    ),
            decreases names.len() - i,
        {
            paths.push(self.path_of(&names[i]));
            i += 1;
        }
        assert(spelled(names@).len() == names.len());
        assert forall|j: int| 0 <= j < names.len() implies #[trigger] self@.target_names()[j]
            == names@[j]@ by {
            assert(spelled(names@)[j] == names@[j]@);
        }
        assert(paths_model(paths@) =~= self@.target_paths());
        paths
    }

    /// What a delete would act on. Nothing while the first scan runs: the tree on screen is an
    /// outline, and the finished tree that replaces it would still hold what was deleted.
    pub fn targets(&self) -> (targets: Vec<FileToDelete>)
        ensures
            targets_model(targets@) == self@.targets(),
    {
        let mut targets: Vec<FileToDelete> = Vec::new();
        assert(targets_model(targets@) =~= Seq::empty());
        if self.scanning {
            return targets;
        }
        if self.marked.len() == 0 {
            if let Some(row) = self.cursor_entry() {
                targets.push(
                    FileToDelete {
                        path_to_file: self.row_path(&row.path),
                        entry: row.entry.copy(),
                    },
                );
                assert(targets_model(targets@) =~= self@.targets());
                return targets;
            }
        }
        let names = self.target_names();
        let mut i: usize = 0;
        assert(self@.targets_named(spelled(names@).take(0)) =~= Seq::empty());
        while i < names.len()
            invariant
                i <= names.len(),
                targets_model(targets@) == self@.targets_named(spelled(names@).take(i as int)),
            decreases names.len() - i,
        {
            let ghost so_far = targets_model(targets@);
            proof {
                entry_names(self@.listing).index_of_first_ensures(names@[i as int]@);
                assert(spelled(names@).take(i + 1).drop_last() =~= spelled(names@).take(
                    i as int,
                ));
                assert(spelled(names@).take(i + 1).last() == names@[i as int]@);
            }
            if let Some(entry) = self.entry_named(&names[i]) {
                let target = FileToDelete {
                    path_to_file: self.path_of(&entry.name),
                    entry: entry.copy(),
                };
                let ghost model = target@;
                targets.push(target);
                assert(targets_model(targets@) =~= so_far.push(model));
            }
            i += 1;
        }
        assert(spelled(names@).take(names.len() as int) =~= spelled(names@));
        targets
    }

    /// What copying puts on the clipboard, `paths` being those of the names acted on: the path
    /// of every marked entry, or else of the one in hand, separated by spaces. `None` if there
    /// is no clipboard, or nothing to copy.
    pub fn copy_paths(&self, paths: &Vec<CopiedPath>) -> (request: Option<CopyRequest>)
        ensures
            request is Some == (self@.clipboard && paths.len() > 0),
            request is Some ==> {
                &&& request->0.text@ == spaced(paths@)
                &&& request->0.label@ == copy_label(paths@, self@.marked.len() == 0)
            },
    {
        if !self.clipboard || paths.len() == 0 {
            return None;
        }
        let label = if paths.len() == 1 {
            if self.marked.len() == 0 {
                let mut label = literal("Copied ");
                append(&mut label, paths[0].kind.as_str());
                append(&mut label, " path:");
                label
            } else {
                literal("Copied 1 path:")
            }
        } else {
            let mut label = literal("Copied ");
            append_count(&mut label, paths.len() as u64);
            append(&mut label, " paths:");
            label
        };
        let mut text = paths[0].text.clone();
        let mut i: usize = 1;
        assert(paths@.take(1) =~= seq![paths@[0]]);
        while i < paths.len()
            invariant
                1 <= i <= paths.len(),
                text@ == spaced(paths@.take(i as int)),
            decreases paths.len() - i,
        {
            append(&mut text, " ");
            append(&mut text, paths[i].text.as_str());
            i += 1;
            assert(paths@.take(i as int).drop_last() =~= paths@.take(i - 1));
        }
        assert(paths@.take(paths.len() as int) =~= paths@);
        Some(CopyRequest { text, label })
    }

    /// Whether the marks' paths were to be copied; they no longer are.
    pub fn take_copy_due(&mut self) -> (due: bool)
        ensures
            due == old(self)@.copy_due,
            final(self)@ == (ViewerModel { copy_due: false, ..old(self)@ }),
            old(self)@.wf() ==> final(self)@.wf(),
    {
        let ghost before = self@;
        let due = self.copy_due;
        self.copy_due = false;
        proof {
            if before.wf() {
                whole_by_what_is_there(before, self@);
            }
        }
        due
    }

    /// The clipboard was reached, or was not: say what was copied.
    pub fn copied(&mut self, request: &CopyRequest, reached: bool, now: u64)
        ensures
            final(self)@ == old(self)@.saying(
                if reached {
                    (request.label@ + " "@) + request.text@
                } else {
                    "Could not reach the clipboard"@
                },
                now,
            ),
            old(self)@.wf() ==> final(self)@.wf(),
    {
        if reached {
            let mut message = request.label.clone();
            append(&mut message, " ");
            append(&mut message, request.text.as_str());
            self.say(message, now);
        } else {
            self.say(literal("Could not reach the clipboard"), now);
        }
    }

    /// Show a message on the status bar.
    pub fn say(&mut self, message: String, now: u64)
        ensures
            final(self)@ == old(self)@.saying(message@, now),
            old(self)@.wf() ==> final(self)@.wf(),
    {
        let ghost before = self@;
        self.message = Some((message, now));
        assert(self@ =~= before.saying(message@, now));
        proof {
            if before.wf() {
                whole_by_what_is_there(before, self@);
            }
        }
    }

    /// A new preview request, when the file in hand is not the one last asked about. A folder,
    /// or nothing, clears the preview.
    pub fn wanted_preview(&mut self) -> (request: Option<(u64, Vec<Name>)>)
        requires
            old(self).preview_generation < u64::MAX,
        ensures
            final(self)@ == old(self)@.preview_asked(None),
            old(self)@.wf() ==> final(self)@.wf(),
            match request {
                Some((generation, path)) => {
                    &&& generation == final(self)@.preview_generation
                    &&& old(self)@.preview_target(None) is Some
                    &&& old(self)@.preview_target(None) != old(self)@.preview_for
                    &&& spelled(path@) == (old(self)@.preview_target(None)->0).0
                },
                None => {
                    ||| old(self)@.preview_target(None) is None
                    ||| old(self)@.preview_target(None) == old(self)@.preview_for
                },
            },
    {
        self.wanted_preview_sized(None)
    }

    /// [`Viewer::wanted_preview`] for a window that prepares the picture at the size it will be
    /// drawn: `pixels` is part of what was asked, so a resize asks again for the same file.
    pub fn wanted_preview_sized(&mut self, pixels: Option<(u32, u32)>) -> (request: Option<
        (u64, Vec<Name>),
    >)
        requires
            old(self).preview_generation < u64::MAX,
        ensures
            final(self)@ == old(self)@.preview_asked(pixels),
            old(self)@.wf() ==> final(self)@.wf(),
            match request {
                Some((generation, path)) => {
                    &&& generation == final(self)@.preview_generation
                    &&& old(self)@.preview_target(pixels) is Some
                    &&& old(self)@.preview_target(pixels) != old(self)@.preview_for
                    &&& spelled(path@) == (old(self)@.preview_target(pixels)->0).0
                },
                None => {
                    ||| old(self)@.preview_target(pixels) is None
                    ||| old(self)@.preview_target(pixels) == old(self)@.preview_for
                },
            },
    {
        let ghost before = self@;
        let target: Option<Vec<Name>> = match self.cursor_entry() {
            Some(row) => if row.entry.file_type == FileType::File {
                Some(self.row_path(&row.path))
            } else {
                None
            },
            None => None,
        };
        let asked = match (&target, &self.preview_for) {
            (Some(path), Some((asked, size))) => same_path(path, asked) && same_size(
                pixels,
                *size,
            ),
            (None, None) => true,
            _ => false,
        };
        assert(asked == (before.preview_target(pixels) == before.preview_for));
        if asked {
            return None;
        }
        self.preview_generation += 1;
        match target {
            Some(path) => {
                let wanted = copy_path(&path);
                self.preview_for = Some((path, pixels));
                self.preview = Preview::Loading;
                assert(self@ =~= before.preview_asked(pixels));
                proof {
                    if before.wf() {
                        whole_by_what_is_there(before, self@);
                    }
                }
                Some((self.preview_generation, wanted))
            },
            None => {
                self.preview_for = None;
                self.preview = Preview::Empty;
                assert(self@ =~= before.preview_asked(pixels));
                proof {
                    if before.wf() {
                        whole_by_what_is_there(before, self@);
                    }
                }
                None
            },
        }
    }

    /// A preview has been read. Kept only if it answers the latest request.
    pub fn preview_ready(&mut self, generation: u64, preview: Preview) -> (current: bool)
        ensures
            current == (generation == old(self)@.preview_generation),
            final(self)@ == if current {
                ViewerModel { preview, ..old(self)@ }
            } else {
                old(self)@
            },
            old(self)@.wf() ==> final(self)@.wf(),
    {
        let ghost before = self@;
        let current = generation == self.preview_generation;
        if current {
            self.preview = preview;
            proof {
                if before.wf() {
                    whole_by_what_is_there(before, self@);
                }
            }
        }
        current
    }
}

/// Whether two sizes, either of which may be missing, are the same.
fn same_size(a: Option<(u32, u32)>, b: Option<(u32, u32)>) -> (same: bool)
    ensures
        same == (a == b),
{
    match (a, b) {
        (Some(a), Some(b)) => a.0 == b.0 && a.1 == b.1,
        (None, None) => true,
        _ => false,
    }
}

/// What a delete acts on is what is marked, or the row in hand: never anything else, and
/// nothing while the first scan runs.
pub proof fn only_what_is_marked_or_in_hand_is_deleted(m: ViewerModel, i: int)
    requires
        0 <= i < m.targets().len(),
    ensures
        !m.scanning,
        ({
            let path = m.targets()[i].path_to_file;
            ||| m.marked.len() == 0 && m.cursor_entry() is Some && path == m.folder
                + m.cursor_entry()->0.path
            ||| path.len() == m.folder.len() + 1 && path.drop_last() == m.folder
                && m.target_names().contains(path.last())
        }),
{
    if !(m.marked.len() == 0 && m.cursor_entry() is Some) {
        targets_named_are_of_names(m, m.target_names(), i);
    }
}

proof fn targets_named_are_of_names(m: ViewerModel, names: Seq<Seq<u8>>, i: int)
    requires
        0 <= i < m.targets_named(names).len(),
    ensures
        ({
            let path = m.targets_named(names)[i].path_to_file;
            &&& path.len() == m.folder.len() + 1
            &&& path.drop_last() == m.folder
            &&& names.contains(path.last())
        }),
    decreases names.len(),
{
    let before = m.targets_named(names.drop_last());
    let path = m.targets_named(names)[i].path_to_file;
    if i < before.len() {
        targets_named_are_of_names(m, names.drop_last(), i);
        let j = choose|j: int|
            0 <= j < names.drop_last().len() && names.drop_last()[j] == path.last();
        assert(names[j] == path.last());
    } else {
        entry_names(m.listing).index_of_first_ensures(names.last());
        assert(path.drop_last() =~= m.folder);
        assert(names[names.len() - 1] == path.last());
    }
}

/// An answer to an older request for a preview is dropped, and a file is asked for once.
pub proof fn a_preview_is_asked_for_once(m: ViewerModel, pixels: Option<(u32, u32)>)
    ensures
        m.preview_asked(pixels).preview_asked(pixels) == m.preview_asked(pixels),
        m.preview_asked(pixels) != m ==> m.preview_asked(pixels).preview_generation
            > m.preview_generation,
{
    assert(m.preview_asked(pixels).preview_target(pixels) == m.preview_target(pixels));
}

/// Everything marked is deleted, files and folders alike: once the first scan is over there is one
/// target for each marked name that the listing holds, in the order marked. Its path is the folder
/// shown and then the name, and its entry the first of that name in the listing.
pub proof fn everything_marked_is_deleted(m: ViewerModel)
    requires
        !m.scanning,
        m.marked.len() > 0,
    ensures
        ({
            let there = m.marked.filter(
                |name: Seq<u8>| exists|k: int|
                    0 <= k < m.listing.len() && (#[trigger] m.listing[k]).name == name,
            );
            &&& m.targets().len() == there.len()
            &&& forall|i: int|
                0 <= i < there.len() ==> {
                    let target = #[trigger] m.targets()[i];
                    &&& target.path_to_file.len() == m.folder.len() + 1
                    &&& forall|j: int|
                        0 <= j < m.folder.len() ==> #[trigger] target.path_to_file[j]
                            == m.folder[j]
                    &&& target.path_to_file[m.folder.len() as int] == there[i]
                    &&& exists|k: int|
                        0 <= k < m.listing.len() && #[trigger] m.listing[k] == target.entry
                            && m.listing[k].name == there[i] && forall|j: int|
                            0 <= j < k ==> (#[trigger] m.listing[j]).name != there[i]
                }
        }),
        m.wf() ==> m.targets().len() == m.marked.len(),
        m.wf() ==> forall|i: int|
            0 <= i < m.marked.len() ==> (#[trigger] m.targets()[i]).path_to_file == m.folder.push(
                m.marked[i],
            ),
{
    targets_are_complete(m, m.marked);
    if m.wf() {
        assert(m.synced() == m);
        every_mark_is_listed(m, m.marked);
        assert forall|i: int| 0 <= i < m.marked.len() implies (
        #[trigger] m.targets()[i]).path_to_file == m.folder.push(m.marked[i]) by {
            assert(m.targets()[i].path_to_file =~= m.folder.push(m.marked[i]));
        }
    }
}

proof fn every_mark_is_listed(m: ViewerModel, names: Seq<Seq<u8>>)
    requires
        crate::state::model::in_listing(m.listing, names) == names,
    ensures
        names.filter(
            |name: Seq<u8>| exists|k: int|
                0 <= k < m.listing.len() && (#[trigger] m.listing[k]).name == name,
        ) == names,
{
    crate::state::laws::kept_names_are_listed(m.listing, names);
    let held = |name: Seq<u8>| exists|k: int|
        0 <= k < m.listing.len() && (#[trigger] m.listing[k]).name == name;
    assert forall|i: int| 0 <= i < names.len() implies held(#[trigger] names[i]) by {
        assert(crate::state::model::in_listing(m.listing, names)[i] == names[i]);
        let k = choose|k: int|
            0 <= k < entry_names(m.listing).len() && entry_names(m.listing)[k] == names[i];
        assert(m.listing[k].name == names[i]);
    }
    filtering_all_keeps_all(names, held);
}

proof fn filtering_all_keeps_all(names: Seq<Seq<u8>>, held: spec_fn(Seq<u8>) -> bool)
    requires
        forall|i: int| 0 <= i < names.len() ==> held(#[trigger] names[i]),
    ensures
        names.filter(held) == names,
    decreases names.len(),
{
    reveal(Seq::filter);
    if names.len() > 0 {
        assert forall|i: int| 0 <= i < names.drop_last().len() implies held(
            #[trigger] names.drop_last()[i],
        ) by {
            assert(names.drop_last()[i] == names[i]);
        }
        filtering_all_keeps_all(names.drop_last(), held);
        assert(held(names[names.len() - 1]));
        assert(names.drop_last().push(names.last()) =~= names);
    } else {
        assert(names.filter(held) =~= names);
    }
}

proof fn targets_are_complete(m: ViewerModel, names: Seq<Seq<u8>>)
    ensures
        ({
            let there = names.filter(
                |name: Seq<u8>| exists|k: int|
                    0 <= k < m.listing.len() && (#[trigger] m.listing[k]).name == name,
            );
            let targets = m.targets_named(names);
            &&& targets.len() == there.len()
            &&& forall|i: int|
                0 <= i < there.len() ==> {
                    let target = #[trigger] targets[i];
                    &&& target.path_to_file == m.folder.push(there[i])
                    &&& exists|k: int|
                        0 <= k < m.listing.len() && #[trigger] m.listing[k] == target.entry
                            && m.listing[k].name == there[i] && forall|j: int|
                            0 <= j < k ==> (#[trigger] m.listing[j]).name != there[i]
                }
        }),
    decreases names.len(),
{
    reveal(Seq::filter);
    let held = |name: Seq<u8>| exists|k: int|
        0 <= k < m.listing.len() && (#[trigger] m.listing[k]).name == name;
    let there = names.filter(held);
    let targets = m.targets_named(names);
    if names.len() > 0 {
        let front = names.drop_last();
        let last = names.last();
        targets_are_complete(m, front);
        let all = entry_names(m.listing);
        all.index_of_first_ensures(last);
        if held(last) {
            let k = choose|k: int|
                0 <= k < m.listing.len() && (#[trigger] m.listing[k]).name == last;
            assert(all[k] == last);
            let at = all.index_of_first(last)->0;
            assert forall|j: int| 0 <= j < at implies (#[trigger] m.listing[j]).name != last by {
                assert(all[j] != last);
            }
            assert(m.listing[at].name == last);
            assert forall|i: int| 0 <= i < there.len() implies {
                let target = #[trigger] targets[i];
                &&& target.path_to_file == m.folder.push(there[i])
                &&& exists|k: int|
                    0 <= k < m.listing.len() && #[trigger] m.listing[k] == target.entry
                        && m.listing[k].name == there[i] && forall|j: int|
                        0 <= j < k ==> (#[trigger] m.listing[j]).name != there[i]
            } by {
                if i < front.filter(held).len() {
                    assert(targets[i] == m.targets_named(front)[i]);
                } else {
                    assert(m.listing[at] == targets[i].entry);
                }
            }
        } else if all.index_of_first(last) is Some {
            assert(m.listing[all.index_of_first(last)->0].name == last);
        }
    }
}

/// With nothing marked it is the row in hand that is deleted, wherever in the tree it is, and
/// while the first scan runs nothing is.
pub proof fn with_nothing_marked_the_row_in_hand_is_deleted(m: ViewerModel, at: int)
    requires
        m.marked.len() == 0,
        0 <= at < m.rows.len(),
        m.cursor == Some(m.rows[at].path),
        forall|i: int| 0 <= i < at ==> (#[trigger] m.rows[i]).path != m.rows[at].path,
    ensures
        m.scanning ==> m.targets().len() == 0,
        !m.scanning ==> {
            &&& m.targets().len() == 1
            &&& m.targets()[0].entry == m.rows[at].entry
            &&& m.targets()[0].path_to_file == m.folder + m.rows[at].path
        },
        m.target_paths() == seq![m.folder + m.rows[at].path],
{
    let paths = crate::entries::row_paths(m.rows);
    assert forall|i: int| 0 <= i < at implies paths[i] != m.rows[at].path by {
        assert(m.rows[i].path != m.rows[at].path);
    }
    crate::names::first_at(paths, m.rows[at].path, at);
}

/// Every path acted on starts with the folder shown. Where something is marked there is one path
/// for each mark, in order: the folder's names and then that one name. They are the paths that a
/// delete of the same marks uses.
pub proof fn paths_acted_on_are_below_the_folder(m: ViewerModel)
    ensures
        forall|i: int|
            0 <= i < m.target_paths().len() ==> (#[trigger] m.target_paths()[i]).len()
                >= m.folder.len() && m.target_paths()[i].take(m.folder.len() as int) == m.folder,
        m.marked.len() > 0 ==> {
            &&& m.target_paths().len() == m.marked.len()
            &&& forall|i: int|
                0 <= i < m.marked.len() ==> {
                    &&& (#[trigger] m.target_paths()[i]).len() == m.folder.len() + 1
                    &&& m.target_paths()[i].last() == m.marked[i]
                }
        },
        m.wf() && !m.scanning && m.marked.len() > 0 ==> {
            &&& m.targets().len() == m.target_paths().len()
            &&& forall|i: int|
                0 <= i < m.targets().len() ==> (#[trigger] m.targets()[i]).path_to_file
                    == m.target_paths()[i]
        },
{
    assert forall|i: int| 0 <= i < m.target_paths().len() implies (
    #[trigger] m.target_paths()[i]).len() >= m.folder.len() && m.target_paths()[i].take(
        m.folder.len() as int,
    ) == m.folder by {
        assert(m.target_paths()[i].take(m.folder.len() as int) =~= m.folder);
    }
    if m.wf() && !m.scanning && m.marked.len() > 0 {
        everything_marked_is_deleted(m);
    }
}

/// What is acted on when something is marked is what is marked, and otherwise the entry in hand
/// alone.
pub proof fn marks_come_before_the_entry_in_hand(m: ViewerModel, name: Seq<u8>)
    ensures
        m.target_names().contains(name) <==> m.marked.contains(name) || (m.marked.len() == 0
            && m.selected == Some(name)),
{
    if m.marked.len() == 0 && m.selected is Some {
        assert(m.target_names()[0] == m.selected->0);
    }
}

/// The text that is copied is as long as the paths and a space between each two, and a path is
/// found in it where those before it, and their spaces, end.
pub proof fn copied_paths_are_a_space_apart(paths: Seq<CopiedPath>, i: int, start: int)
    requires
        0 <= i < paths.len(),
        start == if i == 0 {
            0
        } else {
            spaced(paths.take(i)).len() + 1
        },
    ensures
        start + paths[i].text@.len() <= spaced(paths).len(),
        spaced(paths).subrange(start, start + paths[i].text@.len()) == paths[i].text@,
        i > 0 ==> spaced(paths)[start - 1] == ' ',
        i > 0 ==> spaced(paths).take(start - 1) == spaced(paths.take(i)),
        i == paths.len() - 1 ==> spaced(paths).len() == start + paths[i].text@.len(),
    decreases paths.len(),
{
    reveal_strlit(" ");
    let text = paths[i].text@;
    let all = spaced(paths);
    if paths.len() == 1 {
        assert(all.subrange(start, start + text.len()) =~= text);
    } else {
        let front = paths.drop_last();
        let before = spaced(front);
        if i == paths.len() - 1 {
            assert(paths.take(i) =~= front);
            assert(all.subrange(start, start + text.len()) =~= text);
            assert(all.take(start - 1) =~= before);
        } else {
            assert(front.take(i) =~= paths.take(i));
            copied_paths_are_a_space_apart(front, i, start);
            assert(front[i] == paths[i]);
            assert(all.subrange(start, start + text.len()) =~= before.subrange(
                start,
                start + text.len(),
            ));
            if i > 0 {
                assert(all.take(start - 1) =~= before.take(start - 1));
            }
        }
    }
}

/// The preview asked for is that of the file in hand, from the scan's root; of a folder, or with
/// nothing in hand, there is none. Only an answer to the last request is shown.
pub proof fn a_preview_is_of_the_file_in_hand(m: ViewerModel, pixels: Option<(u32, u32)>, at: int)
    requires
        0 <= at < m.rows.len(),
        m.cursor == Some(m.rows[at].path),
        forall|i: int| 0 <= i < at ==> (#[trigger] m.rows[i]).path != m.rows[at].path,
    ensures
        m.rows[at].entry.file_type == FileType::File ==> m.preview_asked(pixels).preview_for
            == Some((m.folder + m.rows[at].path, pixels)),
        m.rows[at].entry.file_type == FileType::Folder ==> {
            &&& m.preview_asked(pixels).preview_for is None
            &&& m.preview_for is Some ==> m.preview_asked(pixels).preview is Empty
        },
        m.rows[at].entry.file_type == FileType::File && m.preview_for != Some(
            (m.folder + m.rows[at].path, pixels),
        ) ==> {
            &&& m.preview_asked(pixels).preview is Loading
            &&& m.preview_asked(pixels).preview_generation == m.preview_generation + 1
        },
        m.rows[at].entry.file_type == FileType::File && m.preview_for == Some(
            (m.folder + m.rows[at].path, pixels),
        ) ==> m.preview_asked(pixels) == m,
{
    let paths = crate::entries::row_paths(m.rows);
    assert forall|i: int| 0 <= i < at implies paths[i] != m.rows[at].path by {
        assert(m.rows[i].path != m.rows[at].path);
    }
    crate::names::first_at(paths, m.rows[at].path, at);
}

/// What is said of copied paths counts them; of the one in hand, which nothing marks, it says what
/// kind of path it is.
pub proof fn copied_paths_are_counted(paths: Seq<CopiedPath>)
    requires
        paths.len() > 0,
    ensures
        paths.len() == 1 ==> copy_label(paths, true) == "Copied "@ + paths[0].kind@ + " path:"@,
        paths.len() == 1 ==> copy_label(paths, false) == "Copied 1 path:"@,
        paths.len() > 1 ==> copy_label(paths, true) == copy_label(paths, false),
        paths.len() > 1 ==> copy_label(paths, true) == "Copied "@ + grouped(paths.len())
            + " paths:"@,
{
}

} // verus!
