//! Paths as bytes, with `/` between their names.

use vstd::prelude::*;
use vstd::slice::slice_subrange;
use vstd::utf8::valid_utf8;

verus! {

/// `str::from_utf8` of the standard library: whether it takes bytes for text, which it does
/// exactly when they are UTF-8.
#[verifier::external_body]
pub(crate) fn is_utf8(bytes: &[u8]) -> (is: bool)
    ensures
        is == valid_utf8(bytes@),
{
    std::str::from_utf8(bytes).is_ok()
}

/// A path without what at its end names nothing: slashes, and dots that stand for the folder
/// before them.
pub open spec fn without_end(path: Seq<u8>) -> Seq<u8>
    decreases path.len(),
{
    if path.len() > 0 && path.last() == 47 {
        without_end(path.drop_last())
    } else if path.len() > 1 && path.last() == 46 && path[path.len() - 2] == 47 {
        without_end(path.take(path.len() - 2))
    } else {
        path
    }
}

/// What follows the last of a byte, or everything where there is none.
pub open spec fn after_last(path: Seq<u8>, byte: u8) -> Seq<u8>
    decreases path.len(),
{
    if path.len() == 0 || path.last() == byte {
        Seq::empty()
    } else {
        after_last(path.drop_last(), byte).push(path.last())
    }
}

/// The last name of a path, if it ends in one: not in the folder itself or the one above.
pub open spec fn file_name_of(path: Seq<u8>) -> Option<Seq<u8>> {
    let name = after_last(without_end(path), 47);
    if name.len() == 0 || name == seq![46u8] || name == seq![46u8, 46u8] {
        None
    } else {
        Some(name)
    }
}

/// Where a name's extension starts: after its last dot, unless that is its first byte.
pub open spec fn dot_place(name: Seq<u8>) -> Option<int> {
    let extension = after_last(name, 46);
    let dot = name.len() - extension.len() - 1;
    if dot > 0 {
        Some(dot)
    } else {
        None
    }
}

/// A path's last name without its extension.
pub open spec fn file_stem_of(path: Seq<u8>) -> Option<Seq<u8>> {
    match file_name_of(path) {
        Some(name) => match dot_place(name) {
            Some(dot) => Some(name.take(dot)),
            None => Some(name),
        },
        None => None,
    }
}

/// The extension of a path's last name.
pub open spec fn extension_of(path: Seq<u8>) -> Option<Seq<u8>> {
    match file_name_of(path) {
        Some(name) => match dot_place(name) {
            Some(dot) => Some(name.skip(dot + 1)),
            None => None,
        },
        None => None,
    }
}

proof fn after_last_is_the_end(path: Seq<u8>, byte: u8, start: int)
    requires
        0 <= start <= path.len(),
        forall|i: int| start <= i < path.len() ==> path[i] != byte,
        start > 0 ==> path[start - 1] == byte,
    ensures
        after_last(path, byte) == path.skip(start),
    decreases path.len(),
{
    if path.len() == start {
        assert(path.skip(start) =~= Seq::empty());
    } else {
        let front = path.drop_last();
        assert(path[path.len() - 1] != byte);
        assert forall|i: int| start <= i < front.len() implies front[i] != byte by {
            assert(front[i] == path[i]);
        }
        if start > 0 {
            assert(front[start - 1] == path[start - 1]);
        }
        after_last_is_the_end(front, byte, start);
        assert(after_last(path, byte) =~= path.skip(start));
    }
}

/// Where what follows the last of a byte starts.
fn end_start(path: &[u8], byte: u8) -> (start: usize)
    ensures
        start <= path.len(),
        after_last(path@, byte) == path@.skip(start as int),
{
    let mut start: usize = path.len();
    while start > 0 && path[start - 1] != byte
        invariant
            start <= path.len(),
            forall|i: int| start <= i < path.len() ==> path@[i] != byte,
        decreases start,
    {
        start -= 1;
    }
    proof {
        after_last_is_the_end(path@, byte, start as int);
    }
    start
}

/// The last name of a path, if it ends in one.
pub fn file_name(path: &[u8]) -> (name: Option<&[u8]>)
    ensures
        match name {
            Some(name) => file_name_of(path@) == Some(name@),
            None => file_name_of(path@) is None,
        },
{
    let mut end: usize = path.len();
    assert(path@.take(end as int) =~= path@);
    let mut trimming = true;
    while trimming
        invariant
            end <= path.len(),
            without_end(path@) == without_end(path@.take(end as int)),
            !trimming ==> without_end(path@) == path@.take(end as int),
        decreases end, if trimming {
            1int
        } else {
            0int
        },
    {
        let ghost kept = path@.take(end as int);
        if end > 0 && path[end - 1] == 47 {
            assert(kept.drop_last() =~= path@.take(end - 1));
            end -= 1;
        } else if end > 1 && path[end - 1] == 46 && path[end - 2] == 47 {
            assert(kept.take(end - 2) =~= path@.take(end - 2));
            end -= 2;
        } else {
            trimming = false;
        }
    }
    let kept = slice_subrange(path, 0, end);
    assert(kept@ =~= path@.take(end as int));
    let start: usize = end_start(kept, 47);
    let name = slice_subrange(kept, start, kept.len());
    assert(name@ =~= kept@.skip(start as int));
    let dots = (name.len() == 1 && name[0] == 46) || (name.len() == 2 && name[0] == 46 && name[1]
        == 46);
    proof {
        if dots {
            assert(name@ =~= seq![46u8] || name@ =~= seq![46u8, 46u8]);
        }
    }
    if name.len() == 0 || dots {
        None
    } else {
        Some(name)
    }
}

fn dot_at(name: &[u8]) -> (dot: Option<usize>)
    ensures
        crate::names::place(dot) == dot_place(name@),
        dot is Some ==> dot->0 < name.len(),
{
    let start: usize = end_start(name, 46);
    if start > 1 {
        Some(start - 1)
    } else {
        None
    }
}

/// A path's last name without its extension.
pub fn file_stem(path: &[u8]) -> (stem: Option<&[u8]>)
    ensures
        match stem {
            Some(stem) => file_stem_of(path@) == Some(stem@),
            None => file_stem_of(path@) is None,
        },
{
    match file_name(path) {
        Some(name) => match dot_at(name) {
            Some(dot) => {
                let stem = slice_subrange(name, 0, dot);
                assert(stem@ =~= name@.take(dot as int));
                Some(stem)
            },
            None => Some(name),
        },
        None => None,
    }
}

/// The extension of a path's last name.
pub fn extension(path: &[u8]) -> (extension: Option<&[u8]>)
    ensures
        match extension {
            Some(extension) => extension_of(path@) == Some(extension@),
            None => extension_of(path@) is None,
        },
{
    match file_name(path) {
        Some(name) => match dot_at(name) {
            Some(dot) => {
                let extension = slice_subrange(name, dot + 1, name.len());
                assert(extension@ =~= name@.skip(dot + 1));
                Some(extension)
            },
            None => None,
        },
        None => None,
    }
}

/// A byte with its letter in lower case.
pub open spec fn small(byte: u8) -> u8 {
    if 65 <= byte <= 90 {
        (byte + 32) as u8
    } else {
        byte
    }
}

/// Bytes with their letters in lower case.
pub open spec fn all_small(bytes: Seq<u8>) -> Seq<u8> {
    Seq::new(bytes.len(), |i: int| small(bytes[i]))
}

/// Bytes with their letters in lower case.
pub fn to_small(bytes: &[u8]) -> (lower: Vec<u8>)
    ensures
        lower@ == all_small(bytes@),
{
    let mut lower: Vec<u8> = Vec::new();
    let mut i: usize = 0;
    while i < bytes.len()
        invariant
            i <= bytes.len(),
            lower@ =~= all_small(bytes@).take(i as int),
        decreases bytes.len() - i,
    {
        let byte: u8 = bytes[i];
        lower.push(
            if 65 <= byte && byte <= 90 {
                byte + 32
            } else {
                byte
            },
        );
        i += 1;
    }
    assert(lower@ =~= all_small(bytes@));
    lower
}

/// Whether bytes end so.
pub open spec fn bytes_end(bytes: Seq<u8>, end: Seq<u8>) -> bool {
    end.len() <= bytes.len() && bytes.skip(bytes.len() - end.len()) == end
}

/// Whether bytes end so.
pub fn ends_with_bytes(bytes: &[u8], end: &[u8]) -> (does: bool)
    ensures
        does == bytes_end(bytes@, end@),
{
    if end.len() > bytes.len() {
        return false;
    }
    let skipped: usize = bytes.len() - end.len();
    let mut i: usize = 0;
    while i < end.len()
        invariant
            i <= end.len() <= bytes.len(),
            skipped == bytes.len() - end.len(),
            forall|j: int| 0 <= j < i ==> end@[j] == bytes@[skipped + j],
        decreases end.len() - i,
    {
        if end[i] != bytes[skipped + i] {
            assert(bytes@.skip(skipped as int)[i as int] == bytes@[skipped + i]);
            return false;
        }
        i += 1;
    }
    assert(bytes@.skip(skipped as int) =~= end@);
    true
}

/// Whether bytes begin so.
pub fn starts_with_bytes(bytes: &[u8], start: &[u8]) -> (does: bool)
    ensures
        does == start@.is_prefix_of(bytes@),
{
    if start.len() > bytes.len() {
        return false;
    }
    let mut i: usize = 0;
    while i < start.len()
        invariant
            i <= start.len() <= bytes.len(),
            forall|j: int| 0 <= j < i ==> start@[j] == bytes@[j],
        decreases start.len() - i,
    {
        if start[i] != bytes[i] {
            assert(bytes@.subrange(0, start.len() as int)[i as int] == bytes@[i as int]);
            return false;
        }
        i += 1;
    }
    assert(start@ =~= bytes@.subrange(0, start.len() as int));
    true
}

/// Whether bytes are those of a text of plain characters.
pub fn bytes_are(bytes: &[u8], text: &str) -> (are: bool)
    ensures
        are == (bytes@ == crate::bytes::ascii(text@)),
{
    let wanted = crate::bytes::plain(text);
    if bytes.len() != wanted.len() {
        return false;
    }
    let does = starts_with_bytes(bytes, wanted.as_slice());
    assert(bytes@.subrange(0, wanted.len() as int) =~= bytes@);
    does
}

proof fn a_name_comes_after_the_last(folder: Seq<u8>, name: Seq<u8>, byte: u8)
    requires
        forall|i: int| 0 <= i < name.len() ==> name[i] != byte,
    ensures
        after_last(folder.push(byte) + name, byte) == name,
        after_last(name, byte) == name,
{
    let path = folder.push(byte) + name;
    after_last_is_the_end(path, byte, folder.len() as int + 1);
    assert(path.skip(folder.len() as int + 1) =~= name);
    after_last_is_the_end(name, byte, 0);
    assert(name.skip(0) =~= name);
}

/// The last name of a path is what comes after its last slash, in whatever folder it is; slashes at
/// the end are not part of it.
pub proof fn a_paths_last_name_is_after_its_last_slash(folder: Seq<u8>, name: Seq<u8>)
    requires
        name.len() > 0,
        forall|i: int| 0 <= i < name.len() ==> name[i] != 47,
        name != seq![46u8],
        name != seq![46u8, 46u8],
    ensures
        file_name_of(folder.push(47) + name) == Some(name),
        file_name_of(name) == Some(name),
        file_name_of((folder.push(47) + name).push(47)) == Some(name),
{
    let path = folder.push(47) + name;
    assert(path.last() == name.last());
    assert(name[name.len() - 1] != 47);
    if path.last() == 46 && path[path.len() - 2] == 47 {
        if name.len() > 1 {
            assert(path[path.len() - 2] == name[name.len() - 2]);
        } else {
            assert(name =~= seq![46u8]);
        }
    }
    assert(without_end(path) == path);
    assert(without_end(name) == name) by {
        if name.len() > 1 && name.last() == 46 {
            assert(name[name.len() - 2] != 47);
        }
    }
    assert(path.push(47).drop_last() =~= path);
    a_name_comes_after_the_last(folder, name, 47);
}

/// A name is its stem, a dot and its extension, where it has one: the extension holds no dot and the
/// stem is never empty, so that a name that only begins with a dot has none.
pub proof fn a_name_is_its_stem_and_extension(path: Seq<u8>)
    ensures
        extension_of(path) is Some ==> {
            &&& file_name_of(path) == Some(file_stem_of(path)->0.push(46) + extension_of(path)->0)
            &&& file_stem_of(path) is Some && file_stem_of(path)->0.len() > 0
            &&& forall|i: int| 0 <= i < extension_of(path)->0.len() ==> extension_of(path)->0[i] != 46
        },
        extension_of(path) is None ==> file_stem_of(path) == file_name_of(path),
        extension_of(path) is None && file_name_of(path) is Some ==> forall|i: int|
            0 < i < file_name_of(path)->0.len() ==> file_name_of(path)->0[i] != 46,
{
    if let Some(name) = file_name_of(path) {
        what_is_after_the_last(name, 46);
        let extension = after_last(name, 46);
        let dot = name.len() - extension.len() - 1;
        if dot > 0 {
            assert(name[dot] == 46);
            assert(name =~= name.take(dot).push(46) + name.skip(dot + 1));
            assert(name.skip(dot + 1) =~= extension);
        } else {
            assert forall|i: int| 0 < i < name.len() implies name[i] != 46 by {
                assert(name[i] == extension[i - (name.len() - extension.len())]);
            }
        }
    }
}

proof fn what_is_after_the_last(name: Seq<u8>, byte: u8)
    ensures
        after_last(name, byte).len() <= name.len(),
        after_last(name, byte) == name.skip(name.len() - after_last(name, byte).len()),
        forall|i: int| 0 <= i < after_last(name, byte).len() ==> after_last(name, byte)[i] != byte,
        after_last(name, byte).len() < name.len() ==> name[name.len() - after_last(
            name,
            byte,
        ).len() - 1] == byte,
    decreases name.len(),
{
    let end = after_last(name, byte);
    if name.len() == 0 || name.last() == byte {
        assert(end =~= name.skip(name.len() - end.len()));
    } else {
        let front = name.drop_last();
        what_is_after_the_last(front, byte);
        let before = after_last(front, byte);
        assert(end =~= name.skip(name.len() - end.len())) by {
            assert forall|i: int| 0 <= i < end.len() implies #[trigger] end[i] == name.skip(
                name.len() - end.len(),
            )[i] by {
                if i < before.len() {
                    assert(before[i] == front.skip(front.len() - before.len())[i]);
                }
            }
        }
        assert forall|i: int| 0 <= i < end.len() implies end[i] != byte by {
            if i < before.len() {
                assert(before[i] != byte);
            }
        }
    }
}

/// A capital letter is made small, and any other byte is left: the two cases of a letter are made
/// the same, and no other two bytes are.
pub proof fn only_capitals_are_made_small(a: u8, b: u8)
    ensures
        0x41 <= a <= 0x5a ==> small(a) == a + 0x20,
        !(0x41 <= a <= 0x5a) ==> small(a) == a,
        small(small(a)) == small(a),
        small(a) == small(b) ==> a == b || (0x41 <= a <= 0x5a && b == a + 0x20) || (0x41 <= b <= 0x5a
            && a == b + 0x20),
{
}

} // verus!
