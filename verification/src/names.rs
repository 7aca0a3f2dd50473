//! The names of entries: bytes, as the filesystem holds them, compared byte by byte.

use vstd::prelude::*;

verus! {

/// The name of a file or folder, in the bytes the filesystem gives it.
pub type Name = Vec<u8>;

/// Names by their bytes.
pub open spec fn spelled(names: Seq<Name>) -> Seq<Seq<u8>> {
    Seq::new(names.len(), |i: int| names[i]@)
}

/// A name, if there is one, by its bytes.
pub open spec fn name_view(name: Option<Name>) -> Option<Seq<u8>> {
    match name {
        Some(name) => Some(name@),
        None => None,
    }
}

/// A path, if there is one, as a sequence of names.
pub open spec fn path_view(path: Option<Vec<Name>>) -> Option<Seq<Seq<u8>>> {
    match path {
        Some(path) => Some(spelled(path@)),
        None => None,
    }
}

/// Whether two names are the same bytes.
pub fn same_name(a: &Name, b: &Name) -> (same: bool)
    ensures
        same == (a@ == b@),
{
    if a.len() != b.len() {
        return false;
    }
    let mut i: usize = 0;
    while i < a.len()
        invariant
            i <= a.len(),
            a.len() == b.len(),
            forall|j: int| 0 <= j < i ==> a@[j] == b@[j],
        decreases a.len() - i,
    {
        if a[i] != b[i] {
            return false;
        }
        i += 1;
    }
    assert(a@ =~= b@);
    true
}

/// Another copy of a name.
pub fn copy_name(name: &Name) -> (copy: Name)
    ensures
        copy@ == name@,
{
    let copy = name.clone();
    assert(copy@ =~= name@);
    copy
}

/// Another copy of a name, if there is one.
pub fn copy_maybe(name: &Option<Name>) -> (copy: Option<Name>)
    ensures
        name_view(copy) == name_view(*name),
{
    match name {
        Some(name) => Some(copy_name(name)),
        None => None,
    }
}

/// Whether two names, either of which may be missing, are the same.
pub fn same_maybe(a: &Option<Name>, b: &Option<Name>) -> (same: bool)
    ensures
        same == (name_view(*a) == name_view(*b)),
{
    match (a, b) {
        (Some(a), Some(b)) => same_name(a, b),
        (None, None) => true,
        _ => false,
    }
}

/// Whether two paths are the same names in the same order.
pub fn same_path(a: &Vec<Name>, b: &Vec<Name>) -> (same: bool)
    ensures
        same == (spelled(a@) == spelled(b@)),
{
    if a.len() != b.len() {
        assert(spelled(a@).len() != spelled(b@).len());
        return false;
    }
    let mut i: usize = 0;
    while i < a.len()
        invariant
            i <= a.len(),
            a.len() == b.len(),
            forall|j: int| 0 <= j < i ==> a@[j]@ == b@[j]@,
        decreases a.len() - i,
    {
        if !same_name(&a[i], &b[i]) {
            assert(spelled(a@)[i as int] != spelled(b@)[i as int]);
            return false;
        }
        i += 1;
    }
    assert(spelled(a@) =~= spelled(b@));
    true
}

/// Whether `names` begins with `start`.
pub fn starts_with(names: &Vec<Name>, start: &Vec<Name>) -> (does: bool)
    ensures
        does == spelled(start@).is_prefix_of(spelled(names@)),
{
    if start.len() > names.len() {
        return false;
    }
    let mut i: usize = 0;
    while i < start.len()
        invariant
            i <= start.len() <= names.len(),
            forall|j: int| 0 <= j < i ==> start@[j]@ == names@[j]@,
        decreases start.len() - i,
    {
        if !same_name(&start[i], &names[i]) {
            assert(spelled(start@)[i as int] != spelled(names@)[i as int]);
            assert(spelled(names@).take(start.len() as int)[i as int]
                == spelled(names@)[i as int]);
            return false;
        }
        i += 1;
    }
    assert(spelled(start@) =~= spelled(names@).take(start.len() as int));
    true
}

/// Another copy of a path.
pub fn copy_path(path: &Vec<Name>) -> (copy: Vec<Name>)
    ensures
        spelled(copy@) == spelled(path@),
{
    copy_first(path, path.len())
}

/// The first `count` names of a path.
pub fn copy_first(path: &Vec<Name>, count: usize) -> (copy: Vec<Name>)
    requires
        count <= path.len(),
    ensures
        spelled(copy@) == spelled(path@).take(count as int),
{
    let mut copy: Vec<Name> = Vec::new();
    let mut i: usize = 0;
    while i < count
        invariant
            i <= count <= path.len(),
            copy.len() == i,
            forall|j: int| 0 <= j < i ==> copy@[j]@ == path@[j]@,
        decreases count - i,
    {
        copy.push(copy_name(&path[i]));
        i += 1;
    }
    assert(spelled(copy@) =~= spelled(path@).take(count as int));
    copy
}

/// Another copy of a path, if there is one.
pub fn copy_maybe_path(path: &Option<Vec<Name>>) -> (copy: Option<Vec<Name>>)
    ensures
        path_view(copy) == path_view(*path),
{
    match path {
        Some(path) => Some(copy_path(path)),
        None => None,
    }
}

/// The path of one name.
pub fn lone(name: &Name) -> (path: Vec<Name>)
    ensures
        spelled(path@) == seq![name@],
        path.len() == 1,
        path@[0]@ == name@,
{
    let mut path: Vec<Name> = Vec::new();
    path.push(copy_name(name));
    assert(spelled(path@) =~= seq![name@]);
    path
}

/// An item found at a place that no earlier one shares is first there.
pub proof fn first_at<A>(items: Seq<A>, item: A, at: int)
    requires
        0 <= at < items.len(),
        items[at] == item,
        forall|j: int| 0 <= j < at ==> items[j] != item,
    ensures
        items.index_of_first(item) == Some(at),
{
    items.index_of_first_ensures(item);
    assert(items.contains(items[at]));
}

/// An item that no place holds is first nowhere.
pub proof fn first_nowhere<A>(items: Seq<A>, item: A)
    requires
        forall|j: int| 0 <= j < items.len() ==> items[j] != item,
    ensures
        items.index_of_first(item) is None,
        !items.contains(item),
{
    items.index_of_first_ensures(item);
}

/// A place, if there is one, as a mathematical integer.
pub open spec fn place(index: Option<usize>) -> Option<int> {
    match index {
        Some(index) => Some(index as int),
        None => None,
    }
}

/// Where `name` first is among `names`.
pub fn find_name(names: &Vec<Name>, name: &Name) -> (found: Option<usize>)
    ensures
        place(found) == spelled(names@).index_of_first(name@),
{
    let mut i: usize = 0;
    while i < names.len()
        invariant
            i <= names.len(),
            forall|j: int| 0 <= j < i ==> names@[j]@ != name@,
        decreases names.len() - i,
    {
        if same_name(&names[i], name) {
            proof {
                first_at(spelled(names@), name@, i as int);
            }
            return Some(i);
        }
        i += 1;
    }
    proof {
        first_nowhere(spelled(names@), name@);
    }
    None
}

/// Whether `name` is among `names`.
pub fn holds_name(names: &Vec<Name>, name: &Name) -> (holds: bool)
    ensures
        holds == spelled(names@).contains(name@),
{
    proof {
        spelled(names@).index_of_first_ensures(name@);
    }
    find_name(names, name).is_some()
}

} // verus!
