//! The data a comparison works on: directory entries, reports, and the
//! actions a walk over one directory level asks its caller to perform.

use vstd::prelude::*;

verus! {

/// Which of the two roots an entry was found under.
#[derive(Clone, Copy, PartialEq, Eq, Structural, Debug)]
pub enum Side {
    A,
    B,
}

/// Three-way classification of a filesystem object.  Anything that is
/// neither a regular file nor a directory (symlink, device, socket) is
/// `Other`: matched `Other` pairs are treated as equal.
#[derive(Clone, Copy, PartialEq, Eq, Structural, Debug)]
pub enum EntryKind {
    File,
    Directory,
    Other,
}

/// One filesystem child seen while listing a directory level.  Names and
/// paths are byte strings; names are the sort and match key.
pub struct Entry {
    pub name: Vec<u8>,
    pub path: Vec<u8>,
    pub side: Side,
    pub kind: EntryKind,
}

/// The mathematical value of an [`Entry`].
pub struct SpecEntry {
    pub name: Seq<u8>,
    pub path: Seq<u8>,
    pub side: Side,
    pub kind: EntryKind,
}

impl View for Entry {
    type V = SpecEntry;

    open spec fn view(&self) -> SpecEntry {
        SpecEntry { name: self.name@, path: self.path@, side: self.side, kind: self.kind }
    }
}

impl DeepView for Entry {
    type V = SpecEntry;

    open spec fn deep_view(&self) -> SpecEntry {
        self.view()
    }
}

/// One report of the comparison: a path present on only one side, or a
/// matched pair of regular files whose bytes differ.  A type mismatch
/// (file on one side, directory on the other) yields two "only" reports.
pub enum Report {
    OnlyInA { path: Vec<u8> },
    OnlyInB { path: Vec<u8> },
    ContentDiffers { path_b: Vec<u8>, path_a: Vec<u8> },
}

/// The mathematical value of a [`Report`].
pub enum SpecReport {
    OnlyInA { path: Seq<u8> },
    OnlyInB { path: Seq<u8> },
    ContentDiffers { path_b: Seq<u8>, path_a: Seq<u8> },
}

impl DeepView for Report {
    type V = SpecReport;

    open spec fn deep_view(&self) -> SpecReport {
        match self {
            Report::OnlyInA { path } => SpecReport::OnlyInA { path: path@ },
            Report::OnlyInB { path } => SpecReport::OnlyInB { path: path@ },
            Report::ContentDiffers { path_b, path_a } => SpecReport::ContentDiffers {
                path_b: path_b@,
                path_a: path_a@,
            },
        }
    }
}

/// Decides whether two entries' filesystem types are compatible for
/// matching: exactly when the three-way classifications agree.
pub fn types_match(a: EntryKind, b: EntryKind) -> (r: bool)
    ensures
        r == (a == b),
{
    a == b
}

/// A byte vector's deep view is its view.
pub proof fn lemma_bytes_deep_view(v: Vec<u8>)
    ensures
        v.deep_view() == v@,
{
    assert(v.deep_view() =~= v@);
}

/// Pushing one element pushes its value onto the deep view.
pub proof fn lemma_deep_view_push<T: DeepView>(v0: Vec<T>, v1: Vec<T>, e: T)
    requires
        v1@ == v0@.push(e),
    ensures
        v1.deep_view() == v0.deep_view().push(e.deep_view()),
{
    assert(v1.deep_view() =~= v0.deep_view().push(e.deep_view()));
}

/// Inserting one entry inserts its value into the deep view.
pub proof fn lemma_deep_view_insert(v0: Vec<Entry>, v1: Vec<Entry>, i: int, e: Entry)
    requires
        0 <= i <= v0@.len(),
        v1@ == v0@.insert(i, e),
    ensures
        v1.deep_view() == v0.deep_view().insert(i, e@),
{
    assert(v1.deep_view() =~= v0.deep_view().insert(i, e@));
}

/// Removing the last entry drops the last value of the deep view.
pub proof fn lemma_deep_view_drop_last(v0: Vec<Entry>, v1: Vec<Entry>)
    requires
        v0@.len() > 0,
        v1@ == v0@.subrange(0, v0@.len() - 1),
    ensures
        v1.deep_view() == v0.deep_view().drop_last(),
        v0.deep_view() == v1.deep_view().push(v0@[v0@.len() - 1]@),
{
    assert(v1.deep_view() =~= v0.deep_view().drop_last());
    assert(v0.deep_view() =~= v1.deep_view().push(v0@[v0@.len() - 1]@));
}

/// Concatenating entry vectors concatenates their deep views.
pub proof fn lemma_deep_view_concat(v0: Vec<Entry>, v1: Vec<Entry>, v2: Vec<Entry>)
    requires
        v2@ == v0@ + v1@,
    ensures
        v2.deep_view() == v0.deep_view() + v1.deep_view(),
{
    assert(v2.deep_view() =~= v0.deep_view() + v1.deep_view());
}

/// Copies a byte vector.
pub fn clone_bytes(v: &Vec<u8>) -> (r: Vec<u8>)
    ensures
        r@ == v@,
{
    let mut r: Vec<u8> = Vec::new();
    let mut i: usize = 0;
    while i < v.len()
        invariant
            i <= v@.len(),
            r@ == v@.subrange(0, i as int),
        decreases v@.len() - i,
    {
        r.push(v[i]);
        proof {
            assert(v@.subrange(0, i as int).push(v@[i as int]) =~= v@.subrange(0, i + 1));
        }
        i = i + 1;
    }
    proof {
        assert(v@.subrange(0, v@.len() as int) =~= v@);
    }
    r
}

/// Copies an entry.
pub fn clone_entry(e: &Entry) -> (r: Entry)
    ensures
        r@ == e@,
{
    Entry {
        name: clone_bytes(&e.name),
        path: clone_bytes(&e.path),
        side: e.side,
        kind: e.kind,
    }
}

} // verus!
