//! The merge walk over one combined listing: a single forward pass that
//! pairs adjacent entries with equal names and equal types, reports every
//! unmatched entry as present on one side only, and asks the caller to
//! compare matched files' bytes and to recurse into matched directories.

use vstd::prelude::*;
use crate::entry::{
    clone_bytes, lemma_deep_view_push, Entry, EntryKind, Report, Side, SpecEntry, SpecReport,
    types_match,
};
use crate::listing::bytes_eq;

verus! {

/// One thing the caller of a walk must do, in order: print a report,
/// compare the bytes of a matched pair of regular files, or run the whole
/// comparison again on a matched pair of subdirectories.  In a listing
/// built by this library the first path of a matched pair is the first
/// root's, the second the second root's.
pub enum Action {
    Emit { report: Report },
    CompareFiles { a_path: Vec<u8>, b_path: Vec<u8> },
    Recurse { a_path: Vec<u8>, b_path: Vec<u8> },
}

/// The mathematical value of an [`Action`].
pub enum SpecAction {
    Emit { report: SpecReport },
    CompareFiles { a_path: Seq<u8>, b_path: Seq<u8> },
    Recurse { a_path: Seq<u8>, b_path: Seq<u8> },
}

impl DeepView for Action {
    type V = SpecAction;

    open spec fn deep_view(&self) -> SpecAction {
        match self {
            Action::Emit { report } => SpecAction::Emit { report: report.deep_view() },
            Action::CompareFiles { a_path, b_path } => SpecAction::CompareFiles {
                a_path: a_path@,
                b_path: b_path@,
            },
            Action::Recurse { a_path, b_path } => SpecAction::Recurse {
                a_path: a_path@,
                b_path: b_path@,
            },
        }
    }
}

/// The report for an entry with no matching partner: its path under the
/// marker of the side it came from, and of that side only.
pub open spec fn spec_only_report(e: SpecEntry) -> SpecReport {
    if e.side == Side::A {
        SpecReport::OnlyInA { path: e.path }
    } else {
        SpecReport::OnlyInB { path: e.path }
    }
}

/// Whether the entry at `i` is matched with the entry after it: the next
/// entry exists, has the same name, and the same three-way type.
pub open spec fn matched(l: Seq<SpecEntry>, i: int) -> bool {
    i + 1 < l.len() && l[i + 1].name == l[i].name && l[i + 1].kind == l[i].kind
}

/// The actions of the merge walk over `l`, starting at index `i`: one
/// forward pass; an unmatched entry is reported and one entry consumed; a
/// matched pair is consumed whole, yielding a file comparison, a
/// recursion, or (for other object kinds) nothing.
pub open spec fn spec_walk(l: Seq<SpecEntry>, i: int) -> Seq<SpecAction>
    decreases l.len() - i,
{
    if i < 0 || i >= l.len() {
        Seq::empty()
    } else if !matched(l, i) {
        seq![SpecAction::Emit { report: spec_only_report(l[i]) }] + spec_walk(l, i + 1)
    } else if l[i].kind == EntryKind::File {
        seq![SpecAction::CompareFiles { a_path: l[i].path, b_path: l[i + 1].path }] + spec_walk(
            l,
            i + 2,
        )
    } else if l[i].kind == EntryKind::Directory {
        seq![SpecAction::Recurse { a_path: l[i].path, b_path: l[i + 1].path }] + spec_walk(
            l,
            i + 2,
        )
    } else {
        spec_walk(l, i + 2)
    }
}

/// Builds the "only on one side" report for an unmatched entry.
pub fn only_report(e: &Entry) -> (r: Report)
    ensures
        r.deep_view() == spec_only_report(e@),
{
    match e.side {
        Side::A => Report::OnlyInA { path: clone_bytes(&e.path) },
        Side::B => Report::OnlyInB { path: clone_bytes(&e.path) },
    }
}

/// Builds the two-line report for a matched pair of regular files whose
/// contents differ: the second (peek) entry's path comes first, the
/// current entry's path second.
pub fn differs_report(a_path: &Vec<u8>, b_path: &Vec<u8>) -> (r: Report)
    ensures
        r.deep_view() == (SpecReport::ContentDiffers { path_b: b_path@, path_a: a_path@ }),
{
    Report::ContentDiffers { path_b: clone_bytes(b_path), path_a: clone_bytes(a_path) }
}

/// Walks one combined listing and returns the actions of the merge pass,
/// in the order they are to be performed: ascending name order, with a
/// matched subdirectory's recursion standing at the point the pair was
/// met.
pub fn diff_listing(l: &Vec<Entry>) -> (r: Vec<Action>)
    ensures
        r.deep_view() == spec_walk(l.deep_view(), 0),
{
    let ghost dv = l.deep_view();
    let mut r: Vec<Action> = Vec::new();
    let mut i: usize = 0;
    while i < l.len()
        invariant
            i <= l@.len(),
            dv == l.deep_view(),
            dv.len() == l@.len(),
            spec_walk(dv, 0) == r.deep_view() + spec_walk(dv, i as int),
        decreases l@.len() - i,
    {
        let ghost r0 = r;
        proof {
            assert(dv[i as int] == l@[i as int].deep_view());
            if i + 1 < l@.len() {
                assert(dv[i + 1] == l@[i + 1].deep_view());
            }
        }
        let is_matched = i + 1 < l.len() && bytes_eq(&l[i + 1].name, &l[i].name)
            && types_match(l[i + 1].kind, l[i].kind);
        proof {
            assert(is_matched == matched(dv, i as int));
        }
        if !is_matched {
            let a = Action::Emit { report: only_report(&l[i]) };
            r.push(a);
            proof {
                lemma_deep_view_push(r0, r, a);
                assert(r.deep_view() =~= r0.deep_view() + seq![a.deep_view()]);
                assert((r0.deep_view() + seq![a.deep_view()]) + spec_walk(dv, i + 1) =~= r0.deep_view()
                    + (seq![a.deep_view()] + spec_walk(dv, i + 1)));
            }
            i = i + 1;
        } else if matches!(l[i].kind, EntryKind::File) {
            let a = Action::CompareFiles {
                a_path: clone_bytes(&l[i].path),
                b_path: clone_bytes(&l[i + 1].path),
            };
            r.push(a);
            proof {
                lemma_deep_view_push(r0, r, a);
                assert(r.deep_view() =~= r0.deep_view() + seq![a.deep_view()]);
                assert((r0.deep_view() + seq![a.deep_view()]) + spec_walk(dv, i + 2) =~= r0.deep_view()
                    + (seq![a.deep_view()] + spec_walk(dv, i + 2)));
            }
            i = i + 2;
        } else if matches!(l[i].kind, EntryKind::Directory) {
            let a = Action::Recurse {
                a_path: clone_bytes(&l[i].path),
                b_path: clone_bytes(&l[i + 1].path),
            };
            r.push(a);
            proof {
                lemma_deep_view_push(r0, r, a);
                assert(r.deep_view() =~= r0.deep_view() + seq![a.deep_view()]);
                assert((r0.deep_view() + seq![a.deep_view()]) + spec_walk(dv, i + 2) =~= r0.deep_view()
                    + (seq![a.deep_view()] + spec_walk(dv, i + 2)));
            }
            i = i + 2;
        } else {
            i = i + 2;
        }
    }
    proof {
        assert(spec_walk(dv, i as int) =~= Seq::<SpecAction>::empty());
        assert(r.deep_view() + Seq::<SpecAction>::empty() =~= r.deep_view());
    }
    r
}

/// Law: the report for an unmatched entry carries the marker of the side
/// the entry came from, and of that side only — for every entry exactly
/// one of the two "only" markers applies.
pub proof fn lemma_only_marker(e: SpecEntry)
    ensures
        (spec_only_report(e) is OnlyInA) <==> e.side == Side::A,
        (spec_only_report(e) is OnlyInB) <==> e.side == Side::B,
{
}

proof fn lemma_lone_name_reported_from(l: Seq<SpecEntry>, i: int, s: int)
    requires
        0 <= s <= i < l.len(),
        forall|j: int| 0 <= j < l.len() && j != i ==> (#[trigger] l[j].name) != l[i].name,
    ensures
        spec_walk(l, s).contains(SpecAction::Emit { report: spec_only_report(l[i]) }),
    decreases i - s,
{
    let x = SpecAction::Emit { report: spec_only_report(l[i]) };
    if s == i {
        assert(!matched(l, s));
        assert(spec_walk(l, s)[0] == x);
    } else {
        if !matched(l, s) {
            lemma_lone_name_reported_from(l, i, s + 1);
            let w1 = spec_walk(l, s + 1);
            let j = choose|j: int| 0 <= j < w1.len() && w1[j] == x;
            assert(spec_walk(l, s)[j + 1] == x);
        } else {
            assert(s + 1 != i);
            lemma_lone_name_reported_from(l, i, s + 2);
            let w2 = spec_walk(l, s + 2);
            let j = choose|j: int| 0 <= j < w2.len() && w2[j] == x;
            if l[s].kind == EntryKind::File || l[s].kind == EntryKind::Directory {
                assert(spec_walk(l, s)[j + 1] == x);
            } else {
                assert(spec_walk(l, s)[j] == x);
            }
        }
    }
}

/// Law: a name that appears on exactly one place in a listing is reported
/// by the walk, under the marker of the side its entry came from.
pub proof fn lemma_lone_name_reported(l: Seq<SpecEntry>, i: int)
    requires
        0 <= i < l.len(),
        forall|j: int| 0 <= j < l.len() && j != i ==> (#[trigger] l[j].name) != l[i].name,
    ensures
        spec_walk(l, 0).contains(SpecAction::Emit { report: spec_only_report(l[i]) }),
{
    lemma_lone_name_reported_from(l, i, 0);
}

/// A listing made of adjacent matched pairs: even length, and each entry
/// at an even index shares its name and type with the entry after it.
/// Diffing a tree against an identical copy of itself yields such a
/// listing at every level.
pub open spec fn all_pairs_matched(l: Seq<SpecEntry>) -> bool {
    l.len() % 2 == 0 && forall|i: int|
        #![trigger l[i]]
        0 <= i && i + 1 < l.len() && i % 2 == 0 ==> (l[i + 1].name == l[i].name && l[i + 1].kind
            == l[i].kind)
}

proof fn lemma_matched_pairs_no_reports_from(l: Seq<SpecEntry>, s: int)
    requires
        all_pairs_matched(l),
        0 <= s <= l.len(),
        s % 2 == 0,
    ensures
        forall|k: int|
            0 <= k < spec_walk(l, s).len() ==> !((#[trigger] spec_walk(l, s)[k]) is Emit),
    decreases l.len() - s,
{
    if s < l.len() {
        assert(matched(l, s));
        lemma_matched_pairs_no_reports_from(l, s + 2);
        let w2 = spec_walk(l, s + 2);
        assert forall|k: int|
            0 <= k < spec_walk(l, s).len() implies !((#[trigger] spec_walk(l, s)[k]) is Emit) by {
            if l[s].kind == EntryKind::File || l[s].kind == EntryKind::Directory {
                if k >= 1 {
                    assert(spec_walk(l, s)[k] == w2[k - 1]);
                }
            } else {
                assert(spec_walk(l, s)[k] == w2[k]);
            }
        }
    }
}

/// Law: a listing in which every adjacent pair is matched — as arises when
/// a directory tree is diffed against an identical copy of itself — makes
/// the walk emit no report at all; only file comparisons and recursions
/// remain, and those find no difference on identical contents.
pub proof fn lemma_matched_pairs_no_reports(l: Seq<SpecEntry>)
    requires
        all_pairs_matched(l),
    ensures
        forall|k: int|
            0 <= k < spec_walk(l, 0).len() ==> !((#[trigger] spec_walk(l, 0)[k]) is Emit),
{
    lemma_matched_pairs_no_reports_from(l, 0);
}

/// Law: a name present with one type on one side and another type on the
/// other — a file here, a directory there — is reported as two "only"
/// entries, one for each side, and the pair is neither content-compared
/// nor recursed into.
pub proof fn lemma_type_mismatch_two_onlys(l: Seq<SpecEntry>, i: int)
    requires
        0 <= i,
        i + 1 < l.len(),
        l[i + 1].name == l[i].name,
        l[i + 1].kind != l[i].kind,
        i + 2 < l.len() ==> l[i + 2].name != l[i + 1].name,
    ensures
        spec_walk(l, i) == seq![
            SpecAction::Emit { report: spec_only_report(l[i]) },
            SpecAction::Emit { report: spec_only_report(l[i + 1]) },
        ] + spec_walk(l, i + 2),
{
    assert(!matched(l, i));
    assert(!matched(l, i + 1));
    let w = seq![
        SpecAction::Emit { report: spec_only_report(l[i]) },
        SpecAction::Emit { report: spec_only_report(l[i + 1]) },
    ];
    assert(spec_walk(l, i + 1) == seq![SpecAction::Emit { report: spec_only_report(l[i + 1]) }]
        + spec_walk(l, i + 2));
    assert(spec_walk(l, i) == seq![SpecAction::Emit { report: spec_only_report(l[i]) }]
        + spec_walk(l, i + 1));
    assert(spec_walk(l, i) =~= w + spec_walk(l, i + 2));
}

} // verus!

