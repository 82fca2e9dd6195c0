//! Building the combined listing of one directory level: dropping
//! housekeeping names, then sorting both sides' entries into one sequence
//! ordered by name, with the first root's entry ahead on equal names.
//!
//! The housekeeping filter is always active, so a filtered name never
//! reaches a listing and is never reported, on any platform.

use vstd::prelude::*;
use crate::entry::{
    clone_entry, lemma_bytes_deep_view, lemma_deep_view_concat, lemma_deep_view_drop_last,
    lemma_deep_view_insert, lemma_deep_view_push, Entry, Side, SpecEntry,
};
use crate::order::{
    bytes_le, bytes_lt, entry_le, entry_le_exec, lemma_bytes_lt_trans, lemma_bytes_order_total,
    lemma_entry_order_total,
};

verus! {

/// The fixed table of OS housekeeping names that a listing drops.
pub open spec fn system_names() -> Seq<Seq<u8>> {
    seq![
        // .DS_Store
        seq!['.' as u8, 'D' as u8, 'S' as u8, '_' as u8, 'S' as u8, 't' as u8, 'o' as u8, 'r' as u8, 'e' as u8],
        // .DocumentRevisions-V100
        seq!['.' as u8, 'D' as u8, 'o' as u8, 'c' as u8, 'u' as u8, 'm' as u8, 'e' as u8, 'n' as u8, 't' as u8, 'R' as u8, 'e' as u8, 'v' as u8, 'i' as u8, 's' as u8, 'i' as u8, 'o' as u8, 'n' as u8, 's' as u8, '-' as u8, 'V' as u8, '1' as u8, '0' as u8, '0' as u8],
        // .Spotlight-V100
        seq!['.' as u8, 'S' as u8, 'p' as u8, 'o' as u8, 't' as u8, 'l' as u8, 'i' as u8, 'g' as u8, 'h' as u8, 't' as u8, '-' as u8, 'V' as u8, '1' as u8, '0' as u8, '0' as u8],
        // .TemporaryItems
        seq!['.' as u8, 'T' as u8, 'e' as u8, 'm' as u8, 'p' as u8, 'o' as u8, 'r' as u8, 'a' as u8, 'r' as u8, 'y' as u8, 'I' as u8, 't' as u8, 'e' as u8, 'm' as u8, 's' as u8],
        // .Trashes
        seq!['.' as u8, 'T' as u8, 'r' as u8, 'a' as u8, 's' as u8, 'h' as u8, 'e' as u8, 's' as u8],
        // .VolumeIcon.icns
        seq!['.' as u8, 'V' as u8, 'o' as u8, 'l' as u8, 'u' as u8, 'm' as u8, 'e' as u8, 'I' as u8, 'c' as u8, 'o' as u8, 'n' as u8, '.' as u8, 'i' as u8, 'c' as u8, 'n' as u8, 's' as u8],
        // .com.apple.timemachine.donotpresent
        seq!['.' as u8, 'c' as u8, 'o' as u8, 'm' as u8, '.' as u8, 'a' as u8, 'p' as u8, 'p' as u8, 'l' as u8, 'e' as u8, '.' as u8, 't' as u8, 'i' as u8, 'm' as u8, 'e' as u8, 'm' as u8, 'a' as u8, 'c' as u8, 'h' as u8, 'i' as u8, 'n' as u8, 'e' as u8, '.' as u8, 'd' as u8, 'o' as u8, 'n' as u8, 'o' as u8, 't' as u8, 'p' as u8, 'r' as u8, 'e' as u8, 's' as u8, 'e' as u8, 'n' as u8, 't' as u8],
        // .com.apple.timemachine.supported
        seq!['.' as u8, 'c' as u8, 'o' as u8, 'm' as u8, '.' as u8, 'a' as u8, 'p' as u8, 'p' as u8, 'l' as u8, 'e' as u8, '.' as u8, 't' as u8, 'i' as u8, 'm' as u8, 'e' as u8, 'm' as u8, 'a' as u8, 'c' as u8, 'h' as u8, 'i' as u8, 'n' as u8, 'e' as u8, '.' as u8, 's' as u8, 'u' as u8, 'p' as u8, 'p' as u8, 'o' as u8, 'r' as u8, 't' as u8, 'e' as u8, 'd' as u8],
        // .fseventsd
        seq!['.' as u8, 'f' as u8, 's' as u8, 'e' as u8, 'v' as u8, 'e' as u8, 'n' as u8, 't' as u8, 's' as u8, 'd' as u8],
        // .iTunes Preferences.plist
        seq!['.' as u8, 'i' as u8, 'T' as u8, 'u' as u8, 'n' as u8, 'e' as u8, 's' as u8, ' ' as u8, 'P' as u8, 'r' as u8, 'e' as u8, 'f' as u8, 'e' as u8, 'r' as u8, 'e' as u8, 'n' as u8, 'c' as u8, 'e' as u8, 's' as u8, '.' as u8, 'p' as u8, 'l' as u8, 'i' as u8, 's' as u8, 't' as u8],
    ]
}

/// Whether a name is one of the filtered housekeeping names.
pub open spec fn is_system_name(name: Seq<u8>) -> bool {
    exists|i: int| 0 <= i < system_names().len() && system_names()[i] == name
}

/// The entries of a listing that survive the housekeeping filter.
pub open spec fn kept(s: Seq<SpecEntry>) -> Seq<SpecEntry> {
    s.filter(|e: SpecEntry| !is_system_name(e.name))
}

/// A listing is laid out in ascending `entry_le` order.
pub open spec fn sorted_listing(s: Seq<SpecEntry>) -> bool {
    forall|i: int| 0 <= i && i + 1 < s.len() ==> entry_le(#[trigger] s[i], s[i + 1])
}

/// Decides byte-for-byte equality of two byte vectors.
pub fn bytes_eq(a: &Vec<u8>, b: &Vec<u8>) -> (r: bool)
    ensures
        r == (a@ == b@),
{
    if a.len() != b.len() {
        return false;
    }
    let mut i: usize = 0;
    while i < a.len()
        invariant
            i <= a@.len(),
            a@.len() == b@.len(),
            forall|j: int| 0 <= j < i ==> a@[j] == b@[j],
        decreases a@.len() - i,
    {
        if a[i] != b[i] {
            return false;
        }
        i = i + 1;
    }
    proof {
        assert(a@ =~= b@);
    }
    true
}

/// The housekeeping table as an executable value.
fn system_name_table() -> (t: Vec<Vec<u8>>)
    ensures
        t.deep_view() == system_names(),
{
    let mut t: Vec<Vec<u8>> = Vec::new();
    // .DS_Store
    t.push(vec!['.' as u8, 'D' as u8, 'S' as u8, '_' as u8, 'S' as u8, 't' as u8, 'o' as u8, 'r' as u8, 'e' as u8]);
    // .DocumentRevisions-V100
    t.push(vec!['.' as u8, 'D' as u8, 'o' as u8, 'c' as u8, 'u' as u8, 'm' as u8, 'e' as u8, 'n' as u8, 't' as u8, 'R' as u8, 'e' as u8, 'v' as u8, 'i' as u8, 's' as u8, 'i' as u8, 'o' as u8, 'n' as u8, 's' as u8, '-' as u8, 'V' as u8, '1' as u8, '0' as u8, '0' as u8]);
    // .Spotlight-V100
    t.push(vec!['.' as u8, 'S' as u8, 'p' as u8, 'o' as u8, 't' as u8, 'l' as u8, 'i' as u8, 'g' as u8, 'h' as u8, 't' as u8, '-' as u8, 'V' as u8, '1' as u8, '0' as u8, '0' as u8]);
    // .TemporaryItems
    t.push(vec!['.' as u8, 'T' as u8, 'e' as u8, 'm' as u8, 'p' as u8, 'o' as u8, 'r' as u8, 'a' as u8, 'r' as u8, 'y' as u8, 'I' as u8, 't' as u8, 'e' as u8, 'm' as u8, 's' as u8]);
    // .Trashes
    t.push(vec!['.' as u8, 'T' as u8, 'r' as u8, 'a' as u8, 's' as u8, 'h' as u8, 'e' as u8, 's' as u8]);
    // .VolumeIcon.icns
    t.push(vec!['.' as u8, 'V' as u8, 'o' as u8, 'l' as u8, 'u' as u8, 'm' as u8, 'e' as u8, 'I' as u8, 'c' as u8, 'o' as u8, 'n' as u8, '.' as u8, 'i' as u8, 'c' as u8, 'n' as u8, 's' as u8]);
    // .com.apple.timemachine.donotpresent
    t.push(vec!['.' as u8, 'c' as u8, 'o' as u8, 'm' as u8, '.' as u8, 'a' as u8, 'p' as u8, 'p' as u8, 'l' as u8, 'e' as u8, '.' as u8, 't' as u8, 'i' as u8, 'm' as u8, 'e' as u8, 'm' as u8, 'a' as u8, 'c' as u8, 'h' as u8, 'i' as u8, 'n' as u8, 'e' as u8, '.' as u8, 'd' as u8, 'o' as u8, 'n' as u8, 'o' as u8, 't' as u8, 'p' as u8, 'r' as u8, 'e' as u8, 's' as u8, 'e' as u8, 'n' as u8, 't' as u8]);
    // .com.apple.timemachine.supported
    t.push(vec!['.' as u8, 'c' as u8, 'o' as u8, 'm' as u8, '.' as u8, 'a' as u8, 'p' as u8, 'p' as u8, 'l' as u8, 'e' as u8, '.' as u8, 't' as u8, 'i' as u8, 'm' as u8, 'e' as u8, 'm' as u8, 'a' as u8, 'c' as u8, 'h' as u8, 'i' as u8, 'n' as u8, 'e' as u8, '.' as u8, 's' as u8, 'u' as u8, 'p' as u8, 'p' as u8, 'o' as u8, 'r' as u8, 't' as u8, 'e' as u8, 'd' as u8]);
    // .fseventsd
    t.push(vec!['.' as u8, 'f' as u8, 's' as u8, 'e' as u8, 'v' as u8, 'e' as u8, 'n' as u8, 't' as u8, 's' as u8, 'd' as u8]);
    // .iTunes Preferences.plist
    t.push(vec!['.' as u8, 'i' as u8, 'T' as u8, 'u' as u8, 'n' as u8, 'e' as u8, 's' as u8, ' ' as u8, 'P' as u8, 'r' as u8, 'e' as u8, 'f' as u8, 'e' as u8, 'r' as u8, 'e' as u8, 'n' as u8, 'c' as u8, 'e' as u8, 's' as u8, '.' as u8, 'p' as u8, 'l' as u8, 'i' as u8, 's' as u8, 't' as u8]);
    proof {
        assert(t.deep_view() =~~= system_names());
    }
    t
}

/// Decides whether an entry survives the housekeeping filter: `true` keeps
/// the entry, `false` drops a housekeeping name.
pub fn remove_system_files(name: &Vec<u8>) -> (keep: bool)
    ensures
        keep == !is_system_name(name@),
{
    let table = system_name_table();
    let mut i: usize = 0;
    while i < table.len()
        invariant
            i <= table@.len(),
            table.deep_view() == system_names(),
            forall|j: int| 0 <= j < i ==> system_names()[j] != name@,
        decreases table@.len() - i,
    {
        proof {
            lemma_bytes_deep_view(table@[i as int]);
            assert(table.deep_view()[i as int] == table@[i as int].deep_view());
        }
        if bytes_eq(&table[i], name) {
            proof {
                assert(system_names()[i as int] == name@);
            }
            return false;
        }
        i = i + 1;
    }
    true
}

/// Keeps, in order, the entries whose names pass the housekeeping filter.
fn filter_entries(v: Vec<Entry>) -> (r: Vec<Entry>)
    ensures
        r.deep_view() == kept(v.deep_view()),
{
    let mut r: Vec<Entry> = Vec::new();
    let mut i: usize = 0;
    while i < v.len()
        invariant
            i <= v@.len(),
            r.deep_view() == kept(v.deep_view().take(i as int)),
        decreases v@.len() - i,
    {
        let ghost r0 = r;
        let ghost dv = v.deep_view();
        let keep = remove_system_files(&v[i].name);
        if keep {
            let e = clone_entry(&v[i]);
            r.push(e);
            proof {
                lemma_deep_view_push(r0, r, e);
            }
        }
        proof {
            reveal(Seq::filter);
            assert(dv.take(i + 1).drop_last() =~= dv.take(i as int));
            assert(dv.take(i + 1).last() == dv[i as int]);
            assert(dv[i as int].name == v@[i as int].name@);
            assert(r.deep_view() == kept(dv.take(i + 1)));
        }
        i = i + 1;
    }
    proof {
        assert(v.deep_view().take(v@.len() as int) =~= v.deep_view());
    }
    r
}

/// Inserts an entry into a sorted listing, keeping it sorted; the new
/// entry goes after every existing entry it does not strictly precede.
fn insert_sorted(r: &mut Vec<Entry>, e: Entry)
    requires
        sorted_listing(old(r).deep_view()),
    ensures
        sorted_listing(final(r).deep_view()),
        final(r).deep_view().to_multiset() == old(r).deep_view().to_multiset().insert(e@),
{
    let ghost dv0 = r.deep_view();
    let mut j: usize = 0;
    while j < r.len() && !entry_le_exec(&e, &r[j])
        invariant
            j <= dv0.len(),
            r.deep_view() == dv0,
            r@.len() == dv0.len(),
            sorted_listing(dv0),
            forall|k: int| 0 <= k < j ==> !entry_le(e@, #[trigger] dv0[k]),
        decreases dv0.len() - j,
    {
        j = j + 1;
    }
    let ghost r0 = *r;
    r.insert(j, e);
    proof {
        lemma_deep_view_insert(r0, *r, j as int, e);
        vstd::seq_lib::to_multiset_insert(dv0, j as int, e@);
        let dv1 = r.deep_view();
        assert forall|i: int| 0 <= i && i + 1 < dv1.len() implies entry_le(#[trigger] dv1[i], dv1[i + 1]) by {
            if i + 1 == j {
                lemma_entry_order_total(e@, dv0[i]);
            }
        }
    }
}

/// Sorts entries into listing order: ascending names, the first root's
/// entry ahead of the second root's on equal names.
pub fn sort_entries(v: Vec<Entry>) -> (r: Vec<Entry>)
    ensures
        sorted_listing(r.deep_view()),
        r.deep_view().to_multiset() == v.deep_view().to_multiset(),
{
    broadcast use vstd::seq_lib::group_to_multiset_ensures;

    let ghost dv = v.deep_view();
    let mut rest = v;
    let mut r: Vec<Entry> = Vec::new();
    while rest.len() > 0
        invariant
            sorted_listing(r.deep_view()),
            r.deep_view().to_multiset().add(rest.deep_view().to_multiset()) == dv.to_multiset(),
        decreases rest@.len(),
    {
        let ghost rest0 = rest;
        let ghost racc0 = r.deep_view();
        let e = rest.pop().unwrap();
        proof {
            broadcast use vstd::seq_lib::group_to_multiset_ensures;

            lemma_deep_view_drop_last(rest0, rest);
            assert(rest0.deep_view().to_multiset() == rest.deep_view().to_multiset().insert(e@));
        }
        insert_sorted(&mut r, e);
        proof {
            assert(r.deep_view().to_multiset().add(rest.deep_view().to_multiset()) =~= racc0.to_multiset().add(
                rest0.deep_view().to_multiset(),
            ));
        }
    }
    proof {
        assert(rest.deep_view().len() == 0);
        assert(rest.deep_view() =~= Seq::<SpecEntry>::empty());
        assert(r.deep_view().to_multiset().add(rest.deep_view().to_multiset()) =~= r.deep_view().to_multiset());
    }
    r
}

/// Builds the combined listing of one directory level from the two sides'
/// raw entries: housekeeping names are dropped, everything else from both
/// sides is kept exactly once and laid out in listing order.  A filtered
/// housekeeping name never appears in the result, so it is never reported.
pub fn build_listing(a_entries: Vec<Entry>, b_entries: Vec<Entry>) -> (r: Vec<Entry>)
    ensures
        sorted_listing(r.deep_view()),
        r.deep_view().to_multiset() == kept(a_entries.deep_view()).to_multiset().add(
            kept(b_entries.deep_view()).to_multiset(),
        ),
        forall|i: int|
            0 <= i < r.deep_view().len() ==> !is_system_name(#[trigger] r.deep_view()[i].name),
{
    broadcast use vstd::seq_lib::group_to_multiset_ensures;

    let ghost dva = a_entries.deep_view();
    let ghost dvb = b_entries.deep_view();
    let mut all = filter_entries(a_entries);
    let mut fb = filter_entries(b_entries);
    let ghost all0 = all;
    let ghost fb0 = fb;
    all.append(&mut fb);
    proof {
        lemma_deep_view_concat(all0, fb0, all);
        vstd::seq_lib::lemma_multiset_commutative(kept(dva), kept(dvb));
    }
    let r = sort_entries(all);
    proof {
        let dv = r.deep_view();
        assert forall|i: int| 0 <= i < dv.len() implies !is_system_name(#[trigger] dv[i].name) by {
            assert(dv.contains(dv[i]));
            assert(dv.to_multiset().count(dv[i]) > 0);
            if kept(dva).to_multiset().count(dv[i]) > 0 {
                assert(kept(dva).contains(dv[i]));
                let k = choose|k: int| 0 <= k < kept(dva).len() && kept(dva)[k] == dv[i];
                dva.lemma_filter_pred(|e: SpecEntry| !is_system_name(e.name), k);
            } else {
                assert(kept(dvb).to_multiset().count(dv[i]) > 0);
                assert(kept(dvb).contains(dv[i]));
                let k = choose|k: int| 0 <= k < kept(dvb).len() && kept(dvb)[k] == dv[i];
                dvb.lemma_filter_pred(|e: SpecEntry| !is_system_name(e.name), k);
            }
        }
    }
    r
}


/// Along a sorted listing, names never go down.
proof fn lemma_sorted_name_le(s: Seq<SpecEntry>, i: int, j: int)
    requires
        sorted_listing(s),
        0 <= i <= j < s.len(),
    ensures
        bytes_le(s[i].name, s[j].name),
    decreases j - i,
{
    if i < j {
        lemma_sorted_name_le(s, i + 1, j);
        assert(entry_le(s[i], s[i + 1]));
        if bytes_lt(s[i].name, s[i + 1].name) && bytes_lt(s[i + 1].name, s[j].name) {
            lemma_bytes_lt_trans(s[i].name, s[i + 1].name, s[j].name);
        }
    }
}

/// Law: in a sorted listing where no name occurs twice on one side, a
/// name present on both sides stands as one adjacent pair, the first
/// root's entry immediately ahead of the second root's — the adjacency
/// the merge walk pairs entries by.
pub proof fn lemma_shared_name_adjacent(s: Seq<SpecEntry>, i: int, j: int)
    requires
        sorted_listing(s),
        0 <= i < j < s.len(),
        s[i].name == s[j].name,
        forall|p: int, q: int|
            0 <= p < q < s.len() && (#[trigger] s[p]).side == (#[trigger] s[q]).side ==> s[p].name
                != s[q].name,
    ensures
        j == i + 1,
        s[i].side == Side::A,
        s[j].side == Side::B,
{
    assert forall|k: int| i <= k <= j implies s[k].name == s[i].name by {
        lemma_sorted_name_le(s, i, k);
        lemma_sorted_name_le(s, k, j);
        lemma_bytes_order_total(s[i].name, s[k].name);
        lemma_bytes_order_total(s[k].name, s[j].name);
        if bytes_lt(s[i].name, s[k].name) && bytes_lt(s[k].name, s[j].name) {
            lemma_bytes_lt_trans(s[i].name, s[k].name, s[j].name);
        }
    }
    // three entries of one name would put two of them on one side
    if j > i + 1 {
        assert(s[i].name == s[i + 1].name && s[i].name == s[j].name);
        assert(s[i].side != s[i + 1].side);
        assert(s[i].side != s[j].side);
        assert(s[i + 1].side == s[j].side);
        assert(false);
    }
    // the pair is ordered first root ahead by the listing order
    assert(entry_le(s[i], s[j]));
    lemma_bytes_order_total(s[i].name, s[j].name);
    assert(s[i].side != s[j].side);
    if s[i].side == Side::B {
        assert(s[j].side == Side::A);
        assert(!entry_le(s[i], s[j]));
    }
    assert(s[i].side == Side::A);
    assert(s[j].side == Side::B);
}

} // verus!
