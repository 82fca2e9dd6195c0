//! Lexicographic order on names, compared byte by byte, and the order in
//! which a combined listing is laid out: by name first, with the first
//! root's entry ahead of the second root's when the names are equal.

use vstd::prelude::*;
use crate::entry::{Entry, Side, SpecEntry};

verus! {

/// Strict lexicographic order on byte strings, by byte ordinal value.
pub open spec fn bytes_lt(a: Seq<u8>, b: Seq<u8>) -> bool
    decreases a.len(),
{
    if b.len() == 0 {
        false
    } else if a.len() == 0 {
        true
    } else if a[0] != b[0] {
        a[0] < b[0]
    } else {
        bytes_lt(a.drop_first(), b.drop_first())
    }
}

/// Reflexive closure of [`bytes_lt`].
pub open spec fn bytes_le(a: Seq<u8>, b: Seq<u8>) -> bool {
    bytes_lt(a, b) || a == b
}

/// Two nonempty byte strings with equal heads and equal tails are equal.
proof fn lemma_head_tail_eq(a: Seq<u8>, b: Seq<u8>)
    requires
        a.len() > 0,
        b.len() > 0,
        a[0] == b[0],
        a.drop_first() == b.drop_first(),
    ensures
        a == b,
{
    assert(a.len() == b.len()) by {
        assert(a.drop_first().len() == a.len() - 1);
        assert(b.drop_first().len() == b.len() - 1);
    }
    assert forall|i: int| 0 <= i < a.len() implies a[i] == b[i] by {
        if i >= 1 {
            assert(a[i] == a.drop_first()[i - 1]);
            assert(b[i] == b.drop_first()[i - 1]);
        }
    }
    assert(a =~= b);
}

/// The byte order is total: exactly one of `a < b`, `a == b`, `b < a` holds.
pub proof fn lemma_bytes_order_total(a: Seq<u8>, b: Seq<u8>)
    ensures
        bytes_lt(a, b) || a == b || bytes_lt(b, a),
        bytes_lt(a, b) ==> a != b && !bytes_lt(b, a),
        a == b ==> !bytes_lt(a, b) && !bytes_lt(b, a),
    decreases a.len(),
{
    if a.len() == 0 && b.len() == 0 {
        assert(a =~= b);
    } else if a.len() > 0 && b.len() > 0 && a[0] == b[0] {
        lemma_bytes_order_total(a.drop_first(), b.drop_first());
        if a.drop_first() == b.drop_first() {
            lemma_head_tail_eq(a, b);
        }
        if a == b {
            assert(a.drop_first() =~= b.drop_first());
        }
    } else if a.len() > 0 && b.len() > 0 && a[0] != b[0] {
        if a == b {
            assert(a[0] == b[0]);
        }
    }
}

/// The byte order is transitive.
pub proof fn lemma_bytes_lt_trans(a: Seq<u8>, b: Seq<u8>, c: Seq<u8>)
    requires
        bytes_lt(a, b),
        bytes_lt(b, c),
    ensures
        bytes_lt(a, c),
    decreases a.len(),
{
    if a.len() > 0 && b.len() > 0 && c.len() > 0 {
        if a[0] == b[0] && b[0] == c[0] {
            lemma_bytes_lt_trans(a.drop_first(), b.drop_first(), c.drop_first());
        }
    }
}

/// Decides `bytes_le` on the suffixes of `a` and `b` that start at `i`.
fn le_from(a: &Vec<u8>, b: &Vec<u8>, i: usize) -> (r: bool)
    requires
        i <= a@.len(),
        i <= b@.len(),
    ensures
        r == bytes_le(a@.skip(i as int), b@.skip(i as int)),
    decreases a@.len() - i,
{
    let ghost sa = a@.skip(i as int);
    let ghost sb = b@.skip(i as int);
    if i == b.len() {
        proof {
            if a@.len() == i {
                assert(sa =~= sb);
            } else {
                assert(sa.len() > 0 && sb.len() == 0);
            }
        }
        a.len() == i
    } else if i == a.len() {
        true
    } else {
        let x = a[i];
        let y = b[i];
        if x != y {
            proof {
                assert(sa[0] == x && sb[0] == y);
                if sa == sb {
                    assert(sa[0] == sb[0]);
                }
            }
            x < y
        } else {
            let r = le_from(a, b, i + 1);
            proof {
                assert(sa.drop_first() =~= a@.skip(i + 1));
                assert(sb.drop_first() =~= b@.skip(i + 1));
                assert(sa[0] == x && sb[0] == y);
                if sa.drop_first() == sb.drop_first() {
                    lemma_head_tail_eq(sa, sb);
                }
                if sa == sb {
                    assert(sa.drop_first() =~= sb.drop_first());
                }
            }
            r
        }
    }
}

/// Decides `bytes_le(a@, b@)`, the byte-ordinal order on names.
pub fn name_le(a: &Vec<u8>, b: &Vec<u8>) -> (r: bool)
    ensures
        r == bytes_le(a@, b@),
{
    let r = le_from(a, b, 0);
    proof {
        assert(a@.skip(0) =~= a@);
        assert(b@.skip(0) =~= b@);
    }
    r
}

/// Order of entries in a combined listing: by name, and on equal names the
/// first root's entry comes first, so that a name present on both sides
/// always yields an adjacent pair with the first root's entry ahead.
pub open spec fn entry_le(x: SpecEntry, y: SpecEntry) -> bool {
    bytes_lt(x.name, y.name) || (x.name == y.name && !(x.side == Side::B && y.side == Side::A))
}

/// The listing order is total.
pub proof fn lemma_entry_order_total(x: SpecEntry, y: SpecEntry)
    ensures
        entry_le(x, y) || entry_le(y, x),
{
    lemma_bytes_order_total(x.name, y.name);
}

/// Decides `entry_le(x@, y@)`.
pub fn entry_le_exec(x: &Entry, y: &Entry) -> (r: bool)
    ensures
        r == entry_le(x@, y@),
{
    let xy = name_le(&x.name, &y.name);
    let yx = name_le(&y.name, &x.name);
    proof {
        lemma_bytes_order_total(x.name@, y.name@);
    }
    if xy && !yx {
        true
    } else if xy && yx {
        // both directions: the names are equal, the sides break the tie
        !(matches!(x.side, Side::B) && matches!(y.side, Side::A))
    } else {
        false
    }
}

} // verus!
