//! The order of names: that of their bytes.

use vstd::prelude::*;
use vstd::utf8::encode_utf8;
use crate::expression::name_views;

verus! {

/// Whether `a` comes before `b`, or is `b`, in the order of the dictionary:
/// at the first place where they differ `a` has the smaller byte, or `a`
/// ends there.
pub open spec fn bytes_before(a: Seq<u8>, b: Seq<u8>) -> bool
    decreases a.len(),
{
    if a.len() == 0 {
        true
    } else if b.len() == 0 {
        false
    } else if a[0] != b[0] {
        a[0] < b[0]
    } else {
        bytes_before(a.skip(1), b.skip(1))
    }
}

/// Whether the name `a` comes before the name `b` or is `b`.
pub open spec fn name_before(a: Seq<char>, b: Seq<char>) -> bool {
    bytes_before(encode_utf8(a), encode_utf8(b))
}

/// Each name comes before those after it.
pub open spec fn names_sorted(names: Seq<Seq<char>>) -> bool {
    forall|i: int, j: int|
        0 <= i < j < names.len() ==> name_before(#[trigger] names[i], #[trigger] names[j])
}

/// Of two names one comes before the other.
pub proof fn lemma_order_is_total(a: Seq<u8>, b: Seq<u8>)
    ensures
        bytes_before(a, b) || bytes_before(b, a),
    decreases a.len(),
{
    if a.len() > 0 && b.len() > 0 && a[0] == b[0] {
        lemma_order_is_total(a.skip(1), b.skip(1));
    }
}

/// What comes before a name comes before what the name comes before.
pub proof fn lemma_order_is_transitive(a: Seq<u8>, b: Seq<u8>, c: Seq<u8>)
    requires
        bytes_before(a, b),
        bytes_before(b, c),
    ensures
        bytes_before(a, c),
    decreases a.len(),
{
    if a.len() > 0 && b.len() > 0 && c.len() > 0 && a[0] == b[0] && b[0] == c[0] {
        lemma_order_is_transitive(a.skip(1), b.skip(1), c.skip(1));
    }
}

/// Whether the name `a` comes before the name `b` or is `b`.
pub fn comes_before(a: &str, b: &str) -> (r: bool)
    ensures
        r == name_before(a@, b@),
{
    let x = a.as_bytes();
    let y = b.as_bytes();
    let mut i: usize = 0;
    proof {
        assert(x@.skip(0) =~= x@);
        assert(y@.skip(0) =~= y@);
    }
    while i < x.len() && i < y.len()
        invariant
            i <= x@.len(),
            i <= y@.len(),
            x@ == encode_utf8(a@),
            y@ == encode_utf8(b@),
            bytes_before(x@, y@) == bytes_before(x@.skip(i as int), y@.skip(i as int)),
        decreases x@.len() - i,
    {
        proof {
            assert(x@.skip(i as int)[0] == x@[i as int]);
            assert(y@.skip(i as int)[0] == y@[i as int]);
        }
        if x[i] != y[i] {
            return x[i] < y[i];
        }
        proof {
            assert(x@.skip(i as int).skip(1) =~= x@.skip(i + 1));
            assert(y@.skip(i as int).skip(1) =~= y@.skip(i + 1));
        }
        i = i + 1;
    }
    i == x.len()
}

/// Whether `out` holds the names of `names`, each as often.
pub open spec fn same_names(out: Seq<Seq<char>>, names: Seq<Seq<char>>) -> bool {
    out.to_multiset() == names.to_multiset()
}

/// The names in the order of the dictionary.
pub fn sorted(names: Vec<String>) -> (out: Vec<String>)
    ensures
        names_sorted(name_views(out@)),
        same_names(name_views(out@), name_views(names@)),
{
    let mut out: Vec<String> = Vec::new();
    let mut i: usize = 0;
    proof {
        assert(name_views(out@) =~= name_views(names@).take(0));
    }
    while i < names.len()
        invariant
            i <= names.len(),
            names_sorted(name_views(out@)),
            same_names(name_views(out@), name_views(names@).take(i as int)),
        decreases names.len() - i,
    {
        let name = names[i].clone();
        // the first place whose name does not come before this one
        let mut at: usize = 0;
        while at < out.len() && comes_before(out[at].as_str(), name.as_str())
            invariant
                at <= out.len(),
                forall|k: int| 0 <= k < at ==> name_before(#[trigger] name_views(out@)[k], name@),
            decreases out.len() - at,
        {
            at = at + 1;
        }
        let ghost before = name_views(out@);
        out.insert(at, name);
        proof {
            let after = name_views(out@);
            assert(after =~= before.insert(at as int, name@));
            assert forall|a: int, b: int| 0 <= a < b < after.len() implies name_before(
                #[trigger] after[a],
                #[trigger] after[b],
            ) by {
                if b < at {
                    assert(name_before(before[a], before[b]));
                } else if b == at {
                    assert(name_before(before[a], name@));
                } else if a == at {
                    // the name comes before the one it was put before, and
                    // so before those after it
                    lemma_order_is_total(encode_utf8(before[at as int]), encode_utf8(name@));
                    if b - 1 > at {
                        assert(name_before(before[at as int], before[b - 1]));
                        lemma_order_is_transitive(
                            encode_utf8(name@),
                            encode_utf8(before[at as int]),
                            encode_utf8(before[b - 1]),
                        );
                    }
                } else if a < at {
                    assert(name_before(before[a], before[b - 1]));
                } else {
                    assert(name_before(before[a - 1], before[b - 1]));
                }
            }
            let taken = name_views(names@).take(i as int);
            assert(name_views(names@).take(i + 1) =~= taken.push(name@));
            vstd::seq_lib::to_multiset_insert(before, at as int, name@);
            vstd::seq_lib::to_multiset_build(taken, name@);
        }
        i = i + 1;
    }
    proof {
        assert(name_views(names@).take(names.len() as int) =~= name_views(names@));
    }
    out
}

/// Names that are the same names, each as often, are the same set of
/// names, and none of them occurs twice where none did.
pub proof fn lemma_same_names(out: Seq<Seq<char>>, names: Seq<Seq<char>>)
    requires
        same_names(out, names),
    ensures
        forall|k: Seq<char>| out.contains(k) <==> names.contains(k),
        names.no_duplicates() ==> out.no_duplicates(),
{
    assert forall|k: Seq<char>| out.contains(k) <==> names.contains(k) by {
        vstd::seq_lib::to_multiset_contains(out, k);
        vstd::seq_lib::to_multiset_contains(names, k);
    }
    if names.no_duplicates() {
        names.lemma_multiset_has_no_duplicates();
        out.lemma_multiset_has_no_duplicates_conv();
    }
}

} // verus!
