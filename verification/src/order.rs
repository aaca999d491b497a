//! Sorted lists of run numbers.

use vstd::prelude::*;

verus! {

/// Ascending, nothing twice.
pub open spec fn ascending(v: Seq<u64>) -> bool {
    forall|i: int, j: int| 0 <= i < j < v.len() ==> v[i] < v[j]
}

/// Ascending, equal numbers side by side.
pub open spec fn non_descending(v: Seq<u64>) -> bool {
    forall|i: int, j: int| 0 <= i <= j < v.len() ==> v[i] <= v[j]
}

/// Two ascending lists of the same numbers are the same list.
pub proof fn ascending_is_unique(a: Seq<u64>, b: Seq<u64>)
    requires
        ascending(a),
        ascending(b),
        forall|x: u64| a.contains(x) <==> b.contains(x),
    ensures
        a == b,
    decreases a.len(),
{
    if a.len() == 0 {
        if b.len() > 0 {
            assert(b.contains(b[0]));
        }
        assert(a =~= b);
    } else {
        assert(a.contains(a.last()));
        let j = choose|j: int| 0 <= j < b.len() && b[j] == a.last();
        assert(b.contains(b.last()));
        let i = choose|i: int| 0 <= i < a.len() && a[i] == b.last();
        assert(a.last() == b.last());
        let x = a.drop_last();
        let y = b.drop_last();
        assert forall|v: u64| x.contains(v) <==> y.contains(v) by {
            if x.contains(v) {
                let k = choose|k: int| 0 <= k < x.len() && x[k] == v;
                assert(a[k] == v);
                assert(a.contains(v));
                let m = choose|m: int| 0 <= m < b.len() && b[m] == v;
                assert(m < b.len() - 1);
                assert(y[m] == v);
            }
            if y.contains(v) {
                let k = choose|k: int| 0 <= k < y.len() && y[k] == v;
                assert(b[k] == v);
                assert(b.contains(v));
                let m = choose|m: int| 0 <= m < a.len() && a[m] == v;
                assert(m < a.len() - 1);
                assert(x[m] == v);
            }
        }
        ascending_is_unique(x, y);
        assert(a =~= x.push(a.last()));
        assert(b =~= y.push(b.last()));
    }
}

/// Put `x` into an ascending list, unless it is there.
pub fn insert(v: &mut Vec<u64>, x: u64)
    requires
        ascending(old(v)@),
    ensures
        ascending(final(v)@),
        forall|y: u64| final(v)@.contains(y) <==> (old(v)@.contains(y) || y == x),
{
    let mut i: usize = v.len();
    while i > 0 && v[i - 1] >= x
        invariant
            i <= v@.len(),
            v@ == old(v)@,
            ascending(v@),
            forall|k: int| i <= k < v@.len() ==> v@[k] >= x,
        decreases i,
    {
        i = i - 1;
    }
    let ghost s = v@;
    if i < v.len() && v[i] == x {
        assert(s.contains(x));
        return ;
    }
    v.insert(i, x);
    let ghost t = v@;
    assert(t == s.insert(i as int, x));
    assert forall|y: u64| t.contains(y) <==> (s.contains(y) || y == x) by {
        if s.contains(y) {
            let k = choose|k: int| 0 <= k < s.len() && s[k] == y;
            if k < i {
                assert(t[k] == y);
            } else {
                assert(t[k + 1] == y);
            }
        }
        if y == x {
            assert(t[i as int] == y);
        }
        if t.contains(y) {
            let k = choose|k: int| 0 <= k < t.len() && t[k] == y;
            if k < i {
                assert(s[k] == y);
            } else if k > i {
                assert(s[k - 1] == y);
            }
        }
    }
}

/// The numbers of a list, ascending, nothing twice.
pub fn sorted_set(v: &Vec<u64>) -> (r: Vec<u64>)
    ensures
        ascending(r@),
        forall|x: u64| r@.contains(x) <==> v@.contains(x),
{
    let mut out: Vec<u64> = Vec::new();
    let mut i: usize = 0;
    while i < v.len()
        invariant
            i <= v@.len(),
            ascending(out@),
            forall|x: u64| out@.contains(x) <==> v@.take(i as int).contains(x),
        decreases v@.len() - i,
    {
        let ghost before = out@;
        insert(&mut out, v[i]);
        assert forall|x: u64| out@.contains(x) <==> v@.take(i + 1).contains(x) by {
            let t = v@.take(i + 1);
            if v@.take(i as int).contains(x) {
                let k = choose|k: int| 0 <= k < i && v@.take(i as int)[k] == x;
                assert(t[k] == x);
            }
            if x == v@[i as int] {
                assert(t[i as int] == x);
            }
            if t.contains(x) {
                let k = choose|k: int| 0 <= k < t.len() && t[k] == x;
                if k < i {
                    assert(v@.take(i as int)[k] == x);
                }
            }
        }
        i = i + 1;
    }
    assert(v@.take(i as int) =~= v@);
    out
}

/// Is the number in the list?
pub fn member(v: &Vec<u64>, x: u64) -> (r: bool)
    ensures
        r == v@.contains(x),
{
    let mut i: usize = 0;
    while i < v.len()
        invariant
            i <= v@.len(),
            forall|k: int| 0 <= k < i ==> v@[k] != x,
        decreases v@.len() - i,
    {
        if v[i] == x {
            assert(v@[i as int] == x);
            return true;
        }
        i = i + 1;
    }
    false
}

pub fn copy(v: &Vec<u64>) -> (r: Vec<u64>)
    ensures
        r@ == v@,
{
    let mut out: Vec<u64> = Vec::new();
    let mut i: usize = 0;
    while i < v.len()
        invariant
            i <= v@.len(),
            out@ =~= v@.take(i as int),
        decreases v@.len() - i,
    {
        out.push(v[i]);
        i = i + 1;
    }
    assert(v@.take(i as int) =~= v@);
    out
}

/// Put `x` into a sorted list.
fn insert_sorted(v: &mut Vec<u64>, x: u64)
    requires
        non_descending(old(v)@),
    ensures
        non_descending(final(v)@),
        final(v)@.to_multiset() =~= old(v)@.to_multiset().insert(x),
{
    let mut i: usize = v.len();
    while i > 0 && v[i - 1] > x
        invariant
            i <= v@.len(),
            v@ == old(v)@,
            non_descending(v@),
            forall|k: int| i <= k < v@.len() ==> v@[k] > x,
        decreases i,
    {
        i = i - 1;
    }
    let ghost s = v@;
    v.insert(i, x);
    proof {
        broadcast use vstd::seq_lib::group_to_multiset_ensures;

        assert(v@.remove(i as int) =~= s);
        assert(v@[i as int] == x);
        assert(v@.to_multiset().contains(x));
    }
}

/// The numbers of a list, sorted; equal numbers are kept.
pub fn sort(v: &Vec<u64>) -> (r: Vec<u64>)
    ensures
        non_descending(r@),
        r@.to_multiset() == v@.to_multiset(),
{
    let mut out: Vec<u64> = Vec::new();
    let mut i: usize = 0;
    assert(v@.take(0) =~= out@);
    while i < v.len()
        invariant
            i <= v@.len(),
            non_descending(out@),
            out@.to_multiset() =~= v@.take(i as int).to_multiset(),
        decreases v@.len() - i,
    {
        insert_sorted(&mut out, v[i]);
        proof {
            broadcast use vstd::seq_lib::group_to_multiset_ensures;

            assert(v@.take(i + 1) =~= v@.take(i as int).push(v@[i as int]));
        }
        i = i + 1;
    }
    assert(v@.take(i as int) =~= v@);
    out
}

// ---------------------------------------------------------------------
// Sorting by a key

/// The sorted list with one item more, behind those whose key is not above
/// its own.
pub open spec fn placed<A>(v: Seq<A>, key: spec_fn(A) -> int, x: A) -> Seq<A>
    decreases v.len(),
{
    if v.len() > 0 && key(v.last()) > key(x) {
        placed(v.drop_last(), key, x).push(v.last())
    } else {
        v.push(x)
    }
}

/// The items by their keys; those with the same key stay as they were.
pub open spec fn by_key<A>(v: Seq<A>, key: spec_fn(A) -> int) -> Seq<A>
    decreases v.len(),
{
    if v.len() == 0 {
        Seq::empty()
    } else {
        placed(by_key(v.drop_last(), key), key, v.last())
    }
}

/// Are the items in the order of their keys?
pub open spec fn keys_in_order<A>(v: Seq<A>, key: spec_fn(A) -> int) -> bool {
    forall|i: int, j: int| 0 <= i <= j < v.len() ==> key(#[trigger] v[i]) <= key(#[trigger] v[j])
}

/// Where an item is placed.
pub proof fn placed_at<A>(v: Seq<A>, key: spec_fn(A) -> int, x: A, k: int)
    requires
        0 <= k <= v.len(),
        forall|i: int| k <= i < v.len() ==> key(#[trigger] v[i]) > key(x),
        k > 0 ==> key(v[k - 1]) <= key(x),
    ensures
        placed(v, key, x) == v.insert(k, x),
    decreases v.len(),
{
    if v.len() > k {
        let rest = v.drop_last();
        assert(v.last() == v[v.len() - 1]);
        assert forall|i: int| k <= i < rest.len() implies key(#[trigger] rest[i]) > key(x) by {
            assert(rest[i] == v[i]);
        }
        placed_at(rest, key, x, k);
        assert(rest.insert(k, x).push(v.last()) =~= v.insert(k, x));
    } else {
        assert(v.push(x) =~= v.insert(k, x));
    }
}

/// Sorting puts the items in the order of their keys, and drops or adds none.
pub proof fn by_key_sorts<A>(v: Seq<A>, key: spec_fn(A) -> int)
    ensures
        keys_in_order(by_key(v, key), key),
        by_key(v, key).to_multiset() == v.to_multiset(),
    decreases v.len(),
{
    broadcast use vstd::seq_lib::group_to_multiset_ensures;

    if v.len() > 0 {
        by_key_sorts(v.drop_last(), key);
        lemma_placed(by_key(v.drop_last(), key), key, v.last());
        assert(v =~= v.drop_last().push(v.last()));
        assert(by_key(v, key).to_multiset() =~= v.to_multiset());
    } else {
        assert(v =~= Seq::empty());
    }
}

proof fn lemma_placed<A>(v: Seq<A>, key: spec_fn(A) -> int, x: A)
    requires
        keys_in_order(v, key),
    ensures
        keys_in_order(placed(v, key, x), key),
        placed(v, key, x).to_multiset() == v.to_multiset().insert(x),
        forall|i: int|
            0 <= i < placed(v, key, x).len() ==> key(#[trigger] placed(v, key, x)[i]) <= key(x) || (
            v.len() > 0 && key(placed(v, key, x)[i]) <= key(v.last())),
    decreases v.len(),
{
    broadcast use vstd::seq_lib::group_to_multiset_ensures;

    let r = placed(v, key, x);
    if v.len() > 0 && key(v.last()) > key(x) {
        let rest = v.drop_last();
        let p = placed(rest, key, x);
        assert forall|i: int, j: int| 0 <= i <= j < rest.len() implies key(#[trigger] rest[i]) <= key(
            #[trigger] rest[j],
        ) by {
            assert(rest[i] == v[i] && rest[j] == v[j]);
        }
        lemma_placed(rest, key, x);
        assert(v =~= rest.push(v.last()));
        assert(r.to_multiset() =~= v.to_multiset().insert(x));
        if rest.len() > 0 {
            assert(rest.last() == v[v.len() - 2]);
            assert(key(v[v.len() - 2]) <= key(v[v.len() - 1]));
        }
        assert forall|i: int| 0 <= i < r.len() implies key(#[trigger] r[i]) <= key(v.last()) by {
            if i < p.len() {
                assert(r[i] == p[i]);
            }
        }
        assert forall|i: int, j: int| 0 <= i <= j < r.len() implies key(#[trigger] r[i]) <= key(
            #[trigger] r[j],
        ) by {
            if j < p.len() {
                assert(r[i] == p[i] && r[j] == p[j]);
            } else {
                assert(r[j] == v.last());
            }
        }
    } else {
        assert forall|i: int, j: int| 0 <= i <= j < r.len() implies key(#[trigger] r[i]) <= key(
            #[trigger] r[j],
        ) by {
            if j < v.len() {
                assert(r[i] == v[i] && r[j] == v[j]);
            } else if i < v.len() {
                assert(r[i] == v[i]);
                assert(key(v[i]) <= key(v[v.len() - 1]));
            }
        }
        assert forall|i: int| 0 <= i < r.len() implies key(#[trigger] r[i]) <= key(x) by {
            if i < v.len() {
                assert(r[i] == v[i]);
                assert(key(v[i]) <= key(v[v.len() - 1]));
            }
        }
    }
}

} // verus!
