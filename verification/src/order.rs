//! Sequences kept in a strict total order: a set with a fixed order of
//! listing.

use vstd::prelude::*;

verus! {

/// Whether `lt` orders all values of `T` strictly: nothing comes before
/// itself, the order passes on, and of two different values one comes first.
pub open spec fn strict_total<T>(lt: spec_fn(T, T) -> bool) -> bool {
    &&& forall|a: T| !#[trigger] lt(a, a)
    &&& forall|a: T, b: T, c: T| #[trigger] lt(a, b) && #[trigger] lt(b, c) ==> lt(a, c)
    &&& forall|a: T, b: T| a == b || #[trigger] lt(a, b) || lt(b, a)
}

/// Whether each element of `s` comes before all that follow it.
pub open spec fn ascending<T>(s: Seq<T>, lt: spec_fn(T, T) -> bool) -> bool {
    forall|i: int, j: int| 0 <= i < j < s.len() ==> #[trigger] lt(s[i], s[j])
}

/// Whether `i` is where `x` belongs in `s`: behind all that come before it.
pub open spec fn place_of<T>(s: Seq<T>, lt: spec_fn(T, T) -> bool, x: T, i: int) -> bool {
    &&& 0 <= i <= s.len()
    &&& forall|j: int| 0 <= j < i ==> #[trigger] lt(s[j], x)
    &&& i < s.len() ==> !lt(s[i], x)
}

/// An ascending sequence holds `x` only at the place where `x` belongs.
pub proof fn lemma_found<T>(s: Seq<T>, lt: spec_fn(T, T) -> bool, x: T, i: int)
    requires
        strict_total(lt),
        ascending(s, lt),
        place_of(s, lt, x, i),
    ensures
        s.contains(x) <==> i < s.len() && s[i] == x,
{
    if s.contains(x) {
        let k = choose|k: int| 0 <= k < s.len() && s[k] == x;
        if k < i {
            assert(lt(s[k], x));
        } else if k > i {
            assert(lt(s[i], s[k]));
        }
    }
}

/// Putting `x` where it belongs keeps the sequence ascending and adds `x`
/// to what it holds.
pub proof fn lemma_insert<T>(s: Seq<T>, lt: spec_fn(T, T) -> bool, x: T, i: int)
    requires
        strict_total(lt),
        ascending(s, lt),
        place_of(s, lt, x, i),
        !s.contains(x),
    ensures
        ascending(s.insert(i, x), lt),
        s.insert(i, x).to_set() == s.to_set().insert(x),
{
    let t = s.insert(i, x);
    assert forall|a: int, b: int| 0 <= a < b < t.len() implies #[trigger] lt(t[a], t[b]) by {
        if b < i {
            assert(lt(s[a], s[b]));
        } else if b == i {
            assert(lt(s[a], x));
        } else if a == i {
            assert(t[b] == s[b - 1]);
            if b - 1 > i {
                assert(lt(s[i], s[b - 1]));
            }
            assert(s[i] != x);
            assert(lt(x, s[i]) || lt(s[i], x));
        } else if a < i {
            assert(lt(s[a], s[b - 1]));
        } else {
            assert(lt(s[a - 1], s[b - 1]));
        }
    }
    assert forall|v: T| t.to_set().contains(v) <==> s.to_set().insert(x).contains(v) by {
        if t.contains(v) {
            let k = choose|k: int| 0 <= k < t.len() && t[k] == v;
            if k < i {
                assert(s[k] == v);
            } else if k > i {
                assert(s[k - 1] == v);
            }
        }
        if v == x {
            assert(t[i] == x);
        } else if s.contains(v) {
            let k = choose|k: int| 0 <= k < s.len() && s[k] == v;
            if k < i {
                assert(t[k] == v);
            } else {
                assert(t[k + 1] == v);
            }
        }
    }
    assert(t.to_set() =~= s.to_set().insert(x));
}

/// Two ascending sequences that hold the same values are the same sequence.
pub proof fn lemma_unique<T>(a: Seq<T>, b: Seq<T>, lt: spec_fn(T, T) -> bool)
    requires
        strict_total(lt),
        ascending(a, lt),
        ascending(b, lt),
        a.to_set() == b.to_set(),
    ensures
        a == b,
    decreases a.len(),
{
    if a.len() == 0 {
        if b.len() > 0 {
            assert(b.to_set().contains(b[0]));
            assert(a.contains(b[0]));
        }
        assert(a =~= b);
    } else if b.len() == 0 {
        assert(a.to_set().contains(a[0]));
        assert(b.contains(a[0]));
    } else {
        let x = a.last();
        let y = b.last();
        assert(a.to_set().contains(x));
        assert(b.to_set().contains(y));
        assert(b.contains(x));
        assert(a.contains(y));
        let i = choose|i: int| 0 <= i < b.len() && b[i] == x;
        let j = choose|j: int| 0 <= j < a.len() && a[j] == y;
        if x != y {
            assert(i < b.len() - 1);
            assert(j < a.len() - 1);
            assert(lt(b[i], b[b.len() - 1]));
            assert(lt(a[j], a[a.len() - 1]));
            assert(lt(x, y) && lt(y, x));
            assert(lt(x, x));
        }
        let a0 = a.drop_last();
        let b0 = b.drop_last();
        assert forall|v: T| a0.to_set().contains(v) <==> b0.to_set().contains(v) by {
            if a0.contains(v) {
                let k = choose|k: int| 0 <= k < a0.len() && a0[k] == v;
                assert(lt(a[k], a[a.len() - 1]));
                assert(a.to_set().contains(a[k]));
                assert(b.contains(v));
                let m = choose|m: int| 0 <= m < b.len() && b[m] == v;
                assert(b0[m] == v);
            }
            if b0.contains(v) {
                let k = choose|k: int| 0 <= k < b0.len() && b0[k] == v;
                assert(lt(b[k], b[b.len() - 1]));
                assert(b.to_set().contains(b[k]));
                assert(a.contains(v));
                let m = choose|m: int| 0 <= m < a.len() && a[m] == v;
                assert(a0[m] == v);
            }
        }
        assert(a0.to_set() =~= b0.to_set());
        assert(ascending(a0, lt)) by {
            assert forall|p: int, q: int| 0 <= p < q < a0.len() implies #[trigger] lt(
                a0[p],
                a0[q],
            ) by {
                assert(lt(a[p], a[q]));
            }
        }
        assert(ascending(b0, lt)) by {
            assert forall|p: int, q: int| 0 <= p < q < b0.len() implies #[trigger] lt(
                b0[p],
                b0[q],
            ) by {
                assert(lt(b[p], b[q]));
            }
        }
        lemma_unique(a0, b0, lt);
        assert(a =~= a0.push(x));
        assert(b =~= b0.push(y));
    }
}

} // verus!
