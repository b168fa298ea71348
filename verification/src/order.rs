//! The order of the values: what is asked of `Ord`, and what follows for
//! sequences that strictly increase.

use std::cmp::Ordering;
use vstd::prelude::*;
use vstd::std_specs::cmp::OrdSpec;

verus! {

/// `a` comes strictly before `b` in the order that `Ord` gives `T`.
#[verifier::inline]
pub open spec fn lt<T: Ord>(a: T, b: T) -> bool {
    a.cmp_spec(&b) == Ordering::Less
}

/// The comparison of `T` is a strict total order that agrees with equality:
/// `cmp` computes `cmp_spec`, two values compare `Equal` exactly when they
/// are the same value, `Greater` mirrors `Less`, and `Less` is transitive.
///
/// Every operation of the set asks for this; with a comparison that breaks
/// it, nothing is promised.
pub open spec fn total_order<T: Ord>() -> bool {
    &&& T::obeys_cmp_spec()
    &&& forall|a: T, b: T| (#[trigger] a.cmp_spec(&b) == Ordering::Equal) <==> a == b
    &&& forall|a: T, b: T| (#[trigger] a.cmp_spec(&b) == Ordering::Greater) <==> lt(b, a)
    &&& forall|a: T, b: T, c: T|
        #![trigger a.cmp_spec(&b), b.cmp_spec(&c)]
        lt(a, b) && lt(b, c) ==> lt(a, c)
}

/// A sequence whose items strictly increase from left to right.
pub open spec fn increasing<T: Ord>(s: Seq<T>) -> bool {
    forall|i: int, j: int| #![trigger s[i], s[j]] 0 <= i < j < s.len() ==> lt(s[i], s[j])
}

/// Every item of `s` comes strictly before `x`.
pub open spec fn all_below<T: Ord>(s: Seq<T>, x: T) -> bool {
    forall|i: int| 0 <= i < s.len() ==> lt(#[trigger] s[i], x)
}

/// Every item of `s` comes strictly after `x`.
pub open spec fn all_above<T: Ord>(s: Seq<T>, x: T) -> bool {
    forall|i: int| 0 <= i < s.len() ==> lt(x, #[trigger] s[i])
}

/// An increasing sequence holds no item twice.
pub proof fn lemma_increasing_no_duplicates<T: Ord>(s: Seq<T>)
    requires
        total_order::<T>(),
        increasing(s),
    ensures
        s.no_duplicates(),
{
    assert forall|i: int, j: int| 0 <= i < j < s.len() implies s[i] != s[j] && s[j] != s[i] by {
        assert(lt(s[i], s[j]));
    }
}

/// In an increasing sequence the first item comes before every other item
/// and the last item after every other item.
pub proof fn lemma_increasing_ends<T: Ord>(s: Seq<T>)
    requires
        increasing(s),
        s.len() > 0,
    ensures
        s.contains(s.first()),
        s.contains(s.last()),
        forall|e: T| s.contains(e) ==> e == s.first() || lt(s.first(), e),
        forall|e: T| s.contains(e) ==> e == s.last() || lt(e, s.last()),
{
    assert forall|e: T| s.contains(e) implies (e == s.first() || lt(s.first(), e)) && (e
        == s.last() || lt(e, s.last())) by {
        let i = choose|i: int| 0 <= i < s.len() && s[i] == e;
        if 0 < i {
            assert(lt(s[0], s[i]));
        }
        if i < s.len() - 1 {
            assert(lt(s[i], s[s.len() - 1]));
        }
    }
}

/// The parts of an increasing sequence `a, x, b` are increasing, and `x`
/// separates them.
pub proof fn lemma_increasing_split<T: Ord>(a: Seq<T>, x: T, b: Seq<T>)
    requires
        increasing(a + seq![x] + b),
    ensures
        increasing(a),
        increasing(b),
        all_below(a, x),
        all_above(b, x),
{
    let s = a + seq![x] + b;
    let n = a.len() as int;
    assert(s[n] == x);
    assert forall|i: int, j: int| 0 <= i < j < a.len() implies lt(a[i], a[j]) by {
        assert(s[i] == a[i] && s[j] == a[j]);
    }
    assert forall|i: int, j: int| 0 <= i < j < b.len() implies lt(b[i], b[j]) by {
        assert(s[n + 1 + i] == b[i] && s[n + 1 + j] == b[j]);
    }
    assert forall|i: int| 0 <= i < a.len() implies lt(#[trigger] a[i], x) by {
        assert(s[i] == a[i]);
    }
    assert forall|i: int| 0 <= i < b.len() implies lt(x, #[trigger] b[i]) by {
        assert(s[n + 1 + i] == b[i]);
    }
}

/// Two increasing sequences with `x` between them join into an increasing
/// sequence.
pub proof fn lemma_increasing_join<T: Ord>(a: Seq<T>, x: T, b: Seq<T>)
    requires
        total_order::<T>(),
        increasing(a),
        increasing(b),
        all_below(a, x),
        all_above(b, x),
    ensures
        increasing(a + seq![x] + b),
{
}

/// Taking `x` out of an increasing sequence `a, x, b` leaves an increasing
/// sequence that holds what it held before, but for `x`.
pub proof fn lemma_increasing_without<T: Ord>(a: Seq<T>, x: T, b: Seq<T>)
    requires
        total_order::<T>(),
        increasing(a + seq![x] + b),
    ensures
        increasing(a + b),
        (a + b).to_set() == (a + seq![x] + b).to_set().remove(x),
{
    let s = a + seq![x] + b;
    let t = a + b;
    let n = a.len() as int;
    assert forall|i: int, j: int| 0 <= i < j < t.len() implies lt(t[i], t[j]) by {
        let si = if i < n {
            i
        } else {
            i + 1
        };
        let sj = if j < n {
            j
        } else {
            j + 1
        };
        assert(s[si] == t[i] && s[sj] == t[j]);
    }
    assert forall|e: T| t.contains(e) <==> (s.contains(e) && e != x) by {
        if t.contains(e) {
            let i = choose|i: int| 0 <= i < t.len() && t[i] == e;
            let si = if i < n {
                i
            } else {
                i + 1
            };
            if si > n {
                assert(lt(s[n], s[si]));
            }
        }
        if s.contains(e) && e != x {
            let i = choose|i: int| 0 <= i < s.len() && s[i] == e;
            let ti = if i < n {
                i
            } else {
                i - 1
            };
            assert(t[ti] == e);
        }
    }
}

} // verus!
