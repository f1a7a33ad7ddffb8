//! Growing sequences of positions.
use vstd::prelude::*;

verus! {

/// Each item is greater than the one before.
pub open spec fn increasing(s: Seq<int>) -> bool {
    forall|a: int, b: int| 0 <= a < b < s.len() ==> #[trigger] s[a] < #[trigger] s[b]
}

/// The positions below `n` that satisfy a predicate, in order.
pub open spec fn select(pred: spec_fn(int) -> bool, n: int) -> Seq<int>
    decreases n,
{
    if n <= 0 {
        Seq::empty()
    } else if pred(n - 1) {
        select(pred, n - 1).push(n - 1)
    } else {
        select(pred, n - 1)
    }
}

/// One item more at the end of a sequence of which it is greater than every item.
proof fn lemma_push_increasing(s: Seq<int>, last: int)
    requires
        increasing(s),
        forall|x: int| #[trigger] s.contains(x) ==> x < last,
    ensures
        increasing(s.push(last)),
        forall|x: int| #[trigger] s.push(last).contains(x) <==> s.contains(x) || x == last,
{
    let all = s.push(last);
    assert forall|a: int, b: int| 0 <= a < b < all.len() implies #[trigger] all[a]
        < #[trigger] all[b] by {
        assert(s.contains(s[a]));
        if b < s.len() {
            assert(s[a] < s[b]);
        }
    }
    assert forall|x: int| #[trigger] all.contains(x) <==> s.contains(x) || x == last by {
        if all.contains(x) {
            let a = choose|a: int| 0 <= a < all.len() && all[a] == x;
            if a < s.len() {
                assert(s[a] == x);
            }
        }
        if s.contains(x) {
            let a = choose|a: int| 0 <= a < s.len() && s[a] == x;
            assert(all[a] == x);
        }
        assert(all[all.len() - 1] == last);
    }
}

/// What is selected are the positions below `n` that satisfy the predicate, in order.
pub(crate) proof fn lemma_select(pred: spec_fn(int) -> bool, n: int)
    requires
        0 <= n,
    ensures
        increasing(select(pred, n)),
        forall|j: int| #[trigger] select(pred, n).contains(j) <==> 0 <= j < n && pred(j),
    decreases n,
{
    if n > 0 {
        lemma_select(pred, n - 1);
        if pred(n - 1) {
            lemma_push_increasing(select(pred, n - 1), n - 1);
        }
    }
}

/// What a filter lets through of a growing sequence grows too.
pub(crate) proof fn lemma_filter_increasing(s: Seq<int>, pred: spec_fn(int) -> bool)
    requires
        increasing(s),
    ensures
        increasing(s.filter(pred)),
        forall|x: int| #[trigger] s.filter(pred).contains(x) <==> s.contains(x) && pred(x),
    decreases s.len(),
{
    reveal(Seq::filter);
    if s.len() > 0 {
        let rest = s.drop_last();
        let last = s.last();
        assert forall|x: int| #[trigger] rest.contains(x) implies x < last by {
            let k = choose|k: int| 0 <= k < rest.len() && rest[k] == x;
            assert(s[k] < s[s.len() - 1]);
        }
        assert(increasing(rest)) by {
            assert forall|a: int, b: int| 0 <= a < b < rest.len() implies #[trigger] rest[a]
                < #[trigger] rest[b] by {
                assert(s[a] < s[b]);
            }
        }
        assert(s =~= rest.push(last));
        lemma_push_increasing(rest, last);
        lemma_filter_increasing(rest, pred);
        if pred(last) {
            lemma_push_increasing(rest.filter(pred), last);
        }
    } else {
        assert(s.filter(pred) =~= s);
    }
}

/// One more item of a sequence joins what a filter lets through, or does not.
pub(crate) proof fn lemma_filter_step<A>(s: Seq<A>, pred: spec_fn(A) -> bool, k: int)
    requires
        0 <= k < s.len(),
    ensures
        pred(s[k]) ==> s.take(k + 1).filter(pred) == s.take(k).filter(pred).push(s[k]),
        !pred(s[k]) ==> s.take(k + 1).filter(pred) == s.take(k).filter(pred),
{
    reveal(Seq::filter);
    assert(s.take(k + 1).drop_last() =~= s.take(k));
}

/// Growing sequences of the same items are the same.
pub(crate) proof fn lemma_increasing_unique(s: Seq<int>, t: Seq<int>)
    requires
        increasing(s),
        increasing(t),
        forall|x: int| #[trigger] s.contains(x) <==> t.contains(x),
    ensures
        s == t,
    decreases s.len(),
{
    if s.len() == 0 {
        if t.len() > 0 {
            assert(t.contains(t[0]));
            assert(s.contains(t[0]));
        }
        assert(s =~= t);
    } else {
        assert(s.contains(s.last()));
        assert(t.contains(s.last()));
        assert(t.contains(t.last()));
        assert(s.contains(t.last()));
        let a = choose|a: int| 0 <= a < s.len() && s[a] == t.last();
        let b = choose|b: int| 0 <= b < t.len() && t[b] == s.last();
        if a < s.len() - 1 {
            assert(s[a] < s[s.len() - 1]);
        }
        if b < t.len() - 1 {
            assert(t[b] < t[t.len() - 1]);
        }
        assert(s.last() == t.last());
        let last = s.last();
        let u = s.drop_last();
        let v = t.drop_last();
        assert forall|x: int| #[trigger] u.contains(x) <==> s.contains(x) && x != last by {
            lemma_drop_last_member(s, x);
        }
        assert forall|x: int| #[trigger] v.contains(x) <==> t.contains(x) && x != last by {
            lemma_drop_last_member(t, x);
        }
        assert forall|i: int, j: int| 0 <= i < j < u.len() implies #[trigger] u[i]
            < #[trigger] u[j] by {
            assert(s[i] < s[j]);
        }
        assert forall|i: int, j: int| 0 <= i < j < v.len() implies #[trigger] v[i]
            < #[trigger] v[j] by {
            assert(t[i] < t[j]);
        }
        assert forall|x: int| #[trigger] u.contains(x) <==> v.contains(x) by {
            assert(s.contains(x) <==> t.contains(x));
        }
        lemma_increasing_unique(u, v);
        assert(s =~= u.push(last));
        assert(t =~= v.push(last));
    }
}

proof fn lemma_drop_last_member(s: Seq<int>, x: int)
    requires
        increasing(s),
        s.len() > 0,
    ensures
        s.drop_last().contains(x) <==> s.contains(x) && x != s.last(),
{
    let rest = s.drop_last();
    if rest.contains(x) {
        let k = choose|k: int| 0 <= k < rest.len() && rest[k] == x;
        assert(s[k] == x);
        assert(s[k] < s[s.len() - 1]);
    }
    if s.contains(x) && x != s.last() {
        let k = choose|k: int| 0 <= k < s.len() && s[k] == x;
        assert(rest[k] == x);
    }
}

} // verus!
