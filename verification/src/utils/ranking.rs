//! A stable sort over any strict weak order, and the order of texts.

use vstd::prelude::*;

verus! {

/// Values that a strict weak order ranks: `precedes` says that a value must
/// stand before another; values of which neither precedes the other are of
/// equal rank.
pub trait Ranked: Sized {
    /// `self` must stand before `other`.
    spec fn precedes(&self, other: &Self) -> bool;

    /// Decides `precedes`.
    fn stands_before(&self, other: &Self) -> (r: bool)
        ensures
            r == self.precedes(other),
    ;

    /// `precedes` is irreflexive and transitive, and so is "does not precede".
    proof fn lemma_strict_weak_order(a: &Self, b: &Self, c: &Self)
        ensures
            !a.precedes(a),
            a.precedes(b) && b.precedes(c) ==> a.precedes(c),
            !a.precedes(b) && !b.precedes(c) ==> !a.precedes(c),
    ;
}

/// `order[i]` is the position in `input` of the value at position `i` of
/// `output`, and `output` is `input` sorted stably: no value stands before
/// one that precedes it, and values of equal rank keep their order.
pub open spec fn sorts_stably<T: Ranked>(input: Seq<T>, output: Seq<T>, order: Seq<int>) -> bool {
    &&& output.len() == input.len()
    &&& order.len() == input.len()
    &&& forall|i: int| 0 <= i < order.len() ==> 0 <= #[trigger] order[i] < input.len()
    &&& forall|i: int, j: int| 0 <= i < j < order.len() ==> order[i] != order[j]
    &&& forall|i: int| 0 <= i < output.len() ==> #[trigger] output[i] == input[order[i]]
    &&& forall|i: int, j: int|
        #![trigger order[i], order[j]]
        0 <= i < j < output.len() ==> output[i].precedes(&output[j]) || (!output[j].precedes(
            &output[i],
        ) && order[i] < order[j])
}

/// `output` is `input` sorted stably.
pub open spec fn is_stable_sort<T: Ranked>(input: Seq<T>, output: Seq<T>) -> bool {
    exists|order: Seq<int>| sorts_stably(input, output, order)
}

/// In a stable sort no value stands before one that precedes it.
pub proof fn lemma_stable_sort_is_sorted<T: Ranked>(input: Seq<T>, output: Seq<T>, i: int, j: int)
    requires
        is_stable_sort(input, output),
        0 <= i < j < output.len(),
    ensures
        !output[j].precedes(&output[i]),
{
    let order = choose|order: Seq<int>| sorts_stably(input, output, order);
    assert(order[i] != order[j]);
    if output[i].precedes(&output[j]) && output[j].precedes(&output[i]) {
        T::lemma_strict_weak_order(&output[i], &output[j], &output[i]);
    }
}

/// A stable sort holds the values of its input and no others.
pub proof fn lemma_stable_sort_same_values<T: Ranked>(input: Seq<T>, output: Seq<T>)
    requires
        is_stable_sort(input, output),
    ensures
        forall|i: int| 0 <= i < output.len() ==> input.contains(#[trigger] output[i]),
        forall|k: int| 0 <= k < input.len() ==> output.contains(#[trigger] input[k]),
{
    let order = choose|order: Seq<int>| sorts_stably(input, output, order);
    assert forall|i: int| 0 <= i < output.len() implies input.contains(#[trigger] output[i]) by {
        assert(input[order[i]] == output[i]);
    }
    lemma_injection_is_onto(order, input.len() as int);
    assert forall|k: int| 0 <= k < input.len() implies output.contains(#[trigger] input[k]) by {
        assert(occurs(order, k));
        let i = choose|i: int| 0 <= i < order.len() && #[trigger] order[i] == k;
        assert(output[i] == input[k]);
    }
}

/// The number stands somewhere in the sequence.
pub open spec fn occurs(order: Seq<int>, k: int) -> bool {
    exists|i: int| 0 <= i < order.len() && #[trigger] order[i] == k
}

/// A sequence of `n` distinct numbers below `n` holds every number below `n`.
pub proof fn lemma_injection_is_onto(order: Seq<int>, n: int)
    requires
        order.len() == n,
        forall|i: int| 0 <= i < order.len() ==> 0 <= #[trigger] order[i] < n,
        forall|i: int, j: int| 0 <= i < j < order.len() ==> order[i] != order[j],
    ensures
        forall|k: int| 0 <= k < n ==> #[trigger] occurs(order, k),
    decreases n,
{
    if n > 0 {
        assert forall|k: int| 0 <= k < n implies #[trigger] occurs(order, k) by {
            // Remove the position that holds n - 1, if any, and renumber.
            if occurs(order, n - 1) {
                let p = choose|p: int| 0 <= p < order.len() && #[trigger] order[p] == n - 1;
                let rest = order.remove(p);
                assert forall|i: int| 0 <= i < rest.len() implies 0 <= #[trigger] rest[i] < n
                    - 1 by {
                    if i < p {
                        assert(rest[i] == order[i]);
                    } else {
                        assert(rest[i] == order[i + 1]);
                    }
                }
                assert forall|i: int, j: int| 0 <= i < j < rest.len() implies rest[i]
                    != rest[j] by {
                    let a = if i < p {
                        i
                    } else {
                        i + 1
                    };
                    let b = if j < p {
                        j
                    } else {
                        j + 1
                    };
                    assert(rest[i] == order[a] && rest[j] == order[b]);
                }
                lemma_injection_is_onto(rest, n - 1);
                if k < n - 1 {
                    assert(occurs(rest, k));
                    let i = choose|i: int| 0 <= i < rest.len() && #[trigger] rest[i] == k;
                    let a = if i < p {
                        i
                    } else {
                        i + 1
                    };
                    assert(order[a] == k);
                } else {
                    assert(order[p] == k);
                }
            } else {
                // n distinct numbers below n - 1: impossible.
                let rest = order.drop_last();
                assert forall|i: int| 0 <= i < rest.len() implies 0 <= #[trigger] rest[i] < n
                    - 1 by {
                    assert(rest[i] == order[i]);
                }
                assert forall|i: int, j: int| 0 <= i < j < rest.len() implies rest[i]
                    != rest[j] by {
                    assert(rest[i] == order[i] && rest[j] == order[j]);
                }
                lemma_injection_is_onto(rest, n - 1);
                let last = order[n - 1];
                assert(0 <= last < n);
                assert(last != n - 1);
                assert(occurs(rest, last));
                let i = choose|i: int| 0 <= i < rest.len() && #[trigger] rest[i] == last;
                assert(order[i] == last);
                assert(false);
            }
        }
    }
}

/// Sorts the values stably: a value that precedes another comes to stand
/// before it, and values of equal rank keep the order they came in.
pub fn stable_sort<T: Ranked>(items: Vec<T>) -> (sorted: Vec<T>)
    ensures
        is_stable_sort(items@, sorted@),
{
    let ghost input = items@;
    let mut rest = items;
    let mut out: Vec<T> = Vec::new();
    let ghost mut order: Seq<int> = Seq::empty();
    let n = rest.len();
    let mut t: usize = 0;
    while t < n
        invariant
            t <= n,
            n == input.len(),
            rest@.len() == n - t,
            forall|i: int| 0 <= i < rest@.len() ==> #[trigger] rest@[i] == input[t + i],
            out@.len() == t,
            order.len() == t,
            forall|i: int| 0 <= i < order.len() ==> 0 <= #[trigger] order[i] < t,
            forall|i: int, j: int| 0 <= i < j < order.len() ==> order[i] != order[j],
            forall|i: int| 0 <= i < out@.len() ==> #[trigger] out@[i] == input[order[i]],
            forall|i: int, j: int|
                #![trigger order[i], order[j]]
                0 <= i < j < out@.len() ==> out@[i].precedes(&out@[j]) || (!out@[j].precedes(
                    &out@[i],
                ) && order[i] < order[j]),
        decreases n - t,
    {
        let x = rest.remove(0);
        let mut p: usize = out.len();
        while p > 0 && x.stands_before(&out[p - 1])
            invariant
                p <= out@.len(),
                forall|q: int| p <= q < out@.len() ==> x.precedes(#[trigger] &out@[q]),
            decreases p,
        {
            p -= 1;
        }
        let ghost before = out@;
        let ghost order_before = order;
        proof {
            assert forall|q: int| 0 <= q < p implies !x.precedes(#[trigger] &before[q]) by {
                if q < p - 1 {
                    assert(order[q] != order[p - 1]);
                    assert(before[q].precedes(&before[p - 1]) || !before[p - 1].precedes(
                        &before[q],
                    ));
                    if before[q].precedes(&before[p - 1]) && before[p - 1].precedes(&before[q]) {
                        T::lemma_strict_weak_order(&before[q], &before[p - 1], &before[q]);
                    }
                    T::lemma_strict_weak_order(&x, &before[p - 1], &before[q]);
                }
            }
            assert forall|q: int| p <= q < before.len() implies !before[q].precedes(&x) by {
                if before[q].precedes(&x) {
                    T::lemma_strict_weak_order(&x, &before[q], &x);
                }
            }
            order = order.insert(p as int, t as int);
        }
        out.insert(p, x);
        proof {
            assert forall|i: int| 0 <= i < order.len() implies 0 <= #[trigger] order[i] < t + 1 by {
                if i < p {
                    assert(order[i] == order_before[i]);
                } else if i > p {
                    assert(order[i] == order_before[i - 1]);
                }
            }
            assert forall|i: int, j: int| 0 <= i < j < order.len() implies order[i]
                != order[j] by {
                let a = if i < p {
                    i
                } else {
                    i - 1
                };
                let b = if j < p {
                    j
                } else {
                    j - 1
                };
                if i != p && j != p {
                    assert(order[i] == order_before[a] && order[j] == order_before[b]);
                } else if i == p {
                    assert(order[j] == order_before[b]);
                } else {
                    assert(order[i] == order_before[a]);
                }
            }
            assert forall|i: int| 0 <= i < out@.len() implies #[trigger] out@[i]
                == input[order[i]] by {
                if i < p {
                    assert(out@[i] == before[i] && order[i] == order_before[i]);
                } else if i > p {
                    assert(out@[i] == before[i - 1] && order[i] == order_before[i - 1]);
                } else {
                    assert(out@[i] == x && order[i] == t);
                }
            }
            assert forall|i: int, j: int|
                #![trigger order[i], order[j]]
                0 <= i < j < out@.len() implies out@[i].precedes(&out@[j]) || (!out@[j].precedes(
                &out@[i],
            ) && order[i] < order[j]) by {
                let a = if i < p {
                    i
                } else {
                    i - 1
                };
                let b = if j < p {
                    j
                } else {
                    j - 1
                };
                if i != p && j != p {
                    assert(out@[i] == before[a] && out@[j] == before[b]);
                    assert(order[i] == order_before[a] && order[j] == order_before[b]);
                    assert(before[a].precedes(&before[b]) || (!before[b].precedes(&before[a])
                        && order_before[a] < order_before[b]));
                } else if i == p {
                    assert(out@[j] == before[b]);
                    assert(x.precedes(&before[b]));
                } else {
                    assert(out@[i] == before[a] && order[i] == order_before[a]);
                    assert(!x.precedes(&before[a]));
                    assert(order_before[a] < t);
                }
            }
        }
        t += 1;
    }
    proof {
        assert(sorts_stably(input, out@, order));
    }
    out
}

/// The order of texts: character by character, a proper prefix first.
pub open spec fn text_less(a: Seq<char>, b: Seq<char>) -> bool
    decreases a.len(),
{
    if b.len() == 0 {
        false
    } else if a.len() == 0 {
        true
    } else if a[0] != b[0] {
        (a[0] as int) < (b[0] as int)
    } else {
        text_less(a.drop_first(), b.drop_first())
    }
}

/// No text is less than itself.
pub proof fn lemma_text_order_irreflexive(a: Seq<char>)
    ensures
        !text_less(a, a),
    decreases a.len(),
{
    if a.len() > 0 {
        lemma_text_order_irreflexive(a.drop_first());
    }
}

/// Of two texts exactly one holds: one is less than the other, the other is
/// less than the one, or they are the same.
pub proof fn lemma_text_order_total(a: Seq<char>, b: Seq<char>)
    ensures
        text_less(a, b) || text_less(b, a) || a == b,
        !(text_less(a, b) && text_less(b, a)),
        !text_less(a, a),
    decreases a.len(),
{
    lemma_text_order_irreflexive(a);
    if a.len() == 0 || b.len() == 0 {
        if a.len() == 0 && b.len() == 0 {
            assert(a =~= b);
        }
    } else if a[0] == b[0] {
        lemma_text_order_total(a.drop_first(), b.drop_first());
        if a.drop_first() == b.drop_first() {
            assert(a =~= seq![a[0]] + a.drop_first());
            assert(b =~= seq![b[0]] + b.drop_first());
        }
    }
}

/// The order of texts is transitive.
pub proof fn lemma_text_order_transitive(a: Seq<char>, b: Seq<char>, c: Seq<char>)
    requires
        text_less(a, b),
        text_less(b, c),
    ensures
        text_less(a, c),
    decreases a.len(),
{
    if a.len() > 0 && b.len() > 0 && c.len() > 0 {
        if a[0] == b[0] && b[0] == c[0] {
            lemma_text_order_transitive(a.drop_first(), b.drop_first(), c.drop_first());
        }
    }
}

/// Whether `a` comes before `b` in the order of texts.
pub fn text_before(a: &str, b: &str) -> (r: bool)
    ensures
        r == text_less(a@, b@),
{
    let n = a.unicode_len();
    let m = b.unicode_len();
    let mut i: usize = 0;
    assert(a@.skip(0) =~= a@ && b@.skip(0) =~= b@);
    while i < n && i < m
        invariant
            i <= n,
            i <= m,
            n == a@.len(),
            m == b@.len(),
            text_less(a@, b@) == text_less(a@.skip(i as int), b@.skip(i as int)),
        decreases n - i,
    {
        let x = a.get_char(i);
        let y = b.get_char(i);
        proof {
            let sa = a@.skip(i as int);
            let sb = b@.skip(i as int);
            assert(sa[0] == x && sb[0] == y);
            assert(sa.drop_first() =~= a@.skip(i + 1));
            assert(sb.drop_first() =~= b@.skip(i + 1));
        }
        if x != y {
            return (x as u32) < (y as u32);
        }
        i += 1;
    }
    proof {
        assert(a@.skip(i as int).len() == n - i);
        assert(b@.skip(i as int).len() == m - i);
    }
    i < m
}

impl Ranked for String {
    open spec fn precedes(&self, other: &Self) -> bool {
        text_less(self@, other@)
    }

    fn stands_before(&self, other: &Self) -> (r: bool) {
        text_before(self.as_str(), other.as_str())
    }

    proof fn lemma_strict_weak_order(a: &Self, b: &Self, c: &Self) {
        lemma_text_order_total(a@, a@);
        lemma_text_order_total(a@, b@);
        lemma_text_order_total(b@, c@);
        lemma_text_order_total(a@, c@);
        if text_less(a@, b@) && text_less(b@, c@) {
            lemma_text_order_transitive(a@, b@, c@);
        }
        if !text_less(a@, b@) && !text_less(b@, c@) && text_less(a@, c@) {
            // c <= b <= a < c is impossible.
            if b@ == a@ {
            } else if c@ == b@ {
            } else {
                lemma_text_order_transitive(c@, b@, a@);
                lemma_text_order_transitive(c@, a@, c@);
                lemma_text_order_total(c@, c@);
            }
        }
    }
}

} // verus!
