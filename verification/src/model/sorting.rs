//! Sorting that keeps the order of what a rule does not tell apart: the
//! order is said by putting the items in one by one, and computed by merging
//! sorted halves.

use vstd::prelude::*;

verus! {

/// A rule by which items are put in order.
pub trait SortRule<T> {
    /// `a` must come before `b`.
    spec fn before(a: T, b: T) -> bool;

    /// Whether `a` must come before `b`.
    fn is_before(a: &T, b: &T) -> (r: bool)
        requires
            Self::admits(*a),
            Self::admits(*b),
        ensures
            r == Self::before(*a, *b),
    ;

    /// The rule can be asked about `a`.
    spec fn admits(a: T) -> bool;

    /// The rule is an order that may leave items apart: no two items must
    /// come before each other, and where `a` need not come before `b`, nor
    /// `b` before `c`, `a` need not come before `c`.
    proof fn lemma_rule_is_order()
        ensures
            forall|a: T, b: T| #[trigger] Self::before(a, b) ==> !Self::before(b, a),
            forall|a: T, b: T, c: T|
                !#[trigger] Self::before(a, b) && !#[trigger] Self::before(b, c) ==> !Self::before(
                    a,
                    c,
                ),
    ;
}

/// `sorted` with `x` put behind the last item that `x` need not come before.
pub open spec fn insert_sorted<T, R: SortRule<T>>(sorted: Seq<T>, x: T) -> Seq<T>
    decreases sorted.len(),
{
    if sorted.len() == 0 {
        seq![x]
    } else if !R::before(x, sorted.last()) {
        sorted.push(x)
    } else {
        insert_sorted::<T, R>(sorted.drop_last(), x).push(sorted.last())
    }
}

/// The items in the order of the rule: each item is put, in its turn, behind
/// the last one that it need not come before. Items that the rule does not
/// tell apart keep their order.
pub open spec fn sort_by_rule<T, R: SortRule<T>>(items: Seq<T>) -> Seq<T>
    decreases items.len(),
{
    if items.len() == 0 {
        Seq::empty()
    } else {
        insert_sorted::<T, R>(sort_by_rule::<T, R>(items.drop_last()), items.last())
    }
}

/// No item of the sequence must come before an item that stands before it.
pub open spec fn is_sorted_by<T, R: SortRule<T>>(s: Seq<T>) -> bool {
    forall|i: int, j: int| 0 <= i < j < s.len() ==> !R::before(#[trigger] s[j], #[trigger] s[i])
}

/// `sorted` holds the items of `items`, each once: item `k` of `sorted` is
/// item `from[k]` of `items`, and item `t` of `items` is item `to[t]` of
/// `sorted`.
pub open spec fn is_rearranged<T>(sorted: Seq<T>, items: Seq<T>, from: Seq<int>, to: Seq<int>) -> bool {
    &&& sorted.len() == items.len()
    &&& from.len() == items.len()
    &&& to.len() == items.len()
    &&& forall|k: int|
        0 <= k < sorted.len() ==> 0 <= #[trigger] from[k] < items.len() && to[from[k]] == k
            && sorted[k] == items[from[k]]
    &&& forall|t: int|
        0 <= t < items.len() ==> 0 <= #[trigger] to[t] < sorted.len() && from[to[t]] == t
}

/// Putting an item into a sorted sequence leaves it sorted.
pub proof fn lemma_insert_keeps_sorted<T, R: SortRule<T>>(s: Seq<T>, x: T)
    requires
        is_sorted_by::<T, R>(s),
    ensures
        is_sorted_by::<T, R>(insert_sorted::<T, R>(s, x)),
        insert_sorted::<T, R>(s, x).len() == s.len() + 1,
        forall|y: T|
            !R::before(y, x) && (forall|k: int| 0 <= k < s.len() ==> !R::before(y, #[trigger] s[k]))
                ==> (forall|k: int|
                0 <= k < s.len() + 1 ==> !R::before(y, #[trigger] insert_sorted::<T, R>(s, x)[k])),
    decreases s.len(),
{
    R::lemma_rule_is_order();
    let t = insert_sorted::<T, R>(s, x);
    if s.len() == 0 {
        assert(t =~= seq![x]);
    } else if !R::before(x, s.last()) {
        assert(t == s.push(x));
        assert forall|i: int, j: int| 0 <= i < j < t.len() implies !R::before(
            #[trigger] t[j],
            #[trigger] t[i],
        ) by {
            if j == s.len() {
                // x need not come before the last, and the last not before item i
                if i < s.len() - 1 {
                    assert(!R::before(s[s.len() - 1], s[i]));
                }
                assert(t[i] == s[i]);
            } else {
                assert(t[i] == s[i] && t[j] == s[j]);
            }
        }
    } else {
        let head = s.drop_last();
        let last = s.last();
        assert(is_sorted_by::<T, R>(head)) by {
            assert forall|i: int, j: int| 0 <= i < j < head.len() implies !R::before(
                #[trigger] head[j],
                #[trigger] head[i],
            ) by {
                assert(head[i] == s[i] && head[j] == s[j]);
            }
        }
        lemma_insert_keeps_sorted::<T, R>(head, x);
        let u = insert_sorted::<T, R>(head, x);
        assert(t == u.push(last));
        // the last need not come before x, nor before any item of the head
        assert(!R::before(last, x));
        assert forall|k: int| 0 <= k < head.len() implies !R::before(last, #[trigger] head[k]) by {
            assert(head[k] == s[k]);
            assert(!R::before(s[s.len() - 1], s[k]));
        }
        assert forall|i: int, j: int| 0 <= i < j < t.len() implies !R::before(
            #[trigger] t[j],
            #[trigger] t[i],
        ) by {
            if j == u.len() {
                assert(t[i] == u[i]);
                assert(!R::before(last, u[i]));
            } else {
                assert(t[i] == u[i] && t[j] == u[j]);
            }
        }
    }
    assert forall|y: T|
        !R::before(y, x) && (forall|k: int|
            0 <= k < s.len() ==> !R::before(y, #[trigger] s[k])) implies (forall|k: int|
        0 <= k < s.len() + 1 ==> !R::before(y, #[trigger] t[k])) by {
        lemma_insert_holds_items::<T, R>(s, x);
        assert forall|k: int| 0 <= k < s.len() + 1 implies !R::before(y, #[trigger] t[k]) by {
            if t[k] != x {
                let q = choose|q: int| 0 <= q < s.len() && s[q] == t[k];
                assert(!R::before(y, s[q]));
            }
        }
    }
}

/// A sequence with an item put in holds that item and the items of the
/// sequence, and nothing else.
pub proof fn lemma_insert_holds_items<T, R: SortRule<T>>(s: Seq<T>, x: T)
    ensures
        insert_sorted::<T, R>(s, x).len() == s.len() + 1,
        forall|k: int|
            0 <= k < s.len() + 1 ==> (#[trigger] insert_sorted::<T, R>(s, x)[k]) == x || exists|
                q: int,
            | 0 <= q < s.len() && s[q] == insert_sorted::<T, R>(s, x)[k],
    decreases s.len(),
{
    let t = insert_sorted::<T, R>(s, x);
    if s.len() == 0 {
        assert(t =~= seq![x]);
    } else if !R::before(x, s.last()) {
        assert forall|k: int| 0 <= k < s.len() + 1 implies (#[trigger] t[k]) == x || exists|q: int|
            0 <= q < s.len() && s[q] == t[k] by {
            if k < s.len() {
                assert(s[k] == t[k]);
            }
        }
    } else {
        let head = s.drop_last();
        lemma_insert_holds_items::<T, R>(head, x);
        let u = insert_sorted::<T, R>(head, x);
        assert forall|k: int| 0 <= k < s.len() + 1 implies (#[trigger] t[k]) == x || exists|q: int|
            0 <= q < s.len() && s[q] == t[k] by {
            if k < u.len() {
                assert(t[k] == u[k]);
                if u[k] != x {
                    let q = choose|q: int| 0 <= q < head.len() && head[q] == u[k];
                    assert(s[q] == t[k]);
                }
            } else {
                assert(s[s.len() - 1] == t[k]);
            }
        }
    }
}

/// The sorted items are sorted.
pub proof fn lemma_sort_is_sorted<T, R: SortRule<T>>(items: Seq<T>)
    ensures
        is_sorted_by::<T, R>(sort_by_rule::<T, R>(items)),
        sort_by_rule::<T, R>(items).len() == items.len(),
    decreases items.len(),
{
    if items.len() > 0 {
        lemma_sort_is_sorted::<T, R>(items.drop_last());
        lemma_insert_keeps_sorted::<T, R>(sort_by_rule::<T, R>(items.drop_last()), items.last());
    }
}

/// `sorted` holds the items of `items`, each once.
pub open spec fn is_permutation<T>(sorted: Seq<T>, items: Seq<T>) -> bool {
    exists|from: Seq<int>, to: Seq<int>| is_rearranged(sorted, items, from, to)
}

/// An item that is put into a sequence stands at some place of it, with the
/// items of the sequence around it in their order.
pub proof fn lemma_insert_is_insertion<T, R: SortRule<T>>(s: Seq<T>, x: T) -> (p: int)
    ensures
        0 <= p <= s.len(),
        insert_sorted::<T, R>(s, x) == s.insert(p, x),
    decreases s.len(),
{
    if s.len() == 0 {
        assert(seq![x] =~= s.insert(0, x));
        0
    } else if !R::before(x, s.last()) {
        assert(s.push(x) =~= s.insert(s.len() as int, x));
        s.len() as int
    } else {
        let p = lemma_insert_is_insertion::<T, R>(s.drop_last(), x);
        assert(s.drop_last().insert(p, x).push(s.last()) =~= s.insert(p, x));
        p
    }
}

/// Where `sorted` holds the items of `items`, each once, `sorted` with `x`
/// put in at a place holds the items of `items` and `x`, each once.
pub proof fn lemma_insert_keeps_permutation<T>(sorted: Seq<T>, items: Seq<T>, p: int, x: T)
    requires
        is_permutation(sorted, items),
        0 <= p <= sorted.len(),
    ensures
        is_permutation(sorted.insert(p, x), items.push(x)),
{
    let (old_from, old_to) = choose|from: Seq<int>, to: Seq<int>|
        is_rearranged(sorted, items, from, to);
    let k = items.len() as int;
    let from = old_from.insert(p, k);
    let to = Seq::new(
        k as nat,
        |t: int|
            if old_to[t] >= p {
                old_to[t] + 1
            } else {
                old_to[t]
            },
    ).push(p);
    let now = items.push(x);
    let next = sorted.insert(p, x);
    assert forall|q: int| 0 <= q < next.len() implies 0 <= #[trigger] from[q] < now.len()
        && to[from[q]] == q && next[q] == now[from[q]] by {
        if q < p {
            assert(from[q] == old_from[q]);
            assert(next[q] == sorted[q]);
            assert(sorted[q] == items[old_from[q]]);
        } else if q > p {
            assert(from[q] == old_from[q - 1]);
            assert(next[q] == sorted[q - 1]);
            assert(sorted[q - 1] == items[old_from[q - 1]]);
        }
    }
    assert forall|t: int| 0 <= t < now.len() implies 0 <= #[trigger] to[t] < next.len()
        && from[to[t]] == t by {
        if t < k {
            assert(0 <= old_to[t] < sorted.len() && old_from[old_to[t]] == t);
        }
    }
    assert(is_rearranged(next, now, from, to));
}

/// The sorted items are the items, each once.
pub proof fn lemma_sort_is_permutation<T, R: SortRule<T>>(items: Seq<T>)
    ensures
        is_permutation(sort_by_rule::<T, R>(items), items),
    decreases items.len(),
{
    if items.len() == 0 {
        assert(is_rearranged(
            sort_by_rule::<T, R>(items),
            items,
            Seq::<int>::empty(),
            Seq::<int>::empty(),
        ));
    } else {
        let head = items.drop_last();
        lemma_sort_is_permutation::<T, R>(head);
        let p = lemma_insert_is_insertion::<T, R>(sort_by_rule::<T, R>(head), items.last());
        lemma_insert_keeps_permutation(sort_by_rule::<T, R>(head), head, p, items.last());
        assert(head.push(items.last()) =~= items);
    }
}

/// Two sequences merged from their ends: the last item of the whole is the
/// last of `a` where the last of `b` must come before it, and the last of
/// `b` where it need not.
pub open spec fn merged<T, R: SortRule<T>>(a: Seq<T>, b: Seq<T>) -> Seq<T>
    decreases a.len() + b.len(),
{
    if a.len() == 0 {
        b
    } else if b.len() == 0 {
        a
    } else if R::before(b.last(), a.last()) {
        merged::<T, R>(a.drop_last(), b).push(a.last())
    } else {
        merged::<T, R>(a, b.drop_last()).push(b.last())
    }
}

/// The sequence backwards.
pub open spec fn backwards<T>(s: Seq<T>) -> Seq<T> {
    Seq::new(s.len(), |k: int| s[s.len() - 1 - k])
}

/// Putting an item into two merged sequences gives what merging gives when
/// the item is put into the second of them.
pub proof fn lemma_insert_into_merged<T, R: SortRule<T>>(a: Seq<T>, b: Seq<T>, x: T)
    ensures
        insert_sorted::<T, R>(merged::<T, R>(a, b), x) == merged::<T, R>(
            a,
            insert_sorted::<T, R>(b, x),
        ),
    decreases a.len() + b.len(),
{
    R::lemma_rule_is_order();
    let whole = merged::<T, R>(a, b);
    let put = insert_sorted::<T, R>(b, x);
    if a.len() == 0 {
        assert(whole == b);
    } else if b.len() == 0 {
        assert(whole == a);
        assert(put =~= seq![x]);
        assert(put.last() == x);
        assert(put.drop_last() =~= b);
        if R::before(x, a.last()) {
            lemma_insert_into_merged::<T, R>(a.drop_last(), b, x);
            assert(merged::<T, R>(a.drop_last(), b) =~= a.drop_last());
            assert(merged::<T, R>(a, put) == merged::<T, R>(a.drop_last(), put).push(a.last()));
        } else {
            assert(merged::<T, R>(a, put) == merged::<T, R>(a, put.drop_last()).push(x));
        }
    } else if !R::before(x, b.last()) {
        assert(put == b.push(x));
        assert(put.last() == x);
        assert(put.drop_last() =~= b);
        if R::before(x, a.last()) {
            // the last of `b` must then come before the last of `a` too
            assert(R::before(b.last(), a.last()));
            lemma_insert_into_merged::<T, R>(a.drop_last(), b, x);
            let head = merged::<T, R>(a.drop_last(), b);
            assert(whole == head.push(a.last()));
            assert(whole.last() == a.last());
            assert(whole.drop_last() =~= head);
            assert(merged::<T, R>(a, put) == merged::<T, R>(a.drop_last(), put).push(a.last()));
        } else {
            assert(whole.len() > 0 && (whole.last() == a.last() || whole.last() == b.last()));
            assert(!R::before(x, whole.last()));
            assert(merged::<T, R>(a, put) == merged::<T, R>(a, put.drop_last()).push(x));
        }
    } else {
        let rest = insert_sorted::<T, R>(b.drop_last(), x);
        assert(put == rest.push(b.last()));
        assert(put.last() == b.last());
        assert(put.drop_last() =~= rest);
        if R::before(b.last(), a.last()) {
            assert(R::before(x, a.last()));
            lemma_insert_into_merged::<T, R>(a.drop_last(), b, x);
            let head = merged::<T, R>(a.drop_last(), b);
            assert(whole == head.push(a.last()));
            assert(whole.last() == a.last());
            assert(whole.drop_last() =~= head);
            assert(merged::<T, R>(a, put) == merged::<T, R>(a.drop_last(), put).push(a.last()));
        } else {
            lemma_insert_into_merged::<T, R>(a, b.drop_last(), x);
            let head = merged::<T, R>(a, b.drop_last());
            assert(whole == head.push(b.last()));
            assert(whole.last() == b.last());
            assert(whole.drop_last() =~= head);
            assert(merged::<T, R>(a, put) == merged::<T, R>(a, put.drop_last()).push(b.last()));
        }
    }
}

/// Sorting two sequences, one behind the other, gives what merging gives
/// when each of them is sorted.
pub proof fn lemma_sort_of_two<T, R: SortRule<T>>(a: Seq<T>, b: Seq<T>)
    ensures
        sort_by_rule::<T, R>(a + b) == merged::<T, R>(
            sort_by_rule::<T, R>(a),
            sort_by_rule::<T, R>(b),
        ),
    decreases b.len(),
{
    if b.len() == 0 {
        assert(a + b =~= a);
        assert(sort_by_rule::<T, R>(b) =~= Seq::<T>::empty());
        assert(merged::<T, R>(sort_by_rule::<T, R>(a), sort_by_rule::<T, R>(b)) =~= sort_by_rule::<
            T,
            R,
        >(a));
    } else {
        lemma_sort_of_two::<T, R>(a, b.drop_last());
        assert((a + b).drop_last() =~= a + b.drop_last());
        assert((a + b).last() == b.last());
        lemma_insert_into_merged::<T, R>(
            sort_by_rule::<T, R>(a),
            sort_by_rule::<T, R>(b.drop_last()),
            b.last(),
        );
    }
}

/// Merges two sequences from their ends.
pub fn merge_from_ends<T: Copy, R: SortRule<T>>(a: &Vec<T>, b: &Vec<T>) -> (whole: Vec<T>)
    requires
        forall|k: int| 0 <= k < a@.len() ==> R::admits(#[trigger] a@[k]),
        forall|k: int| 0 <= k < b@.len() ==> R::admits(#[trigger] b@[k]),
    ensures
        whole@ == merged::<T, R>(a@, b@),
        forall|k: int| 0 <= k < whole@.len() ==> R::admits(#[trigger] whole@[k]),
{
    let mut behind: Vec<T> = Vec::new();
    let mut i: usize = a.len();
    let mut j: usize = b.len();
    proof {
        assert(a@.take(i as int) =~= a@);
        assert(b@.take(j as int) =~= b@);
        assert(merged::<T, R>(a@, b@) + backwards(behind@) =~= merged::<T, R>(a@, b@));
    }
    while i > 0 || j > 0
        invariant
            i <= a.len(),
            j <= b.len(),
            forall|k: int| 0 <= k < a@.len() ==> R::admits(#[trigger] a@[k]),
            forall|k: int| 0 <= k < b@.len() ==> R::admits(#[trigger] b@[k]),
            forall|k: int| 0 <= k < behind@.len() ==> R::admits(#[trigger] behind@[k]),
            merged::<T, R>(a@, b@) == merged::<T, R>(a@.take(i as int), b@.take(j as int))
                + backwards(behind@),
        decreases i + j,
    {
        let from_first = if i == 0 {
            false
        } else if j == 0 {
            true
        } else {
            R::is_before(&b[j - 1], &a[i - 1])
        };
        let ghost before = behind@;
        let ghost front = a@.take(i as int);
        let ghost back = b@.take(j as int);
        if from_first {
            behind.push(a[i - 1]);
            proof {
                assert(front.drop_last() =~= a@.take(i - 1));
                assert(merged::<T, R>(front, back) == merged::<T, R>(front.drop_last(), back).push(
                    front.last(),
                ));
                assert(merged::<T, R>(front, back) + backwards(before) =~= merged::<T, R>(
                    front.drop_last(),
                    back,
                ) + backwards(behind@));
            }
            i -= 1;
        } else {
            behind.push(b[j - 1]);
            proof {
                assert(back.drop_last() =~= b@.take(j - 1));
                assert(merged::<T, R>(front, back) =~= merged::<T, R>(front, back.drop_last()).push(
                    back.last(),
                ));
                assert(merged::<T, R>(front, back) + backwards(before) =~= merged::<T, R>(
                    front,
                    back.drop_last(),
                ) + backwards(behind@));
            }
            j -= 1;
        }
    }
    let mut whole: Vec<T> = Vec::new();
    let mut k: usize = behind.len();
    while k > 0
        invariant
            k <= behind.len(),
            whole@.len() == behind.len() - k,
            forall|q: int| 0 <= q < behind@.len() ==> R::admits(#[trigger] behind@[q]),
            forall|q: int|
                0 <= q < whole@.len() ==> #[trigger] whole@[q] == behind@[behind@.len() - 1 - q],
        decreases k,
    {
        whole.push(behind[k - 1]);
        k -= 1;
    }
    proof {
        assert(whole@ =~= backwards(behind@));
        assert(merged::<T, R>(a@.take(0), b@.take(0)) =~= Seq::<T>::empty());
        assert(merged::<T, R>(a@, b@) =~= backwards(behind@));
    }
    whole
}

/// The items from `from` up to, but without, `to` in the order of the rule.
pub fn sort_between<T: Copy, R: SortRule<T>>(items: &Vec<T>, from: usize, to: usize) -> (sorted:
    Vec<T>)
    requires
        from <= to <= items@.len(),
        forall|k: int| 0 <= k < items@.len() ==> R::admits(#[trigger] items@[k]),
    ensures
        sorted@ == sort_by_rule::<T, R>(items@.subrange(from as int, to as int)),
        sorted@.len() == to - from,
        forall|k: int| 0 <= k < sorted@.len() ==> R::admits(#[trigger] sorted@[k]),
    decreases to - from,
{
    let ghost piece = items@.subrange(from as int, to as int);
    proof {
        lemma_sort_is_sorted::<T, R>(piece);
    }
    if to - from == 0 {
        return Vec::new();
    }
    if to - from == 1 {
        let mut sorted: Vec<T> = Vec::new();
        sorted.push(items[from]);
        proof {
            assert(piece.drop_last().len() == 0);
            assert(sort_by_rule::<T, R>(piece.drop_last()).len() == 0) by {
                lemma_sort_is_sorted::<T, R>(piece.drop_last());
            }
            assert(sort_by_rule::<T, R>(piece) == insert_sorted::<T, R>(
                sort_by_rule::<T, R>(piece.drop_last()),
                piece.last(),
            ));
            assert(sort_by_rule::<T, R>(piece) =~= seq![piece.last()]);
            assert(sorted@ =~= seq![piece.last()]);
        }
        return sorted;
    }
    let middle: usize = from + (to - from) / 2;
    let first = sort_between::<T, R>(items, from, middle);
    let second = sort_between::<T, R>(items, middle, to);
    proof {
        let a = items@.subrange(from as int, middle as int);
        let b = items@.subrange(middle as int, to as int);
        assert(a + b =~= piece);
        lemma_sort_of_two::<T, R>(a, b);
    }
    merge_from_ends::<T, R>(&first, &second)
}

/// The items in the order of the rule.
pub fn stable_sort<T: Copy, R: SortRule<T>>(items: &Vec<T>) -> (sorted: Vec<T>)
    requires
        forall|k: int| 0 <= k < items@.len() ==> R::admits(#[trigger] items@[k]),
    ensures
        sorted@ == sort_by_rule::<T, R>(items@),
        is_permutation(sorted@, items@),
        is_sorted_by::<T, R>(sorted@),
{
    proof {
        lemma_sort_is_permutation::<T, R>(items@);
        lemma_sort_is_sorted::<T, R>(items@);
        assert(items@.subrange(0, items@.len() as int) =~= items@);
    }
    sort_between::<T, R>(items, 0, items.len())
}

} // verus!
