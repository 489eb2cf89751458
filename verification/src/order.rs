//! Newest-first order over rows that carry a timestamp.
use vstd::prelude::*;

verus! {

/// Row `a` is newer than row `b`: its timestamp is later, or the timestamps are
/// equal and the row was stored later.
pub open spec fn newer(stamps: Seq<i64>, a: int, b: int) -> bool {
    stamps[a] > stamps[b] || (stamps[a] == stamps[b] && a > b)
}

/// Every entry of `order` is newer than all entries after it.
pub open spec fn descends(stamps: Seq<i64>, order: Seq<int>) -> bool {
    forall|j: int, k: int| 0 <= j < k < order.len() ==> newer(stamps, order[j], order[k])
}

/// `order` lists the rows that `keep` marks, each once, newest first.
pub open spec fn is_newest_first(stamps: Seq<i64>, keep: Seq<bool>, order: Seq<int>) -> bool {
    &&& forall|k: int|
        0 <= k < order.len() ==> 0 <= #[trigger] order[k] < keep.len() && keep[order[k]]
    &&& forall|i: int| 0 <= i < keep.len() && #[trigger] keep[i] ==> order.contains(i)
    &&& descends(stamps, order)
}

/// The rows that `keep` marks, newest first.
pub open spec fn newest_first(stamps: Seq<i64>, keep: Seq<bool>) -> Seq<int> {
    choose|order: Seq<int>| is_newest_first(stamps, keep, order)
}

/// The first `cap` entries.
pub open spec fn capped(order: Seq<int>, cap: int) -> Seq<int> {
    if order.len() <= cap {
        order
    } else {
        order.take(cap)
    }
}

/// Descending lists with the same entries are the same.
proof fn lemma_descending_unique(stamps: Seq<i64>, a: Seq<int>, b: Seq<int>)
    requires
        descends(stamps, a),
        descends(stamps, b),
        forall|x: int| a.contains(x) <==> b.contains(x),
    ensures
        a == b,
    decreases a.len(),
{
    if a.len() == 0 {
        if b.len() > 0 {
            assert(b.contains(b[0]));
        }
        assert(a =~= b);
    } else {
        assert(a.contains(a[0]));
        assert(b.len() > 0);
        assert(b.contains(b[0]));
        let i = choose|i: int| 0 <= i < b.len() && b[i] == a[0];
        let j = choose|j: int| 0 <= j < a.len() && a[j] == b[0];
        if i > 0 && j > 0 {
            assert(newer(stamps, b[0], b[i]));
            assert(newer(stamps, a[0], a[j]));
        }
        assert(a[0] == b[0]);
        let (ta, tb) = (a.drop_first(), b.drop_first());
        assert forall|x: int| ta.contains(x) <==> tb.contains(x) by {
            if ta.contains(x) {
                let k = choose|k: int| 0 <= k < ta.len() && ta[k] == x;
                assert(a[k + 1] == x);
                assert(newer(stamps, a[0], a[k + 1]));
                assert(b.contains(x));
                let l = choose|l: int| 0 <= l < b.len() && b[l] == x;
                assert(l != 0);
                assert(tb[l - 1] == x);
            }
            if tb.contains(x) {
                let k = choose|k: int| 0 <= k < tb.len() && tb[k] == x;
                assert(b[k + 1] == x);
                assert(newer(stamps, b[0], b[k + 1]));
                assert(a.contains(x));
                let l = choose|l: int| 0 <= l < a.len() && a[l] == x;
                assert(l != 0);
                assert(ta[l - 1] == x);
            }
        }
        lemma_descending_unique(stamps, ta, tb);
        assert(a =~= seq![a[0]] + ta);
        assert(b =~= seq![b[0]] + tb);
    }
}

/// Law: there is exactly one newest-first list of the marked rows.
pub proof fn law_newest_first_is_unique(
    stamps: Seq<i64>,
    keep: Seq<bool>,
    a: Seq<int>,
    b: Seq<int>,
)
    requires
        is_newest_first(stamps, keep, a),
        is_newest_first(stamps, keep, b),
    ensures
        a == b,
{
    assert forall|x: int| a.contains(x) <==> b.contains(x) by {
        if a.contains(x) {
            let k = choose|k: int| 0 <= k < a.len() && a[k] == x;
            assert(keep[a[k]]);
        }
        if b.contains(x) {
            let k = choose|k: int| 0 <= k < b.len() && b[k] == x;
            assert(keep[b[k]]);
        }
    }
    lemma_descending_unique(stamps, a, b);
}

/// The place of a new entry in a descending list.
proof fn lemma_place(stamps: Seq<i64>, order: Seq<int>, x: int) -> (p: int)
    requires
        descends(stamps, order),
        !order.contains(x),
    ensures
        0 <= p <= order.len(),
        forall|j: int| 0 <= j < p ==> newer(stamps, #[trigger] order[j], x),
        forall|j: int| p <= j < order.len() ==> newer(stamps, x, #[trigger] order[j]),
    decreases order.len(),
{
    if order.len() == 0 {
        0
    } else {
        let shorter = order.drop_last();
        assert(order.contains(order.last()));
        if newer(stamps, order.last(), x) {
            assert forall|j: int| 0 <= j < order.len() implies newer(
                stamps,
                #[trigger] order[j],
                x,
            ) by {
                if j < order.len() - 1 {
                    assert(newer(stamps, order[j], order[order.len() - 1]));
                }
            }
            order.len() as int
        } else {
            assert forall|y: int| shorter.contains(y) implies order.contains(y) by {
                let k = choose|k: int| 0 <= k < shorter.len() && shorter[k] == y;
                assert(order[k] == y);
            }
            let p = lemma_place(stamps, shorter, x);
            assert forall|j: int| 0 <= j < p implies newer(stamps, #[trigger] order[j], x) by {
                assert(shorter[j] == order[j]);
            }
            assert forall|j: int| p <= j < order.len() implies newer(
                stamps,
                x,
                #[trigger] order[j],
            ) by {
                if j < order.len() - 1 {
                    assert(shorter[j] == order[j]);
                }
            }
            p
        }
    }
}

/// Adding the next row, if marked, at its place keeps a list newest first.
proof fn lemma_extend(stamps: Seq<i64>, keep: Seq<bool>, n: int, order: Seq<int>, p: int)
    requires
        0 <= n < keep.len(),
        is_newest_first(stamps, keep.take(n), order),
        keep[n],
        0 <= p <= order.len(),
        forall|j: int| 0 <= j < p ==> newer(stamps, #[trigger] order[j], n),
        forall|j: int| p <= j < order.len() ==> newer(stamps, n, #[trigger] order[j]),
    ensures
        is_newest_first(stamps, keep.take(n + 1), order.insert(p, n)),
{
    let longer = order.insert(p, n);
    let marks = keep.take(n + 1);
    assert forall|k: int| 0 <= k < longer.len() implies 0 <= #[trigger] longer[k] < marks.len()
        && marks[longer[k]] by {
        if k < p {
            assert(longer[k] == order[k]);
            assert(keep.take(n)[order[k]]);
        } else if k > p {
            assert(longer[k] == order[k - 1]);
            assert(keep.take(n)[order[k - 1]]);
        }
    }
    assert forall|i: int| 0 <= i < marks.len() && #[trigger] marks[i] implies longer.contains(
        i,
    ) by {
        if i == n {
            assert(longer[p] == n);
        } else {
            assert(keep.take(n)[i]);
            let k = choose|k: int| 0 <= k < order.len() && order[k] == i;
            if k < p {
                assert(longer[k] == i);
            } else {
                assert(longer[k + 1] == i);
            }
        }
    }
    assert forall|j: int, k: int| 0 <= j < k < longer.len() implies newer(
        stamps,
        #[trigger] longer[j],
        #[trigger] longer[k],
    ) by {
        let a = if j < p {
            j
        } else {
            j - 1
        };
        let b = if k < p {
            k
        } else {
            k - 1
        };
        if j != p {
            assert(longer[j] == order[a]);
        }
        if k != p {
            assert(longer[k] == order[b]);
        }
    }
}

proof fn lemma_skip_unmarked(stamps: Seq<i64>, keep: Seq<bool>, n: int, order: Seq<int>)
    requires
        0 <= n < keep.len(),
        is_newest_first(stamps, keep.take(n), order),
        !keep[n],
    ensures
        is_newest_first(stamps, keep.take(n + 1), order),
{
    let marks = keep.take(n + 1);
    assert forall|k: int| 0 <= k < order.len() implies 0 <= #[trigger] order[k] < marks.len()
        && marks[order[k]] by {
        assert(keep.take(n)[order[k]]);
    }
    assert forall|i: int| 0 <= i < marks.len() && #[trigger] marks[i] implies order.contains(i) by {
        assert(keep.take(n)[i]);
    }
}

proof fn lemma_order_exists(stamps: Seq<i64>, keep: Seq<bool>, n: int) -> (order: Seq<int>)
    requires
        0 <= n <= keep.len(),
    ensures
        is_newest_first(stamps, keep.take(n), order),
    decreases n,
{
    if n == 0 {
        Seq::empty()
    } else {
        let shorter = lemma_order_exists(stamps, keep, n - 1);
        if keep[n - 1] {
            assert(!shorter.contains(n - 1)) by {
                if shorter.contains(n - 1) {
                    let k = choose|k: int| 0 <= k < shorter.len() && shorter[k] == n - 1;
                    assert(shorter[k] < keep.take(n - 1).len());
                }
            }
            let p = lemma_place(stamps, shorter, n - 1);
            lemma_extend(stamps, keep, n - 1, shorter, p);
            shorter.insert(p, n - 1)
        } else {
            lemma_skip_unmarked(stamps, keep, n - 1, shorter);
            shorter
        }
    }
}

/// Law: [`newest_first`] lists exactly the marked rows, each once and newest
/// first.
pub proof fn law_newest_first_is_the_order(stamps: Seq<i64>, keep: Seq<bool>)
    ensures
        is_newest_first(stamps, keep, newest_first(stamps, keep)),
{
    let order = lemma_order_exists(stamps, keep, keep.len() as int);
    assert(keep.take(keep.len() as int) =~= keep);
    assert(is_newest_first(stamps, keep, order));
}

/// Row numbers as integers.
pub open spec fn row_numbers(order: Seq<usize>) -> Seq<int> {
    order.map_values(|i: usize| i as int)
}

/// Lists the marked rows, newest first.
pub fn order_newest_first(stamps: &Vec<i64>, keep: &Vec<bool>) -> (order: Vec<usize>)
    requires
        stamps@.len() == keep@.len(),
    ensures
        row_numbers(order@) == newest_first(stamps@, keep@),
{
    // Oldest first while rows are added: timestamps mostly grow, so a new row
    // mostly goes to the end.
    let mut rising: Vec<usize> = Vec::new();
    let mut i: usize = 0;
    proof {
        assert(row_numbers(rising@).reverse() =~= Seq::<int>::empty());
        assert(keep@.take(0) =~= Seq::<bool>::empty());
    }
    while i < keep.len()
        invariant
            i <= keep@.len() == stamps@.len(),
            is_newest_first(stamps@, keep@.take(i as int), row_numbers(rising@).reverse()),
        decreases keep@.len() - i,
    {
        let ghost before = row_numbers(rising@).reverse();
        if keep[i] {
            let mut p: usize = rising.len();
            proof {
                assert forall|k: int| 0 <= k < rising@.len() implies 0 <= #[trigger] rising@[k]
                    < i by {
                    assert(before[rising@.len() - 1 - k] == rising@[k]);
                }
            }
            while p > 0 && stamps[rising[p - 1]] > stamps[i]
                invariant
                    i < stamps@.len(),
                    p <= rising@.len(),
                    forall|k: int| 0 <= k < rising@.len() ==> 0 <= #[trigger] rising@[k] < i,
                    forall|k: int|
                        p <= k < rising@.len() ==> newer(
                            stamps@,
                            (#[trigger] rising@[k]) as int,
                            i as int,
                        ),
                decreases p,
            {
                p -= 1;
            }
            proof {
                let q = rising@.len() - p;
                assert forall|j: int| 0 <= j < q implies newer(
                    stamps@,
                    #[trigger] before[j],
                    i as int,
                ) by {
                    assert(before[j] == rising@[rising@.len() - 1 - j]);
                }
                assert forall|j: int| q <= j < before.len() implies newer(
                    stamps@,
                    i as int,
                    #[trigger] before[j],
                ) by {
                    assert(before[j] == rising@[rising@.len() - 1 - j]);
                    if j > q {
                        assert(newer(stamps@, before[q], before[j]));
                        assert(before[q] == rising@[p - 1]);
                    }
                }
                lemma_extend(stamps@, keep@, i as int, before, q);
            }
            let ghost old_rising = rising@;
            rising.insert(p, i);
            proof {
                assert(row_numbers(rising@).reverse() =~= before.insert(
                    old_rising.len() - p,
                    i as int,
                ));
            }
        } else {
            proof {
                lemma_skip_unmarked(stamps@, keep@, i as int, before);
            }
        }
        i += 1;
    }
    proof {
        assert(keep@.take(i as int) =~= keep@);
    }
    let mut order: Vec<usize> = Vec::new();
    let mut left: usize = rising.len();
    while left > 0
        invariant
            left <= rising@.len(),
            order@.len() == rising@.len() - left,
            forall|k: int|
                0 <= k < order@.len() ==> #[trigger] order@[k] == rising@[rising@.len() - 1 - k],
        decreases left,
    {
        left -= 1;
        order.push(rising[left]);
    }
    proof {
        assert(row_numbers(order@) =~= row_numbers(rising@).reverse());
        law_newest_first_is_the_order(stamps@, keep@);
        law_newest_first_is_unique(
            stamps@,
            keep@,
            row_numbers(order@),
            newest_first(stamps@, keep@),
        );
    }
    order
}

} // verus!
