//! Stable sorting, as a ranking of positions.
use vstd::prelude::*;

verus! {

/// Position `x` put into the ranking `r`: in front of the trailing positions that it precedes.
pub open spec fn placed(r: Seq<int>, x: int, less: spec_fn(int, int) -> bool) -> Seq<int>
    decreases r.len(),
{
    if r.len() > 0 && less(x, r.last()) {
        placed(r.drop_last(), x, less).push(r.last())
    } else {
        r.push(x)
    }
}

/// The positions below `n` in the order of `less`, those that `less` does not part in the order
/// in which they stand.
pub open spec fn ranked(n: nat, less: spec_fn(int, int) -> bool) -> Seq<int>
    decreases n,
{
    if n == 0 {
        seq![]
    } else {
        placed(ranked((n - 1) as nat, less), n - 1, less)
    }
}

/// The items in ranked order.
pub open spec fn arranged<T>(items: Seq<T>, less: spec_fn(int, int) -> bool) -> Seq<T> {
    ranked(items.len(), less).map_values(|i: int| items[i])
}

/// `less` orders the positions below `n`: irreflexive, transitive, and so that two positions
/// that it does not part stand alike to every third.
pub open spec fn orders(n: nat, less: spec_fn(int, int) -> bool) -> bool {
    &&& forall|a: int| 0 <= a < n ==> !#[trigger] less(a, a)
    &&& forall|a: int, b: int, c: int|
        0 <= a < n && 0 <= b < n && 0 <= c < n && #[trigger] less(a, b) && #[trigger] less(b, c)
            ==> less(a, c)
    &&& forall|a: int, b: int, c: int|
        0 <= a < n && 0 <= b < n && 0 <= c < n && !#[trigger] less(a, b) && !#[trigger] less(b, c)
            ==> !less(a, c)
}

/// `a` may stand before `b` in a stable ranking.
pub open spec fn may_precede(less: spec_fn(int, int) -> bool, a: int, b: int) -> bool {
    !less(b, a) && (less(a, b) || a < b)
}

/// Every position below `n` stands in `r` exactly once.
pub open spec fn lists_each(r: Seq<int>, n: nat) -> bool {
    &&& r.len() == n
    &&& r.no_duplicates()
    &&& forall|i: int| 0 <= i < r.len() ==> 0 <= #[trigger] r[i] < n
    &&& forall|x: int| 0 <= x < n ==> #[trigger] r.contains(x)
}

/// Earlier positions of the ranking may precede the later ones.
pub open spec fn in_order(r: Seq<int>, less: spec_fn(int, int) -> bool) -> bool {
    forall|i: int, j: int| 0 <= i < j < r.len() ==> may_precede(less, #[trigger] r[i], #[trigger] r[j])
}

proof fn lemma_placed_contents(r: Seq<int>, x: int, less: spec_fn(int, int) -> bool)
    requires
        r.no_duplicates(),
        !r.contains(x),
    ensures
        placed(r, x, less).len() == r.len() + 1,
        placed(r, x, less).no_duplicates(),
        forall|y: int| #[trigger] placed(r, x, less).contains(y) <==> r.contains(y) || y == x,
    decreases r.len(),
{
    let out = placed(r, x, less);
    if r.len() > 0 && less(x, r.last()) {
        let front = r.drop_last();
        assert(!front.contains(x)) by {
            if front.contains(x) {
                let i = choose|i: int| 0 <= i < front.len() && front[i] == x;
                assert(r[i] == x);
            }
        }
        lemma_placed_contents(front, x, less);
        let inner = placed(front, x, less);
        assert forall|y: int| #[trigger] out.contains(y) <==> r.contains(y) || y == x by {
            if out.contains(y) {
                let i = choose|i: int| 0 <= i < out.len() && out[i] == y;
                if i < inner.len() {
                    assert(inner[i] == y);
                    assert(inner.contains(y));
                    if y != x {
                        let k = choose|k: int| 0 <= k < front.len() && front[k] == y;
                        assert(r[k] == y);
                    }
                } else {
                    assert(r[r.len() - 1] == y);
                }
            }
            if r.contains(y) || y == x {
                if y == r.last() {
                    assert(out[out.len() - 1] == y);
                } else {
                    if y != x {
                        let k = choose|k: int| 0 <= k < r.len() && r[k] == y;
                        assert(front[k] == y);
                    }
                    assert(inner.contains(y));
                    let m = choose|m: int| 0 <= m < inner.len() && inner[m] == y;
                    assert(out[m] == y);
                }
            }
        }
        assert(!inner.contains(r.last())) by {
            assert(r.contains(r.last()));
            if front.contains(r.last()) {
                let k = choose|k: int| 0 <= k < front.len() && front[k] == r.last();
                assert(r[k] == r[r.len() - 1]);
            }
        }
    } else {
        assert forall|y: int| #[trigger] out.contains(y) <==> r.contains(y) || y == x by {
            if r.contains(y) {
                let k = choose|k: int| 0 <= k < r.len() && r[k] == y;
                assert(out[k] == y);
            }
            if y == x {
                assert(out[out.len() - 1] == y);
            }
        }
    }
}

/// A ranking lists each position exactly once, whatever the relation.
pub proof fn ranking_keeps_every_position(n: nat, less: spec_fn(int, int) -> bool)
    ensures
        lists_each(ranked(n, less), n),
    decreases n,
{
    if n > 0 {
        let r = ranked((n - 1) as nat, less);
        ranking_keeps_every_position((n - 1) as nat, less);
        lemma_placed_contents(r, n - 1, less);
        let out = placed(r, n - 1, less);
        assert forall|i: int| 0 <= i < out.len() implies 0 <= #[trigger] out[i] < n by {
            assert(out.contains(out[i]));
            if out[i] != n - 1 {
                let k = choose|k: int| 0 <= k < r.len() && r[k] == out[i];
                assert(0 <= r[k] < n - 1);
            }
        }
        assert forall|x: int| 0 <= x < n implies #[trigger] out.contains(x) by {
            if x < n - 1 {
                assert(r.contains(x));
            }
        }
    }
}

proof fn lemma_placed_in_order(r: Seq<int>, x: int, n: nat, less: spec_fn(int, int) -> bool)
    requires
        orders(n, less),
        0 <= x < n,
        forall|i: int| 0 <= i < r.len() ==> 0 <= #[trigger] r[i] < x,
        in_order(r, less),
    ensures
        in_order(placed(r, x, less), less),
        forall|i: int| 0 <= i < placed(r, x, less).len() ==> 0 <= #[trigger] placed(r, x, less)[i] <= x,
        forall|i: int|
            0 <= i < placed(r, x, less).len() ==> (#[trigger] placed(r, x, less)[i] == x
                || r.contains(placed(r, x, less)[i])),
    decreases r.len(),
{
    let out = placed(r, x, less);
    if r.len() > 0 && less(x, r.last()) {
        let front = r.drop_last();
        lemma_placed_in_order(front, x, n, less);
        let inner = placed(front, x, less);
        assert forall|i: int, j: int| 0 <= i < j < out.len() implies may_precede(
            less,
            #[trigger] out[i],
            #[trigger] out[j],
        ) by {
            if j < inner.len() {
                assert(may_precede(less, inner[i], inner[j]));
            } else {
                assert(out[i] == inner[i]);
                if inner[i] != x {
                    let k = choose|k: int| 0 <= k < front.len() && front[k] == inner[i];
                    assert(may_precede(less, r[k], r[r.len() - 1]));
                } else {
                    assert(!less(r.last(), x)) by {
                        if less(r.last(), x) {
                            assert(less(x, x));
                        }
                    }
                }
            }
        }
        assert forall|i: int| 0 <= i < out.len() implies 0 <= #[trigger] out[i] <= x by {
            if i < inner.len() {
                assert(out[i] == inner[i]);
            } else {
                assert(0 <= r[r.len() - 1] < x);
            }
        }
        assert forall|i: int| 0 <= i < out.len() implies (#[trigger] out[i] == x || r.contains(
            out[i],
        )) by {
            if i < inner.len() {
                assert(out[i] == inner[i]);
                if inner[i] != x {
                    let k = choose|k: int| 0 <= k < front.len() && front[k] == inner[i];
                    assert(r[k] == out[i]);
                }
            } else {
                assert(r[r.len() - 1] == out[i]);
            }
        }
    } else {
        assert forall|i: int, j: int| 0 <= i < j < out.len() implies may_precede(
            less,
            #[trigger] out[i],
            #[trigger] out[j],
        ) by {
            if j < r.len() {
                assert(may_precede(less, r[i], r[j]));
            } else {
                assert(out[i] == r[i]);
                assert(!less(x, r.last()));
                if i < r.len() - 1 {
                    assert(may_precede(less, r[i], r[r.len() - 1]));
                    assert(!less(r.last(), r[i]));
                    assert(0 <= r[i] < n && 0 <= r[r.len() - 1] < n);
                    assert(!less(x, r[i]));
                }
            }
        }
        assert forall|i: int| 0 <= i < out.len() implies (#[trigger] out[i] == x || r.contains(
            out[i],
        )) by {
            if i < r.len() {
                assert(r[i] == out[i]);
            }
        }
    }
}

/// A ranking by an order is in that order, and positions that the order does not part keep
/// theirs.
pub proof fn ranking_is_stable_and_in_order(n: nat, less: spec_fn(int, int) -> bool)
    requires
        orders(n, less),
    ensures
        in_order(ranked(n, less), less),
    decreases n,
{
    if n > 0 {
        let r = ranked((n - 1) as nat, less);
        ranking_is_stable_and_in_order((n - 1) as nat, less);
        ranking_keeps_every_position((n - 1) as nat, less);
        lemma_placed_in_order(r, n - 1, n, less);
    }
}

/// Items that stand in order already stay as they are.
pub proof fn ordered_items_stay<T>(items: Seq<T>, less: spec_fn(int, int) -> bool)
    requires
        forall|a: int, b: int| 0 <= a < b < items.len() ==> !#[trigger] less(b, a),
    ensures
        arranged(items, less) == items,
{
    lemma_ordered_positions_stay(items.len(), less);
    assert(arranged(items, less) =~= items);
}

proof fn lemma_ordered_positions_stay(n: nat, less: spec_fn(int, int) -> bool)
    requires
        forall|a: int, b: int| 0 <= a < b < n ==> !#[trigger] less(b, a),
    ensures
        ranked(n, less) == Seq::new(n, |i: int| i),
    decreases n,
{
    if n > 0 {
        let r = ranked((n - 1) as nat, less);
        lemma_ordered_positions_stay((n - 1) as nat, less);
        if n > 1 {
            assert(r.last() == n - 2);
            assert(!less(n - 1, n - 2));
        }
        assert(ranked(n, less) =~= Seq::new(n, |i: int| i));
    } else {
        assert(ranked(n, less) =~= Seq::new(n, |i: int| i));
    }
}

/// Arranging items keeps them all and adds none: what held of every item holds of every
/// arranged item, and the other way round.
pub proof fn arranging_keeps_items<T>(items: Seq<T>, less: spec_fn(int, int) -> bool)
    ensures
        arranged(items, less).len() == items.len(),
        forall|x: T| #[trigger] arranged(items, less).contains(x) <==> items.contains(x),
        items.no_duplicates() ==> arranged(items, less).no_duplicates(),
{
    let n = items.len();
    let r = ranked(n, less);
    let out = arranged(items, less);
    ranking_keeps_every_position(n, less);
    assert forall|x: T| #[trigger] out.contains(x) <==> items.contains(x) by {
        if out.contains(x) {
            let i = choose|i: int| 0 <= i < out.len() && out[i] == x;
            assert(0 <= r[i] < n);
            assert(items[r[i]] == x);
        }
        if items.contains(x) {
            let k = choose|k: int| 0 <= k < items.len() && items[k] == x;
            assert(r.contains(k));
            let i = choose|i: int| 0 <= i < r.len() && r[i] == k;
            assert(out[i] == x);
        }
    }
    if items.no_duplicates() {
        assert forall|i: int, j: int| 0 <= i < out.len() && 0 <= j < out.len() && i != j implies out[i]
            != out[j] by {
            assert(0 <= r[i] < n && 0 <= r[j] < n);
            assert(r[i] != r[j]);
        }
    }
}

/// The mathematical values of a ranking.
pub open spec fn positions(v: Seq<usize>) -> Seq<int> {
    v.map_values(|i: usize| i as int)
}

/// A position put into a ranking at `p` is the position placed, where all from `p` on are
/// preceded by it and the one before is not.
proof fn lemma_placed_at(r: Seq<int>, x: int, p: int, less: spec_fn(int, int) -> bool)
    requires
        0 <= p <= r.len(),
        forall|i: int| p <= i < r.len() ==> less(x, #[trigger] r[i]),
        p > 0 ==> !less(x, r[p - 1]),
    ensures
        placed(r, x, less) == r.insert(p, x),
    decreases r.len(),
{
    if p < r.len() {
        assert(less(x, r[r.len() - 1]));
        lemma_placed_at(r.drop_last(), x, p, less);
        assert(r.insert(p, x) =~= r.drop_last().insert(p, x).push(r.last()));
    } else {
        assert(r.insert(p, x) =~= r.push(x));
    }
}

/// The ranking of the positions below `n` by a test that decides `less`.
pub(crate) fn rank<F: Fn(usize, usize) -> bool>(
    n: usize,
    test: F,
    less: Ghost<spec_fn(int, int) -> bool>,
) -> (r: Vec<usize>)
    requires
        forall|a: usize, b: usize| a < n && b < n ==> #[trigger] test.requires((a, b)),
        forall|a: usize, b: usize, c: bool|
            a < n && b < n && #[trigger] test.ensures((a, b), c) ==> c == less@(a as int, b as int),
    ensures
        positions(r@) == ranked(n as nat, less@),
        r.len() == n,
        forall|i: int| 0 <= i < r.len() ==> #[trigger] r@[i] < n,
{
    let mut r: Vec<usize> = Vec::new();
    let mut x: usize = 0;
    assert(positions(r@) =~= ranked(0, less@));
    while x < n
        invariant
            x <= n,
            r.len() == x,
            positions(r@) == ranked(x as nat, less@),
            forall|i: int| 0 <= i < r.len() ==> #[trigger] r@[i] < n,
            forall|a: usize, b: usize| a < n && b < n ==> #[trigger] test.requires((a, b)),
            forall|a: usize, b: usize, c: bool|
                a < n && b < n && #[trigger] test.ensures((a, b), c) ==> c == less@(
                    a as int,
                    b as int,
                ),
        decreases n - x,
    {
        let mut p: usize = r.len();
        let mut going: bool = true;
        while going && p > 0
            invariant
                x < n,
                p <= r.len(),
                forall|i: int| 0 <= i < r.len() ==> #[trigger] r@[i] < n,
                forall|i: int|
                    p <= i < r.len() ==> less@(x as int, #[trigger] positions(r@)[i]),
                !going ==> p > 0 && !less@(x as int, positions(r@)[p - 1]),
                forall|a: usize, b: usize| a < n && b < n ==> #[trigger] test.requires((a, b)),
                forall|a: usize, b: usize, c: bool|
                    a < n && b < n && #[trigger] test.ensures((a, b), c) ==> c == less@(
                        a as int,
                        b as int,
                    ),
            decreases p, going as int,
        {
            let other = r[p - 1];
            assert(positions(r@)[p - 1] == other as int);
            if test(x, other) {
                p -= 1;
            } else {
                going = false;
            }
        }
        let ghost before = positions(r@);
        proof {
            lemma_placed_at(before, x as int, p as int, less@);
        }
        r.insert(p, x);
        assert(positions(r@) =~= before.insert(p as int, x as int));
        assert forall|i: int| 0 <= i < r.len() implies #[trigger] r@[i] < n by {
            assert(positions(r@)[i] == r@[i] as int);
            if i < p {
                assert(positions(r@)[i] == before[i]);
            } else if i > p {
                assert(positions(r@)[i] == before[i - 1]);
            }
        }
        x += 1;
    }
    r
}

/// The items in the order of a ranking of their positions.
pub(crate) fn arrange<T>(
    items: Vec<T>,
    order: &Vec<usize>,
    less: Ghost<spec_fn(int, int) -> bool>,
) -> (r: Vec<T>)
    requires
        positions(order@) == ranked(items@.len(), less@),
    ensures
        r@ == arranged(items@, less@),
{
    let ghost given = items@;
    let n = items.len();
    proof {
        ranking_keeps_every_position(n as nat, less@);
        assert(positions(order@).len() == order@.len());
    }
    let mut slots: Vec<Option<T>> = Vec::new();
    for item in it: items.into_iter()
        invariant
            it.seq() == given,
            slots.len() == it.index(),
            forall|k: int| 0 <= k < slots.len() ==> #[trigger] slots@[k] == Some(given[k]),
    {
        slots.push(Some(item));
    }
    let mut out: Vec<T> = Vec::new();
    let mut i: usize = 0;
    assert forall|j: int| 0 <= j < order.len() implies #[trigger] order@[j] < n by {
        assert(positions(order@)[j] == order@[j] as int);
    }
    while i < n
        invariant
            i <= n,
            n == given.len(),
            order.len() == n,
            slots.len() == n,
            out.len() == i,
            positions(order@) == ranked(n as nat, less@),
            ranked(n as nat, less@).no_duplicates(),
            forall|j: int| 0 <= j < order.len() ==> #[trigger] order@[j] < n,
            forall|j: int| 0 <= j < i ==> #[trigger] out@[j] == given[order@[j] as int],
            forall|j: int|
                i <= j < n ==> slots@[#[trigger] order@[j] as int] == Some(
                    given[order@[j] as int],
                ),
        decreases n - i,
    {
        let at: usize = order[i];
        let mut taken: Option<T> = None;
        std::mem::swap(&mut taken, &mut slots[at]);
        assert(taken == Some(given[order@[i as int] as int]));
        if let Some(item) = taken {
            out.push(item);
        }
        assert forall|j: int| i + 1 <= j < n implies slots@[#[trigger] order@[j] as int] == Some(
            given[order@[j] as int],
        ) by {
            assert(positions(order@)[j] == order@[j] as int);
            assert(positions(order@)[i as int] == order@[i as int] as int);
            assert(order@[j] != order@[i as int]);
        }
        i += 1;
    }
    assert(out@ =~= arranged(given, less@)) by {
        assert forall|j: int| 0 <= j < n implies out@[j] == arranged(given, less@)[j] by {
            assert(positions(order@)[j] == order@[j] as int);
        }
    }
    out
}

} // verus!
