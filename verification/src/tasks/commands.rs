//! The order in which the files of a task group are downloaded.
use vstd::prelude::*;
use crate::download::candidates::{DownloadParam, ParamModel};
use crate::external::utc_millis;
use crate::ranking::{
    arrange, arranged, arranging_keeps_items, may_precede, ordered_items_stay, orders, rank, ranked,
    ranking_is_stable_and_in_order, ranking_keeps_every_position,
};
use crate::tasks::handle::{PDesc, PStatus};
use crate::text::{
    concat3, decimal, decimal_text, distinct, distinct_does_not_reorder, distinct_keeps_texts,
    opt_text, same, signed_decimal, signed_decimal_text, texts,
};

verus! {

/// What a task is to do.
#[derive(Debug)]
pub enum PTaskParam {
    Download(DownloadParam),
}

/// The origin of a file: the host of its address.
pub open spec fn origin_of(param: PTaskParam) -> Seq<char> {
    match param {
        PTaskParam::Download(download) => match opt_text(download.src.host) {
            Some(host) => host,
            None => "local-or-unknown"@,
        },
    }
}

/// The origins of files.
pub open spec fn origins_of(params: Seq<PTaskParam>) -> Seq<Seq<char>> {
    params.map_values(|p: PTaskParam| origin_of(p))
}

/// How many files of the same origin come before a file: the round in which it is downloaded.
pub open spec fn round_of(origins: Seq<Seq<char>>, i: int) -> int {
    occurrences(origins.take(i), origins[i])
}

/// How often a text stands in a list.
pub open spec fn occurrences(list: Seq<Seq<char>>, x: Seq<char>) -> int
    decreases list.len(),
{
    if list.len() == 0 {
        0
    } else {
        occurrences(list.drop_last(), x) + (if list.last() == x {
            1int
        } else {
            0
        })
    }
}

/// The place of the origin of a file among the origins, in the order in which they come up.
pub open spec fn place_of(origins: Seq<Seq<char>>, i: int) -> int {
    distinct(origins).index_of(origins[i])
}

/// The order of a group: round by round, and within a round origin by origin.
pub open spec fn in_turn(origins: Seq<Seq<char>>) -> spec_fn(int, int) -> bool {
    |a: int, b: int|
        round_of(origins, a) < round_of(origins, b) || (round_of(origins, a) == round_of(origins, b)
            && place_of(origins, a) < place_of(origins, b))
}

/// The files of a group, their origins taking turns.
pub open spec fn interleaved(params: Seq<PTaskParam>) -> Seq<PTaskParam> {
    arranged(params, in_turn(origins_of(params)))
}

fn origin(param: &PTaskParam) -> (r: String)
    ensures
        r@ == origin_of(*param),
{
    match param {
        PTaskParam::Download(download) => match &download.src.host {
            Some(host) => host.clone(),
            None => "local-or-unknown".to_owned(),
        },
    }
}

/// The rounds and the places of files, by their origins.
fn turns(origins: &Vec<String>) -> (r: Vec<(usize, usize)>)
    ensures
        r.len() == origins.len(),
        forall|i: int|
            0 <= i < r.len() ==> (#[trigger] r@[i]).0 == round_of(texts(origins@), i) && r@[i].1
                == place_of(texts(origins@), i),
{
    let ghost all = texts(origins@);
    let mut known: Vec<String> = Vec::new();
    let mut counts: Vec<usize> = Vec::new();
    let mut out: Vec<(usize, usize)> = Vec::new();
    let mut i: usize = 0;
    assert(texts(known@) =~= distinct(all.take(0)));
    while i < origins.len()
        invariant
            i <= origins.len(),
            all == texts(origins@),
            out.len() == i,
            texts(known@) == distinct(all.take(i as int)),
            counts.len() == known.len(),
            forall|k: int|
                0 <= k < counts.len() ==> #[trigger] counts@[k] == occurrences(
                    all.take(i as int),
                    known@[k]@,
                ) && counts@[k] <= i,
            forall|j: int|
                0 <= j < i ==> (#[trigger] out@[j]).0 == round_of(all, j) && out@[j].1 == distinct(
                    all.take(i as int),
                ).index_of(all[j]),
        decreases origins.len() - i,
    {
        let ghost x = all[i as int];
        let ghost before = all.take(i as int);
        let ghost names = texts(known@);
        proof {
            assert(origins@[i as int]@ == x);
            assert(all.take(i + 1).drop_last() =~= before);
            assert(all.take(i + 1).last() == x);
            distinct_keeps_texts(before);
        }
        let mut k: usize = 0;
        while k < known.len() && !same(known[k].as_str(), origins[i].as_str())
            invariant
                k <= known.len(),
                i < origins.len(),
                forall|m: int| 0 <= m < k ==> known@[m]@ != origins@[i as int]@,
            decreases known.len() - k,
        {
            k += 1;
        }
        if k < known.len() {
            assert(names[k as int] == x);
            assert(names.contains(x));
            proof {
                assert(names.index_of(x) == k) by {
                    assert(names.no_duplicates());
                    let at = names.index_of(x);
                    assert(names[at] == x);
                }
            }
            let count = counts[k];
            out.push((count, k));
            counts.set(k, count + 1);
        } else {
            assert(!names.contains(x)) by {
                if names.contains(x) {
                    let m = choose|m: int| 0 <= m < names.len() && names[m] == x;
                    assert(known@[m]@ == x);
                }
            }
            proof {
                assert(!before.contains(x));
                lemma_absent(before, x);
                assert forall|j: int| 0 <= j < i implies #[trigger] names.push(x).index_of(all[j])
                    == names.index_of(all[j]) by {
                    assert(before[j] == all[j]);
                    assert(before.contains(all[j]));
                    assert(names.contains(all[j]));
                    lemma_index_after_push(names, x, all[j]);
                }
                lemma_index_of_pushed(names, x);
            }
            known.push(origins[i].clone());
            counts.push(1);
            out.push((0, k));
            assert(texts(known@) =~= names.push(x));
        }
        assert forall|m: int| 0 <= m < counts.len() implies #[trigger] counts@[m] == occurrences(
            all.take(i + 1),
            known@[m]@,
        ) && counts@[m] <= i + 1 by {
            if k < names.len() {
                assert(texts(known@)[m] == known@[m]@);
                assert(names[m] == known@[m]@);
                if m != k {
                    assert(names[m] != names[k as int]);
                }
            } else if m < names.len() {
                assert(names[m] == known@[m]@);
                assert(names[m] != x) by {
                    if names[m] == x {
                        assert(names.contains(x));
                    }
                }
            }
        }
        assert forall|j: int| 0 <= j < i + 1 implies (#[trigger] out@[j]).0 == round_of(all, j)
            && out@[j].1 == distinct(all.take(i + 1)).index_of(all[j]) by {
            if j == i {
                assert(all.take(j) =~= before);
            }
        }
        i += 1;
    }
    assert(all.take(origins.len() as int) =~= all);
    out
}

proof fn lemma_absent(list: Seq<Seq<char>>, x: Seq<char>)
    requires
        !list.contains(x),
    ensures
        occurrences(list, x) == 0,
    decreases list.len(),
{
    if list.len() > 0 {
        assert(list[list.len() - 1] != x);
        assert(!list.drop_last().contains(x)) by {
            if list.drop_last().contains(x) {
                let i = choose|i: int| 0 <= i < list.len() - 1 && list.drop_last()[i] == x;
                assert(list[i] == x);
            }
        }
        lemma_absent(list.drop_last(), x);
    }
}

proof fn lemma_index_after_push(list: Seq<Seq<char>>, x: Seq<char>, y: Seq<char>)
    requires
        list.no_duplicates(),
        list.contains(y),
        !list.contains(x),
    ensures
        list.push(x).index_of(y) == list.index_of(y),
{
    let p = list.index_of(y);
    assert(list[p] == y);
    let q = list.push(x).index_of(y);
    assert(list.push(x)[p] == y);
    assert(list.push(x)[q] == y);
    if q == list.len() {
        assert(x == y);
    } else if q != p {
        assert(list[q] == list[p]);
    }
}

proof fn lemma_index_of_pushed(list: Seq<Seq<char>>, x: Seq<char>)
    requires
        !list.contains(x),
    ensures
        list.push(x).index_of(x) == list.len(),
{
    let q = list.push(x).index_of(x);
    assert(list.push(x)[list.len() as int] == x);
    assert(list.push(x)[q] == x);
    if q < list.len() {
        assert(list[q] == x);
    }
}

/// The files of a group in an order in which their origins take turns, so that the files of one
/// host are not left to the end.
pub fn interleave_download_origins(params: Vec<PTaskParam>) -> (r: Vec<PTaskParam>)
    ensures
        r@ == interleaved(params@),
{
    let ghost given = params@;
    let ghost less = in_turn(origins_of(params@));
    let n = params.len();
    let mut origins: Vec<String> = Vec::new();
    let mut i: usize = 0;
    while i < n
        invariant
            i <= n,
            n == params.len(),
            given == params@,
            texts(origins@) == origins_of(given).take(i as int),
        decreases n - i,
    {
        let ghost so_far = texts(origins@);
        origins.push(origin(&params[i]));
        i += 1;
        assert(texts(origins@) =~= so_far.push(origin_of(given[i - 1])));
        assert(texts(origins@) =~= origins_of(given).take(i as int));
    }
    assert(origins_of(given).take(n as int) =~= origins_of(given));
    assert(texts(origins@).len() == origins.len());
    let keys = turns(&origins);
    let test = |a: usize, b: usize| -> (c: bool)
        requires
            a < keys.len(),
            b < keys.len(),
        ensures
            c == (keys@[a as int].0 < keys@[b as int].0 || (keys@[a as int].0 == keys@[b as int].0
                && keys@[a as int].1 < keys@[b as int].1)),
        { keys[a].0 < keys[b].0 || (keys[a].0 == keys[b].0 && keys[a].1 < keys[b].1) };
    let order = rank(n, test, Ghost(less));
    arrange(params, &order, Ghost(less))
}

proof fn lemma_in_turn_orders(origins: Seq<Seq<char>>)
    ensures
        orders(origins.len(), in_turn(origins)),
{
}

/// Interleaving keeps every file of the group and adds none.
pub proof fn interleaving_keeps_every_file(params: Seq<PTaskParam>)
    ensures
        interleaved(params).len() == params.len(),
        forall|p: PTaskParam| #[trigger] interleaved(params).contains(p) <==> params.contains(p),
{
    arranging_keeps_items(params, in_turn(origins_of(params)));
}

/// Origins take turns: a file comes before every file of a later round, so no origin is asked for
/// its next file before every other one was asked for as many. Files of the same origin keep their
/// order.
pub proof fn interleaving_takes_origins_in_turn(params: Seq<PTaskParam>, p: int, q: int)
    requires
        0 <= p < q < params.len(),
    ensures
        ({
            let origins = origins_of(params);
            let order = ranked(params.len(), in_turn(origins));
            &&& 0 <= order[p] < params.len() && 0 <= order[q] < params.len()
            &&& interleaved(params)[p] == params[order[p]]
            &&& interleaved(params)[q] == params[order[q]]
            &&& round_of(origins, order[p]) <= round_of(origins, order[q])
            &&& origins[order[p]] == origins[order[q]] ==> order[p] < order[q]
        }),
{
    let origins = origins_of(params);
    let less = in_turn(origins);
    let order = ranked(params.len(), less);
    lemma_in_turn_orders(origins);
    ranking_is_stable_and_in_order(params.len(), less);
    ranking_keeps_every_position(params.len(), less);
    assert(may_precede(less, order[p], order[q]));
    if origins[order[p]] == origins[order[q]] && order[q] < order[p] {
        lemma_rounds_grow(origins, order[q], order[p]);
    }
}

/// Of two files of the same origin, the later is in a later round.
proof fn lemma_rounds_grow(origins: Seq<Seq<char>>, i: int, j: int)
    requires
        0 <= i < j < origins.len(),
        origins[i] == origins[j],
    ensures
        round_of(origins, i) < round_of(origins, j),
    decreases j - i,
{
    lemma_occurrences_grow(origins, i + 1, j, origins[i]);
    assert(origins.take(i + 1).drop_last() =~= origins.take(i));
    assert(origins.take(i + 1).last() == origins[i]);
}

proof fn lemma_occurrences_grow(origins: Seq<Seq<char>>, i: int, j: int, x: Seq<char>)
    requires
        0 <= i <= j <= origins.len(),
    ensures
        occurrences(origins.take(i), x) <= occurrences(origins.take(j), x),
    decreases j - i,
{
    if i < j {
        lemma_occurrences_grow(origins, i, j - 1, x);
        assert(origins.take(j).drop_last() =~= origins.take(j - 1));
    }
}

/// Before a file of a round there is a file of the same origin in every earlier round.
proof fn lemma_earlier_round(origins: Seq<Seq<char>>, i: int, r: int) -> (j: int)
    requires
        0 <= i < origins.len(),
        0 <= r < round_of(origins, i),
    ensures
        0 <= j < i,
        origins[j] == origins[i],
        round_of(origins, j) == r,
{
    lemma_nth_occurrence(origins, i, origins[i], r)
}

proof fn lemma_nth_occurrence(origins: Seq<Seq<char>>, n: int, x: Seq<char>, r: int) -> (j: int)
    requires
        0 <= n <= origins.len(),
        0 <= r < occurrences(origins.take(n), x),
    ensures
        0 <= j < n,
        origins[j] == x,
        round_of(origins, j) == r,
    decreases n,
{
    let front = origins.take(n);
    assert(front.len() > 0);
    assert(front.drop_last() =~= origins.take(n - 1));
    if r < occurrences(origins.take(n - 1), x) {
        lemma_nth_occurrence(origins, n - 1, x, r)
    } else {
        assert(front.last() == origins[n - 1]);
        n - 1
    }
}

proof fn lemma_occurrences_stand(list: Seq<Seq<char>>, i: int, j: int, x: Seq<char>)
    requires
        0 <= i <= j <= list.len(),
        forall|k: int| i <= k < j ==> #[trigger] list[k] != x,
    ensures
        occurrences(list.take(i), x) == occurrences(list.take(j), x),
    decreases j - i,
{
    if i < j {
        lemma_occurrences_stand(list, i, j - 1, x);
        assert(list.take(j).drop_last() =~= list.take(j - 1));
        assert(list[j - 1] != x);
    }
}

/// Where the files of a group stand once their origins take turns.
spec fn taken(params: Seq<PTaskParam>) -> Seq<int> {
    ranked(params.len(), in_turn(origins_of(params)))
}

proof fn lemma_taken(params: Seq<PTaskParam>)
    ensures
        ({
            let origins = origins_of(params);
            let order = taken(params);
            let after = origins_of(interleaved(params));
            &&& order.len() == params.len()
            &&& after.len() == params.len()
            &&& forall|k: int| 0 <= k < order.len() ==> 0 <= #[trigger] order[k] < params.len()
            &&& forall|k: int| 0 <= k < order.len() ==> #[trigger] after[k] == origins[order[k]]
            &&& forall|i: int| 0 <= i < params.len() ==> #[trigger] order.contains(i)
            &&& forall|a: int, b: int|
                0 <= a < b < order.len() ==> may_precede(
                    in_turn(origins),
                    #[trigger] order[a],
                    #[trigger] order[b],
                )
        }),
{
    let origins = origins_of(params);
    lemma_in_turn_orders(origins);
    ranking_is_stable_and_in_order(params.len(), in_turn(origins));
    ranking_keeps_every_position(params.len(), in_turn(origins));
}

/// Of two files of the same origin, the later taken is in a later round.
proof fn lemma_taken_rounds_grow(params: Seq<PTaskParam>, a: int, b: int)
    requires
        0 <= a < b < params.len(),
        origins_of(interleaved(params))[a] == origins_of(interleaved(params))[b],
    ensures
        round_of(origins_of(params), taken(params)[a]) < round_of(
            origins_of(params),
            taken(params)[b],
        ),
{
    let origins = origins_of(params);
    let order = taken(params);
    lemma_taken(params);
    interleaving_takes_origins_in_turn(params, a, b);
    lemma_rounds_grow(origins, order[a], order[b]);
}

/// The round of a file stays the same when the origins take turns.
proof fn lemma_rounds_stay(params: Seq<PTaskParam>, k: int)
    requires
        0 <= k < params.len(),
    ensures
        round_of(origins_of(interleaved(params)), k) == round_of(
            origins_of(params),
            taken(params)[k],
        ),
    decreases k,
{
    let origins = origins_of(params);
    let order = taken(params);
    let after = origins_of(interleaved(params));
    let x = after[k];
    let round = round_of(origins, order[k]);
    lemma_taken(params);
    lemma_occurrences_grow(origins, 0, order[k], x);
    assert(origins.take(0) =~= Seq::<Seq<char>>::empty());
    assert(round >= 0);
    if round == 0 {
        assert forall|j: int| 0 <= j < k implies #[trigger] after[j] != x by {
            if after[j] == x {
                lemma_taken_rounds_grow(params, j, k);
                lemma_occurrences_grow(origins, 0, order[j], x);
            }
        }
        lemma_occurrences_stand(after, 0, k, x);
        assert(after.take(0) =~= Seq::<Seq<char>>::empty());
    } else {
        let i = lemma_earlier_round(origins, order[k], round - 1);
        assert(order.contains(i));
        let j = choose|j: int| 0 <= j < order.len() && order[j] == i;
        assert(after[j] == x);
        if j > k {
            assert(may_precede(in_turn(origins), order[k], order[j]));
        }
        assert(j < k);
        lemma_rounds_stay(params, j);
        assert forall|m: int| j < m < k implies #[trigger] after[m] != x by {
            if after[m] == x {
                lemma_taken_rounds_grow(params, j, m);
                lemma_taken_rounds_grow(params, m, k);
            }
        }
        lemma_occurrences_stand(after, j + 1, k, x);
        assert(after.take(j + 1).drop_last() =~= after.take(j));
        assert(after.take(j + 1).last() == x);
    }
}

/// Of two origins, the one that comes up first has the lower place.
proof fn lemma_first_has_lower_place(origins: Seq<Seq<char>>, a: int, b: int)
    requires
        0 <= a < b < origins.len(),
        round_of(origins, b) == 0,
    ensures
        place_of(origins, a) < place_of(origins, b),
{
    let all = distinct(origins);
    let before = origins.take(b);
    let front = distinct(before);
    let x = origins[a];
    let y = origins[b];
    distinct_keeps_texts(origins);
    distinct_keeps_texts(before);
    distinct_does_not_reorder(origins, b);
    assert(before[a] == x);
    assert(before.contains(x));
    assert(front.contains(x));
    assert(!before.contains(y)) by {
        if before.contains(y) {
            let m = choose|m: int| 0 <= m < before.len() && before[m] == y;
            lemma_rounds_grow(origins, m, b);
            lemma_occurrences_grow(origins, 0, m, y);
            assert(origins.take(0) =~= Seq::<Seq<char>>::empty());
        }
    }
    assert(!front.contains(y));
    let p = front.index_of(x);
    assert(front[p] == x);
    assert(all.subrange(0, front.len() as int)[p] == all[p]);
    assert(origins.contains(x));
    assert(origins.contains(y));
    let px = all.index_of(x);
    let py = all.index_of(y);
    assert(all.contains(x));
    assert(all.contains(y));
    assert(all[px] == x);
    assert(all[py] == y);
    assert(px == p);
    if py < front.len() {
        assert(all.subrange(0, front.len() as int)[py] == front[py]);
        assert(front.contains(y));
    }
}

/// The first file of an origin, once the origins take turns.
proof fn lemma_first_taken(params: Seq<PTaskParam>, k: int) -> (first: int)
    requires
        0 <= k < params.len(),
    ensures
        0 <= first < params.len(),
        origins_of(interleaved(params))[first] == origins_of(interleaved(params))[k],
        round_of(origins_of(params), taken(params)[first]) == 0,
{
    let origins = origins_of(params);
    let order = taken(params);
    lemma_taken(params);
    lemma_occurrences_grow(origins, 0, order[k], origins[order[k]]);
    assert(origins.take(0) =~= Seq::<Seq<char>>::empty());
    if round_of(origins, order[k]) == 0 {
        k
    } else {
        let i = lemma_earlier_round(origins, order[k], 0);
        assert(order.contains(i));
        choose|j: int| 0 <= j < order.len() && order[j] == i
    }
}

/// Files whose origins take turns already stay as they are.
pub proof fn interleaving_twice_is_interleaving_once(params: Seq<PTaskParam>)
    ensures
        interleaved(interleaved(params)) == interleaved(params),
{
    let origins = origins_of(params);
    let order = taken(params);
    let out = interleaved(params);
    let after = origins_of(out);
    let less = in_turn(after);
    lemma_taken(params);
    distinct_keeps_texts(origins);
    assert forall|a: int, b: int| 0 <= a < b < out.len() implies !#[trigger] less(b, a) by {
        lemma_rounds_stay(params, a);
        lemma_rounds_stay(params, b);
        assert(may_precede(in_turn(origins), order[a], order[b]));
        if round_of(after, a) == round_of(after, b) {
            if after[a] == after[b] {
                lemma_taken_rounds_grow(params, a, b);
            }
            assert(origins.contains(origins[order[a]]));
            assert(origins.contains(origins[order[b]]));
            assert(distinct(origins).contains(after[a]));
            assert(distinct(origins).contains(after[b]));
            assert(place_of(origins, order[a]) < place_of(origins, order[b]));
            let first = lemma_first_taken(params, a);
            let second = lemma_first_taken(params, b);
            assert(place_of(origins, order[first]) < place_of(origins, order[second]));
            if second < first {
                assert(may_precede(in_turn(origins), order[second], order[first]));
            }
            assert(first < second);
            lemma_rounds_stay(params, second);
            lemma_first_has_lower_place(after, first, second);
        }
    }
    ordered_items_stay(out, less);
}

/// Files of a single origin stay in their order.
pub proof fn files_of_one_origin_stay(params: Seq<PTaskParam>)
    requires
        forall|i: int, j: int|
            0 <= i < j < params.len() ==> origin_of(#[trigger] params[i]) == origin_of(
                #[trigger] params[j],
            ),
    ensures
        interleaved(params) == params,
{
    let origins = origins_of(params);
    let less = in_turn(origins);
    assert forall|a: int, b: int| 0 <= a < b < params.len() implies !#[trigger] less(b, a) by {
        assert(origin_of(params[a]) == origin_of(params[b]));
        assert(origins[a] == origins[b]);
        lemma_rounds_grow(origins, a, b);
    }
    ordered_items_stay(params, less);
}

/// Files of which no two have the same origin stay in their order.
pub proof fn files_of_different_origins_stay(params: Seq<PTaskParam>)
    requires
        forall|i: int, j: int|
            0 <= i < j < params.len() ==> origin_of(#[trigger] params[i]) != origin_of(
                #[trigger] params[j],
            ),
    ensures
        interleaved(params) == params,
{
    let origins = origins_of(params);
    let less = in_turn(origins);
    assert forall|a: int, b: int| 0 <= a < b < params.len() implies !#[trigger] less(b, a) by {
        lemma_new_origin(origins, params, a);
        lemma_new_origin(origins, params, b);
        lemma_first_has_lower_place(origins, a, b);
    }
    ordered_items_stay(params, less);
}

proof fn lemma_new_origin(origins: Seq<Seq<char>>, params: Seq<PTaskParam>, i: int)
    requires
        origins == origins_of(params),
        0 <= i < params.len(),
        forall|a: int, b: int|
            0 <= a < b < params.len() ==> origin_of(#[trigger] params[a]) != origin_of(
                #[trigger] params[b],
            ),
    ensures
        round_of(origins, i) == 0,
{
    assert(!origins.take(i).contains(origins[i])) by {
        if origins.take(i).contains(origins[i]) {
            let m = choose|m: int| 0 <= m < i && origins.take(i)[m] == origins[i];
            assert(origin_of(params[m]) != origin_of(params[i]));
        }
    }
    lemma_absent(origins.take(i), origins[i]);
}

/// A file is of the host of its address; files without one are of one origin of their own.
pub proof fn files_are_of_their_host(a: DownloadParam, b: DownloadParam)
    ensures
        opt_text(a.src.host) matches Some(host) ==> origin_of(PTaskParam::Download(a)) == host,
        a.src.host is None && b.src.host is None ==> origin_of(PTaskParam::Download(a)) == origin_of(
            PTaskParam::Download(b),
        ),
        a.src.host is None ==> origin_of(PTaskParam::Download(a)) == "local-or-unknown"@,
{
}

/// The first file of an origin is of the first round, and each further one is of the round behind that
/// of the one before it.
pub proof fn files_of_an_origin_are_numbered(origins: Seq<Seq<char>>, i: int, j: int)
    requires
        0 <= i < j < origins.len(),
        origins[i] == origins[j],
        forall|k: int| i < k < j ==> #[trigger] origins[k] != origins[j],
    ensures
        round_of(origins, j) == round_of(origins, i) + 1,
        (forall|k: int| 0 <= k < i ==> #[trigger] origins[k] != origins[i]) ==> round_of(origins, i)
            == 0,
{
    let x = origins[i];
    lemma_occurrences_stand(origins, i + 1, j, x);
    assert(origins.take(i + 1).drop_last() =~= origins.take(i));
    assert(origins.take(i + 1).last() == x);
    if forall|k: int| 0 <= k < i ==> #[trigger] origins[k] != origins[i] {
        lemma_occurrences_stand(origins, 0, i, x);
        assert(origins.take(0) =~= Seq::<Seq<char>>::empty());
    }
}

/// Within a round the origins take their turns in the order in which they come up in the group.
pub proof fn origins_keep_their_order_in_every_round(
    params: Seq<PTaskParam>,
    p: int,
    q: int,
    first: int,
    second: int,
)
    requires
        0 <= p < q < params.len(),
        0 <= first < params.len(),
        0 <= second < params.len(),
        ({
            let origins = origins_of(params);
            let order = ranked(params.len(), in_turn(origins));
            &&& round_of(origins, order[p]) == round_of(origins, order[q])
            &&& origins[first] == origins[order[p]] && round_of(origins, first) == 0
            &&& origins[second] == origins[order[q]] && round_of(origins, second) == 0
        }),
    ensures
        first < second,
{
    let origins = origins_of(params);
    let order = ranked(params.len(), in_turn(origins));
    assert(order == taken(params));
    lemma_taken(params);
    interleaving_takes_origins_in_turn(params, p, q);
    assert(may_precede(in_turn(origins), order[p], order[q]));
    if second < first {
        lemma_first_has_lower_place(origins, second, first);
    } else if first == second {
        lemma_rounds_grow(origins, order[p], order[q]);
    }
}

/// The name of a task group at a time: with the time behind it where groups of the same name are
/// to be told apart.
pub fn group_name_at(task_group: &str, with_timestamp: bool, millis: i64) -> (r: String)
    ensures
        r@ == (if with_timestamp {
            task_group@ + "@"@ + signed_decimal(millis as int)
        } else {
            task_group@
        }),
{
    if with_timestamp {
        let time = signed_decimal_text(millis);
        concat3(task_group, "@", time.as_str())
    } else {
        task_group.to_owned()
    }
}

/// The name of a task group: with the time that the clock shows where groups of the same name are
/// to be told apart.
pub fn group_name(task_group: &str, with_timestamp: bool) -> (r: String)
    ensures
        !with_timestamp ==> r@ == task_group@,
        with_timestamp ==> exists|millis: i64|
            r@ == task_group@ + "@"@ + #[trigger] signed_decimal(millis as int),
{
    if with_timestamp {
        let millis = utc_millis();
        group_name_at(task_group, true, millis)
    } else {
        task_group.to_owned()
    }
}

/// A file to download under a name: its own, or else the one that its path tells.
pub fn with_file_name(param: DownloadParam, derived: &str) -> (r: DownloadParam)
    ensures
        r@ == (ParamModel {
            filename: match param@.filename {
                Some(name) => Some(name),
                None => Some(derived@),
            },
            ..param@
        }),
{
    let mut param = param;
    if param.filename.is_none() {
        param.filename = Some(derived.to_owned());
    }
    param
}

/// The descriptor of a new task of a group: it runs, and nothing of it is done.
pub fn new_task(task_id: u32, task_group: &str, param: DownloadParam) -> (r: PDesc<PTaskParam>)
    ensures
        r.task_id == task_id,
        opt_text(r.task_group) == Some(task_group@),
        r.current == 0,
        r.total == 0,
        r.payload == PTaskParam::Download(param),
        r.status == PStatus::InProgress,
{
    PDesc {
        task_id,
        task_group: Some(task_group.to_owned()),
        current: 0,
        total: 0,
        payload: PTaskParam::Download(param),
        status: PStatus::InProgress,
    }
}

/// The name of the file in which the descriptor of a task is saved.
pub fn task_file_name(task_id: u32) -> (r: String)
    ensures
        r@ == "task-"@ + decimal(task_id as nat) + ".json"@,
{
    let id = decimal_text(task_id as u64);
    concat3("task-", id.as_str(), ".json")
}

} // verus!
