//! The list of instances: its order, and which instance is selected.
use vstd::prelude::*;
use crate::external::{lowercase, lowercase_of};
use crate::instance::models::Instance;
use crate::instance::store::InstanceStore;
use crate::ranking::{
    arrange, arranged, arranging_keeps_items, in_order, may_precede, orders, positions, rank, ranked,
    ranking_is_stable_and_in_order, ranking_keeps_every_position,
};
use crate::text::{before, lemma_before_total, lemma_before_transitive, precedes, same};

verus! {

/// An instance in the list. `version_rank` is the place of its version among the versions of the
/// game, the oldest first.
#[derive(Debug)]
pub struct InstanceSummary {
    pub id: String,
    pub name: String,
    pub version: String,
    pub version_rank: u64,
    pub is_version_isolated: bool,
}

/// Whether an instance keeps its files apart: as its own configuration says, if it uses one and
/// has one, else as the global one does.
pub fn is_version_isolated(instance: &Instance, global_version_isolation: bool) -> (r: bool)
    ensures
        r == (if instance@.use_spec_game_config && instance@.spec_game_config is Some {
            instance@.spec_game_config->0.version_isolation
        } else {
            global_version_isolation
        }),
{
    if instance.use_spec_game_config {
        if let Some(own) = &instance.spec_game_config {
            return own.version_isolation;
        }
    }
    global_version_isolation
}

/// By what an instance is placed in the list.
#[derive(Debug)]
pub struct SummaryKey {
    pub version_rank: u64,
    pub lower_name: String,
}

/// Keys as texts.
pub open spec fn key_views(keys: Seq<SummaryKey>) -> Seq<(u64, Seq<char>)> {
    keys.map_values(|k: SummaryKey| (k.version_rank, k.lower_name@))
}

/// The keys of instances.
pub open spec fn keys_of(list: Seq<InstanceSummary>) -> Seq<(u64, Seq<char>)> {
    list.map_values(|s: InstanceSummary| (s.version_rank, lowercase_of(s.name@)))
}

/// The order of the list: by version, the oldest or the newest first, where that is asked for, and
/// within a version, or else altogether, by name in small letters.
pub open spec fn listed_before(
    keys: Seq<(u64, Seq<char>)>,
    sort_by: Seq<char>,
) -> spec_fn(int, int) -> bool {
    |a: int, b: int|
        {
            let by_name = before(keys[a].1, keys[b].1);
            if sort_by == "versionAsc"@ {
                keys[a].0 < keys[b].0 || (keys[a].0 == keys[b].0 && by_name)
            } else if sort_by == "versionDesc"@ {
                keys[a].0 > keys[b].0 || (keys[a].0 == keys[b].0 && by_name)
            } else {
                by_name
            }
        }
}

fn key_before(a: &SummaryKey, b: &SummaryKey, ascending: bool, descending: bool) -> (r: bool)
    ensures
        r == ({
            let by_name = before(a.lower_name@, b.lower_name@);
            if ascending {
                a.version_rank < b.version_rank || (a.version_rank == b.version_rank && by_name)
            } else if descending {
                a.version_rank > b.version_rank || (a.version_rank == b.version_rank && by_name)
            } else {
                by_name
            }
        }),
{
    let by_name = precedes(a.lower_name.as_str(), b.lower_name.as_str());
    if ascending {
        a.version_rank < b.version_rank || (a.version_rank == b.version_rank && by_name)
    } else if descending {
        a.version_rank > b.version_rank || (a.version_rank == b.version_rank && by_name)
    } else {
        by_name
    }
}

/// The order of a list, by the keys of its instances.
pub fn instance_order(keys: &Vec<SummaryKey>, sort_by: &str) -> (r: Vec<usize>)
    ensures
        positions(r@) == ranked(keys@.len(), listed_before(key_views(keys@), sort_by@)),
{
    let ghost less = listed_before(key_views(keys@), sort_by@);
    let ascending = same(sort_by, "versionAsc");
    let descending = !ascending && same(sort_by, "versionDesc");
    let test = |a: usize, b: usize| -> (c: bool)
        requires
            a < keys.len(),
            b < keys.len(),
        ensures
            c == ({
                let x = keys@[a as int];
                let y = keys@[b as int];
                let by_name = before(x.lower_name@, y.lower_name@);
                if ascending {
                    x.version_rank < y.version_rank || (x.version_rank == y.version_rank && by_name)
                } else if descending {
                    x.version_rank > y.version_rank || (x.version_rank == y.version_rank && by_name)
                } else {
                    by_name
                }
            }),
        { key_before(&keys[a], &keys[b], ascending, descending) };
    assert forall|a: usize, b: usize, c: bool|
        a < keys.len() && b < keys.len() && #[trigger] test.ensures((a, b), c) implies c == less(
        a as int,
        b as int,
    ) by {
        assert(key_views(keys@)[a as int] == (
            keys@[a as int].version_rank,
            keys@[a as int].lower_name@,
        ));
        assert(key_views(keys@)[b as int] == (
            keys@[b as int].version_rank,
            keys@[b as int].lower_name@,
        ));
    }
    rank(keys.len(), test, Ghost(less))
}

/// The list of instances in its order.
pub fn arrange_instances(list: Vec<InstanceSummary>, sort_by: &str) -> (r: Vec<InstanceSummary>)
    ensures
        r@ == arranged(list@, listed_before(keys_of(list@), sort_by@)),
{
    let ghost all = keys_of(list@);
    let mut keys: Vec<SummaryKey> = Vec::new();
    let mut i: usize = 0;
    while i < list.len()
        invariant
            i <= list.len(),
            all == keys_of(list@),
            key_views(keys@) == all.take(i as int),
        decreases list.len() - i,
    {
        let ghost so_far = key_views(keys@);
        keys.push(
            SummaryKey {
                version_rank: list[i].version_rank,
                lower_name: lowercase(list[i].name.as_str()),
            },
        );
        i += 1;
        assert(key_views(keys@) =~= so_far.push(all[i - 1]));
        assert(key_views(keys@) =~= all.take(i as int));
    }
    assert(all.take(list.len() as int) =~= all);
    assert(key_views(keys@).len() == keys@.len());
    let order = instance_order(&keys, sort_by);
    arrange(list, &order, Ghost(listed_before(all, sort_by@)))
}

proof fn lemma_listed_orders(keys: Seq<(u64, Seq<char>)>, sort_by: Seq<char>)
    ensures
        orders(keys.len(), listed_before(keys, sort_by)),
{
    let less = listed_before(keys, sort_by);
    let n = keys.len();
    assert forall|a: int| 0 <= a < n implies !#[trigger] less(a, a) by {
        lemma_before_total(keys[a].1, keys[a].1);
    }
    assert forall|a: int, b: int, c: int|
        0 <= a < n && 0 <= b < n && 0 <= c < n && #[trigger] less(a, b) && #[trigger] less(b, c) implies less(
        a,
        c,
    ) by {
        if before(keys[a].1, keys[b].1) && before(keys[b].1, keys[c].1) {
            lemma_before_transitive(keys[a].1, keys[b].1, keys[c].1);
        }
    }
    assert forall|a: int, b: int, c: int|
        0 <= a < n && 0 <= b < n && 0 <= c < n && !#[trigger] less(a, b) && !#[trigger] less(b, c) implies !less(
        a,
        c,
    ) by {
        lemma_before_total(keys[a].1, keys[b].1);
        lemma_before_total(keys[b].1, keys[c].1);
        lemma_before_total(keys[a].1, keys[c].1);
        if before(keys[b].1, keys[a].1) && before(keys[c].1, keys[b].1) {
            lemma_before_transitive(keys[c].1, keys[b].1, keys[a].1);
        }
    }
}

/// The list is in the order asked for, with every instance once.
pub proof fn instance_list_is_sorted(list: Seq<InstanceSummary>, sort_by: Seq<char>)
    ensures
        ({
            let less = listed_before(keys_of(list), sort_by);
            &&& in_order(ranked(list.len(), less), less)
            &&& arranged(list, less).len() == list.len()
            &&& forall|s: InstanceSummary| #[trigger]
                arranged(list, less).contains(s) <==> list.contains(s)
        }),
{
    let less = listed_before(keys_of(list), sort_by);
    lemma_listed_orders(keys_of(list), sort_by);
    ranking_is_stable_and_in_order(list.len(), less);
    arranging_keeps_items(list, less);
}

/// Of two instances of the list the first has the older version where the list goes by version
/// upwards, and the newer one where it goes downwards. Where the versions are the same, or the list
/// goes by name, its name in small letters does not come after that of the second.
pub proof fn instances_are_listed_as_asked_for(
    list: Seq<InstanceSummary>,
    sort_by: Seq<char>,
    i: int,
    j: int,
)
    requires
        0 <= i < j < list.len(),
    ensures
        ({
            let out = arranged(list, listed_before(keys_of(list), sort_by));
            let by_name = !before(lowercase_of(out[j].name@), lowercase_of(out[i].name@));
            let upwards = sort_by == "versionAsc"@;
            let downwards = sort_by == "versionDesc"@;
            &&& upwards ==> out[i].version_rank <= out[j].version_rank
            &&& downwards ==> out[i].version_rank >= out[j].version_rank
            &&& out[i].version_rank == out[j].version_rank || (!upwards && !downwards) ==> by_name
        }),
{
    reveal_strlit("versionAsc");
    reveal_strlit("versionDesc");
    assert("versionAsc"@.len() != "versionDesc"@.len());
    let keys = keys_of(list);
    let less = listed_before(keys, sort_by);
    let r = ranked(list.len(), less);
    lemma_listed_orders(keys, sort_by);
    ranking_is_stable_and_in_order(list.len(), less);
    ranking_keeps_every_position(list.len(), less);
    arranging_keeps_items(list, less);
    assert(may_precede(less, r[i], r[j]));
    assert(0 <= r[i] < list.len() && 0 <= r[j] < list.len());
    assert(keys[r[i]] == (list[r[i]].version_rank, lowercase_of(list[r[i]].name@)));
    assert(keys[r[j]] == (list[r[j]].version_rank, lowercase_of(list[r[j]].name@)));
}

/// The instance that is selected anew stands first in the list, and once it is selected there is
/// nothing to select.
pub proof fn selections_are_made_once(ids: Seq<Seq<char>>, selected: Seq<char>)
    ensures
        selection_of(ids, selected) is None <==> ids.len() == 0 || ids.contains(selected),
        selection_of(ids, selected) matches Some(id) ==> id == ids[0] && selection_of(ids, id) is None,
{
    if ids.len() > 0 {
        assert(ids.contains(ids[0]));
    }
}

/// The identities of instances.
pub open spec fn ids_of(list: Seq<InstanceSummary>) -> Seq<Seq<char>> {
    list.map_values(|s: InstanceSummary| s.id@)
}

/// The instance to select where the selected one is not in the list: the first one.
pub open spec fn selection_of(ids: Seq<Seq<char>>, selected: Seq<char>) -> Option<Seq<char>> {
    if ids.len() > 0 && !ids.contains(selected) {
        Some(ids[0])
    } else {
        None
    }
}

/// The instance to select where the selected one is not in the list.
pub fn selection_to_make(list: &Vec<InstanceSummary>, selected: &str) -> (r: Option<String>)
    ensures
        crate::text::opt_text(r) == selection_of(ids_of(list@), selected@),
{
    let ghost ids = ids_of(list@);
    if list.len() == 0 {
        return None;
    }
    assert(ids[0] == list@[0].id@);
    let mut i: usize = 0;
    while i < list.len()
        invariant
            i <= list.len(),
            ids == ids_of(list@),
            forall|j: int| 0 <= j < i ==> ids[j] != selected@,
        decreases list.len() - i,
    {
        assert(ids[i as int] == list@[i as int].id@);
        if same(list[i].id.as_str(), selected) {
            return None;
        }
        i += 1;
    }
    Some(list[0].id.clone())
}

/// The instance to select once the files of one are deleted, if it was the selected one: the first
/// one known, or none.
pub fn selection_after_delete(store: &InstanceStore, deleted: &str, selected: &str) -> (r: Option<
    String,
>)
    ensures
        selected@ != deleted@ ==> r is None,
        selected@ == deleted@ ==> (r matches Some(id) && (store@.dom().contains(id@) || (store@.dom()
            == Set::<Seq<char>>::empty() && id@ == ""@))),
{
    if same(selected, deleted) {
        Some(store.first_id())
    } else {
        None
    }
}

} // verus!
