//! Which of the sources of one file to try next.
use std::time::Instant;
use vstd::prelude::*;
use crate::external::{clock_reading, nanos_since, MAX_NANOS};
use crate::ranking::{
    arranged, arranging_keeps_items, positions, rank, ranked, ranking_is_stable_and_in_order,
    ranking_keeps_every_position,
};
use crate::text::{
    distinct, distinct_keeps_texts, opt_text, same, texts, without_repetitions,
};

verus! {

/// Why a source failed.
#[derive(Clone, Copy, Debug, PartialEq, Eq, Structural)]
pub enum SourceFailureKind {
    Connection,
    Timeout,
    Http,
    RateLimited,
    Range,
    Transfer,
    Integrity,
}

/// What was received, and how long it took.
#[derive(Clone, Copy, Debug, PartialEq, Eq, Structural)]
pub struct TransferReport {
    pub bytes: i64,
    pub elapsed_nanos: u128,
}

/// What is remembered of one source. Times are in nanoseconds since the tracker was made.
#[derive(Clone, Copy, Debug, PartialEq, Eq, Structural)]
pub struct CandidateHealth {
    pub failures: u32,
    pub cooldown_until: Option<u128>,
    /// How long the source took to answer last.
    pub latency_nanos: Option<u128>,
    /// The last transfer that makes a speed sample.
    pub transfer: Option<TransferReport>,
}

/// The health of a source of which nothing is known yet.
pub open spec fn fresh() -> CandidateHealth {
    CandidateHealth { failures: 0, cooldown_until: None, latency_nanos: None, transfer: None }
}

/// The seconds for which a source rests after its first failure of a kind.
pub open spec fn base_seconds(kind: SourceFailureKind) -> nat {
    match kind {
        SourceFailureKind::Connection => 2,
        SourceFailureKind::Transfer => 2,
        SourceFailureKind::Timeout => 4,
        SourceFailureKind::Http => 6,
        SourceFailureKind::RateLimited => 20,
        SourceFailureKind::Range => 30,
        SourceFailureKind::Integrity => 60,
    }
}

/// By how much the rest grows with the failures in a row: twice for each, at most eightfold.
pub open spec fn backoff_factor(failures: nat) -> nat {
    if failures <= 1 {
        1
    } else if failures == 2 {
        2
    } else if failures == 3 {
        4
    } else {
        8
    }
}

/// The nanoseconds for which a source rests.
pub open spec fn rest_nanos(kind: SourceFailureKind, failures: nat) -> nat {
    base_seconds(kind) * backoff_factor(failures) * 1_000_000_000
}

/// The sources of one file: in what order they were given, how each has fared, which one served
/// last, and at which one the next round begins.
#[verifier::ext_equal]
pub struct SourceState {
    pub candidates: Seq<Seq<char>>,
    pub health: Map<Seq<char>, CandidateHealth>,
    pub preferred: Option<Seq<char>>,
    pub cursor: int,
}

impl SourceState {
    /// No source is listed twice, the cursor is at one of them, the health of every text is known,
    /// and the source that served last has not failed since.
    pub open spec fn wf(self) -> bool {
        &&& self.candidates.no_duplicates()
        &&& 0 <= self.cursor
        &&& self.cursor < self.candidates.len() || (self.cursor == 0 && self.candidates.len() == 0)
        &&& self.health.dom() == Set::<Seq<char>>::full()
        &&& self.preferred matches Some(p) ==> self.health[p].cooldown_until is None
    }

    /// A source rests: it failed, and its time is not over.
    pub open spec fn resting(self, candidate: Seq<char>, now: u128) -> bool {
        match self.health[candidate].cooldown_until {
            Some(until) => until > now,
            None => false,
        }
    }

    /// Some source does not rest.
    pub open spec fn some_ready(self, now: u128) -> bool {
        exists|c: Seq<char>| #[trigger] self.candidates.contains(c) && !self.resting(c, now)
    }

    /// When the rest of a source ends; below every time if it does not rest.
    pub open spec fn rest_end(self, candidate: Seq<char>) -> int {
        match self.health[candidate].cooldown_until {
            Some(until) => until as int,
            None => -1,
        }
    }

    /// The sources in the order given, beginning `offset` behind the cursor and going round.
    pub open spec fn round(self, offset: nat) -> Seq<Seq<char>> {
        let start = (self.cursor + offset) % (self.candidates.len() as int);
        self.candidates.skip(start) + self.candidates.take(start)
    }

    /// The sources of a round that do not rest.
    pub open spec fn ready(self, offset: nat, now: u128) -> Seq<Seq<char>> {
        self.round(offset).filter(|c: Seq<char>| !self.resting(c, now))
    }

    /// Which of two sources of a round ends its rest first.
    pub open spec fn rests_less(self, offset: nat) -> spec_fn(int, int) -> bool {
        let round = self.round(offset);
        |a: int, b: int| self.rest_end(round[a]) < self.rest_end(round[b])
    }

    /// The sources to try: those that do not rest, in round order; if all rest, all of them,
    /// those first whose rest ends first.
    pub open spec fn usable(self, offset: nat, now: u128) -> Seq<Seq<char>> {
        let ready = self.ready(offset, now);
        if ready.len() == 0 {
            arranged(self.round(offset), self.rests_less(offset))
        } else {
            ready
        }
    }

    /// The sources in the order in which to try them. The first attempt begins with the source
    /// that served last, which changes places with the one that would have come first.
    pub open spec fn order(self, offset: nat, now: u128) -> Seq<Seq<char>> {
        if self.candidates.len() == 0 {
            seq![]
        } else {
            let usable = self.usable(offset, now);
            match self.preferred {
                Some(p) => if offset == 0 && usable.contains(p) {
                    let i = usable.index_of(p);
                    usable.update(i, usable[0]).update(0, p)
                } else {
                    usable
                },
                None => usable,
            }
        }
    }

    /// How long to wait before a source is asked again.
    pub open spec fn remaining_rest(self, candidate: Seq<char>, now: u128) -> int {
        if self.resting(candidate, now) {
            self.rest_end(candidate) - now
        } else {
            0
        }
    }

    /// The state once a source has answered: one failure is forgiven, its rest is over, and it is
    /// asked first from now on.
    pub open spec fn after_response(self, candidate: Seq<char>, latency: u128) -> SourceState {
        let known = self.health[candidate];
        SourceState {
            candidates: self.candidates,
            health: self.health.insert(
                candidate,
                CandidateHealth {
                    failures: if known.failures > 0 {
                        (known.failures - 1) as u32
                    } else {
                        0
                    },
                    cooldown_until: None,
                    latency_nanos: Some(latency),
                    transfer: known.transfer,
                },
            ),
            preferred: Some(candidate),
            cursor: if self.candidates.contains(candidate) {
                self.candidates.index_of(candidate)
            } else {
                self.cursor
            },
        }
    }

    /// The state once a source has failed: it rests, it is no longer asked first, and the next
    /// round begins behind it.
    pub open spec fn after_failure(
        self,
        candidate: Seq<char>,
        kind: SourceFailureKind,
        now: u128,
    ) -> SourceState {
        let known = self.health[candidate];
        let failures: u32 = if known.failures < u32::MAX {
            (known.failures + 1) as u32
        } else {
            known.failures
        };
        SourceState {
            candidates: self.candidates,
            health: self.health.insert(
                candidate,
                CandidateHealth {
                    failures,
                    cooldown_until: Some((now + rest_nanos(kind, failures as nat)) as u128),
                    latency_nanos: known.latency_nanos,
                    transfer: known.transfer,
                },
            ),
            preferred: if self.preferred == Some(candidate) {
                None
            } else {
                self.preferred
            },
            cursor: if self.candidates.contains(candidate) {
                (self.candidates.index_of(candidate) + 1) % (self.candidates.len() as int)
            } else {
                self.cursor
            },
        }
    }

    /// The state with every failure forgotten.
    pub open spec fn recovered(self) -> SourceState {
        SourceState {
            candidates: self.candidates,
            health: Map::new(|c: Seq<char>| true, |c: Seq<char>| cleared(self.health[c])),
            preferred: None,
            cursor: 0,
        }
    }

    /// The state once a transfer is noted. One without bytes or without time leaves no sample.
    pub open spec fn after_transfer(
        self,
        candidate: Seq<char>,
        bytes: i64,
        elapsed: u128,
    ) -> SourceState {
        if bytes <= 0 || elapsed == 0 {
            self
        } else {
            SourceState {
                health: self.health.insert(
                    candidate,
                    CandidateHealth {
                        transfer: Some(TransferReport { bytes, elapsed_nanos: elapsed }),
                        ..self.health[candidate]
                    },
                ),
                ..self
            }
        }
    }
}

/// The health of a source with its failures forgotten; what was measured of it stays.
pub open spec fn cleared(health: CandidateHealth) -> CandidateHealth {
    CandidateHealth { failures: 0, cooldown_until: None, ..health }
}

// ---------------------------------------------------------------------------------------------
// Laws
// ---------------------------------------------------------------------------------------------
proof fn lemma_round(s: SourceState, offset: nat)
    requires
        s.wf(),
        s.candidates.len() > 0,
    ensures
        s.round(offset).len() == s.candidates.len(),
        s.round(offset).no_duplicates(),
        forall|c: Seq<char>| #[trigger] s.round(offset).contains(c) <==> s.candidates.contains(c),
{
    let n = s.candidates.len() as int;
    let start = (s.cursor + offset) % n;
    let r = s.round(offset);
    assert forall|c: Seq<char>| #[trigger] r.contains(c) <==> s.candidates.contains(c) by {
        if r.contains(c) {
            let i = choose|i: int| 0 <= i < r.len() && r[i] == c;
            if i < n - start {
                assert(s.candidates[start + i] == c);
            } else {
                assert(s.candidates[i - (n - start)] == c);
            }
        }
        if s.candidates.contains(c) {
            let k = choose|k: int| 0 <= k < n && s.candidates[k] == c;
            if k >= start {
                assert(r[k - start] == c);
            } else {
                assert(r[k + (n - start)] == c);
            }
        }
    }
}

/// A filter keeps what passes, in the order in which it stood.
proof fn lemma_filter(s: Seq<Seq<char>>, keep: spec_fn(Seq<char>) -> bool)
    ensures
        forall|c: Seq<char>| #[trigger] s.filter(keep).contains(c) <==> s.contains(c) && keep(c),
        s.no_duplicates() ==> s.filter(keep).no_duplicates(),
        s.filter(keep).len() <= s.len(),
        s.len() > 0 && keep(s[0]) ==> s.filter(keep).len() > 0 && s.filter(keep)[0] == s[0],
        (forall|i: int| 0 <= i < s.len() ==> keep(#[trigger] s[i])) ==> s.filter(keep) == s,
    decreases s.len(),
{
    reveal(Seq::filter);
    if s.len() > 0 {
        let rest = s.drop_last();
        lemma_filter(rest, keep);
        let inner = rest.filter(keep);
        let out = s.filter(keep);
        assert forall|c: Seq<char>| #[trigger] out.contains(c) <==> s.contains(c) && keep(c) by {
            if out.contains(c) {
                let i = choose|i: int| 0 <= i < out.len() && out[i] == c;
                if i < inner.len() {
                    assert(inner[i] == c);
                    assert(inner.contains(c));
                    let k = choose|k: int| 0 <= k < rest.len() && rest[k] == c;
                    assert(s[k] == c);
                } else {
                    assert(s[s.len() - 1] == c);
                }
            }
            if s.contains(c) && keep(c) {
                let k = choose|k: int| 0 <= k < s.len() && s[k] == c;
                if k < rest.len() {
                    assert(rest[k] == c);
                    assert(inner.contains(c));
                    let i = choose|i: int| 0 <= i < inner.len() && inner[i] == c;
                    assert(out[i] == c);
                } else {
                    assert(out[out.len() - 1] == c);
                }
            }
        }
        if s.no_duplicates() {
            assert(rest.no_duplicates());
            assert(!rest.contains(s.last())) by {
                if rest.contains(s.last()) {
                    let k = choose|k: int| 0 <= k < rest.len() && rest[k] == s.last();
                    assert(s[k] == s[s.len() - 1]);
                }
            }
            assert(!inner.contains(s.last()));
        }
        if rest.len() > 0 {
            assert(rest[0] == s[0]);
        }
        if forall|i: int| 0 <= i < s.len() ==> keep(#[trigger] s[i]) {
            assert forall|i: int| 0 <= i < rest.len() implies keep(#[trigger] rest[i]) by {
                assert(keep(s[i]));
            }
            assert(keep(s[s.len() - 1]));
            assert(out =~= s);
        }
    } else {
        assert(s.filter(keep) =~= s);
    }
}

proof fn lemma_usable(s: SourceState, offset: nat, now: u128)
    requires
        s.wf(),
        s.candidates.len() > 0,
    ensures
        s.usable(offset, now).len() > 0,
        s.usable(offset, now).no_duplicates(),
        forall|c: Seq<char>| #[trigger]
            s.usable(offset, now).contains(c) ==> s.candidates.contains(c),
        forall|c: Seq<char>|
            s.candidates.contains(c) && !s.resting(c, now) ==> #[trigger] s.usable(
                offset,
                now,
            ).contains(c),
        s.some_ready(now) ==> forall|c: Seq<char>| #[trigger]
            s.usable(offset, now).contains(c) ==> !s.resting(c, now),
{
    let keep = |c: Seq<char>| !s.resting(c, now);
    lemma_round(s, offset);
    lemma_filter(s.round(offset), keep);
    arranging_keeps_items(s.round(offset), s.rests_less(offset));
    if s.ready(offset, now).len() == 0 {
        assert forall|c: Seq<char>| s.candidates.contains(c) && !s.resting(c, now) implies false by {
            assert(s.round(offset).contains(c));
            assert(s.ready(offset, now).contains(c));
        }
    }
}

/// The order lists sources that were given, none twice, and never nothing while there is one.
pub proof fn order_lists_given_sources(s: SourceState, offset: nat, now: u128)
    requires
        s.wf(),
    ensures
        s.order(offset, now).no_duplicates(),
        forall|c: Seq<char>| #[trigger]
            s.order(offset, now).contains(c) ==> s.candidates.contains(c),
        s.candidates.len() > 0 ==> s.order(offset, now).len() > 0,
        forall|c: Seq<char>| #[trigger]
            s.usable(offset, now).contains(c) && s.candidates.len() > 0 ==> s.order(
                offset,
                now,
            ).contains(c),
        forall|c: Seq<char>| #[trigger]
            s.order(offset, now).contains(c) ==> s.usable(offset, now).contains(c),
{
    if s.candidates.len() > 0 {
        lemma_usable(s, offset, now);
        let u = s.usable(offset, now);
        let out = s.order(offset, now);
        if s.preferred is Some && offset == 0 && u.contains(s.preferred->0) {
            let p = s.preferred->0;
            let i = u.index_of(p);
            assert(u[i] == p);
            assert forall|c: Seq<char>| #[trigger] out.contains(c) implies u.contains(c) by {
                let k = choose|k: int| 0 <= k < out.len() && out[k] == c;
                if k == 0 {
                    assert(u[i] == c);
                } else if k == i {
                    assert(u[0] == c);
                } else {
                    assert(u[k] == c);
                }
            }
            assert forall|c: Seq<char>| #[trigger] u.contains(c) implies out.contains(c) by {
                let k = choose|k: int| 0 <= k < u.len() && u[k] == c;
                if k == 0 {
                    assert(out[i] == c);
                } else if k == i {
                    assert(out[0] == c);
                } else {
                    assert(out[k] == c);
                }
            }
        }
    }
}

/// While another source does not rest, a resting source is not tried.
pub proof fn resting_sources_are_passed_over(
    s: SourceState,
    offset: nat,
    now: u128,
    resting: Seq<char>,
    other: Seq<char>,
)
    requires
        s.wf(),
        s.resting(resting, now),
        s.candidates.contains(other),
        !s.resting(other, now),
    ensures
        !s.order(offset, now).contains(resting),
        s.order(offset, now).contains(other),
{
    lemma_usable(s, offset, now);
    order_lists_given_sources(s, offset, now);
    assert(s.usable(offset, now).contains(other));
}

/// A failed source rests from the failure on, for the time that its kind of failure and its
/// failures in a row call for. What is known of the others does not change.
pub proof fn failed_source_rests(
    s: SourceState,
    candidate: Seq<char>,
    kind: SourceFailureKind,
    failed_at: u128,
    now: u128,
)
    requires
        s.wf(),
        failed_at <= MAX_NANOS,
    ensures
        ({
            let after = s.after_failure(candidate, kind, failed_at);
            let failures = after.health[candidate].failures;
            &&& after.wf()
            &&& failures >= 1
            &&& after.resting(candidate, now) <==> now < failed_at + rest_nanos(
                kind,
                failures as nat,
            )
            &&& forall|c: Seq<char>|
                c != candidate ==> #[trigger] after.health[c] == s.health[c]
        }),
{
    let after = s.after_failure(candidate, kind, failed_at);
    assert(after.health.dom() =~= Set::<Seq<char>>::full());
    assert(rest_nanos(kind, after.health[candidate].failures as nat) <= 480_000_000_000) by {
        assert(base_seconds(kind) <= 60);
        assert(backoff_factor(after.health[candidate].failures as nat) <= 8);
        assert(base_seconds(kind) * backoff_factor(after.health[candidate].failures as nat) <= 480)
            by (nonlinear_arith)
            requires
                base_seconds(kind) <= 60,
                backoff_factor(after.health[candidate].failures as nat) <= 8,
        ;
    }
    if s.candidates.contains(candidate) {
        let i = s.candidates.index_of(candidate);
        assert(s.candidates[i] == candidate);
    }
}

/// After a failure the next attempt begins with the source behind the failed one, unless that
/// one rests or another source is to be asked first.
pub proof fn failure_moves_on_to_the_next_source(
    s: SourceState,
    index: int,
    kind: SourceFailureKind,
    failed_at: u128,
    now: u128,
)
    requires
        s.wf(),
        s.candidates.len() > 1,
        0 <= index < s.candidates.len(),
        failed_at <= MAX_NANOS,
        s.preferred is None || s.preferred == Some(s.candidates[index]),
        !s.resting(s.candidates[(index + 1) % (s.candidates.len() as int)], now),
    ensures
        ({
            let after = s.after_failure(s.candidates[index], kind, failed_at);
            let next = s.candidates[(index + 1) % (s.candidates.len() as int)];
            &&& next != s.candidates[index]
            &&& after.order(0, now).len() > 0
            &&& after.order(0, now)[0] == next
        }),
{
    let c = s.candidates[index];
    let n = s.candidates.len() as int;
    let after = s.after_failure(c, kind, failed_at);
    assert(s.candidates.contains(c));
    assert(s.candidates.index_of(c) == index);
    let next_index = (index + 1) % n;
    assert(0 <= next_index < n && next_index != index) by {
        if index + 1 < n {
            assert(next_index == index + 1) by (nonlinear_arith)
                requires
                    0 <= index + 1 < n,
                    next_index == (index + 1) % n,
            ;
        } else {
            assert(next_index == 0) by (nonlinear_arith)
                requires
                    index + 1 == n,
                    n > 1,
                    next_index == (index + 1) % n,
            ;
        }
    }
    failed_source_rests(s, c, kind, failed_at, now);
    lemma_round(after, 0);
    let round = after.round(0);
    assert((after.cursor + 0) % n == next_index) by (nonlinear_arith)
        requires
            after.cursor == next_index,
            0 <= next_index < n,
    ;
    assert(round[0] == s.candidates[next_index]);
    assert(!after.resting(round[0], now));
    lemma_filter(round, |x: Seq<char>| !after.resting(x, now));
}

/// A source that answered is tried first, at every time until it fails.
pub proof fn answering_source_is_tried_first(
    s: SourceState,
    candidate: Seq<char>,
    latency: u128,
    now: u128,
)
    requires
        s.wf(),
        s.candidates.contains(candidate),
    ensures
        s.after_response(candidate, latency).wf(),
        s.after_response(candidate, latency).order(0, now).len() > 0,
        s.after_response(candidate, latency).order(0, now)[0] == candidate,
{
    let after = s.after_response(candidate, latency);
    assert(after.health.dom() =~= Set::<Seq<char>>::full());
    assert(s.candidates[s.candidates.index_of(candidate)] == candidate);
    preferred_source_is_tried_first(after, candidate, now);
}

/// The source that served last is tried first, whatever other sources do.
pub proof fn preferred_source_is_tried_first(s: SourceState, candidate: Seq<char>, now: u128)
    requires
        s.wf(),
        s.preferred == Some(candidate),
        s.candidates.contains(candidate),
    ensures
        s.order(0, now).len() > 0,
        s.order(0, now)[0] == candidate,
{
    lemma_usable(s, 0, now);
    assert(s.usable(0, now).contains(candidate));
}

/// The order of the sources. None is listed twice, and nothing is listed only where nothing was
/// given. While some source does not rest, exactly those are listed that do not rest; if all of them
/// rest, all are listed, those first whose rest ends first. The first attempt begins with the source
/// that served last.
pub proof fn sources_are_tried_in_order(s: SourceState, offset: nat, now: u128)
    requires
        s.wf(),
    ensures
        s.order(offset, now).no_duplicates(),
        s.order(offset, now).len() == 0 <==> s.candidates.len() == 0,
        s.some_ready(now) ==> forall|c: Seq<char>| #[trigger]
            s.order(offset, now).contains(c) <==> s.candidates.contains(c) && !s.resting(c, now),
        !s.some_ready(now) ==> forall|c: Seq<char>| #[trigger]
            s.order(offset, now).contains(c) <==> s.candidates.contains(c),
        !s.some_ready(now) ==> forall|i: int, j: int|
            0 <= i < j < s.order(offset, now).len() ==> s.rest_end(
                #[trigger] s.order(offset, now)[i],
            ) <= s.rest_end(#[trigger] s.order(offset, now)[j]),
        s.preferred matches Some(p) ==> s.candidates.contains(p) && offset == 0 ==> s.order(
            offset,
            now,
        )[0] == p,
{
    order_lists_given_sources(s, offset, now);
    if s.candidates.len() > 0 {
        lemma_usable(s, offset, now);
        if let Some(p) = s.preferred {
            if s.candidates.contains(p) {
                assert(!s.resting(p, now));
                assert(s.usable(offset, now).contains(p));
            }
        }
        if s.some_ready(now) {
            let usable = s.usable(offset, now);
            assert forall|c: Seq<char>| #[trigger] s.order(offset, now).contains(c) <==> s.candidates.contains(
                c,
            ) && !s.resting(c, now) by {
                assert(usable.contains(c) <==> s.order(offset, now).contains(c));
            }
        } else {
            lemma_all_rest(s, offset, now);
        }
    }
}

/// If all sources rest, they are arranged by the end of their rest.
proof fn lemma_all_rest(s: SourceState, offset: nat, now: u128)
    requires
        s.wf(),
        s.candidates.len() > 0,
        !s.some_ready(now),
    ensures
        forall|c: Seq<char>| #[trigger]
            s.order(offset, now).contains(c) <==> s.candidates.contains(c),
        forall|i: int, j: int|
            0 <= i < j < s.order(offset, now).len() ==> s.rest_end(
                #[trigger] s.order(offset, now)[i],
            ) <= s.rest_end(#[trigger] s.order(offset, now)[j]),
{
    let round = s.round(offset);
    let less = s.rests_less(offset);
    let n = round.len();
    let order = s.order(offset, now);
    lemma_round(s, offset);
    lemma_usable(s, offset, now);
    order_lists_given_sources(s, offset, now);
    lemma_filter(round, |c: Seq<char>| !s.resting(c, now));
    arranging_keeps_items(round, less);
    if s.ready(offset, now).len() > 0 {
        let c = s.ready(offset, now)[0];
        assert(s.ready(offset, now).contains(c));
        assert(s.candidates.contains(c));
    }
    if let Some(p) = s.preferred {
        assert(!s.resting(p, now));
        assert(!s.usable(offset, now).contains(p));
    }
    assert(order == arranged(round, less));
    ranking_is_stable_and_in_order(n, less);
    ranking_keeps_every_position(n, less);
}

/// That another source fails does not change which source is tried first.
pub proof fn failure_of_another_source_keeps_the_preferred_one(
    s: SourceState,
    candidate: Seq<char>,
    other: Seq<char>,
    kind: SourceFailureKind,
    failed_at: u128,
    now: u128,
)
    requires
        s.wf(),
        failed_at <= MAX_NANOS,
        s.preferred == Some(candidate),
        s.candidates.contains(candidate),
        other != candidate,
    ensures
        s.after_failure(other, kind, failed_at).order(0, now).len() > 0,
        s.after_failure(other, kind, failed_at).order(0, now)[0] == candidate,
{
    failed_source_rests(s, other, kind, failed_at, now);
    preferred_source_is_tried_first(s.after_failure(other, kind, failed_at), candidate, now);
}

/// A noted transfer changes the order of the sources at no time.
pub proof fn transfers_do_not_reorder(
    s: SourceState,
    candidate: Seq<char>,
    bytes: i64,
    elapsed: u128,
    offset: nat,
    now: u128,
)
    requires
        s.wf(),
    ensures
        s.after_transfer(candidate, bytes, elapsed).wf(),
        s.after_transfer(candidate, bytes, elapsed).order(offset, now) == s.order(offset, now),
{
    let after = s.after_transfer(candidate, bytes, elapsed);
    assert(after.health.dom() =~= Set::<Seq<char>>::full());
    assert(forall|c: Seq<char>| #[trigger] after.health[c].cooldown_until == s.health[c].cooldown_until);
    let keep = |c: Seq<char>| !s.resting(c, now);
    let keep_after = |c: Seq<char>| !after.resting(c, now);
    assert(keep_after =~= keep);
    assert(after.rests_less(offset) =~= s.rests_less(offset));
    assert(after.ready(offset, now) == s.ready(offset, now));
}

/// Recovery restores the order in which the sources were given.
pub proof fn recovery_restores_the_given_order(s: SourceState, now: u128)
    requires
        s.wf(),
    ensures
        s.recovered().wf(),
        s.recovered().order(0, now) == s.candidates,
{
    let after = s.recovered();
    assert(after.health.dom() =~= Set::<Seq<char>>::full());
    if s.candidates.len() > 0 {
        let n = s.candidates.len() as int;
        assert((after.cursor + 0) % n == 0) by (nonlinear_arith)
            requires
                after.cursor == 0,
                n > 0,
        ;
        assert(after.round(0) =~= s.candidates);
        let keep = |c: Seq<char>| !after.resting(c, now);
        lemma_filter(after.round(0), keep);
        assert forall|i: int| 0 <= i < after.round(0).len() implies keep(
            #[trigger] after.round(0)[i],
        ) by {
            assert(after.health[after.round(0)[i]].cooldown_until is None);
        }
        assert(after.ready(0, now) == s.candidates);
    } else {
        assert(after.order(0, now) =~= s.candidates);
    }
}

/// A first failure makes a source rest for two seconds if it could not be reached or broke off, for
/// four if it did not answer in time, for six if it refused, and for longer where it asked for
/// patience, sent another range, or sent a file that is not the one. Every further failure in a row
/// doubles the rest, up to eight times the first.
pub proof fn rests_double_with_every_failure(kind: SourceFailureKind, failures: nat)
    ensures
        rest_nanos(SourceFailureKind::Connection, 1) == 2_000_000_000,
        rest_nanos(SourceFailureKind::Transfer, 1) == 2_000_000_000,
        rest_nanos(SourceFailureKind::Timeout, 1) == 4_000_000_000,
        rest_nanos(SourceFailureKind::Http, 1) == 6_000_000_000,
        rest_nanos(SourceFailureKind::RateLimited, 1) == 20_000_000_000,
        rest_nanos(SourceFailureKind::Range, 1) == 30_000_000_000,
        rest_nanos(SourceFailureKind::Integrity, 1) == 60_000_000_000,
        1 <= failures < 4 ==> rest_nanos(kind, failures + 1) == 2 * rest_nanos(kind, failures),
        failures >= 4 ==> rest_nanos(kind, failures + 1) == rest_nanos(kind, failures),
        failures >= 4 ==> rest_nanos(kind, failures) == 8 * rest_nanos(kind, 1),
{
    match kind {
        SourceFailureKind::Connection => {},
        SourceFailureKind::Transfer => {},
        SourceFailureKind::Timeout => {},
        SourceFailureKind::Http => {},
        SourceFailureKind::RateLimited => {},
        SourceFailureKind::Range => {},
        SourceFailureKind::Integrity => {},
    }
}

/// A failure is counted, an answer takes one off the count, and recovery takes off all of them. What
/// was measured of a source stays, but for what is measured anew.
pub proof fn failures_are_counted_and_forgiven(
    s: SourceState,
    candidate: Seq<char>,
    kind: SourceFailureKind,
    latency: u128,
    bytes: i64,
    elapsed: u128,
    now: u128,
)
    requires
        s.health[candidate].failures < u32::MAX,
    ensures
        ({
            let known = s.health[candidate];
            let failed = s.after_failure(candidate, kind, now).health[candidate];
            let answered = s.after_response(candidate, latency).health[candidate];
            let recovered = s.recovered().health[candidate];
            let sent = s.after_transfer(candidate, bytes, elapsed).health[candidate];
            &&& failed.failures == known.failures + 1
            &&& known.failures == 0 ==> answered.failures == 0
            &&& known.failures > 0 ==> answered.failures == known.failures - 1
            &&& recovered.failures == 0 && recovered.cooldown_until is None
            &&& sent.failures == known.failures && sent.cooldown_until == known.cooldown_until
            &&& failed.latency_nanos == known.latency_nanos && failed.transfer == known.transfer
            &&& answered.latency_nanos == Some(latency) && answered.transfer == known.transfer
            &&& recovered.latency_nanos == known.latency_nanos && recovered.transfer
                == known.transfer
            &&& sent.latency_nanos == known.latency_nanos
            &&& bytes > 0 && elapsed > 0 ==> (sent.transfer matches Some(t) && t.bytes == bytes
                && t.elapsed_nanos == elapsed)
            &&& bytes <= 0 || elapsed == 0 ==> sent.transfer == known.transfer
        }),
{
}

/// A source is waited for until its rest ends, and no longer; the wait gets shorter as time goes by.
pub proof fn waits_end_with_the_rest(
    s: SourceState,
    candidate: Seq<char>,
    kind: SourceFailureKind,
    failed_at: u128,
    later: u128,
)
    requires
        s.wf(),
        failed_at <= MAX_NANOS,
        failed_at <= later,
    ensures
        ({
            let after = s.after_failure(candidate, kind, failed_at);
            let rest = rest_nanos(kind, after.health[candidate].failures as nat);
            &&& after.remaining_rest(candidate, failed_at) == rest
            &&& later - failed_at <= rest ==> after.remaining_rest(candidate, later) == rest - (later
                - failed_at)
            &&& later - failed_at >= rest ==> after.remaining_rest(candidate, later) == 0
            &&& s.health[candidate].cooldown_until is None ==> s.remaining_rest(candidate, later) == 0
        }),
{
    failed_source_rests(s, candidate, kind, failed_at, later);
    failed_source_rests(s, candidate, kind, failed_at, failed_at);
    let after = s.after_failure(candidate, kind, failed_at);
    let failures = after.health[candidate].failures as nat;
    assert(0 < base_seconds(kind) * backoff_factor(failures) <= 480) by (nonlinear_arith)
        requires
            0 < base_seconds(kind) <= 60,
            0 < backoff_factor(failures) <= 8,
    ;
}

/// Where no source rests and none is to be asked first, attempt after attempt begins one source further
/// on, and goes round through all of them in the order in which they were given.
pub proof fn attempts_go_round(s: SourceState, offset: nat, now: u128, i: int)
    requires
        s.wf(),
        s.preferred is None,
        forall|c: Seq<char>| #[trigger] s.candidates.contains(c) ==> !s.resting(c, now),
        0 <= i < s.candidates.len(),
    ensures
        s.order(offset, now).len() == s.candidates.len(),
        s.order(offset, now)[i] == s.candidates[(s.cursor + offset + i) % (s.candidates.len() as int)],
{
    let n = s.candidates.len() as int;
    let start = (s.cursor + offset) % n;
    let keep = |c: Seq<char>| !s.resting(c, now);
    let round = s.round(offset);
    lemma_round(s, offset);
    lemma_filter(round, keep);
    assert forall|k: int| 0 <= k < round.len() implies keep(#[trigger] round[k]) by {
        assert(round.contains(round[k]));
    }
    assert(s.ready(offset, now) == round);
    vstd::arithmetic::div_mod::lemma_add_mod_noop(s.cursor + offset, i, n);
    assert(i % n == i) by (nonlinear_arith)
        requires
            0 <= i < n,
    ;
    assert((s.cursor + offset + i) % n == (start + i) % n);
    if start + i < n {
        assert((start + i) % n == start + i) by (nonlinear_arith)
            requires
                0 <= start + i < n,
        ;
    } else {
        assert((start + i) % n == start + i - n) by {
            vstd::arithmetic::div_mod::lemma_mod_sub_multiples_vanish(start + i, n);
            assert((start + i - n) % n == start + i - n) by (nonlinear_arith)
                requires
                    0 <= start + i - n < n,
            ;
        }
    }
}

/// A round begins at the source that answered last, and behind the one that failed last.
pub proof fn rounds_begin_where_the_last_one_ended(
    s: SourceState,
    index: int,
    latency: u128,
    kind: SourceFailureKind,
    now: u128,
)
    requires
        s.wf(),
        0 <= index < s.candidates.len(),
    ensures
        s.after_response(s.candidates[index], latency).cursor == index,
        index + 1 < s.candidates.len() ==> s.after_failure(s.candidates[index], kind, now).cursor
            == index + 1,
        index + 1 == s.candidates.len() ==> s.after_failure(s.candidates[index], kind, now).cursor == 0,
        s.recovered().cursor == 0,
        s.recovered().preferred is None,
{
    let n = s.candidates.len() as int;
    assert(s.candidates.contains(s.candidates[index]));
    assert(s.candidates.index_of(s.candidates[index]) == index);
    if index + 1 < n {
        assert((index + 1) % n == index + 1) by (nonlinear_arith)
            requires
                0 <= index + 1 < n,
        ;
    } else {
        assert(n % n == 0) by (nonlinear_arith)
            requires
                n > 0,
        ;
    }
}

// ---------------------------------------------------------------------------------------------
// The tracker
// ---------------------------------------------------------------------------------------------
/// The health of one source, under its address.
pub struct HealthEntry {
    pub candidate: String,
    pub health: CandidateHealth,
}

/// Entry `i` is that of `candidate`.
spec fn entry_of(entries: Seq<HealthEntry>, candidate: Seq<char>, i: int) -> bool {
    0 <= i < entries.len() && entries[i].candidate@ == candidate
}

/// What the entries say of a source.
spec fn health_of(entries: Seq<HealthEntry>, candidate: Seq<char>) -> CandidateHealth {
    if exists|i: int| entry_of(entries, candidate, i) {
        entries[choose|i: int| entry_of(entries, candidate, i)].health
    } else {
        fresh()
    }
}

/// No source has two entries.
spec fn one_entry_each(entries: Seq<HealthEntry>) -> bool {
    forall|i: int, j: int|
        0 <= i < j < entries.len() ==> #[trigger] entries[i].candidate@
            != #[trigger] entries[j].candidate@
}

proof fn lemma_health_of(entries: Seq<HealthEntry>, i: int)
    requires
        one_entry_each(entries),
        0 <= i < entries.len(),
    ensures
        health_of(entries, entries[i].candidate@) == entries[i].health,
{
    let c = entries[i].candidate@;
    assert(entry_of(entries, c, i));
    let k = choose|k: int| entry_of(entries, c, k);
    if k < i {
        assert(entries[k].candidate@ != entries[i].candidate@);
    } else if i < k {
        assert(entries[i].candidate@ != entries[k].candidate@);
    }
}

/// The state of the sources of one file.
///
/// A tracker belongs to exactly one target file: what one file meets at a source does not change
/// the order in which another file asks.
pub struct FileSourceTracker {
    candidates: Vec<String>,
    health: Vec<HealthEntry>,
    preferred: Option<String>,
    cursor: usize,
    started: Instant,
}

impl View for FileSourceTracker {
    type V = SourceState;

    closed spec fn view(&self) -> SourceState {
        SourceState {
            candidates: texts(self.candidates@),
            health: Map::new(|c: Seq<char>| true, |c: Seq<char>| health_of(self.health@, c)),
            preferred: opt_text(self.preferred),
            cursor: self.cursor as int,
        }
    }
}

impl FileSourceTracker {
    #[verifier::type_invariant]
    spec fn inv(self) -> bool {
        &&& texts(self.candidates@).no_duplicates()
        &&& self.cursor < self.candidates.len() || (self.cursor == 0 && self.candidates.len() == 0)
        &&& one_entry_each(self.health@)
        &&& self.preferred matches Some(p) ==> health_of(self.health@, p@).cooldown_until is None
    }

    /// A tracker for the given sources, in the order given and without repetitions.
    pub fn new(candidates: Vec<String>) -> (r: Self)
        ensures
            r@.wf(),
            r@.candidates == distinct(texts(candidates@)),
            r@.health == Map::new(|c: Seq<char>| true, |c: Seq<char>| fresh()),
            r@.preferred is None,
            r@.cursor == 0,
    {
        let kept = without_repetitions(&candidates);
        proof {
            distinct_keeps_texts(texts(candidates@));
        }
        let r = FileSourceTracker {
            candidates: kept,
            health: Vec::new(),
            preferred: None,
            cursor: 0,
            started: clock_reading(),
        };
        assert(r@.health =~= Map::new(|c: Seq<char>| true, |c: Seq<char>| fresh()));
        assert(r@.health.dom() =~= Set::<Seq<char>>::full());
        r
    }

    fn entry_index(&self, candidate: &str) -> (r: Option<usize>)
        ensures
            match r {
                Some(i) => entry_of(self.health@, candidate@, i as int),
                None => forall|i: int| !#[trigger] entry_of(self.health@, candidate@, i),
            },
    {
        let mut i: usize = 0;
        while i < self.health.len()
            invariant
                i <= self.health.len(),
                forall|j: int| 0 <= j < i ==> self.health@[j].candidate@ != candidate@,
            decreases self.health.len() - i,
        {
            if same(self.health[i].candidate.as_str(), candidate) {
                return Some(i);
            }
            i += 1;
        }
        None
    }

    fn health(&self, candidate: &str) -> (r: CandidateHealth)
        ensures
            r == self@.health[candidate@],
    {
        proof {
            use_type_invariant(self);
        }
        match self.entry_index(candidate) {
            Some(i) => {
                proof {
                    lemma_health_of(self.health@, i as int);
                }
                self.health[i].health
            },
            None => CandidateHealth {
                failures: 0,
                cooldown_until: None,
                latency_nanos: None,
                transfer: None,
            },
        }
    }

    fn set_health(&mut self, candidate: &str, health: CandidateHealth)
        requires
            old(self)@.preferred == Some(candidate@) ==> health.cooldown_until is None,
        ensures
            final(self)@ == (SourceState {
                health: old(self)@.health.insert(candidate@, health),
                ..old(self)@
            }),
            final(self).candidates == old(self).candidates,
            final(self).preferred == old(self).preferred,
            final(self).cursor == old(self).cursor,
    {
        proof {
            use_type_invariant(&*self);
        }
        let ghost before = self.health@;
        let ghost view_before = self@;
        let mut entries: Vec<HealthEntry> = Vec::new();
        match self.entry_index(candidate) {
            Some(i) => {
                std::mem::swap(&mut entries, &mut self.health);
                let entry = HealthEntry { candidate: candidate.to_owned(), health };
                entries.set(i, entry);
                assert(one_entry_each(entries@));
                proof {
                    assert forall|c: Seq<char>| #[trigger] health_of(entries@, c) == (if c
                        == candidate@ {
                        health
                    } else {
                        health_of(before, c)
                    }) by {
                        lemma_health_of(entries@, i as int);
                        if exists|k: int| entry_of(before, c, k) {
                            let k = choose|k: int| entry_of(before, c, k);
                            lemma_health_of(before, k);
                            lemma_health_of(entries@, k);
                        } else if c != candidate@ {
                            assert forall|k: int| !#[trigger] entry_of(entries@, c, k) by {
                                if entry_of(entries@, c, k) {
                                    assert(entry_of(before, c, k));
                                }
                            }
                        }
                    }
                }
            },
            None => {
                std::mem::swap(&mut entries, &mut self.health);
                let entry = HealthEntry { candidate: candidate.to_owned(), health };
                entries.push(entry);
                proof {
                    assert forall|i: int, j: int| 0 <= i < j < entries.len() implies #[trigger] entries@[i].candidate@
                        != #[trigger] entries@[j].candidate@ by {
                        if j == before.len() {
                            assert(!entry_of(before, candidate@, i));
                        }
                    }
                    assert forall|c: Seq<char>| #[trigger] health_of(entries@, c) == (if c
                        == candidate@ {
                        health
                    } else {
                        health_of(before, c)
                    }) by {
                        lemma_health_of(entries@, before.len() as int);
                        if c != candidate@ {
                            if exists|k: int| entry_of(before, c, k) {
                                let k = choose|k: int| entry_of(before, c, k);
                                lemma_health_of(before, k);
                                lemma_health_of(entries@, k);
                            } else {
                                assert forall|k: int| !#[trigger] entry_of(entries@, c, k) by {
                                    if entry_of(entries@, c, k) {
                                        assert(entry_of(before, c, k));
                                    }
                                }
                            }
                        }
                    }
                }
            },
        }
        self.health = entries;
        assert(self@.health =~= view_before.health.insert(candidate@, health));
    }

    fn candidate_index(&self, candidate: &str) -> (r: Option<usize>)
        ensures
            match r {
                Some(i) => i < self.candidates.len() && self@.candidates.contains(candidate@)
                    && self@.candidates.index_of(candidate@) == i,
                None => !self@.candidates.contains(candidate@),
            },
    {
        proof {
            use_type_invariant(self);
        }
        let mut i: usize = 0;
        while i < self.candidates.len()
            invariant
                i <= self.candidates.len(),
                self@.candidates.no_duplicates(),
                forall|j: int| 0 <= j < i ==> self@.candidates[j] != candidate@,
            decreases self.candidates.len() - i,
        {
            if same(self.candidates[i].as_str(), candidate) {
                assert(self@.candidates[i as int] == candidate@);
                return Some(i);
            }
            i += 1;
        }
        None
    }

    /// The sources in the order in which to try them at a given time.
    pub fn ordered_candidates_at(&self, offset: usize, now: u128) -> (r: Vec<String>)
        ensures
            self@.wf(),
            texts(r@) == self@.order(offset as nat, now),
    {
        proof {
            use_type_invariant(self);
            lemma_view_wf(self);
        }
        let n = self.candidates.len();
        if n == 0 {
            let none: Vec<String> = Vec::new();
            assert(texts(none@) =~= seq![]);
            return none;
        }
        let shift: usize = offset % n;
        let start: usize = if self.cursor >= n - shift {
            self.cursor - (n - shift)
        } else {
            self.cursor + shift
        };
        proof {
            lemma_start(self.cursor as int, offset as int, n as int);
            lemma_round(self@, offset as nat);
            lemma_usable(self@, offset as nat, now);
        }
        let mut round: Vec<String> = Vec::new();
        let mut i: usize = start;
        while i < n
            invariant
                start <= i <= n,
                n == self.candidates.len(),
                texts(round@) == self@.candidates.subrange(start as int, i as int),
            decreases n - i,
        {
            let ghost so_far = texts(round@);
            round.push(self.candidates[i].clone());
            i += 1;
            assert(self@.candidates[i - 1] == self.candidates@[i - 1]@);
            assert(texts(round@) =~= so_far.push(self@.candidates[i - 1]));
            assert(texts(round@) =~= self@.candidates.subrange(start as int, i as int));
        }
        i = 0;
        while i < start
            invariant
                i <= start <= n,
                n == self.candidates.len(),
                texts(round@) == self@.candidates.skip(start as int) + self@.candidates.take(i as int),
            decreases start - i,
        {
            let ghost so_far = texts(round@);
            round.push(self.candidates[i].clone());
            i += 1;
            assert(self@.candidates[i - 1] == self.candidates@[i - 1]@);
            assert(texts(round@) =~= so_far.push(self@.candidates[i - 1]));
            assert(texts(round@) =~= self@.candidates.skip(start as int) + self@.candidates.take(
                i as int,
            ));
        }
        assert(texts(round@) == self@.round(offset as nat));
        let mut ordered: Vec<String> = Vec::new();
        let ghost keep = |c: Seq<char>| !self@.resting(c, now);
        i = 0;
        assert(texts(ordered@) =~= texts(round@).take(0).filter(keep)) by {
            reveal(Seq::filter);
        }
        while i < round.len()
            invariant
                i <= round.len(),
                keep == (|c: Seq<char>| !self@.resting(c, now)),
                texts(ordered@) == texts(round@).take(i as int).filter(keep),
            decreases round.len() - i,
        {
            let ghost so_far = texts(ordered@);
            let resting = match self.health(round[i].as_str()).cooldown_until {
                Some(until) => until > now,
                None => false,
            };
            proof {
                let all = texts(round@);
                assert(all.take(i + 1).drop_last() =~= all.take(i as int));
                assert(all.take(i + 1).last() == round@[i as int]@);
                reveal(Seq::filter);
            }
            if !resting {
                ordered.push(round[i].clone());
                assert(texts(ordered@) =~= so_far.push(round@[i as int]@));
            }
            i += 1;
        }
        assert(texts(round@).take(round.len() as int) =~= texts(round@));
        if ordered.len() == 0 {
            ordered = self.by_rest_end(&round, Ghost(offset as nat));
        }
        assert(texts(ordered@) == self@.usable(offset as nat, now)) by {
            assert(texts(ordered@).len() == ordered@.len());
        }
        if offset == 0 {
            if let Some(preferred) = &self.preferred {
                i = 0;
                while i < ordered.len()
                    invariant
                        i <= ordered.len(),
                        forall|j: int| 0 <= j < i ==> ordered@[j]@ != preferred@,
                        texts(ordered@) == self@.usable(0, now),
                        self.preferred == Some(*preferred),
                        self@.wf(),
                        self@.candidates.len() > 0,
                        self@.usable(0, now).no_duplicates(),
                        offset == 0,
                    decreases ordered.len() - i,
                {
                    if same(ordered[i].as_str(), preferred.as_str()) {
                        let ghost usable = texts(ordered@);
                        assert(usable[i as int] == preferred@);
                        assert(usable.index_of(preferred@) == i);
                        let first = ordered[0].clone();
                        let chosen = ordered[i].clone();
                        ordered.set(i, first);
                        ordered.set(0, chosen);
                        assert(texts(ordered@) =~= usable.update(i as int, usable[0]).update(
                            0,
                            preferred@,
                        ));
                        return ordered;
                    }
                    i += 1;
                }
                assert forall|j: int| 0 <= j < texts(ordered@).len() implies texts(ordered@)[j]
                    != preferred@ by {
                    assert(texts(ordered@)[j] == ordered@[j]@);
                }
            }
        }
        ordered
    }

    /// A round of sources, those first whose rest ends first.
    fn by_rest_end(&self, round: &Vec<String>, offset: Ghost<nat>) -> (r: Vec<String>)
        requires
            texts(round@) == self@.round(offset@),
        ensures
            texts(r@) == arranged(self@.round(offset@), self@.rests_less(offset@)),
    {
        let ghost less = self@.rests_less(offset@);
        let ghost names = texts(round@);
        let mut ends: Vec<Option<u128>> = Vec::new();
        let mut i: usize = 0;
        while i < round.len()
            invariant
                i <= round.len(),
                ends.len() == i,
                forall|j: int|
                    0 <= j < i ==> #[trigger] ends@[j] == self@.health[round@[j]@].cooldown_until,
            decreases round.len() - i,
        {
            ends.push(self.health(round[i].as_str()).cooldown_until);
            i += 1;
        }
        let test = |a: usize, b: usize| -> (c: bool)
            requires
                a < ends.len(),
                b < ends.len(),
            ensures
                c == (end_value(ends@[a as int]) < end_value(ends@[b as int])),
            { earlier_end(ends[a], ends[b]) };
        assert forall|a: usize, b: usize, c: bool|
            a < round.len() && b < round.len() && #[trigger] test.ensures((a, b), c) implies c == less(
            a as int,
            b as int,
        ) by {
            assert(names[a as int] == round@[a as int]@);
            assert(names[b as int] == round@[b as int]@);
            assert(ends@[a as int] == self@.health[round@[a as int]@].cooldown_until);
            assert(ends@[b as int] == self@.health[round@[b as int]@].cooldown_until);
        }
        let order = rank(round.len(), test, Ghost(less));
        let mut out: Vec<String> = Vec::new();
        i = 0;
        while i < order.len()
            invariant
                i <= order.len(),
                order.len() == round.len(),
                out.len() == i,
                names == texts(round@),
                forall|j: int| 0 <= j < order.len() ==> #[trigger] order@[j] < round.len(),
                forall|j: int| 0 <= j < i ==> #[trigger] out@[j]@ == names[order@[j] as int],
            decreases order.len() - i,
        {
            out.push(round[order[i]].clone());
            i += 1;
        }
        proof {
            let spec_out = arranged(names, less);
            assert(spec_out.len() == names.len());
            assert forall|j: int| 0 <= j < out.len() implies texts(out@)[j] == spec_out[j] by {
                assert(positions(order@)[j] == order@[j] as int);
                assert(ranked(names.len(), less)[j] == order@[j] as int);
                assert(texts(out@)[j] == out@[j]@);
            }
            assert(texts(out@) =~= spec_out);
        }
        out
    }

    /// The sources in the order in which to try them now. What the clock shows is not known
    /// beforehand; the order is that of the time it shows.
    pub fn ordered_candidates(&self, offset: usize) -> (r: Vec<String>)
        ensures
            self@.wf(),
            exists|now: u128| texts(r@) == #[trigger] self@.order(offset as nat, now),
    {
        let now = nanos_since(&self.started);
        self.ordered_candidates_at(offset, now)
    }

    /// How long to wait, in nanoseconds, before a source is asked again at a given time.
    pub fn wait_before_retry_at(&self, candidate: &str, now: u128) -> (r: u128)
        ensures
            r == self@.remaining_rest(candidate@, now),
    {
        match self.health(candidate).cooldown_until {
            Some(until) => if until > now {
                until - now
            } else {
                0
            },
            None => 0,
        }
    }

    /// How long to wait, in nanoseconds, before a source is asked again.
    pub fn wait_before_retry(&self, candidate: &str) -> (r: u128)
        ensures
            exists|now: u128| r == #[trigger] self@.remaining_rest(candidate@, now),
    {
        let now = nanos_since(&self.started);
        self.wait_before_retry_at(candidate, now)
    }

    /// Notes that a source answered, and how long that took.
    pub fn record_response(&mut self, candidate: &str, latency_nanos: u128)
        ensures
            old(self)@.wf(),
            final(self)@.wf(),
            final(self)@ == old(self)@.after_response(candidate@, latency_nanos),
    {
        proof {
            use_type_invariant(&*self);
            lemma_view_wf(&*self);
        }
        let known = self.health(candidate);
        let ghost before = self@;
        self.set_health(
            candidate,
            CandidateHealth {
                failures: known.failures.saturating_sub(1),
                cooldown_until: None,
                latency_nanos: Some(latency_nanos),
                transfer: known.transfer,
            },
        );
        proof {
            use_type_invariant(&*self);
        }
        assert(self@.health[candidate@].cooldown_until is None);
        self.preferred = Some(candidate.to_owned());
        if let Some(index) = self.candidate_index(candidate) {
            self.cursor = index;
        }
        proof {
            use_type_invariant(&*self);
            lemma_view_wf(&*self);
            assert(self@.health =~= before.after_response(candidate@, latency_nanos).health);
        }
    }

    /// Notes a transfer. The speed is averaged over these samples elsewhere.
    pub fn record_transfer(&mut self, candidate: &str, bytes: i64, elapsed_nanos: u128)
        ensures
            old(self)@.wf(),
            final(self)@.wf(),
            final(self)@ == old(self)@.after_transfer(candidate@, bytes, elapsed_nanos),
    {
        proof {
            use_type_invariant(&*self);
            lemma_view_wf(&*self);
        }
        if bytes <= 0 || elapsed_nanos == 0 {
            return;
        }
        let known = self.health(candidate);
        self.set_health(
            candidate,
            CandidateHealth {
                failures: known.failures,
                cooldown_until: known.cooldown_until,
                latency_nanos: known.latency_nanos,
                transfer: Some(TransferReport { bytes, elapsed_nanos }),
            },
        );
        proof {
            use_type_invariant(&*self);
            lemma_view_wf(&*self);
        }
    }

    /// What is remembered of a source.
    pub fn candidate_health(&self, candidate: &str) -> (r: CandidateHealth)
        ensures
            r == self@.health[candidate@],
    {
        self.health(candidate)
    }

    /// Notes that a source failed at a given time.
    pub fn record_failure_at(&mut self, candidate: &str, kind: SourceFailureKind, now: u128)
        requires
            now <= MAX_NANOS,
        ensures
            old(self)@.wf(),
            final(self)@.wf(),
            final(self)@ == old(self)@.after_failure(candidate@, kind, now),
    {
        proof {
            use_type_invariant(&*self);
            lemma_view_wf(&*self);
        }
        let ghost before = self@;
        let known = self.health(candidate);
        let failures: u32 = known.failures.saturating_add(1);
        let base: u128 = match kind {
            SourceFailureKind::Connection => 2,
            SourceFailureKind::Transfer => 2,
            SourceFailureKind::Timeout => 4,
            SourceFailureKind::Http => 6,
            SourceFailureKind::RateLimited => 20,
            SourceFailureKind::Range => 30,
            SourceFailureKind::Integrity => 60,
        };
        let factor: u128 = if failures <= 1 {
            1
        } else if failures == 2 {
            2
        } else if failures == 3 {
            4
        } else {
            8
        };
        assert(base * factor <= 480) by (nonlinear_arith)
            requires
                base <= 60,
                factor <= 8,
        ;
        let rest: u128 = base * factor * 1_000_000_000;
        let was_preferred = match &self.preferred {
            Some(preferred) => same(preferred.as_str(), candidate),
            None => false,
        };
        if was_preferred {
            self.preferred = None;
        }
        self.set_health(
            candidate,
            CandidateHealth {
                failures,
                cooldown_until: Some(now + rest),
                latency_nanos: known.latency_nanos,
                transfer: known.transfer,
            },
        );
        proof {
            use_type_invariant(&*self);
        }
        if let Some(index) = self.candidate_index(candidate) {
            if index + 1 < self.candidates.len() {
                assert((index + 1) % (self.candidates.len() as int) == index + 1)
                    by (nonlinear_arith)
                    requires
                        0 <= index + 1 < self.candidates.len(),
                ;
                self.cursor = index + 1;
            } else {
                assert((index + 1) % (self.candidates.len() as int) == 0) by (nonlinear_arith)
                    requires
                        index + 1 == self.candidates.len(),
                ;
                self.cursor = 0;
            }
        }
        proof {
            use_type_invariant(&*self);
            lemma_view_wf(&*self);
            assert(self@.health =~= before.after_failure(candidate@, kind, now).health);
        }
    }

    /// Notes that a source failed.
    pub fn record_failure(&mut self, candidate: &str, kind: SourceFailureKind)
        ensures
            old(self)@.wf(),
            final(self)@.wf(),
            exists|now: u128|
                now <= MAX_NANOS && final(self)@ == #[trigger] old(self)@.after_failure(
                    candidate@,
                    kind,
                    now,
                ),
    {
        let now = nanos_since(&self.started);
        self.record_failure_at(candidate, kind, now);
    }

    /// Forgets every failure, for a last pass over the sources.
    pub fn reset_for_recovery(&mut self)
        ensures
            old(self)@.wf(),
            final(self)@.wf(),
            final(self)@ == old(self)@.recovered(),
    {
        proof {
            use_type_invariant(&*self);
            lemma_view_wf(&*self);
        }
        let ghost before = self.health@;
        let mut entries: Vec<HealthEntry> = Vec::new();
        let mut i: usize = 0;
        while i < self.health.len()
            invariant
                i <= self.health.len(),
                entries.len() == i,
                before == self.health@,
                forall|j: int|
                    0 <= j < i ==> (#[trigger] entries@[j]).candidate@ == before[j].candidate@
                        && entries@[j].health == cleared(before[j].health),
            decreases self.health.len() - i,
        {
            let entry = &self.health[i];
            entries.push(
                HealthEntry {
                    candidate: entry.candidate.clone(),
                    health: CandidateHealth {
                        failures: 0,
                        cooldown_until: None,
                        latency_nanos: entry.health.latency_nanos,
                        transfer: entry.health.transfer,
                    },
                },
            );
            i += 1;
        }
        assert forall|a: int, b: int| 0 <= a < b < entries.len() implies #[trigger] entries@[a].candidate@
            != #[trigger] entries@[b].candidate@ by {
            assert(before[a].candidate@ != before[b].candidate@);
        }
        self.preferred = None;
        self.cursor = 0;
        self.health = entries;
        proof {
            lemma_view_wf(&*self);
            assert forall|c: Seq<char>| #[trigger] health_of(entries@, c) == cleared(
                health_of(before, c),
            ) by {
                if exists|k: int| entry_of(before, c, k) {
                    let k = choose|k: int| entry_of(before, c, k);
                    lemma_health_of(before, k);
                    lemma_health_of(entries@, k);
                } else {
                    assert forall|k: int| !#[trigger] entry_of(entries@, c, k) by {
                        if entry_of(entries@, c, k) {
                            assert(entry_of(before, c, k));
                        }
                    }
                }
            }
            assert(self@.health =~= old(self)@.recovered().health);
        }
    }
}

proof fn lemma_view_wf(t: &FileSourceTracker)
    requires
        t.inv(),
    ensures
        t@.wf(),
{
    assert(t@.health.dom() =~= Set::<Seq<char>>::full());
}

spec fn end_value(end: Option<u128>) -> int {
    match end {
        Some(until) => until as int,
        None => -1,
    }
}

fn earlier_end(a: Option<u128>, b: Option<u128>) -> (r: bool)
    ensures
        r == (end_value(a) < end_value(b)),
{
    match (a, b) {
        (Some(x), Some(y)) => x < y,
        (None, Some(_)) => true,
        (_, None) => false,
    }
}

proof fn lemma_start(cursor: int, offset: int, n: int)
    requires
        0 <= cursor < n,
        0 <= offset,
    ensures
        0 <= offset % n < n,
        (cursor + offset) % n == (if cursor >= n - offset % n {
            cursor - (n - offset % n)
        } else {
            cursor + offset % n
        }),
{
    vstd::arithmetic::div_mod::lemma_mod_bound(offset, n);
    vstd::arithmetic::div_mod::lemma_add_mod_noop_right(cursor, offset, n);
    let m = offset % n;
    if cursor >= n - m {
        vstd::arithmetic::div_mod::lemma_mod_sub_multiples_vanish(cursor + m, n);
        vstd::arithmetic::div_mod::lemma_small_mod((cursor + m - n) as nat, n as nat);
    } else {
        vstd::arithmetic::div_mod::lemma_small_mod((cursor + m) as nat, n as nat);
    }
}

} // verus!
