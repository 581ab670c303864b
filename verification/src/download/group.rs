//! The connections that the files of one task group share.
use std::time::Instant;
use vstd::prelude::*;
use crate::external::{clock_reading, nanos_since};

verus! {

/// The state of a group: its limits, its live connections, what it has received, and when its
/// speed was last looked at. Times are in nanoseconds since the group was made.
pub struct GroupModel {
    pub max_connections: nat,
    pub target_connections: nat,
    pub active_connections: nat,
    pub downloaded_bytes: i64,
    pub cancelled: bool,
    pub last_sample_at: u128,
    pub last_sample_bytes: i64,
    pub last_growth_at: u128,
    pub last_growth_bytes: i64,
}

/// Bytes received and the time in which they were: the caller divides them for the speed.
#[derive(Clone, Copy, Debug, PartialEq, Eq, Structural)]
pub struct SpeedSample {
    pub bytes: i64,
    pub elapsed_nanos: u128,
}

/// What is due after bytes were received.
#[derive(Clone, Copy, Debug, PartialEq, Eq, Structural)]
pub struct BytesRecorded {
    /// The sample by which to decide whether the group may open more connections.
    pub growth: Option<SpeedSample>,
    /// The sample for the speed that is shown.
    pub sample: Option<SpeedSample>,
}

/// How long a speed is measured before the group may grow.
pub const GROWTH_INTERVAL_NANOS: u128 = 2_000_000_000;

/// How long the shown speed is measured.
pub const SAMPLE_INTERVAL_NANOS: u128 = 500_000_000;

/// By how many connections a group grows at once.
pub const GROWTH_STEP: usize = 8;

/// A number kept within bounds.
pub open spec fn clamped(n: int, low: int, high: int) -> int {
    if n < low {
        low
    } else if n > high {
        high
    } else {
        n
    }
}

/// The time from one moment to another, none if it is not later.
pub open spec fn elapsed(from: u128, to: u128) -> u128 {
    if to > from {
        (to - from) as u128
    } else {
        0
    }
}

/// The bytes that a sample counts: the difference of two totals, none if the total fell.
pub open spec fn bytes_between(from: i64, to: i64) -> i64 {
    if to - from > i64::MAX {
        i64::MAX
    } else if to > from {
        (to - from) as i64
    } else {
        0
    }
}

/// A sum of two numbers, kept within what an `i64` holds.
pub open spec fn saturated_sum(a: i64, b: i64) -> i64 {
    if a + b > i64::MAX {
        i64::MAX
    } else if a + b < i64::MIN {
        i64::MIN
    } else {
        (a + b) as i64
    }
}

/// A sum of two numbers as a counter of 64 bits counts it.
pub open spec fn wrapped_sum(a: i64, b: i64) -> i64 {
    if a + b > i64::MAX {
        (a + b - 0x1_0000_0000_0000_0000) as i64
    } else if a + b < i64::MIN {
        (a + b + 0x1_0000_0000_0000_0000) as i64
    } else {
        (a + b) as i64
    }
}

impl GroupModel {
    /// The limits stand in order.
    pub open spec fn wf(self) -> bool {
        1 <= self.target_connections <= self.max_connections <= 128
    }

    /// A new group: it starts with at most 16 connections and may grow to the number asked for,
    /// which is kept between 1 and 128.
    pub open spec fn fresh(max_connections: int) -> GroupModel {
        let max = clamped(max_connections, 1, 128) as nat;
        GroupModel {
            max_connections: max,
            target_connections: if max < 16 {
                max
            } else {
                16
            },
            active_connections: 0,
            downloaded_bytes: 0,
            cancelled: false,
            last_sample_at: 0,
            last_sample_bytes: 0,
            last_growth_at: 0,
            last_growth_bytes: 0,
        }
    }

    /// The total once `bytes` more were received.
    pub open spec fn total_with(self, bytes: i64) -> i64 {
        saturated_sum(self.downloaded_bytes, bytes)
    }

    /// What is due once `bytes` were received at a time.
    pub open spec fn due(self, bytes: i64, now: u128) -> BytesRecorded {
        let total = self.total_with(bytes);
        BytesRecorded {
            growth: if elapsed(self.last_growth_at, now) >= GROWTH_INTERVAL_NANOS {
                Some(
                    SpeedSample {
                        bytes: bytes_between(self.last_growth_bytes, total),
                        elapsed_nanos: elapsed(self.last_growth_at, now),
                    },
                )
            } else {
                None
            },
            sample: if elapsed(self.last_sample_at, now) >= SAMPLE_INTERVAL_NANOS {
                Some(
                    SpeedSample {
                        bytes: bytes_between(self.last_sample_bytes, total),
                        elapsed_nanos: elapsed(self.last_sample_at, now),
                    },
                )
            } else {
                None
            },
        }
    }

    /// The state once `bytes` were received at a time.
    pub open spec fn after_bytes(self, bytes: i64, now: u128) -> GroupModel {
        let due = self.due(bytes, now);
        let total = self.total_with(bytes);
        GroupModel {
            downloaded_bytes: wrapped_sum(self.downloaded_bytes, bytes),
            last_growth_at: if due.growth is Some {
                now
            } else {
                self.last_growth_at
            },
            last_growth_bytes: if due.growth is Some {
                total
            } else {
                self.last_growth_bytes
            },
            last_sample_at: if due.sample is Some {
                now
            } else {
                self.last_sample_at
            },
            last_sample_bytes: if due.sample is Some {
                total
            } else {
                self.last_sample_bytes
            },
            ..self
        }
    }

    /// By how many connections the group grows after a growth sample: not at all at its ceiling,
    /// while connections are idle, without bytes, or where the last growth did not pay.
    pub open spec fn growth(self, sample: SpeedSample, preserved_throughput: bool) -> nat {
        let busy_from = if self.target_connections > 4 {
            (self.target_connections - 4) as nat
        } else {
            0
        };
        if self.target_connections < self.max_connections && self.active_connections >= busy_from
            && sample.bytes > 0 && preserved_throughput {
            let room = (self.max_connections - self.target_connections) as nat;
            if room < GROWTH_STEP {
                room
            } else {
                GROWTH_STEP as nat
            }
        } else {
            0
        }
    }
}

/// Growing never takes a group beyond its ceiling and never makes it smaller.
pub proof fn growth_stays_within_the_ceiling(
    g: GroupModel,
    sample: SpeedSample,
    preserved_throughput: bool,
)
    requires
        g.wf(),
    ensures
        g.target_connections <= g.target_connections + g.growth(sample, preserved_throughput)
            <= g.max_connections,
        (GroupModel {
            target_connections: g.target_connections + g.growth(sample, preserved_throughput),
            ..g
        }).wf(),
{
}

/// However many connections are asked for, a group starts with at least one, with at most 16, and
/// never may open more than 128.
pub proof fn new_groups_start_bounded(max_connections: int)
    ensures
        GroupModel::fresh(max_connections).wf(),
        GroupModel::fresh(max_connections).target_connections <= 16,
        1 <= max_connections <= 128 ==> GroupModel::fresh(max_connections).max_connections
            == max_connections,
{
}

/// Receiving bytes opens no connections: only a growth decision does.
pub proof fn receiving_does_not_grow(g: GroupModel, bytes: i64, now: u128)
    ensures
        g.after_bytes(bytes, now).target_connections == g.target_connections,
        g.after_bytes(bytes, now).max_connections == g.max_connections,
        g.after_bytes(bytes, now).active_connections == g.active_connections,
        g.after_bytes(bytes, now).cancelled == g.cancelled,
        g.wf() ==> g.after_bytes(bytes, now).wf(),
{
}

/// A group grows only while it may, while all but at most four of its connections are open, and
/// where bytes came and the last growth paid. It then grows by eight connections, or by what is left
/// to its ceiling.
pub proof fn groups_grow_by_eight(g: GroupModel, sample: SpeedSample, preserved_throughput: bool)
    requires
        g.wf(),
    ensures
        ({
            let growth = g.growth(sample, preserved_throughput);
            let left = g.max_connections - g.target_connections;
            &&& growth > 0 <==> left > 0 && g.active_connections + 4 >= g.target_connections
                && sample.bytes > 0 && preserved_throughput
            &&& growth > 0 ==> growth == if left < 8 {
                left
            } else {
                8
            }
        }),
{
}

/// A new group has no connection, has received nothing and was not cancelled. It begins with all the
/// connections that it may open, if these are no more than 16, and else with 16.
pub proof fn new_groups_are_empty(max_connections: int)
    ensures
        ({
            let g = GroupModel::fresh(max_connections);
            &&& g.active_connections == 0 && g.downloaded_bytes == 0 && !g.cancelled
            &&& g.last_sample_at == 0 && g.last_growth_at == 0
            &&& g.last_sample_bytes == 0 && g.last_growth_bytes == 0
            &&& max_connections < 1 ==> g.max_connections == 1
            &&& max_connections > 128 ==> g.max_connections == 128
            &&& g.max_connections >= 16 ==> g.target_connections == 16
            &&& g.max_connections < 16 ==> g.target_connections == g.max_connections
        }),
{
}

/// Received bytes add up, and so do those that two samples count. The shown speed is measured over at
/// least half a second, and the growth over at least two: a sample is due exactly then, and counts
/// what came since the last one.
pub proof fn received_bytes_add_up(g: GroupModel, bytes: i64, now: u128)
    requires
        0 <= g.last_sample_bytes <= g.downloaded_bytes,
        0 <= g.last_growth_bytes <= g.downloaded_bytes,
        0 <= bytes,
        g.downloaded_bytes + bytes <= i64::MAX,
        g.last_sample_at <= now,
        g.last_growth_at <= now,
    ensures
        ({
            let after = g.after_bytes(bytes, now);
            let due = g.due(bytes, now);
            &&& after.downloaded_bytes == g.downloaded_bytes + bytes
            &&& due.sample is Some <==> now - g.last_sample_at >= 500_000_000
            &&& due.growth is Some <==> now - g.last_growth_at >= 2_000_000_000
            &&& due.sample matches Some(s) ==> s.bytes == after.downloaded_bytes - g.last_sample_bytes
                && s.elapsed_nanos == now - g.last_sample_at && after.last_sample_at == now
                && after.last_sample_bytes == after.downloaded_bytes
            &&& due.growth matches Some(s) ==> s.bytes == after.downloaded_bytes - g.last_growth_bytes
                && s.elapsed_nanos == now - g.last_growth_at && after.last_growth_at == now
                && after.last_growth_bytes == after.downloaded_bytes
            &&& due.sample is None ==> after.last_sample_at == g.last_sample_at
                && after.last_sample_bytes == g.last_sample_bytes
            &&& due.growth is None ==> after.last_growth_at == g.last_growth_at
                && after.last_growth_bytes == g.last_growth_bytes
        }),
{
}

/// The live state of a task group.
///
/// How each source fares is known per file. This state holds only what the files of a group have
/// together, so a slow source of one file cannot spoil another.
#[derive(Debug)]
pub struct DownloadGroupState {
    max_connections: usize,
    target_connections: usize,
    active_connections: usize,
    downloaded_bytes: i64,
    cancelled: bool,
    last_sample_at: u128,
    last_sample_bytes: i64,
    last_growth_at: u128,
    last_growth_bytes: i64,
    started: Instant,
}

/// A live connection, to be handed back when it ends.
#[derive(Debug)]
pub struct GroupStreamGuard {
    live: bool,
}

impl View for DownloadGroupState {
    type V = GroupModel;

    closed spec fn view(&self) -> GroupModel {
        GroupModel {
            max_connections: self.max_connections as nat,
            target_connections: self.target_connections as nat,
            active_connections: self.active_connections as nat,
            downloaded_bytes: self.downloaded_bytes,
            cancelled: self.cancelled,
            last_sample_at: self.last_sample_at,
            last_sample_bytes: self.last_sample_bytes,
            last_growth_at: self.last_growth_at,
            last_growth_bytes: self.last_growth_bytes,
        }
    }
}

fn elapsed_between(from: u128, to: u128) -> (r: u128)
    ensures
        r == elapsed(from, to),
{
    if to > from {
        to - from
    } else {
        0
    }
}

fn sample_bytes(from: i64, to: i64) -> (r: i64)
    ensures
        r == bytes_between(from, to),
{
    if to <= from {
        0
    } else if from < 0 && to > i64::MAX + from {
        i64::MAX
    } else {
        to - from
    }
}

fn saturating_sum(a: i64, b: i64) -> (r: i64)
    ensures
        r == saturated_sum(a, b),
{
    if b > 0 && a > i64::MAX - b {
        i64::MAX
    } else if b < 0 && a < i64::MIN - b {
        i64::MIN
    } else {
        a + b
    }
}

fn wrapping_sum(a: i64, b: i64) -> (r: i64)
    ensures
        r == wrapped_sum(a, b),
{
    let sum: i128 = a as i128 + b as i128;
    if sum > i64::MAX as i128 {
        (sum - 0x1_0000_0000_0000_0000) as i64
    } else if sum < i64::MIN as i128 {
        (sum + 0x1_0000_0000_0000_0000) as i64
    } else {
        sum as i64
    }
}

impl DownloadGroupState {
    #[verifier::type_invariant]
    spec fn inv(self) -> bool {
        1 <= self.target_connections <= self.max_connections <= 128
    }

    /// A group that may open up to `max_connections` connections, kept between 1 and 128. It
    /// starts with at most 16 and grows only where more connections pay.
    pub fn new(max_connections: usize) -> (r: Self)
        ensures
            r@.wf(),
            r@ == GroupModel::fresh(max_connections as int),
    {
        let max: usize = if max_connections < 1 {
            1
        } else if max_connections > 128 {
            128
        } else {
            max_connections
        };
        let target: usize = if max < 16 {
            max
        } else {
            16
        };
        DownloadGroupState {
            max_connections: max,
            target_connections: target,
            active_connections: 0,
            downloaded_bytes: 0,
            cancelled: false,
            last_sample_at: 0,
            last_sample_bytes: 0,
            last_growth_at: 0,
            last_growth_bytes: 0,
            started: clock_reading(),
        }
    }

    /// The most connections that the group may open.
    pub fn max_connections(&self) -> (r: usize)
        ensures
            self@.wf(),
            r == self@.max_connections,
    {
        proof {
            use_type_invariant(self);
        }
        self.max_connections
    }

    /// The connections that the group may open for now.
    pub fn target_connections(&self) -> (r: usize)
        ensures
            self@.wf(),
            r == self@.target_connections,
    {
        proof {
            use_type_invariant(self);
        }
        self.target_connections
    }

    /// The connections that are open.
    pub fn active_connections(&self) -> (r: usize)
        ensures
            r == self@.active_connections,
    {
        self.active_connections
    }

    /// Cancels the group.
    pub fn cancel(&mut self)
        ensures
            final(self)@ == (GroupModel { cancelled: true, ..old(self)@ }),
    {
        proof {
            use_type_invariant(&*self);
        }
        self.cancelled = true;
    }

    /// Whether the group was cancelled.
    pub fn is_cancelled(&self) -> (r: bool)
        ensures
            r == self@.cancelled,
    {
        self.cancelled
    }

    /// Notes that a connection was opened.
    pub fn enter_stream(&mut self) -> (r: GroupStreamGuard)
        requires
            old(self)@.active_connections < usize::MAX,
        ensures
            final(self)@ == (GroupModel {
                active_connections: old(self)@.active_connections + 1,
                ..old(self)@
            }),
    {
        proof {
            use_type_invariant(&*self);
        }
        self.active_connections = self.active_connections + 1;
        GroupStreamGuard { live: true }
    }

    /// Notes that a connection has ended.
    pub fn leave_stream(&mut self, guard: GroupStreamGuard)
        requires
            old(self)@.active_connections > 0,
        ensures
            final(self)@ == (GroupModel {
                active_connections: (old(self)@.active_connections - 1) as nat,
                ..old(self)@
            }),
    {
        proof {
            use_type_invariant(&*self);
        }
        self.active_connections = self.active_connections - 1;
    }

    /// Notes that bytes were received, and says which samples are due at the time that the clock
    /// shows.
    pub fn record_bytes(&mut self, bytes: i64) -> (r: BytesRecorded)
        ensures
            exists|now: u128|
                r == old(self)@.due(bytes, now) && final(self)@ == #[trigger] old(self)@.after_bytes(
                    bytes,
                    now,
                ),
    {
        let now = nanos_since(&self.started);
        self.record_bytes_at(bytes, now)
    }

    /// Notes that bytes were received at a time, and says which samples are due.
    pub fn record_bytes_at(&mut self, bytes: i64, now: u128) -> (r: BytesRecorded)
        ensures
            r == old(self)@.due(bytes, now),
            final(self)@ == old(self)@.after_bytes(bytes, now),
    {
        proof {
            use_type_invariant(&*self);
        }
        let total = saturating_sum(self.downloaded_bytes, bytes);
        self.downloaded_bytes = wrapping_sum(self.downloaded_bytes, bytes);
        let since_growth = elapsed_between(self.last_growth_at, now);
        let growth = if since_growth >= GROWTH_INTERVAL_NANOS {
            let received = sample_bytes(self.last_growth_bytes, total);
            self.last_growth_at = now;
            self.last_growth_bytes = total;
            Some(SpeedSample { bytes: received, elapsed_nanos: since_growth })
        } else {
            None
        };
        let since_sample = elapsed_between(self.last_sample_at, now);
        let sample = if since_sample >= SAMPLE_INTERVAL_NANOS {
            let received = sample_bytes(self.last_sample_bytes, total);
            self.last_sample_at = now;
            self.last_sample_bytes = total;
            Some(SpeedSample { bytes: received, elapsed_nanos: since_sample })
        } else {
            None
        };
        BytesRecorded { growth, sample }
    }

    /// Decides after a growth sample by how many connections the group grows, and grows it.
    /// `preserved_throughput` says whether the speed of the sample is the first one or at least a
    /// tenth above the last.
    pub fn grow(&mut self, sample: SpeedSample, preserved_throughput: bool) -> (r: usize)
        ensures
            r == old(self)@.growth(sample, preserved_throughput),
            final(self)@ == (GroupModel {
                target_connections: old(self)@.target_connections + r as nat,
                ..old(self)@
            }),
            final(self)@.wf(),
    {
        proof {
            use_type_invariant(&*self);
        }
        let target = self.target_connections;
        let busy_from: usize = if target > 4 {
            target - 4
        } else {
            0
        };
        if target < self.max_connections && self.active_connections >= busy_from && sample.bytes > 0
            && preserved_throughput {
            let room = self.max_connections - target;
            let growth: usize = if room < GROWTH_STEP {
                room
            } else {
                GROWTH_STEP
            };
            self.target_connections = target + growth;
            growth
        } else {
            0
        }
    }
}

impl Default for DownloadGroupState {
    /// A group that may open 24 connections.
    fn default() -> (r: Self)
        ensures
            r@.wf(),
            r@ == GroupModel::fresh(24),
    {
        Self::new(24)
    }
}

} // verus!
