//! When active sampling pauses. Jobs that are admitted already go on, and so do announcements.

use vstd::prelude::*;

verus! {

/// How long the backlog must stay low before sampling resumes.
pub const RECOVERY_MS: i64 = 30_000;

/// What sampling is measured by.
#[derive(Clone, Copy, Debug, PartialEq, Eq, Structural)]
pub enum Mode {
    /// By the capacity and by the recent torrents that wait for their first attempt.
    Freshness,
    /// By the capacity alone.
    Capacity,
}

/// The state of the pause. Any of three reasons pauses sampling.
#[derive(Clone, Copy, Debug, PartialEq, Eq, Structural)]
pub struct Backpressure {
    pub mode: Mode,
    pub max_active: usize,
    pub recent_limit: usize,
    pub capacity: bool,
    pub backlog: bool,
    pub storage: bool,
    /// Since when the backlog has been low without a break.
    pub recovery_since: Option<i64>,
    /// Until when the pause is accounted for.
    pub last_at: Option<i64>,
    pub paused_ms: u64,
    pub resumes: u64,
}

/// The limit for recent torrents that wait: four for each worker, within the capacity.
pub open spec fn waiting_limit(max_active: int, concurrency: int) -> int {
    if 4 * concurrency < max_active {
        4 * concurrency
    } else {
        max_active
    }
}

/// The limit for recent torrents that wait.
pub fn recent_limit(max_active: usize, concurrency: usize) -> (limit: usize)
    ensures
        limit == waiting_limit(max_active as int, concurrency as int),
{
    match concurrency.checked_mul(4) {
        Some(wanted) => if wanted < max_active {
            wanted
        } else {
            max_active
        },
        None => max_active,
    }
}

/// The number of active jobs below which a full store takes samples again: eight tenths of its
/// capacity, at least one.
pub open spec fn resume_below(max_active: int) -> int {
    if max_active * 8 / 10 > 1 {
        max_active * 8 / 10
    } else {
        1
    }
}

/// The time between two moments that counts as paused, as far as it can be held.
pub open spec fn paused_time(from: i64, to: i64) -> int {
    if to - from < 0 {
        0
    } else if to - from > i64::MAX {
        i64::MAX as int
    } else {
        to - from
    }
}

impl Backpressure {
    /// Whether sampling pauses.
    pub open spec fn is_paused(self) -> bool {
        self.capacity || self.backlog || self.storage
    }

    /// The state once the time until `now` is accounted for.
    pub open spec fn accounted(self, now: i64) -> Backpressure {
        let added = if self.last_at is Some && self.is_paused() {
            paused_time(self.last_at->0, now)
        } else {
            0
        };
        Backpressure {
            paused_ms: if self.paused_ms + added > u64::MAX {
                u64::MAX
            } else {
                (self.paused_ms + added) as u64
            },
            last_at: Some(now),
            ..self
        }
    }

    /// Whether the capacity pauses sampling at `active` jobs: it does once it is reached, and until
    /// enough of it is free again.
    pub open spec fn next_capacity(self, active: i64, storage: bool) -> bool {
        if storage {
            self.capacity
        } else if self.capacity {
            active >= resume_below(self.max_active as int)
        } else {
            active >= self.max_active
        }
    }

    /// Whether the backlog pauses sampling, and since when it has been low. A count that is not at
    /// hand changes nothing.
    pub open spec fn next_backlog(self, now: i64, recent: Option<i64>) -> (bool, Option<i64>) {
        match recent {
            Some(waiting) if self.mode is Freshness => if !self.backlog {
                (waiting >= self.recent_limit, self.recovery_since)
            } else if waiting <= self.recent_limit as int / 4 {
                let since = match self.recovery_since {
                    Some(since) => since,
                    None => now,
                };
                if paused_time(since, now) >= RECOVERY_MS {
                    (false, None)
                } else {
                    (true, Some(since))
                }
            } else {
                (true, None)
            },
            _ => (self.backlog, self.recovery_since),
        }
    }

    /// A state in which nothing pauses.
    pub fn new(mode: Mode, max_active: usize, concurrency: usize) -> (state: Backpressure)
        ensures
            state == (Backpressure {
                mode,
                max_active,
                recent_limit: waiting_limit(max_active as int, concurrency as int) as usize,
                capacity: false,
                backlog: false,
                storage: false,
                recovery_since: None,
                last_at: None,
                paused_ms: 0,
                resumes: 0,
            }),
    {
        Backpressure {
            mode,
            max_active,
            recent_limit: recent_limit(max_active, concurrency),
            capacity: false,
            backlog: false,
            storage: false,
            recovery_since: None,
            last_at: None,
            paused_ms: 0,
            resumes: 0,
        }
    }

    /// Whether sampling pauses.
    pub fn paused(&self) -> (paused: bool)
        ensures
            paused == self.is_paused(),
    {
        self.capacity || self.backlog || self.storage
    }

    /// Accounts for the time until `now`.
    pub fn account(&mut self, now: i64)
        ensures
            *final(self) == old(self).accounted(now),
    {
        if let Some(last) = self.last_at {
            if self.paused() {
                let span: i128 = now as i128 - last as i128;
                let added: u64 = if span < 0 {
                    0
                } else if span > i64::MAX as i128 {
                    i64::MAX as u64
                } else {
                    span as u64
                };
                self.paused_ms = self.paused_ms.saturating_add(added);
            }
        }
        self.last_at = Some(now);
    }

    /// Takes note of `active` jobs and, where the count is at hand, of `recent` torrents that wait.
    /// While the storage pauses, the last word on the capacity stands. Says whether sampling pauses
    /// or resumes with it.
    pub fn update(&mut self, now: i64, active: i64, recent: Option<i64>, storage: bool) -> (changed: bool)
        requires
            old(self).resumes < u64::MAX,
        ensures
            ({
                let before = old(self).accounted(now);
                let (backlog, since) = before.next_backlog(now, recent);
                let after = Backpressure {
                    storage,
                    capacity: before.next_capacity(active, storage),
                    backlog,
                    recovery_since: since,
                    ..before
                };
                &&& changed == (old(self).is_paused() != after.is_paused())
                &&& *final(self) == (Backpressure {
                    resumes: if old(self).is_paused() && !after.is_paused() {
                        (before.resumes + 1) as u64
                    } else {
                        before.resumes
                    },
                    ..after
                })
            }),
    {
        self.account(now);
        let old_pause = self.paused();
        self.storage = storage;
        if !storage {
            if self.capacity {
                let scaled: u128 = self.max_active as u128 * 8 / 10;
                let threshold: i128 = if scaled > 1 {
                    scaled as i128
                } else {
                    1
                };
                self.capacity = active as i128 >= threshold;
            } else {
                self.capacity = active as i128 >= self.max_active as i128;
            }
        }
        if self.mode == Mode::Freshness {
            if let Some(waiting) = recent {
                let high: i128 = self.recent_limit as i128;
                let low: i128 = (self.recent_limit / 4) as i128;
                if !self.backlog {
                    self.backlog = waiting as i128 >= high;
                } else if waiting as i128 <= low {
                    let since: i64 = match self.recovery_since {
                        Some(since) => since,
                        None => now,
                    };
                    if now as i128 - since as i128 >= RECOVERY_MS as i128 {
                        self.backlog = false;
                        self.recovery_since = None;
                    } else {
                        self.recovery_since = Some(since);
                    }
                } else {
                    self.recovery_since = None;
                }
            }
        }
        let new_pause = self.paused();
        if old_pause && !new_pause {
            self.resumes = self.resumes + 1;
        }
        old_pause != new_pause
    }

    /// Accounts for the time until `now` and gives the state to report.
    pub fn log(&mut self, now: i64) -> (report: Backpressure)
        ensures
            *final(self) == old(self).accounted(now),
            report == *final(self),
    {
        self.account(now);
        *self
    }
}

/// A pause is counted once, however often it is reported: what two reports count of it is what one
/// report at the end would have counted.
pub proof fn lemma_pause_adds_up(state: Backpressure, middle: i64, now: i64)
    requires
        state.is_paused(),
        state.last_at is Some,
        state.last_at->0 <= middle <= now,
        now - state.last_at->0 <= i64::MAX,
    ensures
        state.accounted(middle).accounted(now) == state.accounted(now),
{
}

/// Between its two thresholds the capacity neither pauses nor resumes sampling.
pub proof fn lemma_capacity_hysteresis(state: Backpressure, active: i64)
    requires
        resume_below(state.max_active as int) <= active < state.max_active,
    ensures
        state.next_capacity(active, false) == state.capacity,
{
}

/// A backlog that paused sampling ends only after it has been low for the whole of the fixed time.
pub proof fn lemma_backlog_recovery(state: Backpressure, now: i64, recent: Option<i64>)
    requires
        state.backlog,
        !state.next_backlog(now, recent).0,
    ensures
        recent is Some,
        recent->0 <= state.recent_limit as int / 4,
        state.recovery_since is Some,
        state.recovery_since->0 + RECOVERY_MS <= now,
{
}

/// Where only the capacity counts, recent torrents that wait never pause sampling.
pub proof fn lemma_capacity_mode(state: Backpressure, now: i64, recent: Option<i64>)
    requires
        state.mode is Capacity,
        !state.backlog,
    ensures
        !state.next_backlog(now, recent).0,
{
}

/// Four recent torrents may wait for each worker, but never more than there may be active jobs.
pub proof fn lemma_waiting_limit(max_active: int, concurrency: int)
    requires
        0 <= max_active,
        0 <= concurrency,
    ensures
        waiting_limit(max_active, concurrency) <= max_active,
        waiting_limit(max_active, concurrency) <= 4 * concurrency,
        waiting_limit(max_active, concurrency) == max_active || waiting_limit(
            max_active,
            concurrency,
        ) == 4 * concurrency,
{
}

/// Sampling pauses for any of the three reasons, and goes on only where none is left.
pub proof fn lemma_paused(state: Backpressure)
    ensures
        !state.is_paused() <==> !state.capacity && !state.backlog && !state.storage,
{
}

/// The time since the last account is added while sampling pauses and not else, and the account
/// reaches to now.
pub proof fn lemma_accounted(state: Backpressure, now: i64)
    ensures
        ({
            let after = state.accounted(now);
            let counts = state.last_at is Some && (state.capacity || state.backlog || state.storage);
            &&& after == (Backpressure { paused_ms: after.paused_ms, last_at: Some(now), ..state })
            &&& !counts || now <= state.last_at->0 ==> after.paused_ms == state.paused_ms
            &&& counts && 0 <= now - state.last_at->0 <= i64::MAX && state.paused_ms + (now
                - state.last_at->0) <= u64::MAX ==> after.paused_ms == state.paused_ms + (now
                - state.last_at->0)
            &&& after.paused_ms >= state.paused_ms
        }),
{
}

/// A store is full from its limit on, and takes samples again below eight tenths of it, or where it
/// is empty; while it cannot be written to nothing changes.
pub proof fn lemma_capacity(state: Backpressure, active: i64)
    requires
        state.max_active > 0,
        0 <= active,
    ensures
        state.next_capacity(active, true) == state.capacity,
        active >= state.max_active ==> state.next_capacity(active, false),
        !state.capacity && active < state.max_active ==> !state.next_capacity(active, false),
        state.capacity && state.max_active >= 3 ==> (state.next_capacity(active, false) <==> 10 * (
        active + 1) > 8 * state.max_active),
        state.capacity && state.max_active < 3 ==> (state.next_capacity(active, false) <==> active
            >= 1),
{
    let max = state.max_active as int;
    assert(max * 8 / 10 * 10 <= max * 8 < max * 8 / 10 * 10 + 10);
}

/// Where freshness counts, the backlog pauses sampling once as many recent torrents wait as may. It
/// ends after at most a quarter of them has waited for half a minute without a break.
pub proof fn lemma_backlog(state: Backpressure, now: i64, waiting: i64)
    requires
        state.mode is Freshness,
    ensures
        ({
            let (paused, since) = state.next_backlog(now, Some(waiting));
            let low = 4 * waiting <= state.recent_limit;
            &&& !state.backlog ==> (paused <==> waiting >= state.recent_limit) && since
                == state.recovery_since
            &&& state.backlog && !low ==> paused && since is None
            &&& state.backlog && low && state.recovery_since is None ==> paused && since == Some(now)
            &&& state.backlog && low && (state.recovery_since matches Some(start) && now - start
                < 30_000) ==> paused && since == state.recovery_since
            &&& state.backlog && low && (state.recovery_since matches Some(start) && now - start
                >= 30_000) ==> !paused && since is None
        }),
        state.next_backlog(now, None) == (state.backlog, state.recovery_since),
{
}

/// The time of a pause is the time that passed, none where it went back, and as much as can be held.
pub proof fn lemma_paused_time(from: i64, to: i64)
    ensures
        to <= from ==> paused_time(from, to) == 0,
        0 <= to - from <= i64::MAX ==> paused_time(from, to) == to - from,
        to - from > i64::MAX ==> paused_time(from, to) == i64::MAX,
{
}

} // verus!
