//! The schedule of refreshes, and the scheduler that sweeps the
//! subscriptions that are due.

use vstd::prelude::*;

use crate::db::models::{Subscription, SubscriptionView};
use crate::db::tables::Tables;
use crate::db::Id;
use crate::feed::{FeedDocument, FeedDocumentView};
use crate::feed_manager::{
    classified, fetched_view, refreshed, FeedManager, FetchError, RefreshError, Response,
};
use crate::utils::now;

verus! {

/// A point in time: microseconds since the Unix epoch, UTC.
pub type Timestamp = i64;

/// Microseconds in one minute.
pub const MINUTE: i64 = 60_000_000;

/// Microseconds in one hour.
pub const HOUR: i64 = 3_600_000_000;

/// A healthy feed is refreshed once per hour.
pub const BASE_INTERVAL_HOURS: i64 = 1;

/// A failing feed is still refreshed once every sixteen hours.
pub const MAX_BACKOFF_HOURS: i64 = 16;

/// Lowest jitter, in minutes.
pub const JITTER_MIN: i64 = -5;

/// First jitter, in minutes, that is no longer drawn.
pub const JITTER_END: i64 = 5;

/// Hours to wait on account of `error_count` failed attempts in a row.
pub open spec fn error_backoff_hours(error_count: int) -> int {
    if error_count < MAX_BACKOFF_HOURS {
        error_count
    } else {
        MAX_BACKOFF_HOURS as int
    }
}

/// Microseconds between an attempt and the next one.
pub open spec fn refresh_delay(error_count: int, jitter_minutes: int) -> int {
    let backoff = error_backoff_hours(error_count);
    let hours = if backoff < BASE_INTERVAL_HOURS {
        BASE_INTERVAL_HOURS as int
    } else {
        backoff
    };
    hours * HOUR + jitter_minutes * MINUTE
}

/// The time of the next attempt: `now` plus the delay, or the last
/// representable instant where that sum lies beyond it.
pub open spec fn refresh_time(now: int, error_count: int, jitter_minutes: int) -> int {
    let at = now + refresh_delay(error_count, jitter_minutes);
    if at > i64::MAX {
        i64::MAX as int
    } else {
        at
    }
}

/// The backoff never shrinks as failures add up, and never exceeds sixteen
/// hours.
pub proof fn lemma_backoff_monotonic(fewer: int, more: int)
    requires
        0 <= fewer <= more,
    ensures
        error_backoff_hours(fewer) <= error_backoff_hours(more) <= MAX_BACKOFF_HOURS,
{
}

/// The delay is the base interval or the backoff, whichever is longer, and
/// the jitter: at least an hour and the jitter, at most sixteen hours and
/// the jitter.
pub proof fn lemma_delay_bounds(error_count: int, jitter_minutes: int)
    requires
        0 <= error_count,
    ensures
        BASE_INTERVAL_HOURS * HOUR + jitter_minutes * MINUTE <= refresh_delay(
            error_count,
            jitter_minutes,
        ) <= MAX_BACKOFF_HOURS * HOUR + jitter_minutes * MINUTE,
        error_count <= MAX_BACKOFF_HOURS ==> refresh_delay(error_count, jitter_minutes) == (
        if error_count < 1 {
            1
        } else {
            error_count
        }) * HOUR + jitter_minutes * MINUTE,
{
}

/// With a jitter that is not negative, the next refresh is no sooner than
/// an hour from now; with any jitter, no sooner than fifty-five minutes from
/// now.
pub proof fn lemma_refresh_not_before(now: int, error_count: int, jitter_minutes: int)
    requires
        0 <= error_count,
        JITTER_MIN <= jitter_minutes < JITTER_END,
        now + HOUR <= i64::MAX,
    ensures
        refresh_time(now, error_count, jitter_minutes) >= now + HOUR + JITTER_MIN * MINUTE,
        jitter_minutes >= 0 ==> refresh_time(now, error_count, jitter_minutes) >= now + HOUR,
{
    lemma_delay_bounds(error_count, jitter_minutes);
}

/// Hours of backoff after `error_count` consecutive failures.
pub fn error_backoff(error_count: u32) -> (hours: i64)
    ensures
        hours == error_backoff_hours(error_count as int),
        0 <= hours <= MAX_BACKOFF_HOURS,
{
    let hours: i64 = error_count as i64;
    if hours < MAX_BACKOFF_HOURS {
        hours
    } else {
        MAX_BACKOFF_HOURS
    }
}

/// Computes when a subscription is due again.
pub fn next_refresh_at(now: Timestamp, error_count: u32, jitter_minutes: i64) -> (at: Timestamp)
    requires
        JITTER_MIN <= jitter_minutes < JITTER_END,
    ensures
        at == refresh_time(now as int, error_count as int, jitter_minutes as int),
{
    let backoff: i64 = error_backoff(error_count);
    let hours: i64 = if backoff < BASE_INTERVAL_HOURS {
        BASE_INTERVAL_HOURS
    } else {
        backoff
    };
    let delay: i64 = hours * HOUR + jitter_minutes * MINUTE;
    match now.checked_add(delay) {
        Some(at) => at,
        None => i64::MAX,
    }
}

/// Draws a number from `low` up to, and not including, `end`:
/// `rand::random_range` on the half-open range, with the generator of the
/// thread. The contract claims the bounds, which is what the function
/// documents, and nothing of the distribution.
#[verifier::external_body]
pub(crate) fn random_between(low: i64, end: i64) -> (value: i64)
    requires
        low < end,
    ensures
        low <= value < end,
{
    rand::random_range(low..end)
}

/// Draws the jitter of one schedule, in minutes.
pub fn jitter() -> (minutes: i64)
    ensures
        JITTER_MIN <= minutes < JITTER_END,
{
    random_between(JITTER_MIN, JITTER_END)
}

/// The period of the sweep, in seconds.
pub const TICK_SECONDS: u64 = 300;

/// One subscription that is due, with what fetching its feed gave and the
/// jitter of its new schedule.
#[derive(Debug)]
pub struct Attempt {
    pub subscription: Subscription,
    pub fetched: Result<FeedDocument, FetchError>,
    pub jitter_minutes: i64,
}

/// An attempt as a mathematical value.
pub ghost struct AttemptView {
    pub subscription: SubscriptionView,
    pub fetched: Result<FeedDocumentView, FetchError>,
    pub jitter_minutes: int,
}

impl View for Attempt {
    type V = AttemptView;

    open spec fn view(&self) -> AttemptView {
        AttemptView {
            subscription: self.subscription@,
            fetched: fetched_view(self.fetched),
            jitter_minutes: self.jitter_minutes as int,
        }
    }
}

impl DeepView for Attempt {
    type V = AttemptView;

    open spec fn deep_view(&self) -> AttemptView {
        self@
    }
}

/// What one sweep did: how many subscriptions were refreshed, how many
/// failed, how many were passed over because they were not due, and how
/// many new items were found. The number of new items stops at the largest
/// number that the machine counts to.
#[derive(Debug, Clone, Copy, PartialEq, Eq, Structural)]
pub struct TickReport {
    pub refreshed: usize,
    pub failed: usize,
    pub skipped: usize,
    pub new_items: usize,
}

/// The report of a sweep as a mathematical value.
pub ghost struct TickReportView {
    pub refreshed: nat,
    pub failed: nat,
    pub skipped: nat,
    pub new_items: nat,
}

impl View for TickReport {
    type V = TickReportView;

    open spec fn view(&self) -> TickReportView {
        TickReportView {
            refreshed: self.refreshed as nat,
            failed: self.failed as nat,
            skipped: self.skipped as nat,
            new_items: self.new_items as nat,
        }
    }
}

/// The report with the outcome of one more refresh counted.
pub open spec fn counted(report: TickReportView, outcome: Result<nat, RefreshError>) -> TickReportView {
    match outcome {
        Ok(found) => TickReportView {
            refreshed: report.refreshed + 1,
            new_items: if report.new_items + found > usize::MAX {
                usize::MAX as nat
            } else {
                report.new_items + found
            },
            ..report
        },
        Err(_) => TickReportView { failed: report.failed + 1, ..report },
    }
}

/// Tells whether the store holds a subscription under the key `id` that is
/// due at `now`.
pub open spec fn is_due(tables: Tables, id: Id, now: int) -> bool {
    tables.subscription(id) matches Ok(row) && row.next_refresh <= now
}

/// One sweep at `now`: every attempt is taken in turn, on the store that
/// the one before it left, whatever that one's outcome. An attempt on a
/// subscription that the store does not hold, or that is not due at `now`
/// as the store holds it, is passed over and changes nothing; any other is
/// run and counted.
pub open spec fn swept(tables: Tables, attempts: Seq<AttemptView>, now: int) -> (
    Tables,
    TickReportView,
)
    decreases attempts.len(),
{
    if attempts.len() == 0 {
        (tables, TickReportView { refreshed: 0, failed: 0, skipped: 0, new_items: 0 })
    } else {
        let (before, report) = swept(tables, attempts.drop_last(), now);
        let last = attempts.last();
        if is_due(before, last.subscription.id, now) {
            let (after, _, outcome) = refreshed(
                before,
                last.subscription,
                last.fetched,
                now,
                last.jitter_minutes,
            );
            (after, counted(report, outcome))
        } else {
            (before, TickReportView { skipped: report.skipped + 1, ..report })
        }
    }
}

/// Tells whether an attempt is one on the given subscription with what the
/// given answer is classified as.
pub open spec fn attempt_on(attempt: AttemptView, work: (Subscription, Response)) -> bool {
    &&& attempt.subscription == work.0@
    &&& JITTER_MIN <= attempt.jitter_minutes < JITTER_END
    &&& attempt.fetched == fetched_view(classified(work.1))
}

/// The scheduler: it sweeps the subscriptions that are due. It is idle, or
/// it is in a sweep that began at the time it holds and has not ended;
/// while it is in one, no other begins.
pub struct Updater {
    pub feed_manager: FeedManager,
    pub sweep: Option<Timestamp>,
}

impl Updater {
    /// An idle scheduler on the given engine.
    pub fn new(feed_manager: FeedManager) -> (updater: Self)
        ensures
            updater.feed_manager == feed_manager,
            updater.sweep is None,
    {
        Updater { feed_manager, sweep: None }
    }

    /// The first sweep, which begins when the process starts: what it has
    /// to refresh is what became due while the process was down. The clock
    /// is read here.
    pub fn started(&mut self) -> (due: Option<Vec<Subscription>>)
        ensures
            final(self).feed_manager == old(self).feed_manager,
            final(self).sweep is Some,
            old(self).sweep is Some ==> due is None && final(self).sweep == old(self).sweep,
            old(self).sweep is None ==> due is Some && due->0.deep_view()
                == old(self).feed_manager.db@.outdated(final(self).sweep->0 as int),
    {
        self.refresh_outdated()
    }

    /// When `subscription` is due again, counted from now: the clock is
    /// read and the jitter is drawn here.
    pub fn next_refresh(subscription: &Subscription) -> (at: Timestamp)
        ensures
            exists|from: int, jitter_minutes: int|
                JITTER_MIN <= jitter_minutes < JITTER_END && at == #[trigger] refresh_time(
                    from,
                    subscription.error_count as int,
                    jitter_minutes,
                ),
    {
        let from = now();
        let minutes = jitter();
        let at = next_refresh_at(from, subscription.error_count, minutes);
        assert(at == refresh_time(from as int, subscription.error_count as int, minutes as int));
        at
    }

    /// Begins a sweep at `now`, unless one has begun and not ended: gives
    /// the subscriptions that it has to refresh, or nothing where no sweep
    /// begins.
    pub fn begin_sweep(&mut self, now: Timestamp) -> (due: Option<Vec<Subscription>>)
        ensures
            final(self).feed_manager == old(self).feed_manager,
            old(self).sweep is Some ==> due is None && final(self).sweep == old(self).sweep,
            old(self).sweep is None ==> final(self).sweep == Some(now) && due is Some
                && due->0.deep_view() == old(self).feed_manager.db@.outdated(now as int),
    {
        if self.sweep.is_some() {
            None
        } else {
            self.sweep = Some(now);
            Some(self.feed_manager.db.find_outdated_subscriptions(now))
        }
    }

    /// Begins a sweep now, unless one has begun and not ended: the clock is
    /// read here, and the sweep is one at the time that it gave.
    pub fn refresh_outdated(&mut self) -> (due: Option<Vec<Subscription>>)
        ensures
            final(self).feed_manager == old(self).feed_manager,
            final(self).sweep is Some,
            old(self).sweep is Some ==> due is None && final(self).sweep == old(self).sweep,
            old(self).sweep is None ==> due is Some && due->0.deep_view()
                == old(self).feed_manager.db@.outdated(final(self).sweep->0 as int),
    {
        let at = now();
        self.begin_sweep(at)
    }

    /// Tells whether the store holds a subscription under the key `id` that
    /// is due at `now`.
    pub fn check_due(&self, id: Id, now: Timestamp) -> (yes: bool)
        requires
            self.feed_manager.db@.wf(),
        ensures
            yes == is_due(self.feed_manager.db@, id, now as int),
    {
        match self.feed_manager.db.get_subscription(id) {
            Ok(row) => row.next_refresh <= now,
            Err(_) => false,
        }
    }

    /// Runs the attempts of one sweep at `now`, each whatever became of the
    /// one before, reports the counts, and ends the sweep. An attempt on a
    /// subscription that is not due is passed over.
    pub fn apply_tick(&mut self, attempts: &Vec<Attempt>, now: Timestamp) -> (report: TickReport)
        requires
            old(self).feed_manager.db@.wf(),
            forall|i: int|
                0 <= i < attempts.len() ==> JITTER_MIN <= (#[trigger] attempts[i]).jitter_minutes
                    < JITTER_END,
        ensures
            final(self).feed_manager.db@.wf(),
            final(self).sweep is None,
            (final(self).feed_manager.db@, report@) == swept(
                old(self).feed_manager.db@,
                attempts.deep_view(),
                now as int,
            ),
    {
        let ghost all = attempts.deep_view();
        let mut report = TickReport { refreshed: 0, failed: 0, skipped: 0, new_items: 0 };
        let mut i: usize = 0;
        while i < attempts.len()
            invariant
                i <= attempts.len(),
                all == attempts.deep_view(),
                self.feed_manager.db@.wf(),
                forall|k: int|
                    0 <= k < attempts.len() ==> JITTER_MIN <= (
                    #[trigger] attempts[k]).jitter_minutes < JITTER_END,
                report.refreshed + report.failed + report.skipped == i,
                (self.feed_manager.db@, report@) == swept(
                    old(self).feed_manager.db@,
                    all.take(i as int),
                    now as int,
                ),
            decreases attempts.len() - i,
        {
            proof {
                assert(all.take(i as int + 1).drop_last() =~= all.take(i as int));
                assert(all.take(i as int + 1).last() == attempts[i as int]@);
            }
            let attempt = &attempts[i];
            if self.check_due(attempt.subscription.id, now) {
                let mut subscription = attempt.subscription.clone();
                match self.feed_manager.apply_refresh(
                    &mut subscription,
                    &attempt.fetched,
                    now,
                    attempt.jitter_minutes,
                ) {
                    Ok(found) => {
                        report.refreshed = report.refreshed + 1;
                        report.new_items = if found <= usize::MAX - report.new_items {
                            report.new_items + found
                        } else {
                            usize::MAX
                        };
                    },
                    Err(_) => {
                        report.failed = report.failed + 1;
                    },
                }
            } else {
                report.skipped = report.skipped + 1;
            }
            i += 1;
        }
        assert(all.take(i as int) =~= all);
        self.sweep = None;
        report
    }

    /// Runs the sweep that has begun over subscriptions, each with what the
    /// transport brought back for its feed, and ends it: a jitter is drawn
    /// for each subscription. A subscription that the store does not hold
    /// as due at the time when the sweep began is passed over; so is every
    /// subscription where no sweep has begun.
    pub fn handle(&mut self, work: Vec<(Subscription, Response)>) -> (report: TickReport)
        requires
            old(self).feed_manager.db@.wf(),
        ensures
            final(self).feed_manager.db@.wf(),
            final(self).sweep is None,
            report.refreshed + report.failed + report.skipped == work.len(),
            match old(self).sweep {
                Some(at) => exists|attempts: Seq<AttemptView>|
                    attempts.len() == work.len() && (forall|i: int|
                        0 <= i < work.len() ==> attempt_on(#[trigger] attempts[i], work[i])) && (
                        final(self).feed_manager.db@,
                        report@,
                    ) == #[trigger] swept(old(self).feed_manager.db@, attempts, at as int),
                None => final(self).feed_manager.db@ == old(self).feed_manager.db@ && report@ == (
                TickReportView { refreshed: 0, failed: 0, skipped: work.len() as nat, new_items: 0 }),
            },
    {
        let at = match self.sweep {
            Some(at) => at,
            None => {
                return TickReport { refreshed: 0, failed: 0, skipped: work.len(), new_items: 0 };
            },
        };
        let mut rest = work;
        let mut attempts: Vec<Attempt> = Vec::new();
        while rest.len() > 0
            invariant
                attempts.len() + rest.len() == work.len(),
                rest@ == work@.skip(attempts.len() as int),
                forall|k: int|
                    0 <= k < attempts.len() ==> JITTER_MIN <= (
                    #[trigger] attempts[k]).jitter_minutes < JITTER_END,
                forall|k: int|
                    0 <= k < attempts.len() ==> attempt_on(
                        #[trigger] attempts.deep_view()[k],
                        work[k],
                    ),
            decreases rest.len(),
        {
            let ghost done = attempts.len() as int;
            let ghost before = attempts.deep_view();
            let (subscription, response) = rest.remove(0);
            assert(work@.skip(done)[0] == work[done]);
            let fetched = self.feed_manager.fetch(response);
            let attempt = Attempt { subscription, fetched, jitter_minutes: jitter() };
            assert(attempt_on(attempt@, work[done]));
            attempts.push(attempt);
            assert(rest@ =~= work@.skip(done + 1));
            assert forall|k: int| 0 <= k < attempts.len() implies attempt_on(
                #[trigger] attempts.deep_view()[k],
                work[k],
            ) by {
                if k < done {
                    assert(attempts.deep_view()[k] == before[k]);
                }
            }
        }
        let report = self.apply_tick(&attempts, at);
        proof {
            lemma_swept_counts(old(self).feed_manager.db@, attempts.deep_view(), at as int);
            assert((self.feed_manager.db@, report@) == swept(
                old(self).feed_manager.db@,
                attempts.deep_view(),
                at as int,
            ));
        }
        report
    }
}

/// A sweep passes over what is not due: an attempt on a subscription that
/// the store, as the attempts before it left it, does not hold as due at
/// the time of the sweep changes nothing and is counted as passed over.
pub proof fn lemma_sweep_passes_over(
    tables: Tables,
    attempts: Seq<AttemptView>,
    attempt: AttemptView,
    now: int,
)
    requires
        !is_due(swept(tables, attempts, now).0, attempt.subscription.id, now),
    ensures
        swept(tables, attempts.push(attempt), now).0 == swept(tables, attempts, now).0,
        swept(tables, attempts.push(attempt), now).1 == (TickReportView {
            skipped: swept(tables, attempts, now).1.skipped + 1,
            ..swept(tables, attempts, now).1
        }),
{
    assert(attempts.push(attempt).drop_last() =~= attempts);
}

/// A sweep counts every attempt once: as refreshed, as failed, or as
/// passed over.
pub proof fn lemma_swept_counts(tables: Tables, attempts: Seq<AttemptView>, now: int)
    ensures
        swept(tables, attempts, now).1.refreshed + swept(tables, attempts, now).1.failed + swept(
            tables,
            attempts,
            now,
        ).1.skipped == attempts.len(),
    decreases attempts.len(),
{
    if attempts.len() > 0 {
        lemma_swept_counts(tables, attempts.drop_last(), now);
    }
}

} // verus!
