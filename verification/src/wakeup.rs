//! When the daemon leaves its wait for another pass.
//!
//! Docker events only wake the planner. A burst of them becomes one wake after
//! a quiet time, and the interval stays the backstop when they never go quiet.
//! The clock, the signals and the event stream are outside: the functions here
//! take the moment, in any unit that the caller keeps to, and say what to do.

use crate::duration::{duration_of, read_duration};
use crate::outside::{quote, quoted};
use crate::text::{concat3, opt_view};
use vstd::prelude::*;

verus! {

/// The quiet time after the last event before a wake, in milliseconds.
pub const DEFAULT_EVENT_DEBOUNCE: u64 = 500;

/// The pause between a lost event stream and the next attempt, in
/// milliseconds.
pub const EVENT_RECONNECT_BACKOFF: u64 = 1000;

/// Why the daemon runs a pass.
#[derive(Debug, Clone, Copy, PartialEq, Eq, Structural)]
pub enum DaemonWake {
    Interval,
    Event { events: u64, reconnects: u64 },
    Reload,
    Terminate,
}

/// The word for what woke the daemon.
pub open spec fn wake_text(wake: DaemonWake) -> Seq<char> {
    match wake {
        DaemonWake::Interval => "interval"@,
        DaemonWake::Event { .. } => "event"@,
        DaemonWake::Reload => "reload"@,
        DaemonWake::Terminate => "terminate"@,
    }
}

impl DaemonWake {
    /// The word for what woke the daemon.
    pub fn as_text(self) -> (word: &'static str)
        ensures
            word@ == wake_text(self),
    {
        match self {
            DaemonWake::Interval => "interval",
            DaemonWake::Event { .. } => "event",
            DaemonWake::Reload => "reload",
            DaemonWake::Terminate => "terminate",
        }
    }
}

/// How often the daemon runs a pass where nothing else is said, in seconds.
pub const DEFAULT_INTERVAL: u64 = 300;

/// The span of a written duration that is longer than zero.
pub open spec fn positive_span(text: Seq<char>) -> Option<(u64, u32)> {
    match duration_of(text) {
        Ok(span) => if span.0 == 0 && span.1 == 0 {
            None
        } else {
            Some(span)
        },
        Err(_) => None,
    }
}

fn read_span(text: &str) -> (span: Option<(u64, u32)>)
    ensures
        span == positive_span(text@),
{
    match read_duration(text) {
        Ok(span) => if span.0 == 0 && span.1 == 0 {
            None
        } else {
            Some(span)
        },
        Err(_) => None,
    }
}

/// How often the daemon runs a pass at least: as often as asked for, else as
/// configured, else by default, in seconds and nanoseconds. What is asked for
/// has to be a duration longer than zero.
pub fn daemon_interval(asked: Option<&str>, configured: &Option<String>) -> (outcome: Result<
    (u64, u32),
    String,
>)
    ensures
        match asked {
            Some(text) => match positive_span(text@) {
                Some(span) => outcome == Ok::<(u64, u32), String>(span),
                None => outcome matches Err(message) && message@ == "--interval "@ + quoted(text@)
                    + " is not a duration greater than zero"@,
            },
            None => outcome == Ok::<(u64, u32), String>(
                match opt_view(*configured) {
                    Some(text) => match positive_span(text) {
                        Some(span) => span,
                        None => (DEFAULT_INTERVAL, 0u32),
                    },
                    None => (DEFAULT_INTERVAL, 0u32),
                },
            ),
        },
{
    match asked {
        Some(text) => match read_span(text) {
            Some(span) => Ok(span),
            None => Err(
                concat3(
                    "--interval ",
                    quote(text).as_str(),
                    " is not a duration greater than zero",
                ),
            ),
        },
        None => match configured {
            Some(text) => match read_span(text.as_str()) {
                Some(span) => Ok(span),
                None => Ok((DEFAULT_INTERVAL, 0)),
            },
            None => Ok((DEFAULT_INTERVAL, 0)),
        },
    }
}

/// Events and reconnects since the last look.
#[derive(Debug, Clone, Copy, PartialEq, Eq, Structural)]
pub struct TickCounts {
    pub events: u64,
    pub reconnects: u64,
}

/// A sum that stays at the largest number.
pub open spec fn capped_sum(left: u64, right: u64) -> u64 {
    if left + right <= u64::MAX {
        (left + right) as u64
    } else {
        u64::MAX
    }
}

/// Two counts together.
pub open spec fn both_counts(left: TickCounts, right: TickCounts) -> TickCounts {
    TickCounts {
        events: capped_sum(left.events, right.events),
        reconnects: capped_sum(left.reconnects, right.reconnects),
    }
}

/// Whether anything was counted.
pub open spec fn ticked(counts: TickCounts) -> bool {
    counts.events > 0 || counts.reconnects > 0
}

impl TickCounts {
    /// Nothing counted.
    pub fn none() -> (counts: Self)
        ensures
            counts == (TickCounts { events: 0, reconnects: 0 }),
    {
        TickCounts { events: 0, reconnects: 0 }
    }

    /// Whether anything was counted.
    pub fn has_ticks(self) -> (found: bool)
        ensures
            found == ticked(self),
    {
        self.events > 0 || self.reconnects > 0
    }

    /// Counts further ticks.
    pub fn gain(&mut self, other: Self)
        ensures
            *final(self) == both_counts(*old(self), other),
    {
        self.events = self.events.saturating_add(other.events);
        self.reconnects = self.reconnects.saturating_add(other.reconnects);
    }
}

/// One wait of the daemon.
#[derive(Debug, Clone, Copy, PartialEq, Eq, Structural)]
pub struct Wait {
    /// When the interval ends.
    pub interval_deadline: u64,
    /// The quiet time.
    pub debounce: u64,
    /// What has been counted in this wait.
    pub pending: TickCounts,
    /// When the quiet time ends, where anything was counted.
    pub debounce_deadline: Option<u64>,
}

/// What the daemon does next.
#[derive(Debug, Clone, Copy, PartialEq, Eq, Structural)]
pub enum WaitStep {
    /// It leaves the wait.
    Wake(DaemonWake),
    /// It sleeps until this moment, a tick or a signal.
    SleepUntil(u64),
}

/// When the quiet time ends that starts now.
pub open spec fn quiet_until(pending: TickCounts, now: u64, debounce: u64) -> Option<u64> {
    if ticked(pending) {
        Some(capped_sum(now, debounce))
    } else {
        None
    }
}

/// What a wait does at a moment.
pub open spec fn step_at(wait: Wait, now: u64) -> WaitStep {
    if now >= wait.interval_deadline {
        WaitStep::Wake(DaemonWake::Interval)
    } else {
        match wait.debounce_deadline {
            Some(deadline) => if now >= deadline && ticked(wait.pending) {
                WaitStep::Wake(
                    DaemonWake::Event {
                        events: wait.pending.events,
                        reconnects: wait.pending.reconnects,
                    },
                )
            } else if deadline <= wait.interval_deadline {
                WaitStep::SleepUntil(deadline)
            } else {
                WaitStep::SleepUntil(wait.interval_deadline)
            },
            None => WaitStep::SleepUntil(wait.interval_deadline),
        }
    }
}

/// A wait after further ticks: the quiet time starts anew.
pub open spec fn after_ticks(wait: Wait, now: u64, ticks: TickCounts) -> Wait {
    let pending = both_counts(wait.pending, ticks);
    Wait { pending, debounce_deadline: quiet_until(pending, now, wait.debounce), ..wait }
}

/// A wait that starts now, with the ticks that came in the meantime.
pub open spec fn wait_from(now: u64, interval: u64, debounce: u64, waiting: TickCounts) -> Wait {
    Wait {
        interval_deadline: capped_sum(now, interval),
        debounce,
        pending: waiting,
        debounce_deadline: quiet_until(waiting, now, debounce),
    }
}

fn quiet_end(pending: TickCounts, now: u64, debounce: u64) -> (deadline: Option<u64>)
    ensures
        deadline == quiet_until(pending, now, debounce),
{
    if pending.has_ticks() {
        Some(now.saturating_add(debounce))
    } else {
        None
    }
}

impl Wait {
    /// Starts a wait.
    pub fn start(now: u64, interval: u64, debounce: u64, waiting: TickCounts) -> (wait: Self)
        ensures
            wait == wait_from(now, interval, debounce, waiting),
    {
        Wait {
            interval_deadline: now.saturating_add(interval),
            debounce,
            pending: waiting,
            debounce_deadline: quiet_end(waiting, now, debounce),
        }
    }

    /// Takes further ticks.
    pub fn note(&mut self, now: u64, ticks: TickCounts)
        ensures
            *final(self) == after_ticks(*old(self), now, ticks),
    {
        let mut pending = self.pending;
        pending.gain(ticks);
        self.pending = pending;
        self.debounce_deadline = quiet_end(pending, now, self.debounce);
    }

    /// Says what to do at a moment.
    pub fn step(&self, now: u64) -> (step: WaitStep)
        ensures
            step == step_at(*self, now),
    {
        if now >= self.interval_deadline {
            return WaitStep::Wake(DaemonWake::Interval);
        }
        match self.debounce_deadline {
            Some(deadline) => {
                if now >= deadline && self.pending.has_ticks() {
                    return WaitStep::Wake(
                        DaemonWake::Event {
                            events: self.pending.events,
                            reconnects: self.pending.reconnects,
                        },
                    );
                }
                if deadline <= self.interval_deadline {
                    WaitStep::SleepUntil(deadline)
                } else {
                    WaitStep::SleepUntil(self.interval_deadline)
                }
            },
            None => WaitStep::SleepUntil(self.interval_deadline),
        }
    }
}

/// Whether a wait can have come about: the quiet time runs exactly where
/// something was counted.
pub open spec fn wait_holds(wait: Wait) -> bool {
    wait.debounce_deadline is Some <==> ticked(wait.pending)
}

/// Every wait that starts, and every wait that takes further ticks, holds
/// together.
pub proof fn waits_hold_together(
    wait: Wait,
    now: u64,
    interval: u64,
    debounce: u64,
    ticks: TickCounts,
)
    ensures
        wait_holds(wait_from(now, interval, debounce, ticks)),
        wait_holds(after_ticks(wait, now, ticks)),
{
}

/// Once the interval is over the daemon wakes, however many ticks are pending:
/// a flood that never goes quiet does not hold a pass back.
pub proof fn the_interval_is_a_backstop(wait: Wait, now: u64)
    requires
        now >= wait.interval_deadline,
    ensures
        step_at(wait, now) == WaitStep::Wake(DaemonWake::Interval),
{
}

/// A sleep ends after the present moment and not after the interval.
pub proof fn sleeps_make_progress(wait: Wait, now: u64)
    requires
        wait_holds(wait),
        step_at(wait, now) is SleepUntil,
    ensures
        now < step_at(wait, now)->SleepUntil_0 <= wait.interval_deadline,
{
}

/// Ticks wake the daemon once, with all of them counted, and not before it has
/// been quiet for the whole debounce.
pub proof fn a_burst_is_one_wake(wait: Wait, now: u64, ticks: TickCounts, later: u64)
    requires
        ticked(ticks),
        now <= later,
        later < wait.interval_deadline,
    ensures
        step_at(after_ticks(wait, now, ticks), later) is Wake <==> later >= capped_sum(
            now,
            wait.debounce,
        ),
        step_at(after_ticks(wait, now, ticks), later) is Wake ==> step_at(
            after_ticks(wait, now, ticks),
            later,
        ) == WaitStep::Wake(
            DaemonWake::Event {
                events: both_counts(wait.pending, ticks).events,
                reconnects: both_counts(wait.pending, ticks).reconnects,
            },
        ),
{
}

/// What is counted when the event stream reports something.
#[derive(Debug, Clone, Copy, PartialEq, Eq, Structural)]
pub enum StreamStep {
    /// One more event.
    CountEvent,
    /// One more reconnect.
    CountReconnect,
    /// Nothing; the stream is read on.
    ReadOn,
    /// Nothing; the stream is left, and after a pause another is opened.
    Leave,
}

/// Whether a stream has ever carried an event.
#[derive(Debug, Clone, Copy, PartialEq, Eq, Structural)]
pub struct Listener {
    pub ever_live: bool,
}

impl Listener {
    /// A listener that has seen nothing yet.
    pub fn new() -> (listener: Self)
        ensures
            !listener.ever_live,
    {
        Listener { ever_live: false }
    }

    /// A stream was opened: a reconnect, where an earlier one was live.
    pub fn opened(&self) -> (step: StreamStep)
        ensures
            step == if self.ever_live {
                StreamStep::CountReconnect
            } else {
                StreamStep::ReadOn
            },
    {
        if self.ever_live {
            StreamStep::CountReconnect
        } else {
            StreamStep::ReadOn
        }
    }

    /// The stream gave an item, a failure, or its end.
    pub fn received(&mut self, item: Option<bool>) -> (step: StreamStep)
        ensures
            if item == Some(true) {
                step == StreamStep::CountEvent && final(self).ever_live
            } else {
                step == StreamStep::Leave && *final(self) == *old(self)
            },
    {
        match item {
            Some(good) => if good {
                self.ever_live = true;
                StreamStep::CountEvent
            } else {
                StreamStep::Leave
            },
            None => StreamStep::Leave,
        }
    }
}

} // verus!
