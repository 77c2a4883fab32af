//! Waiting for a condition by polling: a readiness check that is tried
//! again and again, at a fixed interval, until it succeeds or a bound on the
//! time has passed.
//!
//! The library decides what to do next; the caller tries the condition,
//! sleeps, and reports how much time has passed since the wait began.

use vstd::prelude::*;
use crate::config::{HealthCheck, HealthCheckKind};

verus! {

/// What a readiness check probes.
#[derive(Debug)]
pub enum ProbeTarget {
    /// Nothing: the service counts as ready at once.
    Nothing,
    /// A TCP port of this machine that must accept a connection.
    Port(u16),
    /// A URL whose GET must answer with success.
    Http(String),
}

/// What a readiness check probes, as a plain value.
pub enum TargetModel {
    Nothing,
    Port(u16),
    Http(Seq<char>),
}

impl View for ProbeTarget {
    type V = TargetModel;

    open spec fn view(&self) -> TargetModel {
        match self {
            ProbeTarget::Nothing => TargetModel::Nothing,
            ProbeTarget::Port(port) => TargetModel::Port(*port),
            ProbeTarget::Http(url) => TargetModel::Http(url@),
        }
    }
}

impl HealthCheck {
    /// What the check probes: a check by HTTP its URL; a check by port its
    /// port, where one is given and is not negative; any other check
    /// nothing.
    pub open spec fn target_of(self) -> TargetModel {
        match self.kind_of() {
            HealthCheckKind::Http => TargetModel::Http(self.http_target@),
            HealthCheckKind::Port => match self.port {
                Some(port) => if port >= 0 {
                    TargetModel::Port(port as u16)
                } else {
                    TargetModel::Nothing
                },
                None => TargetModel::Nothing,
            },
            HealthCheckKind::Unrecognized => TargetModel::Nothing,
        }
    }

    /// What the check probes.
    pub fn probe_target(&self) -> (target: ProbeTarget)
        ensures
            target@ == self.target_of(),
    {
        match self.kind() {
            HealthCheckKind::Http => ProbeTarget::Http(self.http_target.clone()),
            HealthCheckKind::Port => match self.port {
                Some(port) => if port >= 0 {
                    ProbeTarget::Port(port as u16)
                } else {
                    ProbeTarget::Nothing
                },
                None => ProbeTarget::Nothing,
            },
            HealthCheckKind::Unrecognized => ProbeTarget::Nothing,
        }
    }
}

/// The bounds of a wait: how long it may last in all, and how long to sleep
/// between two tries, both in milliseconds.
#[derive(Debug, Clone, Copy, PartialEq, Eq, Structural)]
pub struct PollPlan {
    pub timeout_ms: u64,
    pub interval_ms: u64,
}

/// What the caller of a wait reports. The time is that since the wait began,
/// in milliseconds.
#[derive(Debug, Clone, Copy, PartialEq, Eq, Structural)]
pub enum PollEvent {
    /// The condition was tried, with this result.
    Tried { ok: bool, elapsed_ms: u64 },
    /// The sleep that was asked for is over.
    Slept { elapsed_ms: u64 },
}

/// What the caller of a wait does next.
#[derive(Debug, Clone, Copy, PartialEq, Eq, Structural)]
pub enum PollStep {
    /// Try the condition now.
    Try,
    /// Sleep this many milliseconds.
    Sleep(u64),
    /// The condition holds: the wait ends in success.
    Ready,
    /// The bound has passed: the wait ends in failure.
    TimedOut,
}

impl PollPlan {
    /// How long to sleep when `elapsed_ms` of the bound have passed: the
    /// interval, cut where the bound would be passed, and never nothing.
    pub open spec fn pause(self, elapsed_ms: u64) -> u64
        recommends
            elapsed_ms < self.timeout_ms,
    {
        let left = (self.timeout_ms - elapsed_ms) as u64;
        if self.interval_ms == 0 {
            1
        } else if self.interval_ms < left {
            self.interval_ms
        } else {
            left
        }
    }

    /// What follows `event`: success after a try that succeeded; failure
    /// once the bound has passed; a sleep after a try that failed; a try
    /// after a sleep.
    pub open spec fn decide(self, event: PollEvent) -> PollStep {
        match event {
            PollEvent::Tried { ok, elapsed_ms } => if ok {
                PollStep::Ready
            } else if elapsed_ms >= self.timeout_ms {
                PollStep::TimedOut
            } else {
                PollStep::Sleep(self.pause(elapsed_ms))
            },
            PollEvent::Slept { elapsed_ms } => if elapsed_ms >= self.timeout_ms {
                PollStep::TimedOut
            } else {
                PollStep::Try
            },
        }
    }

    /// What the caller does after `event`.
    pub fn next_step(&self, event: PollEvent) -> (step: PollStep)
        ensures
            step == self.decide(event),
    {
        match event {
            PollEvent::Tried { ok, elapsed_ms } => if ok {
                PollStep::Ready
            } else if elapsed_ms >= self.timeout_ms {
                PollStep::TimedOut
            } else {
                let left: u64 = self.timeout_ms - elapsed_ms;
                if self.interval_ms == 0 {
                    PollStep::Sleep(1)
                } else if self.interval_ms < left {
                    PollStep::Sleep(self.interval_ms)
                } else {
                    PollStep::Sleep(left)
                }
            },
            PollEvent::Slept { elapsed_ms } => if elapsed_ms >= self.timeout_ms {
                PollStep::TimedOut
            } else {
                PollStep::Try
            },
        }
    }
}

/// How a wait ends on a clock that only sleeps move: the result, and the
/// time since the wait began, in milliseconds.
pub struct PollEnd {
    pub ready: bool,
    pub at_ms: int,
}

/// The end of a wait whose next try falls at `now` on a clock that only
/// sleeps move, for a condition that holds from the time `opens_at` on, or
/// never where that is `None`.
pub open spec fn ideal_end(plan: PollPlan, opens_at: Option<int>, now: int) -> PollEnd
    recommends
        0 <= now <= plan.timeout_ms,
    decreases plan.timeout_ms - now,
{
    let ok = opens_at is Some && opens_at->0 <= now;
    if now < 0 || now > plan.timeout_ms {
        PollEnd { ready: false, at_ms: now }
    } else {
        match plan.decide(PollEvent::Tried { ok, elapsed_ms: now as u64 }) {
            PollStep::Sleep(pause) => match plan.decide(
                PollEvent::Slept { elapsed_ms: (now + pause) as u64 },
            ) {
                PollStep::Try => ideal_end(plan, opens_at, now + pause),
                _ => PollEnd { ready: false, at_ms: now + pause },
            },
            PollStep::Ready => PollEnd { ready: true, at_ms: now },
            _ => PollEnd { ready: false, at_ms: now },
        }
    }
}

/// A wait never reports failure before its bound has passed, and never asks
/// for a sleep that ends after the bound.
pub proof fn lemma_deadline_is_kept(plan: PollPlan, event: PollEvent)
    ensures
        plan.decide(event) is TimedOut ==> match event {
            PollEvent::Tried { ok, elapsed_ms } => !ok && elapsed_ms >= plan.timeout_ms,
            PollEvent::Slept { elapsed_ms } => elapsed_ms >= plan.timeout_ms,
        },
        plan.decide(event) matches PollStep::Sleep(pause) ==> event matches PollEvent::Tried {
            ok,
            elapsed_ms,
        } && pause > 0 && elapsed_ms + pause <= plan.timeout_ms,
{
}

/// For a condition that never holds, the wait ends in failure exactly when
/// the bound has passed: not sooner, and not later.
pub proof fn lemma_never_ready_times_out(plan: PollPlan, now: int)
    requires
        0 <= now <= plan.timeout_ms,
    ensures
        !ideal_end(plan, None, now).ready,
        ideal_end(plan, None, now).at_ms == plan.timeout_ms,
    decreases plan.timeout_ms - now,
{
    if now < plan.timeout_ms {
        let pause = plan.pause(now as u64);
        if now + pause < plan.timeout_ms {
            lemma_never_ready_times_out(plan, now + pause);
        }
    }
}

/// For a condition that holds from `opens_at` on, with a try at `now` not
/// after that and the bound at least one interval after it, the wait ends
/// in success, not before the condition holds and less than one interval
/// after.
pub proof fn lemma_ready_within_interval(plan: PollPlan, opens_at: int, now: int)
    requires
        plan.interval_ms > 0,
        0 <= now <= opens_at,
        opens_at + plan.interval_ms <= plan.timeout_ms,
    ensures
        ideal_end(plan, Some(opens_at), now).ready,
        opens_at <= ideal_end(plan, Some(opens_at), now).at_ms < opens_at + plan.interval_ms,
    decreases opens_at - now,
{
    if now < opens_at {
        let pause = plan.pause(now as u64);
        assert(pause == plan.interval_ms);
        if now + pause <= opens_at {
            lemma_ready_within_interval(plan, opens_at, now + pause);
        } else {
            let next = now + pause;
            assert(next < plan.timeout_ms);
            assert(ideal_end(plan, Some(opens_at), next).ready);
        }
    }
}

} // verus!
