//! Phases and timing.
//!
//! The engine calls into the ECS twice over: once per rendered frame and once
//! per physics step. Each call runs its own phase, and the physics phase must
//! see the elapsed time of the step that is running.

use std::time::{Duration, Instant};
use vstd::prelude::*;

verus! {

/// The phase that runs once per physics step of the engine, at the rate of
/// the engine's physics.
#[derive(Debug, Default, Clone, Copy, PartialEq, Eq, Hash)]
pub struct PhysicsUpdate;

/// Marks the thread that owns the engine. A system may call into the engine
/// only while it holds this marker exclusively.
#[derive(Debug, Default)]
pub struct MainThreadMarker;

/// What the engine asks of the ECS side, with the elapsed time where it is a
/// physics step.
pub enum EngineCall<D> {
    /// A rendered frame.
    Process,
    /// A physics step that took `D`.
    PhysicsProcess(D),
}

/// One thing to do on the ECS side.
pub enum ScheduleAction<D> {
    /// Store the elapsed time of the physics step where the systems read it.
    RefreshPhysicsDelta(D),
    /// Run the per-frame phase.
    RunUpdate,
    /// Run the physics phase.
    RunPhysicsUpdate,
}

/// What is to be done for a call of the engine, in order.
pub open spec fn planned<D>(call: EngineCall<D>) -> Seq<ScheduleAction<D>> {
    match call {
        EngineCall::Process => seq![ScheduleAction::RunUpdate],
        EngineCall::PhysicsProcess(delta) => seq![
            ScheduleAction::RefreshPhysicsDelta(delta),
            ScheduleAction::RunPhysicsUpdate,
        ],
    }
}

/// Plans a call of the engine. A frame runs the per-frame phase. A physics
/// step first refreshes the elapsed time with that of this very step and then
/// runs the physics phase, so that no system of that phase sees the time of
/// an earlier step.
pub fn plan_engine_call<D>(call: EngineCall<D>) -> (actions: Vec<ScheduleAction<D>>)
    ensures
        actions@ == planned(call),
{
    let mut actions: Vec<ScheduleAction<D>> = Vec::new();
    match call {
        EngineCall::Process => {
            actions.push(ScheduleAction::RunUpdate);
        },
        EngineCall::PhysicsProcess(delta) => {
            actions.push(ScheduleAction::RefreshPhysicsDelta(delta));
            actions.push(ScheduleAction::RunPhysicsUpdate);
        },
    }
    assert(actions@ =~= planned(call));
    actions
}

/// A point on the monotonic clock of the standard library.
#[verifier::external_type_specification]
#[verifier::external_body]
pub struct ExInstant(Instant);

/// The time that `Instant`'s subtraction gives for two points of the clock.
pub uninterp spec fn elapsed_between(later: Instant, earlier: Instant) -> Duration;

/// `Instant::now`: the present point on the monotonic clock.
///
/// Nothing is claimed of the point that comes back.
#[verifier::external_body]
fn clock_now() -> (now: Instant) {
    Instant::now()
}

/// `Instant - Instant`: the time from `earlier` to `later`, zero where
/// `earlier` is the later one.
///
/// The result is named, not described.
#[verifier::external_body]
fn elapsed(later: Instant, earlier: Instant) -> (time: Duration)
    ensures
        time == elapsed_between(later, earlier),
{
    later - earlier
}

/// Measures the time between its own calls, for a system that does not run
/// once per frame.
pub struct SystemDeltaTimer {
    last_time: Option<Instant>,
}

impl SystemDeltaTimer {
    /// The point of the clock at the latest measurement, if there was one.
    pub closed spec fn last_time(&self) -> Option<Instant> {
        self.last_time
    }

    /// A timer that has not measured yet.
    pub fn new() -> (timer: Self)
        ensures
            timer.last_time() is None,
    {
        SystemDeltaTimer { last_time: None }
    }

    /// The time since the latest measurement, as of the point `now` of the
    /// clock, which becomes the latest measurement. The first measurement is
    /// taken against `now` itself.
    pub fn delta_at(&mut self, now: Instant) -> (time: Duration)
        ensures
            final(self).last_time() == Some(now),
            time == elapsed_between(
                now,
                match old(self).last_time() {
                    Some(last) => last,
                    None => now,
                },
            ),
    {
        let last = match self.last_time {
            Some(last) => last,
            None => now,
        };
        self.last_time = Some(now);
        elapsed(now, last)
    }

    /// The time since the latest measurement, as of the present.
    pub fn delta(&mut self) -> (time: Duration)
        ensures
            final(self).last_time() is Some,
            time == elapsed_between(
                final(self).last_time().unwrap(),
                match old(self).last_time() {
                    Some(last) => last,
                    None => final(self).last_time().unwrap(),
                },
            ),
    {
        let now = clock_now();
        self.delta_at(now)
    }
}

} // verus!
