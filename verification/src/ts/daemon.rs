//! What the daemon does, and how often.

use vstd::prelude::*;

use crate::config::InnerConfig;

verus! {

/// Seconds between two looks at the clients. Connection timeouts have to be short enough that no
/// request blocks others.
pub const INTERVAL_ACTIVITY_S: i64 = 30;

/// Minutes between two flushes.
pub const INTERVAL_FLUSH_M: i64 = 15;

/// Work of the daemon.
#[derive(Clone, Copy, Debug, PartialEq, Eq, Structural)]
pub enum Task {
    /// Look at the clients that are online.
    Tick,
    /// Store names and activities.
    FlushData,
    /// Read the settings again.
    UpdateSettings,
    /// Store the list of channels.
    UpdateChannels,
}

/// Tasks that are due together, and done in turn.
#[derive(Debug)]
pub struct TimerPlan {
    /// Seconds from one time to the next.
    pub interval: i64,
    pub tasks: Vec<Task>,
}

/// Whether these are the timers of the daemon: one looks at the clients, the other one stores what
/// was gathered and then brings settings and channels up to date.
pub open spec fn are_daemon_timers(timers: Seq<TimerPlan>) -> bool {
    &&& timers.len() == 2
    &&& timers[0].interval == INTERVAL_ACTIVITY_S
    &&& timers[0].tasks@ == seq![Task::Tick]
    &&& timers[1].interval == INTERVAL_FLUSH_M * 60
    &&& timers[1].tasks@ == seq![Task::FlushData, Task::UpdateSettings, Task::UpdateChannels]
}

/// Start TS daemon: the timers that it runs, none where it is disabled.
pub fn start_daemon(config: &InnerConfig) -> (plans: Option<Vec<TimerPlan>>)
    ensures
        plans is Some == config.ts.enabled,
        plans is Some ==> are_daemon_timers(plans->0@),
{
    if config.ts.enabled {
        let activity = TimerPlan { interval: INTERVAL_ACTIVITY_S, tasks: vec![Task::Tick] };
        let flush = TimerPlan {
            interval: INTERVAL_FLUSH_M * 60,
            tasks: vec![Task::FlushData, Task::UpdateSettings, Task::UpdateChannels],
        };
        assert(activity.tasks@ =~= seq![Task::Tick]);
        assert(flush.tasks@ =~= seq![Task::FlushData, Task::UpdateSettings, Task::UpdateChannels]);
        Some(vec![activity, flush])
    } else {
        None
    }
}

/// What has happened to a timer.
#[derive(Debug)]
pub enum RoundEvent<E> {
    /// It went off.
    Due,
    /// The task in this place is done, or failed.
    Done(usize, Result<(), E>),
}

/// What a timer does next.
#[derive(Clone, Copy, Debug, PartialEq, Eq, Structural)]
pub enum RoundAction {
    /// Do the task in this place.
    Run(usize, Task),
    /// Wait until the timer goes off again, this many seconds after the last time.
    Wait(i64),
}

/// What is next when the tasks before `place` are done.
pub open spec fn round_action(plan: TimerPlan, place: int) -> RoundAction {
    if place < plan.tasks@.len() {
        RoundAction::Run(place as usize, plan.tasks@[place])
    } else {
        RoundAction::Wait(plan.interval)
    }
}

/// What a timer does on `event`, and the error to log. A round begins with the first task, and goes
/// on with the next one whether or not a task failed.
pub open spec fn round_step<E>(plan: TimerPlan, event: RoundEvent<E>) -> (RoundAction, Option<E>) {
    match event {
        RoundEvent::Due => (round_action(plan, 0), None),
        RoundEvent::Done(place, Ok(_)) => (round_action(plan, place + 1), None),
        RoundEvent::Done(place, Err(e)) => (round_action(plan, place + 1), Some(e)),
    }
}

/// Runs a timer: takes in what has happened and says what is next, and which error to log.
pub fn run_timer<E>(plan: &TimerPlan, event: RoundEvent<E>) -> (next: (RoundAction, Option<E>))
    ensures
        next == round_step(*plan, event),
{
    let len: usize = plan.tasks.len();
    let (done, failure): (Option<usize>, Option<E>) = match event {
        RoundEvent::Due => (None, None),
        RoundEvent::Done(place, Ok(_)) => (Some(place), None),
        RoundEvent::Done(place, Err(e)) => (Some(place), Some(e)),
    };
    let place: usize = match done {
        None => 0,
        Some(place) => if place < len {
            place + 1
        } else {
            len
        },
    };
    if place < len {
        (RoundAction::Run(place, plan.tasks[place]), failure)
    } else {
        (RoundAction::Wait(plan.interval), failure)
    }
}

/// What a timer does in a round in which the tasks end with `outcomes`: what follows when it goes
/// off, and then what follows each task.
pub open spec fn round_actions<E>(
    plan: TimerPlan,
    outcomes: Seq<Result<(), E>>,
) -> Seq<RoundAction> {
    Seq::new(
        outcomes.len() + 1,
        |i: int|
            if i == 0 {
                round_step(plan, RoundEvent::<E>::Due).0
            } else {
                round_step(plan, RoundEvent::Done((i - 1) as usize, outcomes[i - 1])).0
            },
    )
}

/// A round does every task once, in order, and then waits for the next round, whichever of the tasks
/// fail.
pub proof fn law_round_does_every_task<E>(plan: TimerPlan, outcomes: Seq<Result<(), E>>)
    requires
        outcomes.len() == plan.tasks@.len() <= usize::MAX,
    ensures
        round_actions(plan, outcomes).len() == plan.tasks@.len() + 1,
        forall|i: int|
            0 <= i < plan.tasks@.len() ==> #[trigger] round_actions(plan, outcomes)[i]
                == RoundAction::Run(i as usize, plan.tasks@[i]),
        round_actions(plan, outcomes).last() == RoundAction::Wait(plan.interval),
{
}

/// From any place on, the next task is done, and behind the last one the timer waits, whether or not
/// the task in that place failed.
pub proof fn law_next_task<E>(plan: TimerPlan, place: usize, outcome: Result<(), E>)
    ensures
        place + 1 < plan.tasks@.len() ==> round_step(plan, RoundEvent::Done(place, outcome)).0
            == RoundAction::Run((place + 1) as usize, plan.tasks@[place + 1]),
        place + 1 >= plan.tasks@.len() ==> round_step(plan, RoundEvent::Done(place, outcome)).0
            == RoundAction::Wait(plan.interval),
{
}

/// The error of a task that failed is handed back, whatever its place, and there is none otherwise.
pub proof fn law_failures_are_told<E>(plan: TimerPlan, place: usize, e: E)
    ensures
        round_step(plan, RoundEvent::Done(place, Err(e))).1 == Some(e),
        round_step(plan, RoundEvent::<E>::Done(place, Ok(()))).1 is None,
        round_step(plan, RoundEvent::<E>::Due).1 is None,
{
}

/// Every half minute the daemon looks at the clients; every quarter of an hour it stores what was
/// gathered, reads the settings and stores the channels, in this order. No failure of any of these
/// keeps it from the others, or from the next round.
pub proof fn law_daemon_rounds<E>(
    timers: Seq<TimerPlan>,
    look: Result<(), E>,
    flush: Result<(), E>,
    settings: Result<(), E>,
    channels: Result<(), E>,
)
    requires
        are_daemon_timers(timers),
    ensures
        timers.len() == 2,
        round_actions(timers[0], seq![look]) == seq![
            RoundAction::Run(0, Task::Tick),
            RoundAction::Wait(30),
        ],
        round_actions(timers[1], seq![flush, settings, channels]) == seq![
            RoundAction::Run(0, Task::FlushData),
            RoundAction::Run(1, Task::UpdateSettings),
            RoundAction::Run(2, Task::UpdateChannels),
            RoundAction::Wait(900),
        ],
{
    law_round_does_every_task(timers[0], seq![look]);
    law_round_does_every_task(timers[1], seq![flush, settings, channels]);
    let first = round_actions(timers[0], seq![look]);
    let second = round_actions(timers[1], seq![flush, settings, channels]);
    assert(first =~= seq![RoundAction::Run(0, Task::Tick), RoundAction::Wait(30)]);
    assert(second =~= seq![
        RoundAction::Run(0, Task::FlushData),
        RoundAction::Run(1, Task::UpdateSettings),
        RoundAction::Run(2, Task::UpdateChannels),
        RoundAction::Wait(900),
    ]);
}

} // verus!
