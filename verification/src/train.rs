//! The control flow of a train's worker. The worker loads the train's
//! script, runs it once, then calls the script's `Think` on every tick
//! until the train is stopped. A script that fails to load is not run,
//! but the worker still ticks; a script whose first run fails closes the
//! worker's Lua state and ends it.
//!
//! The worker reports what happened as an event; `train_step` answers with
//! the worker's next phase and the action to perform, whose outcome is the
//! next event.
use vstd::prelude::*;

verus! {

/// Where a worker stands.
#[derive(Clone, Copy, Debug, PartialEq, Eq, Structural)]
pub enum TrainPhase {
    /// Loading the script.
    Loading,
    /// Running the loaded script for the first time.
    Starting,
    /// Ticking.
    Running,
    /// Done.
    Stopped,
}

/// What the worker observed.
#[derive(Clone, Copy, Debug, PartialEq, Eq, Structural)]
pub enum TrainEvent {
    /// The script was loaded (`true`) or could not be (`false`).
    Loaded(bool),
    /// The script's first run succeeded (`true`) or failed (`false`).
    Ran(bool),
    /// The stop flag was read: set (`true`) or not (`false`).
    Polled(bool),
}

/// What the worker does next.
#[derive(Clone, Copy, Debug, PartialEq, Eq, Structural)]
pub enum TrainAction {
    /// Run the loaded script, then report `Ran`.
    RunScript,
    /// Read the stop flag, then report `Polled`.
    PollStop,
    /// Call `Think`, wait one tick, read the stop flag, then report `Polled`.
    Think,
    /// Close the Lua state and end.
    CloseAndExit,
    /// End.
    Exit,
    /// The event does not belong to the phase; nothing is done and the
    /// phase stays as it was.
    Ignore,
}

/// The phase and action that follow `event` in `phase`.
pub open spec fn train_step_spec(phase: TrainPhase, event: TrainEvent) -> (TrainPhase, TrainAction) {
    match (phase, event) {
        (TrainPhase::Loading, TrainEvent::Loaded(true)) => (TrainPhase::Starting, TrainAction::RunScript),
        (TrainPhase::Loading, TrainEvent::Loaded(false)) => (TrainPhase::Running, TrainAction::PollStop),
        (TrainPhase::Starting, TrainEvent::Ran(true)) => (TrainPhase::Running, TrainAction::PollStop),
        (TrainPhase::Starting, TrainEvent::Ran(false)) => (TrainPhase::Stopped, TrainAction::CloseAndExit),
        (TrainPhase::Running, TrainEvent::Polled(false)) => (TrainPhase::Running, TrainAction::Think),
        (TrainPhase::Running, TrainEvent::Polled(true)) => (TrainPhase::Stopped, TrainAction::Exit),
        (TrainPhase::Stopped, _) => (TrainPhase::Stopped, TrainAction::Exit),
        (p, _) => (p, TrainAction::Ignore),
    }
}

/// The phase and action that follow `event` in `phase`.
pub fn train_step(phase: TrainPhase, event: TrainEvent) -> (next: (TrainPhase, TrainAction))
    ensures
        next == train_step_spec(phase, event),
{
    match (phase, event) {
        (TrainPhase::Loading, TrainEvent::Loaded(true)) => (TrainPhase::Starting, TrainAction::RunScript),
        (TrainPhase::Loading, TrainEvent::Loaded(false)) => (TrainPhase::Running, TrainAction::PollStop),
        (TrainPhase::Starting, TrainEvent::Ran(true)) => (TrainPhase::Running, TrainAction::PollStop),
        (TrainPhase::Starting, TrainEvent::Ran(false)) => (TrainPhase::Stopped, TrainAction::CloseAndExit),
        (TrainPhase::Running, TrainEvent::Polled(false)) => (TrainPhase::Running, TrainAction::Think),
        (TrainPhase::Running, TrainEvent::Polled(true)) => (TrainPhase::Stopped, TrainAction::Exit),
        (TrainPhase::Stopped, _) => (TrainPhase::Stopped, TrainAction::Exit),
        (p, _) => (p, TrainAction::Ignore),
    }
}

/// A stopped worker stays stopped and only ends.
pub proof fn law_stopped_is_final(event: TrainEvent)
    ensures
        train_step_spec(TrainPhase::Stopped, event) == (TrainPhase::Stopped, TrainAction::Exit),
{
}

/// `Think` is called only while the worker ticks and the train was not
/// stopped; the script runs only right after it loaded.
pub proof fn law_think_only_while_running(phase: TrainPhase, event: TrainEvent)
    ensures
        train_step_spec(phase, event).1 == TrainAction::Think ==> phase == TrainPhase::Running
            && event == TrainEvent::Polled(false),
        train_step_spec(phase, event).1 == TrainAction::RunScript ==> phase == TrainPhase::Loading
            && event == TrainEvent::Loaded(true),
{
}

/// The worker ends exactly when the stop flag is seen set or the first
/// run fails, and closes its Lua state only in the latter case.
pub proof fn law_when_the_worker_ends(phase: TrainPhase, event: TrainEvent)
    requires
        phase != TrainPhase::Stopped,
    ensures
        (train_step_spec(phase, event).0 == TrainPhase::Stopped) <==> ((phase == TrainPhase::Running
            && event == TrainEvent::Polled(true)) || (phase == TrainPhase::Starting && event
            == TrainEvent::Ran(false))),
        train_step_spec(phase, event).1 == TrainAction::CloseAndExit <==> (phase
            == TrainPhase::Starting && event == TrainEvent::Ran(false)),
{
}

/// How a worker starts: a loaded script runs once, and ticking begins
/// after it ran or if it could not be loaded; in every other pairing of
/// phase and event nothing is done and the phase is kept.
pub proof fn law_start_of_a_worker(phase: TrainPhase, event: TrainEvent)
    ensures
        train_step_spec(TrainPhase::Loading, TrainEvent::Loaded(true)) == (
            TrainPhase::Starting,
            TrainAction::RunScript,
        ),
        train_step_spec(TrainPhase::Loading, TrainEvent::Loaded(false)) == (
            TrainPhase::Running,
            TrainAction::PollStop,
        ),
        train_step_spec(TrainPhase::Starting, TrainEvent::Ran(true)) == (
            TrainPhase::Running,
            TrainAction::PollStop,
        ),
        phase != TrainPhase::Stopped && !(phase == TrainPhase::Loading && event is Loaded) && !(
        phase == TrainPhase::Starting && event is Ran) && !(phase == TrainPhase::Running
            && event is Polled) ==> train_step_spec(phase, event) == (phase, TrainAction::Ignore),
{
}

/// The actions of a ticking worker whose successive reads of the stop
/// flag give `polls`: each read is answered by `train_step`, and the
/// worker ends at the first action that stops it.
pub open spec fn ticking_actions(polls: Seq<bool>) -> Seq<TrainAction>
    decreases polls.len(),
{
    if polls.len() == 0 {
        Seq::empty()
    } else {
        let (next, action) = train_step_spec(TrainPhase::Running, TrainEvent::Polled(polls[0]));
        if next == TrainPhase::Stopped {
            seq![action]
        } else {
            seq![action] + ticking_actions(polls.drop_first())
        }
    }
}

/// A stop is obeyed at the next read of the flag: if the flag is first
/// seen set at read `k`, the ticking worker calls `Think` once after each
/// of the `k` earlier reads and then ends, so after the flag is set at
/// most the one `Think` already under way runs.
pub proof fn law_stop_obeyed_at_next_poll(polls: Seq<bool>, k: int)
    requires
        0 <= k < polls.len(),
        polls[k],
        forall|j: int| 0 <= j < k ==> !polls[j],
    ensures
        ticking_actions(polls) == Seq::new(k as nat, |_i: int| TrainAction::Think).push(
            TrainAction::Exit,
        ),
    decreases k,
{
    if k == 0 {
        assert(ticking_actions(polls) =~= seq![TrainAction::Exit]);
    } else {
        let rest = polls.drop_first();
        assert forall|j: int| 0 <= j < k - 1 implies !rest[j] by {
            assert(rest[j] == polls[j + 1]);
        }
        law_stop_obeyed_at_next_poll(rest, k - 1);
        assert(!polls[0]);
        assert(ticking_actions(polls) =~= seq![TrainAction::Think] + ticking_actions(rest));
        assert(seq![TrainAction::Think] + Seq::new((k - 1) as nat, |_i: int| TrainAction::Think).push(
            TrainAction::Exit,
        ) =~= Seq::new(k as nat, |_i: int| TrainAction::Think).push(TrainAction::Exit));
    }
}

} // verus!
