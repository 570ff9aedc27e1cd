use turbostroi::train::{train_step, TrainAction, TrainEvent, TrainPhase};

#[test]
fn normal_life_of_a_worker() {
    let (p, a) = train_step(TrainPhase::Loading, TrainEvent::Loaded(true));
    assert_eq!((p, a), (TrainPhase::Starting, TrainAction::RunScript));
    let (p, a) = train_step(p, TrainEvent::Ran(true));
    assert_eq!((p, a), (TrainPhase::Running, TrainAction::PollStop));
    let (p, a) = train_step(p, TrainEvent::Polled(false));
    assert_eq!((p, a), (TrainPhase::Running, TrainAction::Think));
    let (p, a) = train_step(p, TrainEvent::Polled(false));
    assert_eq!((p, a), (TrainPhase::Running, TrainAction::Think));
    let (p, a) = train_step(p, TrainEvent::Polled(true));
    assert_eq!((p, a), (TrainPhase::Stopped, TrainAction::Exit));
}

#[test]
fn failed_load_still_ticks() {
    let (p, a) = train_step(TrainPhase::Loading, TrainEvent::Loaded(false));
    assert_eq!((p, a), (TrainPhase::Running, TrainAction::PollStop));
}

#[test]
fn failed_first_run_closes_state() {
    let (p, a) = train_step(TrainPhase::Starting, TrainEvent::Ran(false));
    assert_eq!((p, a), (TrainPhase::Stopped, TrainAction::CloseAndExit));
}

#[test]
fn stopped_stays_stopped() {
    for e in [TrainEvent::Loaded(true), TrainEvent::Ran(false), TrainEvent::Polled(false)] {
        assert_eq!(train_step(TrainPhase::Stopped, e), (TrainPhase::Stopped, TrainAction::Exit));
    }
}

#[test]
fn misplaced_events_are_ignored() {
    assert_eq!(
        train_step(TrainPhase::Loading, TrainEvent::Polled(true)),
        (TrainPhase::Loading, TrainAction::Ignore)
    );
    assert_eq!(
        train_step(TrainPhase::Running, TrainEvent::Ran(true)),
        (TrainPhase::Running, TrainAction::Ignore)
    );
}
