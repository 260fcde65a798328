use tamp_lib::encoder::convergence::{
    AfterMeasure, Convergence, ConvergenceStep, HardwareOutcome,
};
use tamp_lib::encoder::retry::{EncoderKind, NextAction, MAX_RE_ENCODES};

#[test]
fn hardware_candidates_are_tried_in_order_until_one_produces_output() {
    let mut s = Convergence::begin(2, true, true);
    assert_eq!(s.next_step(), ConvergenceStep::Hardware(0));
    assert!(s.after_hardware(HardwareOutcome::Failed));
    assert_eq!(s.next_step(), ConvergenceStep::Hardware(1));
    assert!(s.after_hardware(HardwareOutcome::Produced));
    assert_eq!(s.encoder(), EncoderKind::Hardware);
    assert_eq!(s.attempt, 0);
}

#[test]
fn no_hardware_for_webm_or_when_disabled() {
    assert_eq!(Convergence::begin(3, true, false).next_step(), ConvergenceStep::Software);
    assert_eq!(Convergence::begin(3, false, true).next_step(), ConvergenceStep::Software);
    let mut s = Convergence::begin(1, true, true);
    assert!(s.after_hardware(HardwareOutcome::Failed));
    assert_eq!(s.next_step(), ConvergenceStep::Software);
    assert_eq!(s.encoder(), EncoderKind::Software);
}

#[test]
fn a_cancelled_hardware_pass_stops_the_loop() {
    let mut s = Convergence::begin(2, true, true);
    let before = s;
    assert!(!s.after_hardware(HardwareOutcome::Cancelled));
    assert_eq!(s, before);
}

#[test]
fn a_software_retry_never_returns_to_hardware() {
    let mut s = Convergence::begin(2, true, true);
    assert!(s.after_hardware(HardwareOutcome::Produced));
    let r = s.after_measure(NextAction::Retry {
        video_kbit: 475,
        encoder: EncoderKind::Software,
    });
    assert_eq!(r, AfterMeasure::Retry(475));
    assert_eq!(s.attempt, 1);
    assert_eq!(s.next_step(), ConvergenceStep::Software);
    assert_eq!(s.after_measure(NextAction::Done), AfterMeasure::Deliver);
}

#[test]
fn the_loop_ends_on_done_or_give_up() {
    let mut s = Convergence::begin(0, true, true);
    for attempt in 0..MAX_RE_ENCODES {
        assert_eq!(s.attempt, attempt);
        let r = s.after_measure(NextAction::Retry {
            video_kbit: 400,
            encoder: EncoderKind::Software,
        });
        assert_eq!(r, AfterMeasure::Retry(400));
    }
    assert_eq!(s.attempt, MAX_RE_ENCODES);
    assert_eq!(s.after_measure(NextAction::GiveUp), AfterMeasure::GiveUp);
}
