use panda_knocker::config::Config;
use panda_knocker::knocker::Knocker;
use panda_knocker::sequencer::{KnockKind, Notification};
use panda_knocker::shutdown::CloseDecision;

fn knocker_with(ports: &str, close_ports: &str) -> Knocker {
    let config = Config {
        host: String::from("127.0.0.1"),
        ports_str: String::from(ports),
        close_ports_str: String::from(close_ports),
        delay: 1000,
    };
    let (k, open_diags, close_diags) = Knocker::from_config(config);
    assert!(open_diags.is_empty());
    assert!(close_diags.is_empty());
    k
}

#[test]
fn close_request_when_idle_runs_the_close_sequence_then_terminates_once() {
    let mut k = knocker_with("5000, 6000, 7000", "7000, 6000, 5000");

    let decision = k.close_signal();
    assert_eq!(decision, CloseDecision::CloseRunStarted);
    assert!(k.sequencer.run.is_some());
    assert!(k.shutdown.close_requested);

    let mut steps = Vec::new();
    let mut completions = Vec::new();
    let mut terminations = 0;
    while k.sequencer.run.is_some() {
        let (step, done, terminate) = k.step_done();
        steps.push(step);
        if let Some(n) = done {
            completions.push(n);
        }
        if terminate {
            terminations += 1;
        }
    }
    assert_eq!(
        steps,
        vec![
            Notification::StepCompleted { index: 0, port: 7000, kind: KnockKind::Close },
            Notification::StepCompleted { index: 1, port: 6000, kind: KnockKind::Close },
            Notification::StepCompleted { index: 2, port: 5000, kind: KnockKind::Close },
        ]
    );
    assert_eq!(completions, vec![Notification::SequenceCompleted { kind: KnockKind::Close }]);
    assert_eq!(terminations, 1);
}

#[test]
fn close_request_with_empty_close_list_terminates_immediately() {
    let mut k = knocker_with("5000", "");

    let decision = k.close_signal();
    assert_eq!(decision, CloseDecision::TerminateNow);
    assert!(k.shutdown.close_requested);
    // no run was started, so no step is ever taken
    assert!(k.sequencer.run.is_none());
}

#[test]
fn close_request_during_a_busy_run_is_ignored_entirely() {
    let mut k = knocker_with("5000, 6000", "7000");
    assert!(k.start_open());

    let decision = k.close_signal();
    assert_eq!(decision, CloseDecision::Ignored);
    assert!(!k.shutdown.close_requested);

    // the in-flight open run finishes undisturbed and never terminates
    let (step1, done1, term1) = k.step_done();
    assert_eq!(step1, Notification::StepCompleted { index: 0, port: 5000, kind: KnockKind::Open });
    assert!(done1.is_none());
    assert!(!term1);
    let (step2, done2, term2) = k.step_done();
    assert_eq!(step2, Notification::StepCompleted { index: 1, port: 6000, kind: KnockKind::Open });
    assert_eq!(done2, Some(Notification::SequenceCompleted { kind: KnockKind::Open }));
    assert!(!term2);
    assert!(k.sequencer.run.is_none());
    assert!(!k.shutdown.close_requested);
}

#[test]
fn an_open_run_never_terminates_even_after_a_close_was_requested() {
    let mut k = knocker_with("5000", "");
    // empty close list: the request terminates at once but sets the flag
    assert_eq!(k.close_signal(), CloseDecision::TerminateNow);
    assert!(k.shutdown.close_requested);

    // an open run completing afterwards still does not ask to terminate
    assert!(k.start_open());
    let (_, done, terminate) = k.step_done();
    assert!(done.is_some());
    assert!(!terminate);
}
