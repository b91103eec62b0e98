use panda_knocker::sequencer::{KnockKind, Notification, Sequencer};

#[test]
fn a_full_open_run_steps_each_port_in_order_then_completes() {
    let mut seq = Sequencer::new();
    assert!(!seq.is_busy());

    let accepted = seq.start(
        KnockKind::Open,
        vec![5000, 6000, 7000],
        String::from("127.0.0.1"),
        1000,
    );
    assert!(accepted);
    assert!(seq.is_busy());

    let mut steps = Vec::new();
    let mut completions = Vec::new();
    while seq.is_busy() {
        assert_eq!(seq.current_port(), [5000, 6000, 7000][steps.len()]);
        let (step, done) = seq.advance();
        steps.push(step);
        if let Some(n) = done {
            completions.push(n);
        }
    }
    assert_eq!(
        steps,
        vec![
            Notification::StepCompleted { index: 0, port: 5000, kind: KnockKind::Open },
            Notification::StepCompleted { index: 1, port: 6000, kind: KnockKind::Open },
            Notification::StepCompleted { index: 2, port: 7000, kind: KnockKind::Open },
        ]
    );
    assert_eq!(completions, vec![Notification::SequenceCompleted { kind: KnockKind::Open }]);
    assert!(!seq.is_busy());
}

#[test]
fn starting_while_busy_is_rejected_and_leaves_the_run_untouched() {
    let mut seq = Sequencer::new();
    assert!(seq.start(KnockKind::Open, vec![22, 80], String::from("h"), 10));

    let accepted = seq.start(KnockKind::Close, vec![443], String::from("elsewhere"), 99);
    assert!(!accepted);
    assert!(seq.is_busy());
    assert_eq!(seq.current_port(), 22);

    let (step, done) = seq.advance();
    assert_eq!(step, Notification::StepCompleted { index: 0, port: 22, kind: KnockKind::Open });
    assert!(done.is_none());
    assert_eq!(seq.current_port(), 80);
}

#[test]
fn starting_with_an_empty_sequence_is_rejected() {
    let mut seq = Sequencer::new();
    let accepted = seq.start(KnockKind::Open, Vec::new(), String::from("127.0.0.1"), 1000);
    assert!(!accepted);
    assert!(!seq.is_busy());
}

#[test]
fn a_single_port_run_completes_on_its_first_step() {
    let mut seq = Sequencer::new();
    assert!(seq.start(KnockKind::Close, vec![9], String::from("127.0.0.1"), 0));
    let (step, done) = seq.advance();
    assert_eq!(step, Notification::StepCompleted { index: 0, port: 9, kind: KnockKind::Close });
    assert_eq!(done, Some(Notification::SequenceCompleted { kind: KnockKind::Close }));
    assert!(!seq.is_busy());
}

#[test]
fn a_run_can_be_restarted_after_it_completes() {
    let mut seq = Sequencer::new();
    assert!(seq.start(KnockKind::Open, vec![1], String::from("a"), 5));
    seq.advance();
    assert!(!seq.is_busy());
    assert!(seq.start(KnockKind::Close, vec![2], String::from("b"), 5));
    assert_eq!(seq.current_port(), 2);
}
