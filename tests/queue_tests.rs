use report_capture::drain::{DrainAction, DrainEvent, Phase, QueueDrainer};
use report_capture::queue::parse_queue;

fn s(x: &str) -> String {
    x.to_string()
}

#[test]
fn lines_are_trimmed_and_blank_ones_skipped() {
    assert_eq!(parse_queue("id1\nid2\nid1\n"), vec![s("id1"), s("id2"), s("id1")]);
    assert_eq!(parse_queue("  a \r\n\n\t\n b"), vec![s("a"), s("b")]);
    assert_eq!(parse_queue(""), Vec::<String>::new());
    assert_eq!(parse_queue("\n \n"), Vec::<String>::new());
    assert_eq!(parse_queue("x y"), vec![s("x y")]);
    assert_eq!(parse_queue("\u{A0}id7\u{3000}\n\u{2028}\n"), vec![s("id7")]);
    assert_eq!(parse_queue("\u{85}a\u{200A}"), vec![s("a")]);
}

#[test]
fn duplicate_identifiers_are_captured_once() {
    let mut d = QueueDrainer::new();
    let mut captured = Vec::new();
    let mut truncations = 0;
    let mut action = d.step(DrainEvent::QueueChanged(s("id1\nid2\nid1\n")));
    loop {
        match action {
            DrainAction::Wait => break,
            DrainAction::TruncateQueue => {
                truncations += 1;
                action = d.step(DrainEvent::Truncated);
            }
            DrainAction::Capture(id) => {
                captured.push(id);
                action = d.step(DrainEvent::CaptureDone(true));
            }
        }
    }
    assert_eq!(captured, vec![s("id1"), s("id2")]);
    assert_eq!(truncations, 1);
    assert_eq!(d.phase, Phase::Idle);
    assert_eq!(d.handled, vec![s("id1"), s("id2")]);
}

#[test]
fn identifiers_added_mid_batch_wait_for_next_change() {
    let mut d = QueueDrainer::new();
    assert_eq!(d.step(DrainEvent::QueueChanged(s("a\n"))), DrainAction::TruncateQueue);
    // a change reported while the batch runs is not read, and nothing is emptied again
    assert_eq!(d.step(DrainEvent::QueueChanged(s("b\n"))), DrainAction::Wait);
    assert_eq!(d.step(DrainEvent::Truncated), DrainAction::Capture(s("a")));
    assert_eq!(d.step(DrainEvent::QueueChanged(s("b\n"))), DrainAction::Wait);
    assert_eq!(d.step(DrainEvent::CaptureDone(true)), DrainAction::Wait);
    assert_eq!(d.phase, Phase::Idle);
    // the next change picks it up
    assert_eq!(d.step(DrainEvent::QueueChanged(s("b\n"))), DrainAction::TruncateQueue);
    assert_eq!(d.step(DrainEvent::Truncated), DrainAction::Capture(s("b")));
    assert_eq!(d.step(DrainEvent::CaptureDone(true)), DrainAction::Wait);
}

#[test]
fn failed_capture_is_not_handled() {
    let mut d = QueueDrainer::new();
    assert_eq!(d.step(DrainEvent::QueueChanged(s("x\nx\n"))), DrainAction::TruncateQueue);
    assert_eq!(d.step(DrainEvent::Truncated), DrainAction::Capture(s("x")));
    // the second line is tried again because the first attempt failed
    assert_eq!(d.step(DrainEvent::CaptureDone(false)), DrainAction::Capture(s("x")));
    assert_eq!(d.step(DrainEvent::CaptureDone(true)), DrainAction::Wait);
    assert_eq!(d.handled, vec![s("x")]);
    // already handled: a later batch skips it
    assert_eq!(d.step(DrainEvent::QueueChanged(s("x\n"))), DrainAction::TruncateQueue);
    assert_eq!(d.step(DrainEvent::Truncated), DrainAction::Wait);
}

#[test]
fn empty_queue_is_not_truncated() {
    let mut d = QueueDrainer::new();
    assert_eq!(d.step(DrainEvent::QueueChanged(s(""))), DrainAction::Wait);
    assert_eq!(d.phase, Phase::Idle);
    // blank lines alone are still emptied, once
    assert_eq!(d.step(DrainEvent::QueueChanged(s("  \n"))), DrainAction::TruncateQueue);
    assert_eq!(d.step(DrainEvent::Truncated), DrainAction::Wait);
    assert_eq!(d.phase, Phase::Idle);
    assert_eq!(d.step(DrainEvent::Truncated), DrainAction::Wait);
    assert_eq!(d.step(DrainEvent::CaptureDone(true)), DrainAction::Wait);
    assert!(d.handled.is_empty());
}
