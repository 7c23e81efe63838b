use ys_compass::watcher::{WatchPhase, Watcher};

#[test]
fn broadcasts_true_once_then_false_once() {
    let mut w = Watcher::new();
    let polls = [false, false, true, true, true, false, true, false];
    let sent: Vec<bool> = polls.iter().filter_map(|p| w.observe(*p)).collect();
    assert_eq!(sent, vec![true, false]);
    assert_eq!(w.phase, WatchPhase::Stopped);
}

#[test]
fn never_two_trues_in_a_row() {
    let mut w = Watcher::new();
    assert_eq!(w.observe(true), Some(true));
    assert_eq!(w.observe(true), None);
    assert_eq!(w.observe(true), None);
    assert!(!w.is_finished());
}

#[test]
fn nothing_is_broadcast_before_the_process_appears() {
    let mut w = Watcher::new();
    for _ in 0..5 {
        assert_eq!(w.observe(false), None);
    }
    assert_eq!(w.phase, WatchPhase::WaitingForStart);
}
