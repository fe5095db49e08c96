use djls_core::watcher::{Pending, WatcherConfig};

fn observe(p: &mut Pending, name: &str, size: u64, now: u64) {
    p.observe(format!("/m/{name}"), name, size, now);
}

#[test]
fn emits_only_after_the_file_stops_growing() {
    let config = WatcherConfig {
        stability_ms: 400,
        poll_interval_ms: 100,
        ..WatcherConfig::default()
    };
    let mut p = Pending::new();
    observe(&mut p, "track.mp3", 1024, 0);
    // Still growing — must not have been emitted yet.
    assert!(p.take_done(&vec![1024], 150, config.stability_ms).is_empty());
    observe(&mut p, "track.mp3", 4096, 150);
    assert!(p.take_done(&vec![4096], 549, config.stability_ms).is_empty());
    let found = p.take_done(&vec![4096], 1_200, config.stability_ms);
    assert_eq!(found.len(), 1, "expected exactly one emission, got {found:?}");
    assert!(p.take_done(&vec![], 9_999, config.stability_ms).is_empty());
}

#[test]
fn the_usual_settings_wait_two_and_a_half_seconds() {
    let config = WatcherConfig::default();
    assert_eq!(config.stability_ms, 2_500);
    assert_eq!(config.poll_interval_ms, 500);
    assert!(config.recursive);
    assert!(!config.emit_existing);
}

#[test]
fn partial_and_foreign_files_are_not_watched() {
    let mut p = Pending::new();
    observe(&mut p, "track.mp3.part", 10, 0);
    observe(&mut p, "cover.jpg", 10, 0);
    observe(&mut p, ".hidden.mp3", 10, 0);
    assert!(p.files.is_empty());
}

#[test]
fn a_steady_size_keeps_its_clock() {
    let mut p = Pending::new();
    observe(&mut p, "a.mp3", 10, 0);
    observe(&mut p, "a.mp3", 10, 300);
    assert_eq!(p.take_done(&vec![10], 400, 400), vec!["/m/a.mp3"]);
}

#[test]
fn an_empty_or_changed_file_is_not_done() {
    let mut p = Pending::new();
    observe(&mut p, "a.mp3", 0, 0);
    observe(&mut p, "b.mp3", 10, 0);
    assert!(p.take_done(&vec![0, 11], 10_000, 400).is_empty());
    assert_eq!(p.files.len(), 2);
    // A size that was not read counts as none.
    assert!(p.take_done(&vec![], 10_000, 400).is_empty());
}

#[test]
fn a_clock_that_went_back_hands_nothing_out() {
    let mut p = Pending::new();
    observe(&mut p, "a.mp3", 10, 1_000);
    assert!(p.take_done(&vec![10], 10, 1).is_empty());
}

#[test]
fn vanished_files_are_dropped_and_done_ones_leave_the_rest() {
    let mut p = Pending::new();
    observe(&mut p, "a.mp3", 1, 0);
    observe(&mut p, "b.mp3", 2, 0);
    observe(&mut p, "c.mp3", 3, 50);
    assert_eq!(p.take_done(&vec![1, 2, 3], 100, 100), vec!["/m/a.mp3", "/m/b.mp3"]);
    assert_eq!(p.files.len(), 1);
    observe(&mut p, "d.mp3", 4, 60);
    p.retain_existing(&vec![false, true]);
    assert_eq!(p.files[0].path, "/m/d.mp3");
    p.retain_existing(&vec![]);
    assert_eq!(p.files.len(), 1);
}

#[test]
fn a_file_that_grows_and_is_left_alone_is_handed_out_once() {
    let mut p = Pending::new();
    let mut handed: Vec<(u64, String)> = Vec::new();
    for now in (0..5_000).step_by(100) {
        let size: u64 = if now <= 1_000 { 10 + now } else { 1_010 };
        if now <= 1_000 {
            observe(&mut p, "a.mp3", size, now);
        }
        let sizes: Vec<u64> = p.files.iter().map(|_| size).collect();
        for path in p.take_done(&sizes, now, 400) {
            handed.push((now, path));
        }
        let there: Vec<bool> = p.files.iter().map(|_| true).collect();
        p.retain_existing(&there);
    }
    assert_eq!(handed, vec![(1_400, "/m/a.mp3".to_string())]);
}
