use dropwin::mouse_monitor::{is_process_blacklisted, shake_direction, should_open, PasteboardShakeMonitor, ShakeAction, ShakeMonitor};

#[test]
fn blacklist_matches_case_insensitively_with_optional_exe_extension() {
    let blacklist = vec!["Photoshop".to_string(), "notepad.exe".to_string()];
    assert!(is_process_blacklisted("PHOTOSHOP.EXE", &blacklist));
    assert!(is_process_blacklisted("Notepad.exe", &blacklist));
    assert!(!is_process_blacklisted("explorer.exe", &blacklist));
}

#[test]
fn empty_blacklist_allows_every_process() {
    assert!(!is_process_blacklisted("explorer.exe", &[]));
}

#[test]
fn blank_entries_and_surrounding_spaces_are_handled() {
    let blacklist = vec!["   ".to_string(), ".exe".to_string(), "  Code.EXE ".to_string()];
    assert!(!is_process_blacklisted("", &blacklist));
    assert!(!is_process_blacklisted(".exe", &blacklist));
    assert!(is_process_blacklisted(" code ", &blacklist));
}

#[test]
fn direction_needs_a_move_longer_than_the_threshold() {
    assert_eq!(shake_direction(101, 100), 1);
    assert_eq!(shake_direction(100, 100), 0);
    assert_eq!(shake_direction(-100, 100), 0);
    assert_eq!(shake_direction(-101, 100), -1);
    assert_eq!(shake_direction(i64::MAX, i32::MIN), 1);
}

const MS: u64 = 1_000_000;

#[test]
fn five_quick_turns_open_a_drop_and_release_hands_it_back() {
    let mut monitor = ShakeMonitor::new(0, 0);
    let xs = [200, 0, 200, 0, 200, 0];
    let mut actions = Vec::new();
    for (i, x) in xs.iter().enumerate() {
        actions.push(monitor.step(*x, true, (i as u64 + 1) * 30 * MS, 5, 1500, 100));
    }
    assert_eq!(actions[..5], [ShakeAction::Wait, ShakeAction::Wait, ShakeAction::Wait, ShakeAction::Wait, ShakeAction::Wait]);
    assert_eq!(actions[5], ShakeAction::OpenDrop);
    assert_eq!(monitor.shake_count(), 0);
    monitor.set_active_drop("abc".into());
    assert_eq!(monitor.step(0, false, 400 * MS, 5, 1500, 100), ShakeAction::CloseAfterRelease("abc".into()));
    assert_eq!(monitor.step(0, false, 430 * MS, 5, 1500, 100), ShakeAction::Wait);
}

#[test]
fn a_pause_longer_than_the_limit_forgets_the_turns() {
    let mut monitor = ShakeMonitor::new(0, 0);
    let mut now = 0;
    for x in [200, 0, 200, 0] {
        now += 30 * MS;
        assert_eq!(monitor.step(x, true, now, 5, 1500, 100), ShakeAction::Wait);
    }
    assert_eq!(monitor.shake_count(), 3);
    now += 1500 * MS;
    assert_eq!(monitor.step(0, true, now, 5, 1500, 100), ShakeAction::Wait);
    assert_eq!(monitor.shake_count(), 3);
    now += 1;
    assert_eq!(monitor.step(0, true, now, 5, 1500, 100), ShakeAction::Wait);
    assert_eq!(monitor.shake_count(), 0);
}

#[test]
fn pasteboard_monitor_counts_only_during_a_file_drag() {
    let mut monitor = PasteboardShakeMonitor::new(3, 0);
    assert_eq!(monitor.step(3, true, true, 1, MS, 2, 1500), ShakeAction::Wait);
    assert_eq!(monitor.step(3, true, true, -1, 2 * MS, 2, 1500), ShakeAction::Wait);
    assert_eq!(monitor.shake_count(), 0);
    assert_eq!(monitor.step(4, true, true, 1, 3 * MS, 2, 1500), ShakeAction::Wait);
    assert_eq!(monitor.step(4, true, true, -1, 4 * MS, 2, 1500), ShakeAction::Wait);
    assert_eq!(monitor.shake_count(), 1);
    assert_eq!(monitor.step(4, true, true, 1, 5 * MS, 2, 1500), ShakeAction::OpenDrop);
    monitor.set_active_drop("d".into());
    assert_eq!(monitor.step(4, true, false, 0, 6 * MS, 2, 1500), ShakeAction::CloseAfterRelease("d".into()));
    assert_eq!(monitor.step(4, true, false, 0, 7 * MS, 2, 1500), ShakeAction::Wait);
}

#[test]
fn unicode_white_space_around_a_name_is_ignored() {
    let blacklist = vec!["\u{3000}Photoshop\u{a0}".to_string()];
    assert!(is_process_blacklisted("\u{2003}photoshop.exe\u{85}", &blacklist));
    assert!(!is_process_blacklisted("photo shop.exe", &blacklist));
}

#[test]
fn shaking_again_while_a_drop_is_held_opens_nothing_until_release() {
    let mut monitor = ShakeMonitor::new(0, 0);
    let mut now = 0;
    let mut opened = 0;
    for round in 0..3 {
        for x in [200, 0, 200, 0, 200, 0] {
            now += 30 * MS;
            if monitor.step(x, true, now, 5, 1500, 100) == ShakeAction::OpenDrop {
                opened += 1;
                monitor.set_active_drop(format!("d{round}"));
            }
        }
    }
    assert_eq!(opened, 1);
    now += 30 * MS;
    assert_eq!(monitor.step(0, false, now, 5, 1500, 100), ShakeAction::CloseAfterRelease("d0".into()));
    now += 30 * MS;
    assert_eq!(monitor.step(0, false, now, 5, 1500, 100), ShakeAction::Wait);
}

#[test]
fn a_shake_opens_a_drop_only_over_processes_not_blacklisted() {
    let blacklist = vec!["Photoshop".to_string()];
    assert!(should_open(&ShakeAction::OpenDrop, "explorer.exe", &blacklist));
    assert!(!should_open(&ShakeAction::OpenDrop, "photoshop.EXE", &blacklist));
    assert!(!should_open(&ShakeAction::Wait, "explorer.exe", &blacklist));
    assert!(!should_open(&ShakeAction::CloseAfterRelease("d".into()), "explorer.exe", &blacklist));
}
