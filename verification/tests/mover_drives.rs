use file_organizer::drives::{best_mount_space, has_drive_path, str_prefix};
use file_organizer::mover::{
    judge_event, plan_decision, resolve_target_name, tally_outcomes, ItemOutcome, MoveEvent,
    MovePlan,
};
use file_organizer::types::{DiskRecord, DriveInfo, MoveDecision};

fn decision(source: &str, name: &str, apply: bool, suggested: Option<&str>) -> MoveDecision {
    MoveDecision {
        source_path: source.to_string(),
        filename: name.to_string(),
        target_folder: "Docs".to_string(),
        suggested_name: suggested.map(|s| s.to_string()),
        apply,
    }
}

#[test]
fn plan_skips_unselected_decisions() {
    let d = decision("/src/a.txt", "a.txt", false, None);
    assert!(matches!(plan_decision(&d, true), MovePlan::Skip));
}

#[test]
fn plan_uses_suggestion_only_when_renaming() {
    let d = decision("/src/a.txt", "a.txt", true, Some("tidy.txt"));
    match plan_decision(&d, true) {
        MovePlan::Attempt { target_name } => assert_eq!(target_name, "tidy.txt"),
        MovePlan::Skip => panic!("expected an attempt"),
    }
    match plan_decision(&d, false) {
        MovePlan::Attempt { target_name } => assert_eq!(target_name, "a.txt"),
        MovePlan::Skip => panic!("expected an attempt"),
    }
    let d = decision("/src/a.txt", "a.txt", true, None);
    match plan_decision(&d, true) {
        MovePlan::Attempt { target_name } => assert_eq!(target_name, "a.txt"),
        MovePlan::Skip => panic!("expected an attempt"),
    }
}

#[test]
fn collision_free_target_is_kept() {
    let existing = vec!["other.jpg".to_string()];
    let r = resolve_target_name(&"photo.jpg".to_string(), &existing);
    assert_eq!(r, "photo.jpg");
}

#[test]
fn collision_appends_counter_before_extension() {
    let existing = vec!["photo.jpg".to_string()];
    let r = resolve_target_name(&"photo.jpg".to_string(), &existing);
    assert_eq!(r, "photo_1.jpg");
    let existing = vec!["photo.jpg".to_string(), "photo_1.jpg".to_string()];
    let r = resolve_target_name(&"photo.jpg".to_string(), &existing);
    assert_eq!(r, "photo_2.jpg");
}

#[test]
fn collision_without_extension() {
    let existing = vec!["notes".to_string(), "notes_1".to_string()];
    let r = resolve_target_name(&"notes".to_string(), &existing);
    assert_eq!(r, "notes_2");
}

#[test]
fn collision_probes_past_many_taken_names() {
    let existing = vec![
        "a.txt".to_string(),
        "a_1.txt".to_string(),
        "a_2.txt".to_string(),
        "a_3.txt".to_string(),
    ];
    let r = resolve_target_name(&"a.txt".to_string(), &existing);
    assert_eq!(r, "a_4.txt");
}

#[test]
fn events_map_to_outcomes() {
    assert!(matches!(judge_event(&MoveEvent::Renamed), ItemOutcome::Moved));
    assert!(matches!(judge_event(&MoveEvent::Copied), ItemOutcome::Moved));
    assert!(matches!(judge_event(&MoveEvent::SourceMissing), ItemOutcome::Failed));
    assert!(matches!(judge_event(&MoveEvent::FolderUnavailable), ItemOutcome::Failed));
    assert!(matches!(judge_event(&MoveEvent::TransferFailed), ItemOutcome::Failed));
}

#[test]
fn tally_accounts_for_every_item() {
    let outcomes = vec![
        ItemOutcome::Moved,
        ItemOutcome::Skipped,
        ItemOutcome::Failed,
        ItemOutcome::Skipped,
        ItemOutcome::Moved,
    ];
    let m = tally_outcomes(&outcomes);
    assert_eq!(m.successful, 2);
    assert_eq!(m.failed, 1);
    assert_eq!(m.skipped, 2);
    assert_eq!(m.successful + m.failed + m.skipped, outcomes.len());
}

#[test]
fn batch_with_unselected_decisions_only_skips_them() {
    let decisions = vec![
        decision("/s/a", "a", true, None),
        decision("/s/b", "b", false, None),
        decision("/s/c", "c", false, None),
        decision("/s/d", "d", true, None),
    ];
    let mut outcomes = Vec::new();
    for d in &decisions {
        match plan_decision(d, false) {
            MovePlan::Skip => outcomes.push(ItemOutcome::Skipped),
            MovePlan::Attempt { .. } => outcomes.push(judge_event(&MoveEvent::Renamed)),
        }
    }
    let m = tally_outcomes(&outcomes);
    assert_eq!(m.skipped, 2);
    assert_eq!(m.successful + m.failed, decisions.len() - 2);
}

#[test]
fn missing_source_counts_as_failure() {
    let outcomes = vec![judge_event(&MoveEvent::SourceMissing)];
    let m = tally_outcomes(&outcomes);
    assert_eq!(m.failed, 1);
    assert_eq!(m.successful, 0);
    assert_eq!(m.skipped, 0);
}

fn disk(mount: &str, total: u64, avail: u64) -> DiskRecord {
    DiskRecord { mount_point: mount.to_string(), total_space: total, available_space: avail }
}

#[test]
fn prefix_check() {
    assert!(str_prefix("/home", "/home/user"));
    assert!(str_prefix("", "/anything"));
    assert!(!str_prefix("/homey", "/home/user"));
}

#[test]
fn best_mount_prefers_longest_prefix() {
    let disks = vec![disk("/", 1000, 400), disk("/home", 500, 100), disk("/var", 200, 50)];
    let (total, avail, used) = best_mount_space("/home/user/docs", &disks);
    assert_eq!(total, 500);
    assert_eq!(avail, 100);
    assert_eq!(used, 400);
}

#[test]
fn best_mount_without_match_is_zero() {
    let disks = vec![disk("/mnt/usb", 10, 5)];
    let (total, avail, used) = best_mount_space("/home/user", &disks);
    assert_eq!((total, avail, used), (0, 0, 0));
}

#[test]
fn drive_path_dedup() {
    let drives = vec![DriveInfo {
        name: "Home".to_string(),
        path: "/home/user".to_string(),
        drive_type: "home".to_string(),
        total_space: 1,
        available_space: 1,
        used_space: 0,
    }];
    assert!(has_drive_path(&drives, "/home/user"));
    assert!(!has_drive_path(&drives, "/"));
}
