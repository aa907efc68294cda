use dropwin::drop_registry::{
    drop_id_from_label, drop_label, is_drop_label, is_popup_label, popup_label, DropBounds,
    DropRegistry, TransferOutcome,
};
use dropwin::file::{FileMetadata, PathCase};

const DEFAULT_DROP_SIZE: (f64, f64) = (156.0, 156.0);

fn new_registry() -> DropRegistry<(f64, f64)> {
    DropRegistry::new((0.0, 0.0), DEFAULT_DROP_SIZE, PathCase::Sensitive)
}

fn test_file(id: u64, name: &str) -> FileMetadata {
    FileMetadata {
        id,
        name: name.into(),
        path: name.into(),
        size: 1,
        file_type: "txt".into(),
    }
}

#[test]
fn resolves_drop_and_popup_labels() {
    assert_eq!(drop_id_from_label("drop-abc"), Ok("abc"));
    assert_eq!(drop_id_from_label("popup-abc"), Ok("abc"));
    assert!(drop_id_from_label("settings").is_err());
}

#[test]
fn label_errors_name_the_window() {
    assert_eq!(
        drop_id_from_label("settings"),
        Err("Window settings is not associated with a Drop".to_string())
    );
    assert_eq!(
        drop_id_from_label("drop-"),
        Err("Window drop- has an invalid Drop identifier".to_string())
    );
    assert_eq!(drop_id_from_label("popup-drop-x"), Ok("drop-x"));
}

#[test]
fn labels_are_built_from_the_prefixes() {
    assert_eq!(drop_label("abc"), "drop-abc");
    assert_eq!(popup_label("abc"), "popup-abc");
    assert_eq!(drop_id_from_label(&drop_label("xyz")), Ok("xyz"));
    assert_eq!(drop_id_from_label(&popup_label("xyz")), Ok("xyz"));
    assert!(is_popup_label("popup-1"));
    assert!(!is_popup_label("drop-1"));
    assert!(is_drop_label("drop-1"));
    assert!(!is_drop_label("settings"));
}

#[test]
fn registry_keeps_drops_independent() {
    let mut registry = new_registry();
    registry.create("a".into(), (0.0, 0.0)).unwrap();
    registry.create("b".into(), (24.0, 24.0)).unwrap();
    registry.state_mut("a").next_file_id = 5;
    assert_eq!(
        registry
            .with_drop("b", |drop_state| Ok(drop_state.next_file_id))
            .unwrap(),
        0
    );
    assert!(registry.remove("a").is_some());
    assert!(registry.with_drop("a", |_| Ok(())).is_err());
    assert!(registry.with_drop("b", |_| Ok(())).is_ok());
}

#[test]
fn the_same_path_can_belong_to_two_drops() {
    let mut registry = new_registry();
    registry.create("a".into(), (0.0, 0.0)).unwrap();
    registry.create("b".into(), (24.0, 24.0)).unwrap();
    let file = FileMetadata {
        id: 0,
        name: "example.txt".into(),
        path: "example.txt".into(),
        size: 1,
        file_type: "txt".into(),
    };
    registry.state_mut("a").files.push(file.clone());
    registry.state_mut("b").files.push(file);
    assert_eq!(
        registry
            .with_drop("a", |state| Ok(state.files.len()))
            .unwrap(),
        1
    );
    assert_eq!(
        registry
            .with_drop("b", |state| Ok(state.files.len()))
            .unwrap(),
        1
    );
}

#[test]
fn received_content_is_independent_per_drop() {
    let mut registry = new_registry();
    registry.create("a".into(), (0.0, 0.0)).unwrap();
    registry.create("b".into(), (24.0, 24.0)).unwrap();

    registry.mark_content_received("a").unwrap();

    assert!(registry
        .with_drop("a", |state| Ok(state.received_content))
        .unwrap());
    assert!(!registry
        .with_drop("b", |state| Ok(state.received_content))
        .unwrap());
}

#[test]
fn only_empty_unreceived_drop_is_removed_after_release() {
    let mut registry = new_registry();
    registry.create("received".into(), (0.0, 0.0)).unwrap();
    registry.create("empty".into(), (24.0, 24.0)).unwrap();
    registry.create("populated".into(), (48.0, 48.0)).unwrap();
    registry.mark_content_received("received").unwrap();
    registry.state_mut("populated").files.push(FileMetadata {
        id: 0,
        name: "example.txt".into(),
        path: "example.txt".into(),
        size: 1,
        file_type: "txt".into(),
    });

    assert!(registry
        .remove_if_empty_and_unreceived("received")
        .is_none());
    assert!(registry
        .remove_if_empty_and_unreceived("empty")
        .is_some());
    assert!(registry
        .remove_if_empty_and_unreceived("populated")
        .is_none());
    assert!(registry.contains("received"));
    assert!(registry.contains("populated"));
    assert!(!registry.contains("empty"));
}

#[test]
fn marking_a_closed_drop_returns_an_error() {
    let mut registry = new_registry();
    registry.create("closed".into(), (0.0, 0.0)).unwrap();
    registry.remove("closed");

    assert!(registry.mark_content_received("closed").is_err());
}

#[test]
fn closed_drop_error_names_the_drop() {
    let mut registry = new_registry();
    assert_eq!(
        registry.mark_content_received("gone"),
        Err("Drop gone is no longer open".to_string())
    );
    registry.create("twice".into(), (0.0, 0.0)).unwrap();
    assert_eq!(
        registry.create("twice".into(), (1.0, 1.0)),
        Err("Drop twice already exists".to_string())
    );
    assert_eq!(
        registry.activate_prepared("twice", (1.0, 1.0), (2.0, 2.0)),
        Err("Drop twice is not prepared".to_string())
    );
    assert_eq!(
        registry.activate_prepared("gone", (1.0, 1.0), (2.0, 2.0)),
        Err("Drop gone is no longer open".to_string())
    );
}

#[test]
fn prepared_drop_is_hidden_from_positions_until_activated() {
    let mut registry = new_registry();
    registry.create("visible".into(), (24.0, 48.0)).unwrap();
    registry.create_prepared("next".into()).unwrap();

    assert_eq!(
        registry.bounds(),
        vec![DropBounds {
            position: (24.0, 48.0),
            size: DEFAULT_DROP_SIZE,
        }]
    );
    registry
        .activate_prepared("next", (72.0, 96.0), (234.0, 234.0))
        .unwrap();
    let bounds = registry.bounds();
    assert_eq!(bounds.len(), 2);
    assert!(bounds.contains(&DropBounds {
        position: (24.0, 48.0),
        size: DEFAULT_DROP_SIZE,
    }));
    assert!(bounds.contains(&DropBounds {
        position: (72.0, 96.0),
        size: (234.0, 234.0),
    }));
}

#[test]
fn ids_lists_each_open_drop_once() {
    let mut registry = new_registry();
    registry.create("one".into(), (0.0, 0.0)).unwrap();
    registry.create_prepared("two".into()).unwrap();
    registry.create_with_size("three".into(), (5.0, 5.0), (10.0, 10.0)).unwrap();
    registry.remove("one");
    let mut ids = registry.ids();
    ids.sort();
    assert_eq!(ids, vec!["three".to_string(), "two".to_string()]);
}

#[test]
fn transfers_selected_files_and_reassigns_target_ids() {
    let mut registry = new_registry();
    registry.create("source".into(), (0.0, 0.0)).unwrap();
    registry.create("target".into(), (24.0, 24.0)).unwrap();
    registry.state_mut("source").files = vec![test_file(4, "one.txt"), test_file(9, "two.txt")];

    let outcome = registry.transfer_files("source", "target", &[9]).unwrap();

    assert_eq!(outcome.transferred_count, 1);
    assert!(!outcome.source_empty);
    assert_eq!(
        registry
            .with_drop("source", |state| Ok(state.files[0].name.clone()))
            .unwrap(),
        "one.txt"
    );
    registry
        .with_drop("target", |state| {
            assert_eq!(state.files.len(), 1);
            assert_eq!(state.files[0].id, 0);
            assert_eq!(state.files[0].name, "two.txt");
            assert!(state.received_content);
            Ok(())
        })
        .unwrap();
}

#[test]
fn moving_all_files_reports_an_empty_source() {
    let mut registry = new_registry();
    registry.create("source".into(), (0.0, 0.0)).unwrap();
    registry.create("target".into(), (24.0, 24.0)).unwrap();
    registry.state_mut("source").files.push(test_file(3, "only.txt"));

    let outcome = registry.transfer_files("source", "target", &[3]).unwrap();

    assert_eq!(outcome.transferred_count, 1);
    assert!(outcome.source_empty);
}

#[test]
fn duplicate_target_path_is_not_added_twice_but_leaves_the_source() {
    let mut registry = new_registry();
    registry.create("source".into(), (0.0, 0.0)).unwrap();
    registry.create("target".into(), (24.0, 24.0)).unwrap();
    registry.state_mut("source").files.push(test_file(1, "same.txt"));
    {
        let state = registry.state_mut("target");
        state.files.push(test_file(8, "same.txt"));
        state.next_file_id = 9;
    }

    let outcome = registry.transfer_files("source", "target", &[1]).unwrap();

    assert_eq!(outcome.transferred_count, 1);
    assert!(outcome.source_empty);
    assert_eq!(
        registry
            .with_drop("target", |state| Ok(state.files.len()))
            .unwrap(),
        1
    );
}

#[test]
fn missing_ids_and_same_drop_are_no_ops() {
    let mut registry = new_registry();
    registry.create("source".into(), (0.0, 0.0)).unwrap();
    registry.create("target".into(), (24.0, 24.0)).unwrap();
    registry.state_mut("source").files.push(test_file(1, "kept.txt"));

    assert_eq!(
        registry.transfer_files("source", "target", &[99]).unwrap(),
        TransferOutcome::default()
    );
    assert_eq!(
        registry.transfer_files("source", "source", &[1]).unwrap(),
        TransferOutcome::default()
    );
    assert_eq!(
        registry
            .with_drop("source", |state| Ok(state.files.len()))
            .unwrap(),
        1
    );
}

#[test]
fn transfer_to_a_closed_drop_is_an_error_and_changes_nothing() {
    let mut registry = new_registry();
    registry.create("source".into(), (0.0, 0.0)).unwrap();
    registry.state_mut("source").files.push(test_file(1, "kept.txt"));
    assert_eq!(
        registry.transfer_files("source", "gone", &[1]),
        Err("Drop gone is no longer open".to_string())
    );
    assert_eq!(
        registry.transfer_files("gone", "source", &[1]),
        Err("Drop gone is no longer open".to_string())
    );
    assert_eq!(registry.with_drop("source", |s| Ok(s.files.len())).unwrap(), 1);
}

#[test]
fn transfer_with_case_insensitive_paths_skips_differently_cased_duplicates() {
    let mut registry: DropRegistry<(f64, f64)> =
        DropRegistry::new((0.0, 0.0), DEFAULT_DROP_SIZE, PathCase::AsciiInsensitive);
    registry.create("source".into(), (0.0, 0.0)).unwrap();
    registry.create("target".into(), (24.0, 24.0)).unwrap();
    registry.state_mut("source").files = vec![test_file(1, "C:\\A.TXT"), test_file(2, "C:\\b.txt")];
    {
        let state = registry.state_mut("target");
        state.files.push(test_file(0, "c:\\a.txt"));
        state.next_file_id = 1;
    }
    let outcome = registry.transfer_files("source", "target", &[1, 2]).unwrap();
    assert_eq!(outcome, TransferOutcome { transferred_count: 2, source_empty: true });
    registry
        .with_drop("target", |state| {
            assert_eq!(state.files.len(), 2);
            assert_eq!(state.files[1].path, "C:\\b.txt");
            assert_eq!(state.files[1].id, 1);
            assert_eq!(state.next_file_id, 2);
            Ok(())
        })
        .unwrap();
}
