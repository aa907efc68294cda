use dropwin::config::{clamp_drop_opacity, default_drop_opacity, default_language, window_alpha, AppConfig, DropSize};
use dropwin::custom_drop::{decide_drop, DropDecision, DropPayload};
use dropwin::drag_ops::{begin_internal_drag, decode_drag_image, decode_pasted_data, finish_internal_drag, select_drag_paths, DragPath};
use dropwin::drop_registry::DropRegistry;
use dropwin::drop_window::MouseDropPool;
use dropwin::file::{FileMetadata, PathCase};
use dropwin::internal_drag::InternalDragState;

#[test]
fn defaults_match_the_first_run_settings() {
    let config = AppConfig::default();
    assert_eq!(config.drop_opacity, 88);
    assert_eq!(config.language, "en");
    assert_eq!(config.drop_size, DropSize::Small);
    assert!(config.mouse_monitor.blacklist.is_empty());
    assert_eq!(config.mouse_monitor.required_shakes, 5);
    assert_eq!(config.mouse_monitor.shake_time_limit, 1500);
    assert_eq!(config.mouse_monitor.shake_threshold, 100);
    assert_eq!(default_drop_opacity(), 88);
    assert_eq!(default_language(), "en");
    assert_eq!(DropSize::default(), DropSize::Small);
}

#[test]
fn loaded_settings_are_brought_into_range() {
    let mut config = AppConfig::default();
    config.drop_opacity = 5;
    config.language = "fr".into();
    config.normalize();
    assert_eq!(config.drop_opacity, 20);
    assert_eq!(config.language, "en");
    config.drop_opacity = 250;
    config.language = "vi".into();
    config.normalize();
    assert_eq!(config.drop_opacity, 100);
    assert_eq!(config.language, "vi");
    assert_eq!(clamp_drop_opacity(64), 64);
}

#[test]
fn opacity_becomes_window_alpha() {
    assert_eq!(window_alpha(0), 51);
    assert_eq!(window_alpha(88), 224);
    assert_eq!(window_alpha(100), 255);
    assert_eq!(window_alpha(255), 255);
}

#[test]
fn the_pool_holds_one_prepared_drop() {
    let mut pool = MouseDropPool::new();
    assert!(!pool.is_ready());
    assert!(pool.store("a".into()));
    assert!(!pool.store("b".into()));
    assert!(pool.is_ready());
    assert_eq!(pool.take(), Some("a".to_string()));
    assert_eq!(pool.take(), None);
}

#[test]
fn drops_prefer_files_then_html_then_text() {
    assert!(matches!(decide_drop(true, Some(vec!["a".into()]), None, None), DropDecision::InternalMove));
    assert!(matches!(decide_drop(false, Some(vec!["a".into()]), Some("h".into()), None), DropDecision::Files(f) if f == vec!["a".to_string()]));
    assert!(matches!(decide_drop(false, Some(vec![]), Some("h".into()), Some("t".into())), DropDecision::Payload(DropPayload::Html(h)) if h == "h"));
    assert!(matches!(decide_drop(false, None, Some("".into()), Some("t".into())), DropDecision::Payload(DropPayload::Text(t)) if t == "t"));
    assert!(matches!(decide_drop(false, None, None, Some("".into())), DropDecision::Nothing));
}

#[test]
fn drag_images_may_come_as_data_urls() {
    assert_eq!(decode_drag_image("data:image/png;base64,AQID"), Some(vec![1, 2, 3]));
    assert_eq!(decode_drag_image("AQID"), Some(vec![1, 2, 3]));
    assert_eq!(decode_drag_image("data:x,not base64!"), None);
    assert_eq!(decode_pasted_data("aGk="), Ok(b"hi".to_vec()));
    assert!(decode_pasted_data("%%%").is_err());
}

fn file(id: u64, path: &str) -> FileMetadata {
    FileMetadata { id, name: path.into(), path: path.into(), size: 1, file_type: "txt".into() }
}

#[test]
fn finishing_a_drag_between_drops_moves_the_files() {
    let mut registry: DropRegistry<(f64, f64)> = DropRegistry::new((0.0, 0.0), (156.0, 156.0), PathCase::Sensitive);
    registry.create("s".into(), (0.0, 0.0)).unwrap();
    registry.create("t".into(), (9.0, 9.0)).unwrap();
    registry.state_mut("s").files = vec![file(1, "/a"), file(2, "/b")];
    let mut drag = InternalDragState::default();
    assert_eq!(begin_internal_drag(&mut drag, "drop-s", vec![]), None);
    assert_eq!(begin_internal_drag(&mut drag, "settings", vec![1]), None);
    let token = begin_internal_drag(&mut drag, "drop-s", vec![1]);
    assert_eq!(token, Some(1));
    assert!(drag.record_target("t"));
    let report = finish_internal_drag(&mut drag, &mut registry, token).unwrap().unwrap();
    assert_eq!(report.source_drop_id, "s");
    assert_eq!(report.target_drop_id, "t");
    assert_eq!(report.outcome.transferred_count, 1);
    assert!(!report.outcome.source_empty);
    assert_eq!(registry.with_drop("t", |s| Ok(s.files.len())).unwrap(), 1);
    assert!(finish_internal_drag(&mut drag, &mut registry, token).unwrap().is_none());
    assert!(finish_internal_drag(&mut drag, &mut registry, None).unwrap().is_none());
}

#[test]
fn a_drag_back_onto_its_own_drop_moves_nothing() {
    let mut registry: DropRegistry<(f64, f64)> = DropRegistry::new((0.0, 0.0), (156.0, 156.0), PathCase::Sensitive);
    registry.create("s".into(), (0.0, 0.0)).unwrap();
    registry.state_mut("s").files = vec![file(1, "/a")];
    let mut drag = InternalDragState::default();
    let token = begin_internal_drag(&mut drag, "popup-s", vec![1]);
    drag.record_target("s");
    assert!(finish_internal_drag(&mut drag, &mut registry, token).unwrap().is_none());
    assert_eq!(registry.with_drop("s", |s| Ok(s.files.len())).unwrap(), 1);
    let token = begin_internal_drag(&mut drag, "drop-s", vec![1]);
    drag.record_target("gone");
    assert_eq!(
        finish_internal_drag(&mut drag, &mut registry, token).unwrap_err(),
        "Drop gone is no longer open"
    );
}

#[test]
fn non_canonical_base64_is_rejected() {
    assert!(decode_pasted_data("aGk").is_err());
    assert!(decode_pasted_data("aGl=").is_err());
    assert_eq!(decode_pasted_data(""), Ok(vec![]));
    assert_eq!(decode_drag_image("data:,"), Some(vec![]));
}

#[test]
fn a_file_drag_keeps_only_resolved_paths() {
    let dir = DragPath { path: "/a".into(), is_dir: true, is_file: false };
    let file = DragPath { path: "/b.txt".into(), is_dir: false, is_file: true };
    let selection = select_drag_paths(&vec![None, Some(dir), None, Some(file)]).unwrap();
    let paths: Vec<String> = selection.paths.iter().map(|p| p.path.clone()).collect();
    assert_eq!(paths, vec!["/a".to_string(), "/b.txt".to_string()]);
    assert!(selection.contains_folder);
    assert!(selection.contains_file);
    let only_file = select_drag_paths(&vec![Some(DragPath { path: "/c".into(), is_dir: false, is_file: true })]).unwrap();
    assert!(!only_file.contains_folder && only_file.contains_file);
    assert_eq!(select_drag_paths(&vec![None, None]).unwrap_err(), "No valid files to drag");
    assert_eq!(select_drag_paths(&vec![]).unwrap_err(), "No valid files to drag");
}
