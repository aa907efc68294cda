use dropwin::internal_drag::InternalDragState;

#[test]
fn lifecycle_records_target_and_clears_the_session() {
    let mut state = InternalDragState::default();
    let token = state.begin("source".into(), vec![1, 2]);

    assert!(state.record_target("target"));
    let session = state.finish(token).unwrap();

    assert_eq!(session.source_drop_id, "source");
    assert_eq!(session.source_file_ids, vec![1, 2]);
    assert_eq!(session.target_drop_id.as_deref(), Some("target"));
    assert!(!state.record_target("another"));
}

#[test]
fn stale_completion_does_not_clear_a_newer_drag() {
    let mut state = InternalDragState::default();
    let first = state.begin("first".into(), vec![1]);
    let second = state.begin("second".into(), vec![2]);

    assert!(state.finish(first).is_none());
    assert!(state.record_target("target"));
    assert_eq!(state.finish(second).unwrap().source_drop_id, "second");
}

#[test]
fn cancelled_drag_is_removed_without_a_target() {
    let mut state = InternalDragState::default();
    let token = state.begin("source".into(), vec![7]);

    let session = state.finish(token).unwrap();

    assert!(session.target_drop_id.is_none());
    assert!(!state.record_target("target"));
}

#[test]
fn tokens_count_up_from_one() {
    let mut state = InternalDragState::default();
    assert_eq!(state.begin("a".into(), vec![1]), 1);
    assert_eq!(state.begin("b".into(), vec![1]), 2);
    assert!(state.finish(1).is_none());
    assert_eq!(state.finish(2).unwrap().token, 2);
    assert!(state.finish(2).is_none());
}
