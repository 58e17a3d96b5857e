use riteed::state::{
    loaded_document_gate_size, save_completion_is_clean, AutosaveState, CompareAttachment, EditorIoState,
};

#[test]
fn loaded_document_gate_size_prefers_disk_size_over_larger_decoded_size() {
    assert_eq!(loaded_document_gate_size(Some(4), 8), 4);
}

#[test]
fn loaded_document_gate_size_prefers_disk_size_over_smaller_decoded_size() {
    assert_eq!(loaded_document_gate_size(Some(8), 4), 8);
}

#[test]
fn loaded_document_gate_size_falls_back_to_decoded_size() {
    assert_eq!(loaded_document_gate_size(None, 7), 7);
}

#[test]
fn save_completion_requires_unchanged_dirty_generation_and_uri() {
    assert!(save_completion_is_clean(
        4,
        4,
        Some("file:///tmp/a.txt"),
        Some("file:///tmp/a.txt")
    ));
    assert!(!save_completion_is_clean(
        5,
        4,
        Some("file:///tmp/a.txt"),
        Some("file:///tmp/a.txt")
    ));
    assert!(!save_completion_is_clean(
        4,
        4,
        Some("file:///tmp/b.txt"),
        Some("file:///tmp/a.txt")
    ));
}

#[test]
fn save_completion_compares_missing_uris() {
    assert!(save_completion_is_clean(1, 1, None, None));
    assert!(!save_completion_is_clean(1, 1, Some("file:///a"), None));
    assert!(!save_completion_is_clean(1, 1, None, Some("file:///a")));
}

#[test]
fn autosave_state_tracks_generation_and_pause() {
    let mut state = AutosaveState::default();
    assert_eq!(state.next_generation(), 1);
    state.pause(String::from("paused"));
    assert_eq!(state.paused_message.as_deref(), Some("paused"));
    assert!(state.clear_pause());
    assert!(!state.clear_pause());
}

#[test]
fn compare_attachment_tracks_request_generation() {
    let mut state = CompareAttachment::default();
    assert_eq!(state.next_generation(), 1);
    assert_eq!(state.next_generation(), 2);
}

#[test]
fn editor_io_refuses_superseded_and_cancelled_requests() {
    let mut state = EditorIoState::default();
    let (first_generation, cancel_before_first) = state.start_request();
    assert!(!cancel_before_first);
    let (second_generation, cancel_first) = state.start_request();
    assert!(cancel_first);

    assert!(!state.finish_request(first_generation));
    assert!(state.finish_request(second_generation));
    assert!(!state.request_in_flight);

    let (third_generation, cancel_second) = state.start_request();
    assert!(!cancel_second);
    assert!(state.cancel_request());
    assert!(!state.finish_request(third_generation));
    assert!(!state.cancel_request());
}

#[test]
fn generations_stop_at_the_maximum() {
    let mut state = CompareAttachment { request_generation: u64::MAX };
    assert_eq!(state.next_generation(), u64::MAX);
    let mut autosave = AutosaveState { generation: u64::MAX - 1, paused_message: None };
    assert_eq!(autosave.next_generation(), u64::MAX);
    assert_eq!(autosave.next_generation(), u64::MAX);
}
