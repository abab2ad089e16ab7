use focus_annotator::dispatch::{Message, OpenedDocument, UIMessage};
use focus_annotator::model::LightAnnotation;
use focus_annotator::parse::parse_cache_log;
use focus_annotator::model::{AnnotationImage, AnnotationZStack};
use focus_annotator::parse::parse_document;
use focus_annotator::ser::{serialize_cache, serialize_document};
use focus_annotator::session::{PersistAction, SessionError, State};

fn plain_image(path: &str) -> AnnotationImage {
    AnnotationImage::from_vec(path.to_string(), Vec::new())
}

fn plain_stack(n_images: usize) -> AnnotationZStack {
    let mut images = Vec::new();
    let mut k = 0;
    while k < n_images {
        images.push(plain_image(&format!("img{}.jpg", k)));
        k += 1;
    }
    AnnotationZStack {
        images,
        best_index: None,
        extra: Vec::new(),
    }
}

fn document_text(sizes: &[usize]) -> String {
    let stacks: Vec<AnnotationZStack> = sizes.iter().map(|n| plain_stack(*n)).collect();
    serialize_document(&stacks)
}

fn opened_state(sizes: &[usize]) -> State {
    let mut state = State::new();
    state
        .open(
            "project.json".to_string(),
            "/data/run1".to_string(),
            &document_text(sizes),
        )
        .expect("a written document opens");
    state
}

#[test]
fn new_session_is_empty() {
    let state = State::new();
    assert_eq!(state.stack_count(), 0);
    assert_eq!(state.get_stack_index(), None);
    assert_eq!(state.get_focus_image_index(), None);
    assert!(state.get_file_name().is_none());
    assert!(state.get_root_path().is_none());
}

#[test]
fn open_restarts_cursors() {
    let state = opened_state(&[3, 1]);
    assert_eq!(state.stack_count(), 2);
    assert_eq!(state.get_stack_index(), Some(0));
    assert_eq!(state.get_focus_image_index(), Some(0));
    assert_eq!(state.get_file_name().unwrap().as_str(), "project.json");
    assert_eq!(state.get_root_path().unwrap().as_str(), "/data/run1");
}

#[test]
fn open_empty_first_stack_leaves_image_cursor_unset() {
    let state = opened_state(&[0, 2]);
    assert_eq!(state.get_stack_index(), Some(0));
    assert_eq!(state.get_focus_image_index(), None);
    assert_eq!(state.get_current_foucs_stack_max(), None, "an empty stack has no last index");
    assert!(state.get_current_annotation_image().is_none());
}

#[test]
fn open_empty_document_clears_cursors() {
    let state = opened_state(&[]);
    assert_eq!(state.get_stack_index(), None);
    assert_eq!(state.get_focus_image_index(), None);
}

#[test]
fn skip_saturates_at_last_stack() {
    let mut state = opened_state(&[1, 1]);
    state.skip();
    assert_eq!(state.get_stack_index(), Some(1));
    state.skip();
    assert_eq!(state.get_stack_index(), Some(1), "skip at the last stack is a no-op");
}

#[test]
fn previous_saturates_at_first_stack() {
    let mut state = opened_state(&[1, 1]);
    state.previous();
    assert_eq!(state.get_stack_index(), Some(0), "previous at the first stack is a no-op");
    state.skip();
    state.previous();
    assert_eq!(state.get_stack_index(), Some(0));
}

#[test]
fn navigation_clears_cursor_only_on_empty_collection() {
    let mut state = opened_state(&[]);
    state.skip();
    assert_eq!(state.get_stack_index(), None);
    state.previous();
    assert_eq!(state.get_stack_index(), None);
}

#[test]
fn skip_does_not_touch_image_cursor() {
    let mut state = opened_state(&[3, 1]);
    state.set_focus_image_index(Some(2));
    state.skip();
    assert_eq!(state.get_stack_index(), Some(1));
    assert_eq!(state.get_focus_image_index(), Some(2));
}

#[test]
fn mark_focus_with_cursor_unset_changes_nothing() {
    let mut state = opened_state(&[2]);
    state.set_focus_image_index(None);
    state.mark_focus();
    assert_eq!(state.get_current_foucs_stack_best_index(), None);
    match state.save_tmp().expect("a backing document is set") {
        PersistAction::WriteCrashLog(_, text) => {
            assert_eq!(text, "[]", "nothing was appended to the crash log");
        }
        _ => panic!("save_tmp asks for a crash-log write"),
    }
}

#[test]
fn mark_focus_sets_best_index_and_logs() {
    let mut state = opened_state(&[2]);
    state.set_focus_image_index(Some(1));
    state.mark_focus();
    assert_eq!(state.get_current_foucs_stack_best_index(), Some(1));
    match state.save_tmp().unwrap() {
        PersistAction::WriteCrashLog(target, text) => {
            assert_eq!(target.file_name, "project.json");
            assert_eq!(target.root_path, "/data/run1");
            assert_eq!(text, "[{\"stack_index\":0,\"focus_image_index\":1}]");
        }
        _ => panic!("save_tmp asks for a crash-log write"),
    }
}

#[test]
fn accessors_read_the_current_image() {
    let mut state = opened_state(&[3, 1]);
    assert_eq!(state.get_current_foucs_stack_max(), Some(2));
    assert_eq!(state.get_current_foucs_stack_best_index(), None);
    let img = state.get_current_annotation_image().expect("both cursors are set");
    assert_eq!(img.image_path, "img0.jpg");
    let stack = state.get_current_focus_stack().expect("the stack cursor is set");
    assert_eq!(stack.images.len(), 3);
    state.set_focus_image_index(Some(7));
    assert!(
        state.get_current_annotation_image().is_none(),
        "an out-of-range image cursor reads as nothing"
    );
}

#[test]
fn reconciliation_matches_direct_replay() {
    // One session reconciles a crash log into the freshly loaded document.
    let mut recovered = opened_state(&[3, 1]);
    recovered
        .integrate_tmp_file("[{\"stack_index\":0,\"focus_image_index\":2},{\"stack_index\":1,\"focus_image_index\":0}]")
        .expect("a written crash log reads back");
    // The other makes the same two marks itself.
    let mut replayed = opened_state(&[3, 1]);
    replayed.set_focus_image_index(Some(2));
    replayed.mark_focus();
    replayed.skip();
    replayed.set_focus_image_index(Some(0));
    replayed.mark_focus();
    let saved_recovered = match recovered.save().unwrap() {
        PersistAction::WriteDocument(_, text) => text,
        _ => panic!("save asks for a document write"),
    };
    let saved_replayed = match replayed.save().unwrap() {
        PersistAction::WriteDocument(_, text) => text,
        _ => panic!("save asks for a document write"),
    };
    assert_eq!(saved_recovered, saved_replayed);
    let doc = parse_document(&saved_recovered).unwrap();
    assert_eq!(doc[0].best_index, Some(2));
    assert_eq!(doc[1].best_index, Some(0));
}

#[test]
fn integrate_ignores_entries_past_the_collection() {
    let mut state = opened_state(&[1]);
    state
        .integrate_tmp_file("[{\"stack_index\":9,\"focus_image_index\":0}]")
        .expect("the log itself is well formed");
    assert_eq!(state.get_current_foucs_stack_best_index(), None);
}

#[test]
fn integrate_rejects_malformed_log_unchanged() {
    let mut state = opened_state(&[1]);
    let r = state.integrate_tmp_file("[{\"stack_index\":0]");
    assert_eq!(r, Err(SessionError::ParseFailure));
    assert_eq!(state.get_current_foucs_stack_best_index(), None);
}

#[test]
fn failed_open_keeps_the_session() {
    let mut state = opened_state(&[2, 2]);
    state.set_focus_image_index(Some(1));
    let r = state.open(
        "other.json".to_string(),
        "/elsewhere".to_string(),
        "not a document",
    );
    assert_eq!(r, Err(SessionError::ParseFailure));
    assert_eq!(state.stack_count(), 2);
    assert_eq!(state.get_file_name().unwrap().as_str(), "project.json");
    assert_eq!(state.get_root_path().unwrap().as_str(), "/data/run1");
    assert_eq!(state.get_focus_image_index(), Some(1));
}

#[test]
fn save_without_backing_document_is_reported() {
    let mut state = State::new();
    assert_eq!(state.save().unwrap_err(), SessionError::NoBackingDocument);
    assert_eq!(state.save_tmp().unwrap_err(), SessionError::NoBackingDocument);
    assert_eq!(
        state.delete_tmp_file().unwrap_err(),
        SessionError::NoBackingDocument
    );
}

#[test]
fn replace_stacks_resets_like_open() {
    let mut state = State::new();
    state.replace_foucs_stacks(vec![plain_stack(2), plain_stack(1)]);
    assert_eq!(state.stack_count(), 2);
    assert_eq!(state.get_stack_index(), Some(0));
    assert_eq!(state.get_focus_image_index(), Some(0));
    state.replace_foucs_stacks(Vec::new());
    assert_eq!(state.get_stack_index(), None);
    assert_eq!(state.get_focus_image_index(), None);
}

#[test]
fn crash_log_text_round_trips() {
    let entries = vec![LightAnnotation::new(0, 2), LightAnnotation::new(1, 0)];
    let text = serialize_cache(&entries);
    assert_eq!(
        text,
        "[{\"stack_index\":0,\"focus_image_index\":2},{\"stack_index\":1,\"focus_image_index\":0}]"
    );
    let back = parse_cache_log(&text).expect("a written crash log reads back");
    assert_eq!(back.len(), 2);
    assert_eq!(back[0].stack_index, 0);
    assert_eq!(back[0].focus_image_index, 2);
    assert_eq!(back[1].stack_index, 1);
    assert_eq!(back[1].focus_image_index, 0);
}

#[test]
fn neighbours_always_have_eight_slots() {
    let short = AnnotationImage::from_vec(
        "a.jpg".to_string(),
        vec![Some("x.jpg".to_string()), None, Some("y.jpg".to_string())],
    );
    assert_eq!(short.neighbours.len(), 8);
    assert_eq!(short.neighbours[0].as_deref(), Some("x.jpg"));
    assert_eq!(short.neighbours[1], None);
    assert_eq!(short.neighbours[2].as_deref(), Some("y.jpg"));
    assert_eq!(&short.neighbours[3..], &[None, None, None, None, None]);

    let long_input: Vec<Option<String>> = (0..10).map(|k| Some(format!("n{}.jpg", k))).collect();
    let long = AnnotationImage::from_vec("b.jpg".to_string(), long_input);
    assert_eq!(long.neighbours.len(), 8, "longer inputs are truncated");
    assert_eq!(long.neighbours[7].as_deref(), Some("n7.jpg"));
}

#[test]
fn end_to_end_mark_and_quit() {
    let mut state = opened_state(&[3, 1]);
    assert_eq!(state.get_stack_index(), Some(0));
    assert_eq!(state.get_focus_image_index(), Some(0));

    let actions = state.update(Message::MarkFocus).expect("a document is open");
    assert_eq!(actions.len(), 1);
    match &actions[0] {
        PersistAction::WriteCrashLog(_, text) => {
            assert_eq!(text, "[{\"stack_index\":0,\"focus_image_index\":0}]");
        }
        _ => panic!("marking asks for a crash-log write"),
    }
    assert_eq!(state.get_stack_index(), Some(1), "marking advances to the next stack");

    let actions = state.update(Message::MarkFocus).expect("a document is open");
    match &actions[0] {
        PersistAction::WriteCrashLog(_, text) => {
            assert_eq!(
                text,
                "[{\"stack_index\":0,\"focus_image_index\":0},{\"stack_index\":1,\"focus_image_index\":0}]"
            );
        }
        _ => panic!("marking asks for a crash-log write"),
    }

    let actions = state.update(Message::Quit).expect("a document is open");
    assert_eq!(actions.len(), 2);
    match &actions[0] {
        PersistAction::WriteDocument(target, text) => {
            assert_eq!(target.root_path, "/data/run1");
            assert_eq!(target.file_name, "project.json");
            let doc = parse_document(text).expect("the checkpoint is a document");
            assert_eq!(doc[0].best_index, Some(0));
            assert_eq!(doc[1].best_index, Some(0));
        }
        _ => panic!("quitting writes the checkpoint first"),
    }
    assert!(
        matches!(&actions[1], PersistAction::DeleteCrashLog(_)),
        "quitting then removes the crash-log sibling"
    );
}

#[test]
fn dispatcher_cursor_and_ui_commands() {
    let mut state = opened_state(&[2, 2]);
    let actions = state.update(Message::FocusLevelChange(1)).unwrap();
    assert!(actions.is_empty());
    assert_eq!(state.get_focus_image_index(), Some(1));
    let actions = state.update(Message::NextImage).unwrap();
    assert!(actions.is_empty());
    assert_eq!(state.get_stack_index(), Some(1));
    let actions = state.update(Message::PreviousImage).unwrap();
    assert!(actions.is_empty());
    assert_eq!(state.get_stack_index(), Some(0));
    let actions = state.update(Message::UI(UIMessage::ToggleGrid)).unwrap();
    assert!(actions.is_empty());
    assert_eq!(state.get_stack_index(), Some(0));
    assert_eq!(state.get_focus_image_index(), Some(1));
}

#[test]
fn dispatcher_quit_without_document_is_reported() {
    let mut state = State::new();
    assert_eq!(
        state.update(Message::Quit).unwrap_err(),
        SessionError::NoBackingDocument
    );
}

#[test]
fn open_command_checkpoints_the_previous_document() {
    let mut state = opened_state(&[1]);
    state.set_focus_image_index(Some(0));
    state.update(Message::MarkFocus).unwrap();
    let next = OpenedDocument {
        root_path: "/data/run2".to_string(),
        file_name: "other.json".to_string(),
        contents: document_text(&[2]),
        crash_log: None,
    };
    let actions = state.update(Message::OpenFile(next)).unwrap();
    assert_eq!(actions.len(), 3);
    match &actions[0] {
        PersistAction::WriteDocument(target, text) => {
            assert_eq!(target.file_name, "project.json");
            let doc = parse_document(text).unwrap();
            assert_eq!(doc[0].best_index, Some(0), "the mark reached the checkpoint");
        }
        _ => panic!("the previous document is checkpointed first"),
    }
    match &actions[1] {
        PersistAction::DeleteCrashLog(target) => assert_eq!(target.file_name, "project.json"),
        _ => panic!("the previous crash log is removed"),
    }
    match &actions[2] {
        PersistAction::DeleteCrashLog(target) => assert_eq!(target.file_name, "other.json"),
        _ => panic!("the new document's crash log is removed after reconciliation"),
    }
    assert_eq!(state.get_file_name().unwrap().as_str(), "other.json");
    assert_eq!(state.stack_count(), 1);
}

#[test]
fn open_command_reconciles_the_sibling_log() {
    let mut state = State::new();
    let doc = OpenedDocument {
        root_path: "/data/run1".to_string(),
        file_name: "project.json".to_string(),
        contents: document_text(&[3, 1]),
        crash_log: Some("[{\"stack_index\":0,\"focus_image_index\":2},{\"stack_index\":1,\"focus_image_index\":0}]".to_string()),
    };
    let actions = state.update(Message::OpenFile(doc)).unwrap();
    assert_eq!(actions.len(), 1);
    assert!(matches!(&actions[0], PersistAction::DeleteCrashLog(_)));
    assert_eq!(state.get_current_foucs_stack_best_index(), Some(2));
    state.skip();
    assert_eq!(state.get_current_foucs_stack_best_index(), Some(0));
}

#[test]
fn open_command_with_bad_text_changes_nothing() {
    let mut state = opened_state(&[2]);
    let doc = OpenedDocument {
        root_path: "/x".to_string(),
        file_name: "bad.json".to_string(),
        contents: "[broken".to_string(),
        crash_log: None,
    };
    assert_eq!(
        state.update(Message::OpenFile(doc)).unwrap_err(),
        SessionError::ParseFailure
    );
    assert_eq!(state.get_file_name().unwrap().as_str(), "project.json");
    assert_eq!(state.stack_count(), 1);
    let doc = OpenedDocument {
        root_path: "/x".to_string(),
        file_name: "bad.json".to_string(),
        contents: document_text(&[1]),
        crash_log: Some("nonsense".to_string()),
    };
    assert_eq!(
        state.update(Message::OpenFile(doc)).unwrap_err(),
        SessionError::ParseFailure
    );
    assert_eq!(state.get_file_name().unwrap().as_str(), "project.json");
    assert_eq!(state.stack_count(), 1);
}
