use algorep::entry::{LogEntry, StateMutation};
use algorep::state::VolatileState;

fn create(uid: &str, filename: &str) -> StateMutation {
    StateMutation::Create { uid: uid.to_string(), filename: filename.to_string() }
}

#[test]
fn test_append() {
    let mut state = VolatileState::new();
    state.process(&StateMutation::Create {
        uid: "1".to_string(),
        filename: "file1".to_string(),
    });
    state.process(&StateMutation::Append {
        uid: "1".to_string(),
        text: "hello".to_string(),
    });

    assert_eq!(state.get("1").unwrap().text, "hello\n");
}

#[test]
fn create_replaces_and_delete_removes() {
    let mut state = VolatileState::new();
    state.process(&create("a", "first"));
    state.process(&StateMutation::Append { uid: "a".to_string(), text: "x".to_string() });
    state.process(&create("a", "second"));
    let file = state.get("a").unwrap();
    assert_eq!(file.filename, "second");
    assert_eq!(file.text, "");
    state.process(&StateMutation::Delete { uid: "a".to_string() });
    assert!(state.get("a").is_none());
}

#[test]
fn append_to_missing_file_does_nothing() {
    let mut state = VolatileState::new();
    state.process(&StateMutation::Append { uid: "nope".to_string(), text: "x".to_string() });
    state.process(&StateMutation::Noop);
    assert!(state.get("nope").is_none());
    assert!(state.list_uid().is_empty());
}

#[test]
fn appends_accumulate_lines() {
    let mut state = VolatileState::new();
    state.process(&create("1-1", "notes"));
    state.process(&StateMutation::Append { uid: "1-1".to_string(), text: "one".to_string() });
    state.process(&StateMutation::Append { uid: "1-1".to_string(), text: "two".to_string() });
    assert_eq!(state.get("1-1").unwrap().text, "one\ntwo\n");
}

#[test]
fn list_uid_lists_each_file_once() {
    let mut state = VolatileState::new();
    state.process(&create("b", "f"));
    state.process(&create("a", "f"));
    state.process(&create("b", "g"));
    state.process(&create("c", "h"));
    state.process(&StateMutation::Delete { uid: "a".to_string() });
    let mut uids = state.list_uid();
    uids.sort();
    assert_eq!(uids, vec!["b".to_string(), "c".to_string()]);
}

#[test]
fn apply_committed_entries_applies_only_new_committed_entries() {
    let logs = vec![
        LogEntry { term: 1, mutation: create("1-1", "a") },
        LogEntry { term: 1, mutation: create("1-2", "b") },
        LogEntry { term: 1, mutation: create("1-3", "c") },
    ];
    let mut state = VolatileState::new();
    state.set_commit_index(2);
    state.apply_committed_entries(&logs);
    assert_eq!(state.last_applied, 2);
    assert!(state.get("1-2").is_some());
    assert!(state.get("1-3").is_none());
    // applying again changes nothing
    state.apply_committed_entries(&logs);
    assert_eq!(state.last_applied, 2);
    assert_eq!(state.list_uid().len(), 2);
    state.set_commit_index(3);
    state.apply_committed_entries(&logs);
    assert_eq!(state.last_applied, 3);
    assert!(state.get("1-3").is_some());
}

#[test]
fn process_batch_applies_in_order() {
    let entries = vec![
        LogEntry { term: 1, mutation: create("x", "f") },
        LogEntry { term: 1, mutation: StateMutation::Append { uid: "x".to_string(), text: "a".to_string() } },
        LogEntry { term: 2, mutation: StateMutation::Delete { uid: "x".to_string() } },
        LogEntry { term: 2, mutation: create("x", "g") },
    ];
    let mut state = VolatileState::new();
    state.process_batch(&entries);
    let file = state.get("x").unwrap();
    assert_eq!(file.filename, "g");
    assert_eq!(file.text, "");
}
