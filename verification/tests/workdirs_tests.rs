use screen_recorder::workdirs::fallback_selected_if_deleted;
use screen_recorder::workdirs::workdir_row;
use screen_recorder::workdirs::{
    add_workdir_to_state, availability, can_delete_files, mark_deleted, normalize_existing_dir,
    normalize_state, remove_from_history, startup_root, AddWorkdirResult, DeletionMarker, DirError,
    RootFacts, WorkdirAvailability, WorkdirEntry, WorkdirState,
};

fn facts(path: &str, is_dir: bool) -> RootFacts {
    RootFacts { normalized: path.to_string(), is_dir }
}

#[test]
fn adding_same_directory_deduplicates_by_key() {
    let mut state = WorkdirState { selected_root: None, entries: Vec::new() };
    assert_eq!(add_workdir_to_state(&mut state, "/tmp/dedup", false), AddWorkdirResult::Added);
    assert_eq!(add_workdir_to_state(&mut state, "/tmp/dedup", false), AddWorkdirResult::AlreadyExists);
    assert_eq!(state.entries.len(), 1);
    assert_eq!(add_workdir_to_state(&mut state, "/TMP/Dedup", true), AddWorkdirResult::AlreadyExists);
    assert_eq!(state.entries.len(), 1);
}

#[test]
fn restored_trashed_directory_is_available_again() {
    let entry = WorkdirEntry { root: "/tmp/restored".to_string(), deletion: Some(DeletionMarker::Trashed) };
    assert_eq!(availability(&entry, true), WorkdirAvailability::Available);
    assert_eq!(availability(&entry, false), WorkdirAvailability::Trashed);
}

#[test]
fn current_directory_and_ancestors_cannot_be_deleted() {
    let current = Some("/tmp/current".to_string());
    assert!(!can_delete_files(Some("/tmp/current".to_string()), current.clone(), false));
    assert!(!can_delete_files(Some("/tmp".to_string()), current.clone(), false));
    assert!(can_delete_files(Some("/tmp/current/child".to_string()), current.clone(), false));
    assert!(can_delete_files(Some("/tmp/sibling".to_string()), current.clone(), false));
    assert!(can_delete_files(Some("/tmp/cur".to_string()), current.clone(), false));
    assert!(!can_delete_files(None, current, false));
}

#[test]
fn windows_folders_holding_the_current_one_cannot_be_deleted() {
    let current = Some(r"C:\data\sub".to_string());
    assert!(!can_delete_files(Some(r"C:\data".to_string()), current.clone(), true));
    assert!(!can_delete_files(Some(r"C:\".to_string()), current.clone(), true));
    assert!(!can_delete_files(Some(r"C:\data\sub".to_string()), current.clone(), true));
    assert!(can_delete_files(Some(r"C:\data\sub\child".to_string()), current.clone(), true));
    assert!(can_delete_files(Some(r"C:\dat".to_string()), current.clone(), true));
    assert!(can_delete_files(Some(r"C:\data".to_string()), current, false));
}

#[test]
fn startup_root_uses_selected_directory_when_available() {
    let mut state = WorkdirState {
        selected_root: Some("/data/selected".to_string()),
        entries: vec![WorkdirEntry { root: "/data/selected".to_string(), deletion: None }],
    };
    let (root, changed) = startup_root(
        &mut state,
        &vec![facts("/data/selected", true)],
        &Some(facts("/data/selected", true)),
        "/data/default",
        false,
    );
    assert_eq!(root, "/data/selected");
    assert!(!changed);
}

#[test]
fn startup_root_falls_back_when_selected_directory_is_missing() {
    let mut state = WorkdirState {
        selected_root: Some("/ctl/missing".to_string()),
        entries: vec![WorkdirEntry { root: "/ctl/missing".to_string(), deletion: Some(DeletionMarker::Trashed) }],
    };
    let (root, changed) = startup_root(
        &mut state,
        &vec![facts("/ctl/missing", false)],
        &Some(facts("/ctl/missing", false)),
        "/data/default",
        false,
    );
    assert_eq!(root, "/data/default");
    assert!(changed);
    assert_eq!(state.selected_root, Some("/data/default".to_string()));
    assert_eq!(state.entries.len(), 2);
}

#[test]
fn normalize_state_drops_duplicates_and_clears_marks() {
    let mut state = WorkdirState {
        selected_root: None,
        entries: vec![
            WorkdirEntry { root: "a/../x".to_string(), deletion: Some(DeletionMarker::Deleted) },
            WorkdirEntry { root: "/x".to_string(), deletion: None },
        ],
    };
    let changed = normalize_state(&mut state, &vec![facts("/x", true), facts("/x", true)], &None, false);
    assert!(changed);
    assert_eq!(state.entries.len(), 1);
    assert_eq!(state.entries[0].root, "/x");
    assert_eq!(state.entries[0].deletion, None);
}

#[test]
fn deleted_and_removed_directories() {
    let mut state = WorkdirState { selected_root: None, entries: Vec::new() };
    mark_deleted(&mut state, "/old", false, DeletionMarker::Deleted, false);
    assert_eq!(state.entries[0].deletion, Some(DeletionMarker::Deleted));
    remove_from_history(&mut state, "/old", false);
    assert!(state.entries.is_empty());
}

#[test]
fn existing_directory_errors() {
    assert_eq!(normalize_existing_dir(false, false, None), Err(DirError::NotFound));
    assert_eq!(normalize_existing_dir(true, false, None), Err(DirError::NotADirectory));
    assert_eq!(normalize_existing_dir(true, true, Some("/x".to_string())), Ok("/x".to_string()));
}

#[test]
fn deleting_the_selected_directory_falls_back_to_the_current_one() {
    let mut state = WorkdirState {
        selected_root: Some("/data/old".to_string()),
        entries: vec![WorkdirEntry { root: "/data/old".to_string(), deletion: Some(DeletionMarker::Trashed) }],
    };
    fallback_selected_if_deleted(&mut state, "/data/old", "/data/current", true, false);
    assert_eq!(state.selected_root.as_deref(), Some("/data/current"));
    assert_eq!(state.entries.len(), 2);
    assert_eq!(state.entries[1].root, "/data/current");

    let mut other = WorkdirState { selected_root: Some("/data/keep".to_string()), entries: Vec::new() };
    fallback_selected_if_deleted(&mut other, "/data/old", "/data/current", true, false);
    assert_eq!(other.selected_root.as_deref(), Some("/data/keep"));
    assert!(other.entries.is_empty());
}

#[test]
fn workdir_rows_allow_only_safe_actions() {
    let selected = Some("/data/next".to_string());
    let current = WorkdirEntry { root: "/data/current".to_string(), deletion: None };
    let row = workdir_row(&current, true, "/data/current", &selected, false, false);
    assert!(row.is_current && !row.is_next && row.can_open && row.can_switch && !row.can_delete && !row.can_remove);

    let next = WorkdirEntry { root: "/DATA/NEXT".to_string(), deletion: None };
    let row = workdir_row(&next, true, "/data/current", &selected, true, true);
    assert!(row.is_next && !row.can_switch && !row.can_remove && row.can_delete);

    let gone = WorkdirEntry { root: "/data/gone".to_string(), deletion: Some(DeletionMarker::Deleted) };
    let row = workdir_row(&gone, false, "/data/current", &selected, false, false);
    assert_eq!(row.availability, WorkdirAvailability::Deleted);
    assert!(!row.can_open && !row.can_switch && row.can_remove);
}

#[test]
fn normalize_state_keeps_first_entries_in_order() {
    let mut state = WorkdirState {
        selected_root: None,
        entries: vec![
            WorkdirEntry { root: "/b".to_string(), deletion: None },
            WorkdirEntry { root: "/a".to_string(), deletion: Some(DeletionMarker::Deleted) },
            WorkdirEntry { root: "/b/.".to_string(), deletion: None },
            WorkdirEntry { root: "/c".to_string(), deletion: Some(DeletionMarker::Deleted) },
        ],
    };
    let all = vec![facts("/b", true), facts("/a", false), facts("/b", true), facts("/c", true)];
    assert!(normalize_state(&mut state, &all, &None, false));
    let roots: Vec<&str> = state.entries.iter().map(|e| e.root.as_str()).collect();
    assert_eq!(roots, vec!["/b", "/a", "/c"]);
    assert_eq!(state.entries[1].deletion, Some(DeletionMarker::Deleted));
    assert_eq!(state.entries[2].deletion, None);
}

#[test]
fn adding_a_directory_twice_to_an_empty_list_lists_it_once() {
    let mut state = WorkdirState { selected_root: None, entries: Vec::new() };
    assert_eq!(add_workdir_to_state(&mut state, "/data/shots", false), AddWorkdirResult::Added);
    let before = state.entries.len();
    assert_eq!(add_workdir_to_state(&mut state, "/data/shots", false), AddWorkdirResult::AlreadyExists);
    assert_eq!(before, 1);
    assert_eq!(state.entries.len(), 1);
    assert_eq!(state.entries[0].root, "/data/shots");
}

#[test]
fn normalize_state_reports_no_change_on_a_tidy_list() {
    let entries = vec![
        WorkdirEntry { root: "/a".to_string(), deletion: None },
        WorkdirEntry { root: "/gone".to_string(), deletion: Some(DeletionMarker::Deleted) },
    ];
    let mut state = WorkdirState { selected_root: Some("/a".to_string()), entries };
    let changed = normalize_state(
        &mut state,
        &vec![facts("/a", true), facts("/gone", false)],
        &Some(facts("/a", true)),
        false,
    );
    assert!(!changed);
    assert_eq!(state.entries.len(), 2);
    assert_eq!(state.entries[0].root, "/a");
    assert_eq!(state.entries[0].deletion, None);
    assert_eq!(state.entries[1].root, "/gone");
    assert_eq!(state.entries[1].deletion, Some(DeletionMarker::Deleted));
    assert_eq!(state.selected_root, Some("/a".to_string()));
}

#[test]
fn normalize_state_reports_a_renamed_selection() {
    let mut state = WorkdirState {
        selected_root: Some("/a/.".to_string()),
        entries: vec![WorkdirEntry { root: "/a".to_string(), deletion: None }],
    };
    let changed = normalize_state(&mut state, &vec![facts("/a", true)], &Some(facts("/a", true)), false);
    assert!(changed);
    assert_eq!(state.selected_root, Some("/a".to_string()));
    assert_eq!(state.entries.len(), 1);
    assert_eq!(state.entries[0].root, "/a");
}
