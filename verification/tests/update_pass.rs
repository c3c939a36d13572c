use codebase_index::{
    update, update_folder, EntryAction, LocalEntry, RemoteFileEntry, RemoteFolderEntry,
    UpdateError,
};

fn local_file(name: &str, mtime: Option<i64>) -> LocalEntry {
    LocalEntry { name: name.to_string(), is_dir: false, mtime_secs: mtime }
}

fn local_dir(name: &str) -> LocalEntry {
    LocalEntry { name: name.to_string(), is_dir: true, mtime_secs: None }
}

fn remote_folder(name: &str, id: &str) -> RemoteFolderEntry {
    RemoteFolderEntry { name: name.to_string(), id: id.to_string() }
}

fn remote_file(name: &str, id: &str, extracted_at: &str) -> RemoteFileEntry {
    RemoteFileEntry {
        name: name.to_string(),
        id: id.to_string(),
        extracted_at: extracted_at.to_string(),
    }
}

// extracted_at of 60 seconds past the epoch
const AT_60: &str = "1970-01-01T00:01:00+00:00";

#[test]
fn root_name_mismatch_is_fatal() {
    let r = update(
        &"remote_root".to_string(),
        &"local_root".to_string(),
        &vec![],
        &vec![],
        &vec![],
        5,
    );
    assert_eq!(r.err(), Some(UpdateError::RootMismatch));
}

#[test]
fn matching_root_plans_the_level() {
    let r = update(&"repo".to_string(), &"repo".to_string(), &vec![], &vec![], &vec![], 5);
    let plan = r.unwrap();
    assert!(plan.actions.is_empty());
    assert!(plan.folders_to_delete.is_empty());
    assert!(plan.files_to_delete.is_empty());
}

#[test]
fn unchanged_file_is_skipped_across_passes() {
    // on-disk mtime equals extracted_at: within any threshold
    let local = vec![local_file("a.py", Some(60))];
    let files = vec![remote_file("a.py", "f1", AT_60)];
    let first = update_folder(&local, &vec![], &files, 5);
    assert_eq!(first.actions, vec![EntryAction::SkipFile { name: "a.py".to_string() }]);
    assert!(first.folders_to_delete.is_empty());
    assert!(first.files_to_delete.is_empty());
    // a second pass over the same state issues the same no-call plan
    let second = update_folder(&local, &vec![], &files, 5);
    assert_eq!(first.actions, second.actions);
}

#[test]
fn stale_file_is_fully_reextracted() {
    // modified 40 s after extraction, threshold 5 s
    let local = vec![local_file("a.py", Some(100))];
    let files = vec![remote_file("a.py", "f1", AT_60)];
    let plan = update_folder(&local, &vec![], &files, 5);
    assert_eq!(
        plan.actions,
        vec![EntryAction::UpdateFile { name: "a.py".to_string(), file_id: "f1".to_string() }]
    );
}

#[test]
fn file_modified_exactly_at_threshold_is_still_current() {
    let local = vec![local_file("a.py", Some(65))];
    let files = vec![remote_file("a.py", "f1", AT_60)];
    let plan = update_folder(&local, &vec![], &files, 5);
    assert_eq!(plan.actions, vec![EntryAction::SkipFile { name: "a.py".to_string() }]);
}

#[test]
fn file_older_than_extraction_is_left_untouched() {
    let local = vec![local_file("a.py", Some(10))];
    let files = vec![remote_file("a.py", "f1", AT_60)];
    let plan = update_folder(&local, &vec![], &files, 5);
    assert_eq!(plan.actions, vec![EntryAction::SkipFile { name: "a.py".to_string() }]);
}

#[test]
fn missing_mtime_forces_reextraction() {
    let local = vec![local_file("a.py", None)];
    let files = vec![remote_file("a.py", "f1", AT_60)];
    let plan = update_folder(&local, &vec![], &files, 5);
    assert_eq!(
        plan.actions,
        vec![EntryAction::UpdateFile { name: "a.py".to_string(), file_id: "f1".to_string() }]
    );
}

#[test]
fn unreadable_extracted_at_forces_reextraction() {
    let local = vec![local_file("a.py", Some(60))];
    let files = vec![remote_file("a.py", "f1", "not-a-date")];
    let plan = update_folder(&local, &vec![], &files, 5);
    assert_eq!(
        plan.actions,
        vec![EntryAction::UpdateFile { name: "a.py".to_string(), file_id: "f1".to_string() }]
    );
}

#[test]
fn new_file_and_folder_are_ingested() {
    let local = vec![local_dir("src"), local_file("new.rs", Some(0))];
    let plan = update_folder(&local, &vec![], &vec![], 5);
    assert_eq!(
        plan.actions,
        vec![
            EntryAction::PopulateFolder { name: "src".to_string() },
            EntryAction::ProcessFile { name: "new.rs".to_string() },
        ]
    );
}

#[test]
fn known_folder_is_diffed_into_its_id() {
    let local = vec![local_dir("src")];
    let folders = vec![remote_folder("src", "folder-7")];
    let plan = update_folder(&local, &folders, &vec![], 5);
    assert_eq!(
        plan.actions,
        vec![EntryAction::UpdateFolder {
            name: "src".to_string(),
            folder_id: "folder-7".to_string()
        }]
    );
    assert!(plan.folders_to_delete.is_empty());
}

#[test]
fn vanished_folder_is_deleted_exactly_once() {
    let local = vec![local_dir("kept")];
    let folders = vec![remote_folder("kept", "id-kept"), remote_folder("gone", "id-gone")];
    let plan = update_folder(&local, &folders, &vec![], 5);
    let gone: Vec<&String> =
        plan.folders_to_delete.iter().filter(|id| id.as_str() == "id-gone").collect();
    assert_eq!(gone.len(), 1);
    assert_eq!(plan.folders_to_delete, vec!["id-gone".to_string()]);
}

#[test]
fn vanished_file_is_deleted() {
    let local: Vec<LocalEntry> = vec![];
    let files = vec![remote_file("gone.py", "file-9", AT_60)];
    let plan = update_folder(&local, &vec![], &files, 5);
    assert_eq!(plan.files_to_delete, vec!["file-9".to_string()]);
}

#[test]
fn first_remote_entry_with_a_name_wins() {
    // duplicate names cannot come from the index, but the plan is defined
    // anyway: the first listed entry is the one diffed against
    let local = vec![local_file("a.py", Some(100))];
    let files = vec![remote_file("a.py", "first", AT_60), remote_file("a.py", "second", AT_60)];
    let plan = update_folder(&local, &vec![], &files, 5);
    assert_eq!(
        plan.actions,
        vec![EntryAction::UpdateFile { name: "a.py".to_string(), file_id: "first".to_string() }]
    );
}
