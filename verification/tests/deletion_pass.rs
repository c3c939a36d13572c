use codebase_index::{
    delete_entities, delete_files, delete_folder, DeleteCall, RemoteEntityTree, RemoteFileTree,
    RemoteFolderTree,
};

fn entity(id: &str, children: Vec<RemoteEntityTree>) -> RemoteEntityTree {
    RemoteEntityTree { id: id.to_string(), children }
}

fn file(id: &str, entities: Vec<RemoteEntityTree>) -> RemoteFileTree {
    RemoteFileTree { id: id.to_string(), entities }
}

fn call_id(c: &DeleteCall) -> &str {
    match c {
        DeleteCall::Folder { id } => id,
        DeleteCall::File { id } => id,
        DeleteCall::SuperEntity { id } => id,
        DeleteCall::SubEntity { id } => id,
    }
}

fn sample_tree() -> RemoteFolderTree {
    RemoteFolderTree {
        id: "F".to_string(),
        subfolders: vec![RemoteFolderTree {
            id: "G".to_string(),
            subfolders: vec![],
            files: vec![file("g1", vec![entity("ge1", vec![])])],
        }],
        files: vec![file("f1", vec![entity("e1", vec![entity("e2", vec![]), entity("e3", vec![])])])],
    }
}

#[test]
fn cascading_delete_removes_every_record_exactly_once() {
    let plan = delete_folder(&sample_tree());
    let mut ids: Vec<&str> = plan.iter().map(call_id).collect();
    ids.sort();
    assert_eq!(ids, vec!["F", "G", "e1", "e2", "e3", "f1", "g1", "ge1"]);
}

#[test]
fn records_are_deleted_only_after_their_contents() {
    let plan = delete_folder(&sample_tree());
    let pos = |id: &str| plan.iter().position(|c| call_id(c) == id).unwrap();
    // the folder's own record comes last
    assert_eq!(plan.last(), Some(&DeleteCall::Folder { id: "F".to_string() }));
    // a subfolder's subtree goes before the subfolder record, which goes
    // before the parent folder record
    assert!(pos("ge1") < pos("g1"));
    assert!(pos("g1") < pos("G"));
    assert!(pos("G") < pos("F"));
    // a file's entities go depth-first before the file record
    assert!(pos("e2") < pos("e1"));
    assert!(pos("e3") < pos("e1"));
    assert!(pos("e1") < pos("f1"));
}

#[test]
fn file_entities_are_super_and_their_children_sub() {
    let plan = delete_files(&vec![file("f1", vec![entity("e1", vec![entity("e2", vec![])])])]);
    assert_eq!(
        plan,
        vec![
            DeleteCall::SubEntity { id: "e2".to_string() },
            DeleteCall::SuperEntity { id: "e1".to_string() },
            DeleteCall::File { id: "f1".to_string() },
        ]
    );
}

#[test]
fn entity_deletion_is_depth_first() {
    let plan = delete_entities(
        &vec![entity("a", vec![entity("b", vec![entity("c", vec![])])])],
        true,
    );
    assert_eq!(
        plan,
        vec![
            DeleteCall::SubEntity { id: "c".to_string() },
            DeleteCall::SubEntity { id: "b".to_string() },
            DeleteCall::SuperEntity { id: "a".to_string() },
        ]
    );
}

#[test]
fn empty_folder_deletes_only_its_own_record() {
    let f = RemoteFolderTree { id: "only".to_string(), subfolders: vec![], files: vec![] };
    assert_eq!(delete_folder(&f), vec![DeleteCall::Folder { id: "only".to_string() }]);
}
