//! The incremental update pass: diffing one local directory level against
//! the remote index's listing of the same parent.

use vstd::prelude::*;

use crate::staleness::spec_file_current;
use crate::staleness::file_current;

verus! {

/// What the remote index lists for one folder (or the root): a subfolder by
/// name and id.
pub struct RemoteFolderEntry {
    pub name: String,
    pub id: String,
}

/// A remote file record: its name, id, and the RFC 3339 instant its content
/// was last extracted.
pub struct RemoteFileEntry {
    pub name: String,
    pub id: String,
    pub extracted_at: String,
}

/// One local directory entry, as a single-level listing hands it to the
/// library: its base name, whether it is a directory, and for files the
/// modification time in seconds since the epoch (when available).
pub struct LocalEntry {
    pub name: String,
    pub is_dir: bool,
    pub mtime_secs: Option<i64>,
}

/// What an update pass does with one local entry.
#[derive(Debug, PartialEq)]
pub enum EntryAction {
    /// The folder is known remotely: recurse in diff mode into that id.
    UpdateFolder { name: String, folder_id: String },
    /// The folder is new: ingest it whole.
    PopulateFolder { name: String },
    /// The file is known and current: issue no calls for it.
    SkipFile { name: String },
    /// The file is known and stale: delete its entities and re-extract.
    UpdateFile { name: String, file_id: String },
    /// The file is new: ingest it.
    ProcessFile { name: String },
}

/// The mathematical shape of an action.
pub enum ActionView {
    UpdateFolder { name: Seq<char>, folder_id: Seq<char> },
    PopulateFolder { name: Seq<char> },
    SkipFile { name: Seq<char> },
    UpdateFile { name: Seq<char>, file_id: Seq<char> },
    ProcessFile { name: Seq<char> },
}

pub open spec fn action_view(a: EntryAction) -> ActionView {
    match a {
        EntryAction::UpdateFolder { name, folder_id } => ActionView::UpdateFolder {
            name: name@,
            folder_id: folder_id@,
        },
        EntryAction::PopulateFolder { name } => ActionView::PopulateFolder { name: name@ },
        EntryAction::SkipFile { name } => ActionView::SkipFile { name: name@ },
        EntryAction::UpdateFile { name, file_id } => ActionView::UpdateFile {
            name: name@,
            file_id: file_id@,
        },
        EntryAction::ProcessFile { name } => ActionView::ProcessFile { name: name@ },
    }
}

pub open spec fn actions_view(s: Seq<EntryAction>) -> Seq<ActionView> {
    s.map_values(|a: EntryAction| action_view(a))
}

pub open spec fn ids_view(s: Seq<String>) -> Seq<Seq<char>> {
    s.map_values(|x: String| x@)
}

/// The id of the first remote folder entry with the given name.
pub open spec fn spec_find_folder(folders: Seq<RemoteFolderEntry>, name: Seq<char>) -> Option<
    Seq<char>,
>
    decreases folders.len(),
{
    if folders.len() == 0 {
        None
    } else if folders[0].name@ == name {
        Some(folders[0].id@)
    } else {
        spec_find_folder(folders.drop_first(), name)
    }
}

/// The first remote file entry with the given name.
pub open spec fn spec_find_file(files: Seq<RemoteFileEntry>, name: Seq<char>) -> Option<
    RemoteFileEntry,
>
    decreases files.len(),
{
    if files.len() == 0 {
        None
    } else if files[0].name@ == name {
        Some(files[0])
    } else {
        spec_find_file(files.drop_first(), name)
    }
}

/// Whether some local entry bears the given name.
pub open spec fn has_local_name(local: Seq<LocalEntry>, name: Seq<char>) -> bool {
    exists|j: int| 0 <= j < local.len() && local[j].name@ == name
}

/// The action an update pass takes for one local entry, against the remote
/// listing of the same parent: known folders are diffed, unknown ones
/// ingested; known files are re-extracted only when stale, unknown ones
/// ingested.
pub open spec fn spec_action_for(
    e: LocalEntry,
    folders: Seq<RemoteFolderEntry>,
    files: Seq<RemoteFileEntry>,
    threshold: int,
) -> ActionView {
    if e.is_dir {
        match spec_find_folder(folders, e.name@) {
            Some(id) => ActionView::UpdateFolder { name: e.name@, folder_id: id },
            None => ActionView::PopulateFolder { name: e.name@ },
        }
    } else {
        match spec_find_file(files, e.name@) {
            Some(entry) => {
                if spec_file_current(e.mtime_secs, entry.extracted_at@, threshold) {
                    ActionView::SkipFile { name: e.name@ }
                } else {
                    ActionView::UpdateFile { name: e.name@, file_id: entry.id@ }
                }
            },
            None => ActionView::ProcessFile { name: e.name@ },
        }
    }
}

/// The actions of a whole pass over one directory level, one per local
/// entry, in listing order.
pub open spec fn spec_plan_actions(
    local: Seq<LocalEntry>,
    folders: Seq<RemoteFolderEntry>,
    files: Seq<RemoteFileEntry>,
    threshold: int,
) -> Seq<ActionView> {
    local.map_values(|e: LocalEntry| spec_action_for(e, folders, files, threshold))
}

/// The ids of the remote folders with no local counterpart: these are
/// deleted, cascading.
pub open spec fn spec_folders_to_delete(
    folders: Seq<RemoteFolderEntry>,
    local: Seq<LocalEntry>,
) -> Seq<Seq<char>>
    decreases folders.len(),
{
    if folders.len() == 0 {
        Seq::empty()
    } else {
        (if !has_local_name(local, folders[0].name@) {
            seq![folders[0].id@]
        } else {
            Seq::empty()
        }) + spec_folders_to_delete(folders.drop_first(), local)
    }
}

/// The ids of the remote files with no local counterpart: these are deleted,
/// entities first.
pub open spec fn spec_files_to_delete(
    files: Seq<RemoteFileEntry>,
    local: Seq<LocalEntry>,
) -> Seq<Seq<char>>
    decreases files.len(),
{
    if files.len() == 0 {
        Seq::empty()
    } else {
        (if !has_local_name(local, files[0].name@) {
            seq![files[0].id@]
        } else {
            Seq::empty()
        }) + spec_files_to_delete(files.drop_first(), local)
    }
}

/// An update pass leaves a current file untouched: its entry maps to the
/// skip action, the only action that issues no remote calls. A stale file
/// maps to a re-extract of its full entity set under its existing id.
pub proof fn lemma_file_action(
    e: LocalEntry,
    entry: RemoteFileEntry,
    folders: Seq<RemoteFolderEntry>,
    files: Seq<RemoteFileEntry>,
    threshold: int,
)
    requires
        !e.is_dir,
        spec_find_file(files, e.name@) == Some(entry),
    ensures
        spec_file_current(e.mtime_secs, entry.extracted_at@, threshold) ==> spec_action_for(
            e,
            folders,
            files,
            threshold,
        ) == (ActionView::SkipFile { name: e.name@ }),
        !spec_file_current(e.mtime_secs, entry.extracted_at@, threshold) ==> spec_action_for(
            e,
            folders,
            files,
            threshold,
        ) == (ActionView::UpdateFile { name: e.name@, file_id: entry.id@ }),
{
}

/// A remote folder with no local counterpart is slated for deletion.
pub proof fn lemma_unseen_folder_deleted(
    folders: Seq<RemoteFolderEntry>,
    local: Seq<LocalEntry>,
    k: int,
)
    requires
        0 <= k < folders.len(),
        !has_local_name(local, folders[k].name@),
    ensures
        spec_folders_to_delete(folders, local).contains(folders[k].id@),
    decreases k,
{
    let head = if !has_local_name(local, folders[0].name@) {
        seq![folders[0].id@]
    } else {
        Seq::<Seq<char>>::empty()
    };
    let rest = spec_folders_to_delete(folders.drop_first(), local);
    if k == 0 {
        assert((head + rest)[0] == folders[0].id@);
    } else {
        assert(folders.drop_first()[k - 1] == folders[k]);
        lemma_unseen_folder_deleted(folders.drop_first(), local, k - 1);
        let i = choose|i: int| 0 <= i < rest.len() && rest[i] == folders[k].id@;
        assert((head + rest)[head.len() + i] == folders[k].id@);
    }
}

/// Every id slated for folder deletion is the id of some remote folder
/// entry.
pub proof fn lemma_folders_to_delete_from_listing(
    folders: Seq<RemoteFolderEntry>,
    local: Seq<LocalEntry>,
)
    ensures
        forall|x: Seq<char>|
            spec_folders_to_delete(folders, local).contains(x) ==> exists|i: int|
                0 <= i < folders.len() && folders[i].id@ == x,
    decreases folders.len(),
{
    if folders.len() > 0 {
        lemma_folders_to_delete_from_listing(folders.drop_first(), local);
        let head = if !has_local_name(local, folders[0].name@) {
            seq![folders[0].id@]
        } else {
            Seq::<Seq<char>>::empty()
        };
        let rest = spec_folders_to_delete(folders.drop_first(), local);
        assert forall|x: Seq<char>|
            spec_folders_to_delete(folders, local).contains(x) implies exists|i: int|
            0 <= i < folders.len() && folders[i].id@ == x by {
            let p = choose|p: int|
                0 <= p < (head + rest).len() && (head + rest)[p] == x;
            if p < head.len() {
                assert(folders[0].id@ == x);
            } else {
                assert(rest[p - head.len()] == x);
                assert(rest.contains(x));
                let i = choose|i: int|
                    0 <= i < folders.drop_first().len() && folders.drop_first()[i].id@ == x;
                assert(folders[i + 1].id@ == x);
            }
        }
    }
}

/// With distinct remote folder ids — as ids assigned by the remote index
/// are — a vanished folder is slated for deletion exactly once.
pub proof fn lemma_folders_to_delete_once(folders: Seq<RemoteFolderEntry>, local: Seq<LocalEntry>)
    requires
        forall|i: int, j: int|
            0 <= i < j < folders.len() ==> folders[i].id@ != folders[j].id@,
    ensures
        spec_folders_to_delete(folders, local).no_duplicates(),
    decreases folders.len(),
{
    if folders.len() > 0 {
        let tail = folders.drop_first();
        assert(forall|i: int, j: int|
            0 <= i < j < tail.len() ==> tail[i].id@ != tail[j].id@) by {
            assert(forall|i: int| 0 <= i < tail.len() ==> tail[i] == folders[i + 1]);
        }
        lemma_folders_to_delete_once(tail, local);
        lemma_folders_to_delete_from_listing(tail, local);
        let head = if !has_local_name(local, folders[0].name@) {
            seq![folders[0].id@]
        } else {
            Seq::<Seq<char>>::empty()
        };
        let rest = spec_folders_to_delete(tail, local);
        let whole = head + rest;
        assert forall|p: int, q: int|
            0 <= p < q < whole.len() implies whole[p] != whole[q] by {
            if p >= head.len() {
                assert(rest[p - head.len()] != rest[q - head.len()]);
            } else {
                assert(whole[p] == folders[0].id@);
                assert(rest[q - head.len()] == whole[q]);
                assert(rest.contains(whole[q]));
                let i = choose|i: int| 0 <= i < tail.len() && tail[i].id@ == whole[q];
                assert(tail[i] == folders[i + 1]);
                assert(folders[0].id@ != folders[i + 1].id@);
            }
        }
    }
}

/// A remote file with no local counterpart is slated for deletion —
/// entities first, then its record.
pub proof fn lemma_unseen_file_deleted(
    files: Seq<RemoteFileEntry>,
    local: Seq<LocalEntry>,
    k: int,
)
    requires
        0 <= k < files.len(),
        !has_local_name(local, files[k].name@),
    ensures
        spec_files_to_delete(files, local).contains(files[k].id@),
    decreases k,
{
    let head = if !has_local_name(local, files[0].name@) {
        seq![files[0].id@]
    } else {
        Seq::<Seq<char>>::empty()
    };
    let rest = spec_files_to_delete(files.drop_first(), local);
    if k == 0 {
        assert((head + rest)[0] == files[0].id@);
    } else {
        assert(files.drop_first()[k - 1] == files[k]);
        lemma_unseen_file_deleted(files.drop_first(), local, k - 1);
        let i = choose|i: int| 0 <= i < rest.len() && rest[i] == files[k].id@;
        assert((head + rest)[head.len() + i] == files[k].id@);
    }
}

/// Every id slated for file deletion is the id of some remote file entry.
pub proof fn lemma_files_to_delete_from_listing(
    files: Seq<RemoteFileEntry>,
    local: Seq<LocalEntry>,
)
    ensures
        forall|x: Seq<char>|
            spec_files_to_delete(files, local).contains(x) ==> exists|i: int|
                0 <= i < files.len() && files[i].id@ == x,
    decreases files.len(),
{
    if files.len() > 0 {
        lemma_files_to_delete_from_listing(files.drop_first(), local);
        let head = if !has_local_name(local, files[0].name@) {
            seq![files[0].id@]
        } else {
            Seq::<Seq<char>>::empty()
        };
        let rest = spec_files_to_delete(files.drop_first(), local);
        assert forall|x: Seq<char>|
            spec_files_to_delete(files, local).contains(x) implies exists|i: int|
            0 <= i < files.len() && files[i].id@ == x by {
            let p = choose|p: int| 0 <= p < (head + rest).len() && (head + rest)[p] == x;
            if p < head.len() {
                assert(files[0].id@ == x);
            } else {
                assert(rest[p - head.len()] == x);
                assert(rest.contains(x));
                let i = choose|i: int|
                    0 <= i < files.drop_first().len() && files.drop_first()[i].id@ == x;
                assert(files[i + 1].id@ == x);
            }
        }
    }
}

/// With distinct remote file ids, a vanished file is slated for deletion
/// exactly once.
pub proof fn lemma_files_to_delete_once(files: Seq<RemoteFileEntry>, local: Seq<LocalEntry>)
    requires
        forall|i: int, j: int| 0 <= i < j < files.len() ==> files[i].id@ != files[j].id@,
    ensures
        spec_files_to_delete(files, local).no_duplicates(),
    decreases files.len(),
{
    if files.len() > 0 {
        let tail = files.drop_first();
        assert(forall|i: int, j: int| 0 <= i < j < tail.len() ==> tail[i].id@ != tail[j].id@) by {
            assert(forall|i: int| 0 <= i < tail.len() ==> tail[i] == files[i + 1]);
        }
        lemma_files_to_delete_once(tail, local);
        lemma_files_to_delete_from_listing(tail, local);
        let head = if !has_local_name(local, files[0].name@) {
            seq![files[0].id@]
        } else {
            Seq::<Seq<char>>::empty()
        };
        let rest = spec_files_to_delete(tail, local);
        let whole = head + rest;
        assert forall|p: int, q: int|
            0 <= p < q < whole.len() implies whole[p] != whole[q] by {
            if p >= head.len() {
                assert(rest[p - head.len()] != rest[q - head.len()]);
            } else {
                assert(whole[p] == files[0].id@);
                assert(rest[q - head.len()] == whole[q]);
                assert(rest.contains(whole[q]));
                let i = choose|i: int| 0 <= i < tail.len() && tail[i].id@ == whole[q];
                assert(tail[i] == files[i + 1]);
                assert(files[0].id@ != files[i + 1].id@);
            }
        }
    }
}

/// Everything an update pass decides for one directory level.
pub struct UpdatePlan {
    pub actions: Vec<EntryAction>,
    pub folders_to_delete: Vec<String>,
    pub files_to_delete: Vec<String>,
}

/// A fatal error of an update pass.
#[derive(PartialEq, Eq, Structural, Clone, Copy, Debug)]
pub enum UpdateError {
    /// The remote root's name does not match the local root directory.
    RootMismatch,
}

/// Find a remote folder entry by name; the id of the first match.
fn find_folder(folders: &Vec<RemoteFolderEntry>, name: &String) -> (r: Option<String>)
    ensures
        r matches Some(id) ==> spec_find_folder(folders@, name@) == Some(id@),
        r is None ==> spec_find_folder(folders@, name@) is None,
{
    assert(folders@.skip(0) =~= folders@);
    let mut i: usize = 0;
    while i < folders.len()
        invariant
            0 <= i <= folders.len(),
            spec_find_folder(folders@, name@) == spec_find_folder(folders@.skip(i as int), name@),
        decreases folders.len() - i,
    {
        if folders[i].name == *name {
            assert(folders@.skip(i as int)[0] == folders@[i as int]);
            return Some(folders[i].id.clone());
        }
        assert(folders@.skip(i as int).drop_first() =~= folders@.skip(i + 1));
        i = i + 1;
    }
    assert(folders@.skip(i as int).len() == 0);
    None
}

/// Find a remote file entry by name; the index of the first match.
fn find_file(files: &Vec<RemoteFileEntry>, name: &String) -> (r: Option<usize>)
    ensures
        r matches Some(ix) ==> 0 <= ix < files@.len() && spec_find_file(files@, name@) == Some(
            files@[ix as int],
        ),
        r is None ==> spec_find_file(files@, name@) is None,
{
    assert(files@.skip(0) =~= files@);
    let mut i: usize = 0;
    while i < files.len()
        invariant
            0 <= i <= files.len(),
            spec_find_file(files@, name@) == spec_find_file(files@.skip(i as int), name@),
        decreases files.len() - i,
    {
        if files[i].name == *name {
            assert(files@.skip(i as int)[0] == files@[i as int]);
            return Some(i);
        }
        assert(files@.skip(i as int).drop_first() =~= files@.skip(i + 1));
        i = i + 1;
    }
    assert(files@.skip(i as int).len() == 0);
    None
}

/// Whether the local listing holds an entry with this name.
fn names_contains(local: &Vec<LocalEntry>, name: &String) -> (r: bool)
    ensures
        r == has_local_name(local@, name@),
{
    let mut i: usize = 0;
    while i < local.len()
        invariant
            0 <= i <= local.len(),
            forall|j: int| 0 <= j < i ==> local@[j].name@ != name@,
        decreases local.len() - i,
    {
        if local[i].name == *name {
            return true;
        }
        i = i + 1;
    }
    false
}

/// Decide the action for one local entry.
fn action_for(
    e: &LocalEntry,
    folders: &Vec<RemoteFolderEntry>,
    files: &Vec<RemoteFileEntry>,
    threshold_secs: i64,
) -> (a: EntryAction)
    ensures
        action_view(a) == spec_action_for(*e, folders@, files@, threshold_secs as int),
{
    if e.is_dir {
        match find_folder(folders, &e.name) {
            Some(id) => EntryAction::UpdateFolder { name: e.name.clone(), folder_id: id },
            None => EntryAction::PopulateFolder { name: e.name.clone() },
        }
    } else {
        match find_file(files, &e.name) {
            Some(ix) => {
                if file_current(e.mtime_secs, &files[ix].extracted_at, threshold_secs) {
                    EntryAction::SkipFile { name: e.name.clone() }
                } else {
                    EntryAction::UpdateFile {
                        name: e.name.clone(),
                        file_id: files[ix].id.clone(),
                    }
                }
            },
            None => EntryAction::ProcessFile { name: e.name.clone() },
        }
    }
}

/// Diff one directory level against the remote listing of the same parent:
/// one action per local entry, and the remote folders and files with no
/// local counterpart to delete.
pub fn update_folder(
    local: &Vec<LocalEntry>,
    folders: &Vec<RemoteFolderEntry>,
    files: &Vec<RemoteFileEntry>,
    threshold_secs: i64,
) -> (plan: UpdatePlan)
    ensures
        actions_view(plan.actions@) == spec_plan_actions(
            local@,
            folders@,
            files@,
            threshold_secs as int,
        ),
        ids_view(plan.folders_to_delete@) == spec_folders_to_delete(folders@, local@),
        ids_view(plan.files_to_delete@) == spec_files_to_delete(files@, local@),
{
    let mut actions: Vec<EntryAction> = Vec::new();
    let mut i: usize = 0;
    while i < local.len()
        invariant
            0 <= i <= local.len(),
            actions_view(actions@) == spec_plan_actions(
                local@.take(i as int),
                folders@,
                files@,
                threshold_secs as int,
            ),
        decreases local.len() - i,
    {
        let a = action_for(&local[i], folders, files, threshold_secs);
        proof {
            assert(local@.take(i as int + 1) =~= local@.take(i as int).push(local@[i as int]));
            assert(actions_view(actions@.push(a)) =~= actions_view(actions@) + seq![
                action_view(a),
            ]);
            assert(spec_plan_actions(
                local@.take(i as int + 1),
                folders@,
                files@,
                threshold_secs as int,
            ) =~= spec_plan_actions(local@.take(i as int), folders@, files@, threshold_secs as int)
                + seq![spec_action_for(local@[i as int], folders@, files@, threshold_secs as int)]);
        }
        actions.push(a);
        i = i + 1;
    }
    proof {
        assert(local@.take(local@.len() as int) =~= local@);
    }
    let mut folders_to_delete: Vec<String> = Vec::new();
    let mut j: usize = 0;
    proof {
        assert(folders@.skip(0) =~= folders@);
        assert(ids_view(folders_to_delete@) =~= Seq::<Seq<char>>::empty());
    }
    while j < folders.len()
        invariant
            0 <= j <= folders.len(),
            spec_folders_to_delete(folders@, local@) == ids_view(folders_to_delete@)
                + spec_folders_to_delete(folders@.skip(j as int), local@),
        decreases folders.len() - j,
    {
        proof {
            assert(folders@.skip(j as int)[0] == folders@[j as int]);
            assert(folders@.skip(j as int).drop_first() =~= folders@.skip(j + 1));
        }
        if !names_contains(local, &folders[j].name) {
            let id = folders[j].id.clone();
            proof {
                assert(ids_view(folders_to_delete@.push(id)) =~= ids_view(folders_to_delete@)
                    + seq![id@]);
            }
            folders_to_delete.push(id);
        }
        proof {
            assert(ids_view(folders_to_delete@) + spec_folders_to_delete(
                folders@.skip(j as int + 1),
                local@,
            ) =~= spec_folders_to_delete(folders@, local@));
        }
        j = j + 1;
    }
    proof {
        assert(folders@.skip(folders@.len() as int).len() == 0);
        assert(ids_view(folders_to_delete@) + spec_folders_to_delete(
            folders@.skip(folders@.len() as int),
            local@,
        ) =~= ids_view(folders_to_delete@));
    }
    let mut files_to_delete: Vec<String> = Vec::new();
    let mut k: usize = 0;
    proof {
        assert(files@.skip(0) =~= files@);
        assert(ids_view(files_to_delete@) =~= Seq::<Seq<char>>::empty());
    }
    while k < files.len()
        invariant
            0 <= k <= files.len(),
            spec_files_to_delete(files@, local@) == ids_view(files_to_delete@)
                + spec_files_to_delete(files@.skip(k as int), local@),
        decreases files.len() - k,
    {
        proof {
            assert(files@.skip(k as int)[0] == files@[k as int]);
            assert(files@.skip(k as int).drop_first() =~= files@.skip(k + 1));
        }
        if !names_contains(local, &files[k].name) {
            let id = files[k].id.clone();
            proof {
                assert(ids_view(files_to_delete@.push(id)) =~= ids_view(files_to_delete@) + seq![
                    id@,
                ]);
            }
            files_to_delete.push(id);
        }
        proof {
            assert(ids_view(files_to_delete@) + spec_files_to_delete(
                files@.skip(k as int + 1),
                local@,
            ) =~= spec_files_to_delete(files@, local@));
        }
        k = k + 1;
    }
    proof {
        assert(files@.skip(files@.len() as int).len() == 0);
        assert(ids_view(files_to_delete@) + spec_files_to_delete(
            files@.skip(files@.len() as int),
            local@,
        ) =~= ids_view(files_to_delete@));
    }
    UpdatePlan { actions, folders_to_delete, files_to_delete }
}

/// Diff a whole root: the update pass refuses to run when the remote root's
/// name differs from the local root directory's base name; otherwise it
/// plans the root level exactly as `update_folder` plans a folder level.
pub fn update(
    remote_root_name: &String,
    local_root_name: &String,
    local: &Vec<LocalEntry>,
    folders: &Vec<RemoteFolderEntry>,
    files: &Vec<RemoteFileEntry>,
    threshold_secs: i64,
) -> (r: Result<UpdatePlan, UpdateError>)
    ensures
        r is Err <==> remote_root_name@ != local_root_name@,
        r matches Err(e) ==> e == UpdateError::RootMismatch,
        r matches Ok(plan) ==> {
            &&& actions_view(plan.actions@) == spec_plan_actions(
                local@,
                folders@,
                files@,
                threshold_secs as int,
            )
            &&& ids_view(plan.folders_to_delete@) == spec_folders_to_delete(folders@, local@)
            &&& ids_view(plan.files_to_delete@) == spec_files_to_delete(files@, local@)
        },
{
    if *remote_root_name == *local_root_name {
        Ok(update_folder(local, folders, files, threshold_secs))
    } else {
        Err(UpdateError::RootMismatch)
    }
}

} // verus!
