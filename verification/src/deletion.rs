//! Cascading deletes: the exact sequence of calls that removes a remote
//! subtree, every record once, contents before their parent.

use vstd::prelude::*;

verus! {

/// Snapshot of a remote entity and its sub-entities, as the remote index
/// lists them.
pub struct RemoteEntityTree {
    pub id: String,
    pub children: Vec<RemoteEntityTree>,
}

/// Snapshot of a remote file record and its top-level entities.
pub struct RemoteFileTree {
    pub id: String,
    pub entities: Vec<RemoteEntityTree>,
}

/// Snapshot of a remote folder record: its subfolders and its files.
pub struct RemoteFolderTree {
    pub id: String,
    pub subfolders: Vec<RemoteFolderTree>,
    pub files: Vec<RemoteFileTree>,
}

/// One delete request against the remote index, by record id.
#[derive(Debug, PartialEq)]
pub enum DeleteCall {
    Folder { id: String },
    File { id: String },
    SuperEntity { id: String },
    SubEntity { id: String },
}

/// The mathematical shapes of the snapshots and calls.
pub struct EntityTreeView {
    pub id: Seq<char>,
    pub children: Seq<EntityTreeView>,
}

pub struct FileTreeView {
    pub id: Seq<char>,
    pub entities: Seq<EntityTreeView>,
}

pub struct FolderTreeView {
    pub id: Seq<char>,
    pub subfolders: Seq<FolderTreeView>,
    pub files: Seq<FileTreeView>,
}

pub enum DeleteCallView {
    Folder { id: Seq<char> },
    File { id: Seq<char> },
    SuperEntity { id: Seq<char> },
    SubEntity { id: Seq<char> },
}

pub open spec fn entity_tree_view(e: RemoteEntityTree) -> EntityTreeView
    decreases e,
{
    EntityTreeView { id: e.id@, children: entity_trees_view(e.children@) }
}

pub open spec fn entity_trees_view(s: Seq<RemoteEntityTree>) -> Seq<EntityTreeView>
    decreases s,
{
    if s.len() == 0 {
        Seq::empty()
    } else {
        seq![entity_tree_view(s[0])] + entity_trees_view(s.drop_first())
    }
}

pub open spec fn file_tree_view(f: RemoteFileTree) -> FileTreeView {
    FileTreeView { id: f.id@, entities: entity_trees_view(f.entities@) }
}

pub open spec fn file_trees_view(s: Seq<RemoteFileTree>) -> Seq<FileTreeView> {
    s.map_values(|f: RemoteFileTree| file_tree_view(f))
}

pub open spec fn folder_tree_view(f: RemoteFolderTree) -> FolderTreeView
    decreases f,
{
    FolderTreeView {
        id: f.id@,
        subfolders: folder_trees_view(f.subfolders@),
        files: file_trees_view(f.files@),
    }
}

pub open spec fn folder_trees_view(s: Seq<RemoteFolderTree>) -> Seq<FolderTreeView>
    decreases s,
{
    if s.len() == 0 {
        Seq::empty()
    } else {
        seq![folder_tree_view(s[0])] + folder_trees_view(s.drop_first())
    }
}

pub open spec fn call_view(c: DeleteCall) -> DeleteCallView {
    match c {
        DeleteCall::Folder { id } => DeleteCallView::Folder { id: id@ },
        DeleteCall::File { id } => DeleteCallView::File { id: id@ },
        DeleteCall::SuperEntity { id } => DeleteCallView::SuperEntity { id: id@ },
        DeleteCall::SubEntity { id } => DeleteCallView::SubEntity { id: id@ },
    }
}

pub open spec fn calls_view(s: Seq<DeleteCall>) -> Seq<DeleteCallView> {
    s.map_values(|c: DeleteCall| call_view(c))
}

pub open spec fn call_id(c: DeleteCallView) -> Seq<char> {
    match c {
        DeleteCallView::Folder { id } => id,
        DeleteCallView::File { id } => id,
        DeleteCallView::SuperEntity { id } => id,
        DeleteCallView::SubEntity { id } => id,
    }
}

pub open spec fn plan_ids(p: Seq<DeleteCallView>) -> Seq<Seq<char>> {
    p.map_values(|c: DeleteCallView| call_id(c))
}

/// The depth-first delete plan of one entity subtree: sub-entities first,
/// the entity's own record last. A file's top-level entities are super
/// entities; everything deeper is sub.
pub open spec fn entity_plan(e: EntityTreeView, is_super: bool) -> Seq<DeleteCallView>
    decreases e,
{
    entities_plan(e.children, false) + seq![
        if is_super {
            DeleteCallView::SuperEntity { id: e.id }
        } else {
            DeleteCallView::SubEntity { id: e.id }
        },
    ]
}

pub open spec fn entities_plan(es: Seq<EntityTreeView>, is_super: bool) -> Seq<DeleteCallView>
    decreases es,
{
    if es.len() == 0 {
        Seq::empty()
    } else {
        entity_plan(es[0], is_super) + entities_plan(es.drop_first(), is_super)
    }
}

/// The delete plan of one file: all its entities depth-first, then the file
/// record itself.
pub open spec fn file_plan(f: FileTreeView) -> Seq<DeleteCallView> {
    entities_plan(f.entities, true) + seq![DeleteCallView::File { id: f.id }]
}

pub open spec fn files_plan(fs: Seq<FileTreeView>) -> Seq<DeleteCallView>
    decreases fs,
{
    if fs.len() == 0 {
        Seq::empty()
    } else {
        file_plan(fs[0]) + files_plan(fs.drop_first())
    }
}

/// The cascading delete plan of one folder: all subfolders recursively,
/// then all files (entities before each file record), then the folder
/// record itself — so no prefix of the plan ever removes a record before
/// its contents.
pub open spec fn folder_plan(f: FolderTreeView) -> Seq<DeleteCallView>
    decreases f,
{
    folders_plan(f.subfolders) + files_plan(f.files) + seq![DeleteCallView::Folder { id: f.id }]
}

pub open spec fn folders_plan(fs: Seq<FolderTreeView>) -> Seq<DeleteCallView>
    decreases fs,
{
    if fs.len() == 0 {
        Seq::empty()
    } else {
        folder_plan(fs[0]) + folders_plan(fs.drop_first())
    }
}

/// The ids of an entity subtree, in the order the plan removes them.
pub open spec fn entity_ids(e: EntityTreeView) -> Seq<Seq<char>>
    decreases e,
{
    entities_ids(e.children) + seq![e.id]
}

pub open spec fn entities_ids(es: Seq<EntityTreeView>) -> Seq<Seq<char>>
    decreases es,
{
    if es.len() == 0 {
        Seq::empty()
    } else {
        entity_ids(es[0]) + entities_ids(es.drop_first())
    }
}

pub open spec fn file_ids(f: FileTreeView) -> Seq<Seq<char>> {
    entities_ids(f.entities) + seq![f.id]
}

pub open spec fn files_ids(fs: Seq<FileTreeView>) -> Seq<Seq<char>>
    decreases fs,
{
    if fs.len() == 0 {
        Seq::empty()
    } else {
        file_ids(fs[0]) + files_ids(fs.drop_first())
    }
}

/// Every id of a folder's subtree: subfolders' subtrees, files' subtrees
/// (each file with all its entities), and the folder itself.
pub open spec fn folder_ids(f: FolderTreeView) -> Seq<Seq<char>>
    decreases f,
{
    folders_ids(f.subfolders) + files_ids(f.files) + seq![f.id]
}

pub open spec fn folders_ids(fs: Seq<FolderTreeView>) -> Seq<Seq<char>>
    decreases fs,
{
    if fs.len() == 0 {
        Seq::empty()
    } else {
        folder_ids(fs[0]) + folders_ids(fs.drop_first())
    }
}

proof fn lemma_plan_ids_concat(a: Seq<DeleteCallView>, b: Seq<DeleteCallView>)
    ensures
        plan_ids(a + b) == plan_ids(a) + plan_ids(b),
{
    assert(plan_ids(a + b) =~= plan_ids(a) + plan_ids(b));
}

/// Deleting an entity deletes exactly the ids of its subtree, its own
/// record last.
pub proof fn lemma_entity_plan_ids(e: EntityTreeView, is_super: bool)
    ensures
        plan_ids(entity_plan(e, is_super)) == entity_ids(e),
    decreases e,
{
    lemma_entities_plan_ids(e.children, false);
    let own = if is_super {
        DeleteCallView::SuperEntity { id: e.id }
    } else {
        DeleteCallView::SubEntity { id: e.id }
    };
    lemma_plan_ids_concat(entities_plan(e.children, false), seq![own]);
    assert(plan_ids(seq![own]) =~= seq![e.id]);
}

pub proof fn lemma_entities_plan_ids(es: Seq<EntityTreeView>, is_super: bool)
    ensures
        plan_ids(entities_plan(es, is_super)) == entities_ids(es),
    decreases es,
{
    if es.len() == 0 {
        assert(plan_ids(entities_plan(es, is_super)) =~= entities_ids(es));
    } else {
        lemma_entity_plan_ids(es[0], is_super);
        lemma_entities_plan_ids(es.drop_first(), is_super);
        lemma_plan_ids_concat(entity_plan(es[0], is_super), entities_plan(es.drop_first(), is_super));
    }
}

/// Deleting a file deletes exactly its entities' subtree ids and then the
/// file record.
pub proof fn lemma_file_plan_ids(f: FileTreeView)
    ensures
        plan_ids(file_plan(f)) == file_ids(f),
{
    lemma_entities_plan_ids(f.entities, true);
    lemma_plan_ids_concat(entities_plan(f.entities, true), seq![DeleteCallView::File { id: f.id }]);
    assert(plan_ids(seq![DeleteCallView::File { id: f.id }]) =~= seq![f.id]);
}

pub proof fn lemma_files_plan_ids(fs: Seq<FileTreeView>)
    ensures
        plan_ids(files_plan(fs)) == files_ids(fs),
    decreases fs,
{
    if fs.len() == 0 {
        assert(plan_ids(files_plan(fs)) =~= files_ids(fs));
    } else {
        lemma_file_plan_ids(fs[0]);
        lemma_files_plan_ids(fs.drop_first());
        lemma_plan_ids_concat(file_plan(fs[0]), files_plan(fs.drop_first()));
    }
}

/// Deleting a folder deletes exactly the ids of its whole subtree — every
/// entity of every file in every subfolder transitively — one call per id,
/// and the folder's own record comes last.
pub proof fn lemma_folder_plan_ids(f: FolderTreeView)
    ensures
        plan_ids(folder_plan(f)) == folder_ids(f),
    decreases f,
{
    lemma_folders_plan_ids(f.subfolders);
    lemma_files_plan_ids(f.files);
    lemma_plan_ids_concat(folders_plan(f.subfolders), files_plan(f.files));
    lemma_plan_ids_concat(
        folders_plan(f.subfolders) + files_plan(f.files),
        seq![DeleteCallView::Folder { id: f.id }],
    );
    assert(plan_ids(seq![DeleteCallView::Folder { id: f.id }]) =~= seq![f.id]);
    assert(folder_plan(f) == (folders_plan(f.subfolders) + files_plan(f.files)) + seq![
        DeleteCallView::Folder { id: f.id },
    ]);
    assert(folder_ids(f) == (folders_ids(f.subfolders) + files_ids(f.files)) + seq![f.id]);
}

pub proof fn lemma_folders_plan_ids(fs: Seq<FolderTreeView>)
    ensures
        plan_ids(folders_plan(fs)) == folders_ids(fs),
    decreases fs,
{
    if fs.len() == 0 {
        assert(plan_ids(folders_plan(fs)) =~= folders_ids(fs));
    } else {
        lemma_folder_plan_ids(fs[0]);
        lemma_folders_plan_ids(fs.drop_first());
        lemma_plan_ids_concat(folder_plan(fs[0]), folders_plan(fs.drop_first()));
    }
}

proof fn lemma_entity_trees_view(s: Seq<RemoteEntityTree>)
    ensures
        entity_trees_view(s).len() == s.len(),
        forall|i: int| 0 <= i < s.len() ==> entity_trees_view(s)[i] == entity_tree_view(s[i]),
    decreases s.len(),
{
    if s.len() > 0 {
        lemma_entity_trees_view(s.drop_first());
    }
}

proof fn lemma_folder_trees_view(s: Seq<RemoteFolderTree>)
    ensures
        folder_trees_view(s).len() == s.len(),
        forall|i: int| 0 <= i < s.len() ==> folder_trees_view(s)[i] == folder_tree_view(s[i]),
    decreases s.len(),
{
    if s.len() > 0 {
        lemma_folder_trees_view(s.drop_first());
    }
}

proof fn lemma_entities_plan_concat(a: Seq<EntityTreeView>, b: Seq<EntityTreeView>, is_super: bool)
    ensures
        entities_plan(a + b, is_super) == entities_plan(a, is_super) + entities_plan(b, is_super),
    decreases a.len(),
{
    if a.len() == 0 {
        assert(a + b =~= b);
        assert(entities_plan(a, is_super) + entities_plan(b, is_super) =~= entities_plan(
            b,
            is_super,
        ));
    } else {
        assert((a + b)[0] == a[0]);
        assert((a + b).drop_first() =~= a.drop_first() + b);
        lemma_entities_plan_concat(a.drop_first(), b, is_super);
        assert(entities_plan(a + b, is_super) =~= entities_plan(a, is_super) + entities_plan(
            b,
            is_super,
        ));
    }
}

proof fn lemma_entities_plan_singleton(x: EntityTreeView, is_super: bool)
    ensures
        entities_plan(seq![x], is_super) == entity_plan(x, is_super),
{
    assert(seq![x][0] == x);
    assert(seq![x].drop_first() =~= Seq::<EntityTreeView>::empty());
    assert(entities_plan(seq![x].drop_first(), is_super) == Seq::<DeleteCallView>::empty());
    assert(entities_plan(seq![x], is_super) =~= entity_plan(x, is_super));
}

proof fn lemma_files_plan_concat(a: Seq<FileTreeView>, b: Seq<FileTreeView>)
    ensures
        files_plan(a + b) == files_plan(a) + files_plan(b),
    decreases a.len(),
{
    if a.len() == 0 {
        assert(a + b =~= b);
        assert(files_plan(a) + files_plan(b) =~= files_plan(b));
    } else {
        assert((a + b)[0] == a[0]);
        assert((a + b).drop_first() =~= a.drop_first() + b);
        lemma_files_plan_concat(a.drop_first(), b);
        assert(files_plan(a + b) =~= files_plan(a) + files_plan(b));
    }
}

proof fn lemma_files_plan_singleton(x: FileTreeView)
    ensures
        files_plan(seq![x]) == file_plan(x),
{
    assert(seq![x][0] == x);
    assert(seq![x].drop_first() =~= Seq::<FileTreeView>::empty());
    assert(files_plan(seq![x].drop_first()) == Seq::<DeleteCallView>::empty());
    assert(files_plan(seq![x]) =~= file_plan(x));
}

proof fn lemma_folders_plan_concat(a: Seq<FolderTreeView>, b: Seq<FolderTreeView>)
    ensures
        folders_plan(a + b) == folders_plan(a) + folders_plan(b),
    decreases a.len(),
{
    if a.len() == 0 {
        assert(a + b =~= b);
        assert(folders_plan(a) + folders_plan(b) =~= folders_plan(b));
    } else {
        assert((a + b)[0] == a[0]);
        assert((a + b).drop_first() =~= a.drop_first() + b);
        lemma_folders_plan_concat(a.drop_first(), b);
        assert(folders_plan(a + b) =~= folders_plan(a) + folders_plan(b));
    }
}

proof fn lemma_folders_plan_singleton(x: FolderTreeView)
    ensures
        folders_plan(seq![x]) == folder_plan(x),
{
    assert(seq![x][0] == x);
    assert(seq![x].drop_first() =~= Seq::<FolderTreeView>::empty());
    assert(folders_plan(seq![x].drop_first()) == Seq::<DeleteCallView>::empty());
    assert(folders_plan(seq![x]) =~= folder_plan(x));
}

/// Append the depth-first delete plan of one entity subtree.
fn push_entity_plan(e: &RemoteEntityTree, is_super: bool, acc: &mut Vec<DeleteCall>)
    ensures
        calls_view(final(acc)@) == calls_view(old(acc)@) + entity_plan(
            entity_tree_view(*e),
            is_super,
        ),
    decreases *e,
{
    let ghost ev = entity_tree_view(*e);
    let ghost cv = ev.children;
    let ghost entry = acc@;
    proof {
        lemma_entity_trees_view(e.children@);
        assert(cv.take(0) =~= Seq::<EntityTreeView>::empty());
    }
    let mut i: usize = 0;
    while i < e.children.len()
        invariant
            0 <= i <= e.children.len(),
            cv == entity_trees_view(e.children@),
            cv.len() == e.children@.len(),
            forall|j: int| 0 <= j < cv.len() ==> cv[j] == entity_tree_view(e.children@[j]),
            entry == old(acc)@,
            calls_view(acc@) == calls_view(entry) + entities_plan(cv.take(i as int), false),
        decreases e.children@.len() - i,
    {
        proof {
            assert(cv.take(i as int + 1) =~= cv.take(i as int) + seq![cv[i as int]]);
            lemma_entities_plan_concat(cv.take(i as int), seq![cv[i as int]], false);
            lemma_entities_plan_singleton(cv[i as int], false);
        }
        push_entity_plan(&e.children[i], false, acc);
        i = i + 1;
    }
    proof {
        assert(cv.take(e.children@.len() as int) =~= cv);
    }
    let own = if is_super {
        DeleteCall::SuperEntity { id: e.id.clone() }
    } else {
        DeleteCall::SubEntity { id: e.id.clone() }
    };
    proof {
        let c = call_view(own);
        assert(calls_view(acc@.push(own)) =~= calls_view(acc@) + seq![c]);
        assert(entity_plan(ev, is_super) == entities_plan(cv, false) + seq![c]);
    }
    acc.push(own);
    proof {
        assert(calls_view(acc@) =~= calls_view(old(acc)@) + entity_plan(ev, is_super));
    }
}

/// Append the delete plan of one file: its entities depth-first, then the
/// file record.
fn push_file_plan(f: &RemoteFileTree, acc: &mut Vec<DeleteCall>)
    ensures
        calls_view(final(acc)@) == calls_view(old(acc)@) + file_plan(file_tree_view(*f)),
{
    let ghost fv = file_tree_view(*f);
    let ghost cv = fv.entities;
    let ghost entry = acc@;
    proof {
        lemma_entity_trees_view(f.entities@);
        assert(cv.take(0) =~= Seq::<EntityTreeView>::empty());
    }
    let mut i: usize = 0;
    while i < f.entities.len()
        invariant
            0 <= i <= f.entities.len(),
            cv == entity_trees_view(f.entities@),
            cv.len() == f.entities@.len(),
            forall|j: int| 0 <= j < cv.len() ==> cv[j] == entity_tree_view(f.entities@[j]),
            entry == old(acc)@,
            calls_view(acc@) == calls_view(entry) + entities_plan(cv.take(i as int), true),
        decreases f.entities@.len() - i,
    {
        proof {
            assert(cv.take(i as int + 1) =~= cv.take(i as int) + seq![cv[i as int]]);
            lemma_entities_plan_concat(cv.take(i as int), seq![cv[i as int]], true);
            lemma_entities_plan_singleton(cv[i as int], true);
        }
        push_entity_plan(&f.entities[i], true, acc);
        i = i + 1;
    }
    proof {
        assert(cv.take(f.entities@.len() as int) =~= cv);
    }
    let own = DeleteCall::File { id: f.id.clone() };
    proof {
        let c = call_view(own);
        assert(calls_view(acc@.push(own)) =~= calls_view(acc@) + seq![c]);
    }
    acc.push(own);
    proof {
        assert(calls_view(acc@) =~= calls_view(old(acc)@) + file_plan(fv));
    }
}

/// Append the cascading delete plan of one folder: subfolders recursively,
/// then files, then the folder record.
fn push_folder_plan(f: &RemoteFolderTree, acc: &mut Vec<DeleteCall>)
    ensures
        calls_view(final(acc)@) == calls_view(old(acc)@) + folder_plan(folder_tree_view(*f)),
    decreases *f,
{
    let ghost fv = folder_tree_view(*f);
    let ghost sv = fv.subfolders;
    let ghost lv = fv.files;
    let ghost entry = acc@;
    proof {
        lemma_folder_trees_view(f.subfolders@);
        assert(sv.take(0) =~= Seq::<FolderTreeView>::empty());
    }
    let mut i: usize = 0;
    while i < f.subfolders.len()
        invariant
            0 <= i <= f.subfolders.len(),
            sv == folder_trees_view(f.subfolders@),
            sv.len() == f.subfolders@.len(),
            forall|j: int| 0 <= j < sv.len() ==> sv[j] == folder_tree_view(f.subfolders@[j]),
            entry == old(acc)@,
            calls_view(acc@) == calls_view(entry) + folders_plan(sv.take(i as int)),
        decreases f.subfolders@.len() - i,
    {
        proof {
            assert(sv.take(i as int + 1) =~= sv.take(i as int) + seq![sv[i as int]]);
            lemma_folders_plan_concat(sv.take(i as int), seq![sv[i as int]]);
            lemma_folders_plan_singleton(sv[i as int]);
        }
        push_folder_plan(&f.subfolders[i], acc);
        i = i + 1;
    }
    proof {
        assert(sv.take(f.subfolders@.len() as int) =~= sv);
        assert(lv.take(0) =~= Seq::<FileTreeView>::empty());
        assert(files_plan(lv.take(0)) == Seq::<DeleteCallView>::empty());
        assert(calls_view(acc@) + files_plan(lv.take(0)) =~= calls_view(acc@));
    }
    let mut k: usize = 0;
    while k < f.files.len()
        invariant
            0 <= k <= f.files.len(),
            sv == folder_trees_view(f.subfolders@),
            lv == file_trees_view(f.files@),
            lv.len() == f.files@.len(),
            forall|j: int| 0 <= j < lv.len() ==> lv[j] == file_tree_view(f.files@[j]),
            entry == old(acc)@,
            calls_view(acc@) == calls_view(entry) + folders_plan(sv) + files_plan(
                lv.take(k as int),
            ),
        decreases f.files@.len() - k,
    {
        proof {
            assert(lv.take(k as int + 1) =~= lv.take(k as int) + seq![lv[k as int]]);
            lemma_files_plan_concat(lv.take(k as int), seq![lv[k as int]]);
            lemma_files_plan_singleton(lv[k as int]);
        }
        push_file_plan(&f.files[k], acc);
        k = k + 1;
    }
    proof {
        assert(lv.take(f.files@.len() as int) =~= lv);
    }
    let own = DeleteCall::Folder { id: f.id.clone() };
    proof {
        let c = call_view(own);
        assert(calls_view(acc@.push(own)) =~= calls_view(acc@) + seq![c]);
    }
    acc.push(own);
    proof {
        assert(calls_view(acc@) =~= calls_view(old(acc)@) + folder_plan(fv));
    }
}

/// The delete calls that remove a list of entity subtrees, depth first:
/// each entity's sub-entities before the entity's own record.
pub fn delete_entities(entities: &Vec<RemoteEntityTree>, is_super: bool) -> (res: Vec<DeleteCall>)
    ensures
        calls_view(res@) == entities_plan(entity_trees_view(entities@), is_super),
{
    let ghost cv = entity_trees_view(entities@);
    let mut acc: Vec<DeleteCall> = Vec::new();
    proof {
        lemma_entity_trees_view(entities@);
        assert(cv.take(0) =~= Seq::<EntityTreeView>::empty());
        assert(calls_view(acc@) =~= Seq::<DeleteCallView>::empty());
        assert(calls_view(acc@) == entities_plan(cv.take(0), is_super));
    }
    let mut i: usize = 0;
    while i < entities.len()
        invariant
            0 <= i <= entities.len(),
            cv == entity_trees_view(entities@),
            cv.len() == entities@.len(),
            forall|j: int| 0 <= j < cv.len() ==> cv[j] == entity_tree_view(entities@[j]),
            calls_view(acc@) == entities_plan(cv.take(i as int), is_super),
        decreases entities@.len() - i,
    {
        proof {
            assert(cv.take(i as int + 1) =~= cv.take(i as int) + seq![cv[i as int]]);
            lemma_entities_plan_concat(cv.take(i as int), seq![cv[i as int]], is_super);
            lemma_entities_plan_singleton(cv[i as int], is_super);
            assert(calls_view(acc@) + Seq::<DeleteCallView>::empty() =~= calls_view(acc@));
        }
        push_entity_plan(&entities[i], is_super, &mut acc);
        i = i + 1;
    }
    proof {
        assert(cv.take(entities@.len() as int) =~= cv);
    }
    acc
}

/// The delete calls that remove a list of files: for each file all its
/// entities first, then the file record.
pub fn delete_files(files: &Vec<RemoteFileTree>) -> (res: Vec<DeleteCall>)
    ensures
        calls_view(res@) == files_plan(file_trees_view(files@)),
{
    let ghost lv = file_trees_view(files@);
    let mut acc: Vec<DeleteCall> = Vec::new();
    proof {
        assert(lv.take(0) =~= Seq::<FileTreeView>::empty());
        assert(calls_view(acc@) =~= Seq::<DeleteCallView>::empty());
        assert(calls_view(acc@) == files_plan(lv.take(0)));
    }
    let mut i: usize = 0;
    while i < files.len()
        invariant
            0 <= i <= files.len(),
            lv == file_trees_view(files@),
            lv.len() == files@.len(),
            forall|j: int| 0 <= j < lv.len() ==> lv[j] == file_tree_view(files@[j]),
            calls_view(acc@) == files_plan(lv.take(i as int)),
        decreases files@.len() - i,
    {
        proof {
            assert(lv.take(i as int + 1) =~= lv.take(i as int) + seq![lv[i as int]]);
            lemma_files_plan_concat(lv.take(i as int), seq![lv[i as int]]);
            lemma_files_plan_singleton(lv[i as int]);
            assert(calls_view(acc@) + Seq::<DeleteCallView>::empty() =~= calls_view(acc@));
        }
        push_file_plan(&files[i], &mut acc);
        i = i + 1;
    }
    proof {
        assert(lv.take(files@.len() as int) =~= lv);
    }
    acc
}

/// The cascading delete calls that remove one folder and its whole remote
/// subtree, depth first.
pub fn delete_folder(folder: &RemoteFolderTree) -> (res: Vec<DeleteCall>)
    ensures
        calls_view(res@) == folder_plan(folder_tree_view(*folder)),
{
    let mut acc: Vec<DeleteCall> = Vec::new();
    proof {
        assert(calls_view(acc@) =~= Seq::<DeleteCallView>::empty());
    }
    push_folder_plan(folder, &mut acc);
    proof {
        assert(Seq::<DeleteCallView>::empty() + folder_plan(folder_tree_view(*folder))
            =~= folder_plan(folder_tree_view(*folder)));
    }
    acc
}

/// When the subtree's record ids are distinct — as ids assigned by the
/// remote index are — the cascading delete issues exactly one delete call
/// per record of the subtree, and none for any other record.
pub proof fn lemma_folder_plan_exactly_once(f: FolderTreeView)
    requires
        folder_ids(f).no_duplicates(),
    ensures
        plan_ids(folder_plan(f)).no_duplicates(),
        forall|id: Seq<char>| plan_ids(folder_plan(f)).contains(id) <==> folder_ids(f).contains(id),
{
    lemma_folder_plan_ids(f);
}

/// Whether `g` is `f` itself or a folder somewhere inside `f`'s subtree.
pub open spec fn folder_in_tree(g: FolderTreeView, f: FolderTreeView) -> bool
    decreases f,
{
    g == f || exists|i: int|
        0 <= i < f.subfolders.len() && folder_in_tree(g, #[trigger] f.subfolders[i])
}

/// Whether `h` is a file of some folder in `f`'s subtree.
pub open spec fn file_in_tree(h: FileTreeView, f: FolderTreeView) -> bool
    decreases f,
{
    (exists|i: int| 0 <= i < f.files.len() && #[trigger] f.files[i] == h) || exists|i: int|
        0 <= i < f.subfolders.len() && file_in_tree(h, #[trigger] f.subfolders[i])
}

/// `small` occupies positions `at .. at + small.len()` of `big`.
pub open spec fn is_segment_at(big: Seq<DeleteCallView>, small: Seq<DeleteCallView>, at: int) -> bool {
    &&& 0 <= at
    &&& at + small.len() <= big.len()
    &&& big.subrange(at, at + small.len()) == small
}

pub open spec fn is_segment(big: Seq<DeleteCallView>, small: Seq<DeleteCallView>) -> bool {
    exists|at: int| is_segment_at(big, small, at)
}

proof fn lemma_segment_left(a: Seq<DeleteCallView>, b: Seq<DeleteCallView>)
    ensures
        is_segment_at(a + b, a, 0),
{
    assert((a + b).subrange(0, a.len() as int) =~= a);
}

proof fn lemma_segment_shift(
    a: Seq<DeleteCallView>,
    b: Seq<DeleteCallView>,
    small: Seq<DeleteCallView>,
    at: int,
)
    requires
        is_segment_at(b, small, at),
    ensures
        is_segment_at(a + b, small, a.len() + at),
{
    assert((a + b).subrange(a.len() + at, a.len() + at + small.len()) =~= b.subrange(
        at,
        at + small.len(),
    ));
}

proof fn lemma_segment_trans(
    p0: Seq<DeleteCallView>,
    p1: Seq<DeleteCallView>,
    p2: Seq<DeleteCallView>,
    a01: int,
    a12: int,
)
    requires
        is_segment_at(p0, p1, a01),
        is_segment_at(p1, p2, a12),
    ensures
        is_segment_at(p0, p2, a01 + a12),
{
    assert(p0.subrange(a01 + a12, a01 + a12 + p2.len()) =~= p2) by {
        assert(forall|k: int|
            0 <= k < p2.len() ==> #[trigger] p0.subrange(a01 + a12, a01 + a12 + p2.len())[k]
                == p0[a01 + a12 + k]);
        assert(forall|k: int| 0 <= k < p2.len() ==> #[trigger] p1[a12 + k] == p2[k]);
        assert(forall|k: int| 0 <= k < p1.len() ==> #[trigger] p0[a01 + k] == p1[k]);
    }
}

proof fn lemma_folders_plan_has_member(fs: Seq<FolderTreeView>, k: int)
    requires
        0 <= k < fs.len(),
    ensures
        is_segment(folders_plan(fs), folder_plan(fs[k])),
    decreases k,
{
    let head = folder_plan(fs[0]);
    let tail = folders_plan(fs.drop_first());
    if k == 0 {
        lemma_segment_left(head, tail);
        assert(is_segment_at(folders_plan(fs), folder_plan(fs[k]), 0));
    } else {
        assert(fs.drop_first()[k - 1] == fs[k]);
        lemma_folders_plan_has_member(fs.drop_first(), k - 1);
        let at = choose|at: int| is_segment_at(tail, folder_plan(fs[k]), at);
        lemma_segment_shift(head, tail, folder_plan(fs[k]), at);
    }
}

proof fn lemma_files_plan_has_member(fs: Seq<FileTreeView>, k: int)
    requires
        0 <= k < fs.len(),
    ensures
        is_segment(files_plan(fs), file_plan(fs[k])),
    decreases k,
{
    let head = file_plan(fs[0]);
    let tail = files_plan(fs.drop_first());
    if k == 0 {
        lemma_segment_left(head, tail);
        assert(is_segment_at(files_plan(fs), file_plan(fs[k]), 0));
    } else {
        assert(fs.drop_first()[k - 1] == fs[k]);
        lemma_files_plan_has_member(fs.drop_first(), k - 1);
        let at = choose|at: int| is_segment_at(tail, file_plan(fs[k]), at);
        lemma_segment_shift(head, tail, file_plan(fs[k]), at);
    }
}

/// Every folder of the subtree is deleted by one uninterrupted stretch of
/// the plan: its own cascading plan — contents first, record last — stands
/// whole inside the ancestor's plan, at every depth.
pub proof fn lemma_subfolder_plan_is_segment(g: FolderTreeView, f: FolderTreeView)
    requires
        folder_in_tree(g, f),
    ensures
        is_segment(folder_plan(f), folder_plan(g)),
    decreases f,
{
    if g == f {
        assert(folder_plan(f).subrange(0, folder_plan(f).len() as int) =~= folder_plan(f));
        assert(is_segment_at(folder_plan(f), folder_plan(g), 0));
    } else {
        let i = choose|i: int|
            0 <= i < f.subfolders.len() && folder_in_tree(g, #[trigger] f.subfolders[i]);
        lemma_subfolder_plan_is_segment(g, f.subfolders[i]);
        let a12 = choose|at: int| is_segment_at(folder_plan(f.subfolders[i]), folder_plan(g), at);
        lemma_folders_plan_has_member(f.subfolders, i);
        let a01 = choose|at: int|
            is_segment_at(folders_plan(f.subfolders), folder_plan(f.subfolders[i]), at);
        lemma_segment_trans(
            folders_plan(f.subfolders),
            folder_plan(f.subfolders[i]),
            folder_plan(g),
            a01,
            a12,
        );
        lemma_segment_left(folders_plan(f.subfolders) + files_plan(f.files), seq![
            DeleteCallView::Folder { id: f.id },
        ]);
        lemma_segment_left(folders_plan(f.subfolders), files_plan(f.files));
        lemma_segment_trans(
            folders_plan(f.subfolders) + files_plan(f.files),
            folders_plan(f.subfolders),
            folder_plan(g),
            0,
            a01 + a12,
        );
        assert(folder_plan(f) == (folders_plan(f.subfolders) + files_plan(f.files)) + seq![
            DeleteCallView::Folder { id: f.id },
        ]);
        lemma_segment_trans(
            folder_plan(f),
            folders_plan(f.subfolders) + files_plan(f.files),
            folder_plan(g),
            0,
            a01 + a12,
        );
    }
}

/// Every file of the subtree is deleted by one uninterrupted stretch of the
/// plan: all its entities depth-first, then the file record — so no prefix
/// of a cascading delete leaves an entity whose file is already gone.
pub proof fn lemma_file_plan_is_segment(h: FileTreeView, f: FolderTreeView)
    requires
        file_in_tree(h, f),
    ensures
        is_segment(folder_plan(f), file_plan(h)),
    decreases f,
{
    if exists|i: int| 0 <= i < f.files.len() && #[trigger] f.files[i] == h {
        let i = choose|i: int| 0 <= i < f.files.len() && #[trigger] f.files[i] == h;
        lemma_files_plan_has_member(f.files, i);
        let a12 = choose|at: int| is_segment_at(files_plan(f.files), file_plan(h), at);
        lemma_segment_shift(folders_plan(f.subfolders), files_plan(f.files), file_plan(h), a12);
        lemma_segment_left(folders_plan(f.subfolders) + files_plan(f.files), seq![
            DeleteCallView::Folder { id: f.id },
        ]);
        lemma_segment_trans(
            (folders_plan(f.subfolders) + files_plan(f.files)) + seq![
                DeleteCallView::Folder { id: f.id },
            ],
            folders_plan(f.subfolders) + files_plan(f.files),
            file_plan(h),
            0,
            folders_plan(f.subfolders).len() + a12,
        );
        assert(folder_plan(f) == (folders_plan(f.subfolders) + files_plan(f.files)) + seq![
            DeleteCallView::Folder { id: f.id },
        ]);
    } else {
        let i = choose|i: int|
            0 <= i < f.subfolders.len() && file_in_tree(h, #[trigger] f.subfolders[i]);
        lemma_file_plan_is_segment(h, f.subfolders[i]);
        let a12 = choose|at: int| is_segment_at(folder_plan(f.subfolders[i]), file_plan(h), at);
        lemma_folders_plan_has_member(f.subfolders, i);
        let a01 = choose|at: int|
            is_segment_at(folders_plan(f.subfolders), folder_plan(f.subfolders[i]), at);
        lemma_segment_trans(
            folders_plan(f.subfolders),
            folder_plan(f.subfolders[i]),
            file_plan(h),
            a01,
            a12,
        );
        lemma_segment_left(folders_plan(f.subfolders), files_plan(f.files));
        lemma_segment_trans(
            folders_plan(f.subfolders) + files_plan(f.files),
            folders_plan(f.subfolders),
            file_plan(h),
            0,
            a01 + a12,
        );
        lemma_segment_left(folders_plan(f.subfolders) + files_plan(f.files), seq![
            DeleteCallView::Folder { id: f.id },
        ]);
        lemma_segment_trans(
            (folders_plan(f.subfolders) + files_plan(f.files)) + seq![
                DeleteCallView::Folder { id: f.id },
            ],
            folders_plan(f.subfolders) + files_plan(f.files),
            file_plan(h),
            0,
            a01 + a12,
        );
        assert(folder_plan(f) == (folders_plan(f.subfolders) + files_plan(f.files)) + seq![
            DeleteCallView::Folder { id: f.id },
        ]);
    }
}

/// A folder's own record is the last call of its plan: everything the
/// folder contains is deleted before the folder record, so no prefix of the
/// plan leaves an entity, file or subfolder whose parent is already gone.
pub proof fn lemma_folder_record_last(f: FolderTreeView)
    ensures
        folder_plan(f).len() > 0,
        folder_plan(f).last() == (DeleteCallView::Folder { id: f.id }),
        folder_plan(f).drop_last() == folders_plan(f.subfolders) + files_plan(f.files),
{
    assert(folder_plan(f).drop_last() =~= folders_plan(f.subfolders) + files_plan(f.files));
}

/// A file's record is deleted only after all its entity records.
pub proof fn lemma_file_record_last(f: FileTreeView)
    ensures
        file_plan(f).len() > 0,
        file_plan(f).last() == (DeleteCallView::File { id: f.id }),
        file_plan(f).drop_last() == entities_plan(f.entities, true),
{
    assert(file_plan(f).drop_last() =~= entities_plan(f.entities, true));
}

/// An entity's record is deleted only after all its sub-entity records.
pub proof fn lemma_entity_record_last(e: EntityTreeView, is_super: bool)
    ensures
        entity_plan(e, is_super).len() > 0,
        entity_plan(e, is_super).last() == if is_super {
            DeleteCallView::SuperEntity { id: e.id }
        } else {
            DeleteCallView::SubEntity { id: e.id }
        },
        entity_plan(e, is_super).drop_last() == entities_plan(e.children, false),
{
    assert(entity_plan(e, is_super).drop_last() =~= entities_plan(e.children, false));
}

} // verus!
