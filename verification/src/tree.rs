//! The tree of a folder, built one directory listing at a time. The walk
//! says which directory it needs listed next; the host lists it and hands
//! the entries back, until no directory is left.

use crate::error::{labelled, CommandError, ErrorKind};
use crate::types::optional_text;
use vstd::prelude::*;

verus! {

/// One entry of a directory listing, as the host found it.
#[derive(Debug, PartialEq, Eq)]
pub struct DirEntry {
    pub name: String,
    pub path: String,
    pub is_dir: bool,
}

/// The mathematical value of a `DirEntry`.
pub struct DirEntryModel {
    pub name: Seq<char>,
    pub path: Seq<char>,
    pub is_dir: bool,
}

impl View for DirEntry {
    type V = DirEntryModel;

    open spec fn view(&self) -> DirEntryModel {
        DirEntryModel { name: self.name@, path: self.path@, is_dir: self.is_dir }
    }
}

/// The mathematical values of a listing.
pub open spec fn entries_view(entries: Seq<DirEntry>) -> Seq<DirEntryModel> {
    entries.map_values(|e: DirEntry| e@)
}

/// A file or a directory of the finished tree. A directory has its children,
/// which may be none; a file has no children field.
#[derive(Debug, PartialEq, Eq)]
pub struct FileNode {
    pub name: String,
    pub path: String,
    pub children: Option<Vec<FileNode>>,
}

/// The mathematical value of a `FileNode`.
pub struct FileNodeModel {
    pub name: Seq<char>,
    pub path: Seq<char>,
    pub children: Option<Seq<FileNodeModel>>,
}

/// The model of a finished tree, built from the models of its parts.
pub open spec fn node_model(node: FileNode) -> FileNodeModel
    decreases node,
{
    FileNodeModel {
        name: node.name@,
        path: node.path@,
        children: match node.children {
            Some(children) => Some(
                Seq::new(
                    children@.len(),
                    |i: int|
                        if 0 <= i < children@.len() {
                            node_model(children@[i])
                        } else {
                            FileNodeModel { name: Seq::empty(), path: Seq::empty(), children: None }
                        },
                ),
            ),
            None => None,
        },
    }
}

impl View for FileNode {
    type V = FileNodeModel;

    open spec fn view(&self) -> FileNodeModel {
        node_model(*self)
    }
}

/// The models of a list of finished trees.
pub open spec fn nodes_view(nodes: Seq<FileNode>) -> Seq<FileNodeModel> {
    nodes.map_values(|n: FileNode| n@)
}

/// The model of a directory is made of the models of its children.
pub proof fn lemma_directory_view(name: String, path: String, children: Vec<FileNode>)
    ensures
        (FileNode { name, path, children: Some(children) })@ == (FileNodeModel {
            name: name@,
            path: path@,
            children: Some(nodes_view(children@)),
        }),
{
    let whole = FileNode { name, path, children: Some(children) };
    assert(whole@.children is Some);
    let models = whole@.children->0;
    assert(models.len() == children@.len());
    assert forall|i: int| 0 <= i < models.len() implies models[i] == nodes_view(children@)[i] by {
        assert(models[i] == children@[i]@);
    }
    assert(models =~= nodes_view(children@));
}

/// A tree in the making: a file, a directory that still waits for its
/// listing, or a directory with its children, which are trees in the making
/// themselves.
pub enum PlanModel {
    File { name: Seq<char>, path: Seq<char> },
    Pending { name: Seq<char>, path: Seq<char> },
    Listed { name: Seq<char>, path: Seq<char>, children: Seq<PlanModel> },
}

/// What a listed entry is at first: a file, or a directory that waits.
pub open spec fn entry_plan(entry: DirEntryModel) -> PlanModel {
    if entry.is_dir {
        PlanModel::Pending { name: entry.name, path: entry.path }
    } else {
        PlanModel::File { name: entry.name, path: entry.path }
    }
}

/// What the entries of a listing are at first, in their order.
pub open spec fn listing_plan(entries: Seq<DirEntryModel>) -> Seq<PlanModel> {
    entries.map_values(|e: DirEntryModel| entry_plan(e))
}

/// The path of the first directory that waits for its listing, in depth-first
/// order: a directory comes before its children, a child before the children
/// that follow it.
pub open spec fn next_pending(plan: PlanModel) -> Option<Seq<char>>
    decreases plan, 0nat,
{
    match plan {
        PlanModel::File { .. } => None,
        PlanModel::Pending { path, .. } => Some(path),
        PlanModel::Listed { children, .. } => next_pending_from(children, 0),
    }
}

/// The path of the first waiting directory among the children from `start`
/// on.
pub open spec fn next_pending_from(children: Seq<PlanModel>, start: int) -> Option<Seq<char>>
    decreases children, children.len() - start,
{
    if 0 <= start < children.len() {
        match next_pending(children[start]) {
            Some(path) => Some(path),
            None => next_pending_from(children, start + 1),
        }
    } else {
        None
    }
}

/// The plan after the first waiting directory was listed: it has the listed
/// entries as its children, and nothing else has changed. A plan in which no
/// directory waits stays as it is.
pub open spec fn expand(plan: PlanModel, entries: Seq<DirEntryModel>) -> PlanModel
    decreases plan, 0nat,
{
    match plan {
        PlanModel::File { .. } => plan,
        PlanModel::Pending { name, path } => PlanModel::Listed {
            name,
            path,
            children: listing_plan(entries),
        },
        PlanModel::Listed { name, path, children } => PlanModel::Listed {
            name,
            path,
            children: expand_from(children, 0, entries),
        },
    }
}

/// The children after the first waiting directory among those from `start`
/// on was listed.
pub open spec fn expand_from(children: Seq<PlanModel>, start: int, entries: Seq<DirEntryModel>) -> Seq<
    PlanModel,
>
    decreases children, children.len() - start,
{
    if 0 <= start < children.len() {
        if next_pending(children[start]) is Some {
            children.update(start, expand(children[start], entries))
        } else {
            expand_from(children, start + 1, entries)
        }
    } else {
        children
    }
}

/// The finished tree of a plan in which no directory waits. (A directory
/// that waits would count as empty.)
pub open spec fn tree_of(plan: PlanModel) -> FileNodeModel
    decreases plan,
{
    match plan {
        PlanModel::File { name, path } => FileNodeModel { name, path, children: None },
        PlanModel::Pending { name, path } => FileNodeModel {
            name,
            path,
            children: Some(Seq::empty()),
        },
        PlanModel::Listed { name, path, children } => FileNodeModel {
            name,
            path,
            children: Some(
                Seq::new(
                    children.len(),
                    |i: int|
                        if 0 <= i < children.len() {
                            tree_of(children[i])
                        } else {
                            FileNodeModel { name: Seq::empty(), path: Seq::empty(), children: None }
                        },
                ),
            ),
        },
    }
}

/// A tree in the making, as the walk holds it.
enum PlanNode {
    File { name: String, path: String },
    Pending { name: String, path: String },
    Listed { name: String, path: String, children: Vec<PlanNode> },
}

/// The model of a tree in the making.
spec fn plan_model(node: PlanNode) -> PlanModel
    decreases node,
{
    match node {
        PlanNode::File { name, path } => PlanModel::File { name: name@, path: path@ },
        PlanNode::Pending { name, path } => PlanModel::Pending { name: name@, path: path@ },
        PlanNode::Listed { name, path, children } => PlanModel::Listed {
            name: name@,
            path: path@,
            children: Seq::new(
                children@.len(),
                |i: int|
                    if 0 <= i < children@.len() {
                        plan_model(children@[i])
                    } else {
                        PlanModel::File { name: Seq::empty(), path: Seq::empty() }
                    },
            ),
        },
    }
}

/// The models of a list of trees in the making.
spec fn plan_models(nodes: Seq<PlanNode>) -> Seq<PlanModel> {
    nodes.map_values(|n: PlanNode| plan_model(n))
}

/// The model of a listed directory is made of the models of its children.
proof fn lemma_listed_model(name: String, path: String, children: Vec<PlanNode>)
    ensures
        plan_model(PlanNode::Listed { name, path, children }) == (PlanModel::Listed {
            name: name@,
            path: path@,
            children: plan_models(children@),
        }),
{
    let whole = plan_model(PlanNode::Listed { name, path, children });
    assert(whole is Listed);
    let models = whole->Listed_children;
    assert(models.len() == children@.len());
    assert forall|i: int| 0 <= i < models.len() implies models[i] == plan_models(children@)[i] by {
        assert(models[i] == plan_model(children@[i]));
    }
    assert(models =~= plan_models(children@));
}

/// Children in which no directory waits from `start` on stay as they are.
proof fn lemma_expand_from_none(children: Seq<PlanModel>, start: int, entries: Seq<DirEntryModel>)
    requires
        0 <= start <= children.len(),
        forall|j: int| start <= j < children.len() ==> next_pending(#[trigger] children[j]) is None,
    ensures
        expand_from(children, start, entries) == children,
        next_pending_from(children, start) is None,
    decreases children.len() - start,
{
    if start < children.len() {
        lemma_expand_from_none(children, start + 1, entries);
    }
}

/// A plan in which no directory waits stays as it is.
proof fn lemma_expand_none(plan: PlanModel, entries: Seq<DirEntryModel>)
    requires
        next_pending(plan) is None,
    ensures
        expand(plan, entries) == plan,
    decreases plan,
{
    match plan {
        PlanModel::Listed { name, path, children } => {
            lemma_scan_none(children, 0);
            lemma_expand_from_none(children, 0, entries);
        },
        _ => {},
    }
}

/// Where the scan from `start` finds nothing, no child from `start` on has a
/// waiting directory.
proof fn lemma_scan_none(children: Seq<PlanModel>, start: int)
    requires
        0 <= start <= children.len(),
        next_pending_from(children, start) is None,
    ensures
        forall|j: int| start <= j < children.len() ==> next_pending(#[trigger] children[j]) is None,
    decreases children.len() - start,
{
    if start < children.len() {
        lemma_scan_none(children, start + 1);
    }
}

/// The path of the first directory that waits for its listing.
fn first_pending(node: &PlanNode) -> (r: Option<String>)
    ensures
        optional_text(r) == next_pending(plan_model(*node)),
    decreases node,
{
    match node {
        PlanNode::File { .. } => None,
        PlanNode::Pending { path, .. } => Some(path.clone()),
        PlanNode::Listed { name, path, children } => {
            proof {
                lemma_listed_model(*name, *path, *children);
                assert forall|j: int| 0 <= j < children@.len() implies decreases_to!(*node => #[trigger] children@[j]) by {
                    assert(decreases_to!(*children => children@[j]));
                }
            }
            let ghost models = plan_models(children@);
            let mut i: usize = 0;
            while i < children.len()
                invariant
                    i <= children.len(),
                    models == plan_models(children@),
                    forall|j: int|
                        0 <= j < children@.len() ==> decreases_to!(*node => #[trigger] children@[j]),
                    next_pending(plan_model(*node)) == next_pending_from(models, 0),
                    next_pending_from(models, 0) == next_pending_from(models, i as int),
                decreases children.len() - i,
            {
                match first_pending(&children[i]) {
                    Some(found) => {
                        return Some(found);
                    },
                    None => {},
                }
                i += 1;
            }
            None
        },
    }
}

/// The plan nodes of a listing.
fn plan_of_entries(entries: Vec<DirEntry>) -> (r: Vec<PlanNode>)
    ensures
        plan_models(r@) == listing_plan(entries_view(entries@)),
{
    let mut entries = entries;
    let ghost listed = entries_view(entries@);
    let mut reversed: Vec<PlanNode> = Vec::new();
    while entries.len() > 0
        invariant
            entries.len() + reversed.len() == listed.len(),
            forall|j: int|
                0 <= j < entries.len() ==> (#[trigger] entries@[j])@ == listed[j],
            forall|j: int|
                0 <= j < reversed.len() ==> plan_model(#[trigger] reversed@[j]) == entry_plan(
                    listed[listed.len() - 1 - j],
                ),
        decreases entries.len(),
    {
        let entry = entries.pop().unwrap();
        let node = if entry.is_dir {
            PlanNode::Pending { name: entry.name, path: entry.path }
        } else {
            PlanNode::File { name: entry.name, path: entry.path }
        };
        reversed.push(node);
    }
    let mut nodes: Vec<PlanNode> = Vec::new();
    while reversed.len() > 0
        invariant
            nodes.len() + reversed.len() == listed.len(),
            forall|j: int|
                0 <= j < reversed.len() ==> plan_model(#[trigger] reversed@[j]) == entry_plan(
                    listed[listed.len() - 1 - j],
                ),
            forall|j: int|
                0 <= j < nodes.len() ==> plan_model(#[trigger] nodes@[j]) == entry_plan(listed[j]),
        decreases reversed.len(),
    {
        let node = reversed.pop().unwrap();
        nodes.push(node);
    }
    assert(plan_models(nodes@) =~= listing_plan(listed));
    nodes
}

/// Gives the listing to the first directory that waits. Where none waits the
/// plan stays as it is and the listing comes back.
fn expand_node(node: PlanNode, entries: Vec<DirEntry>) -> (r: (PlanNode, Option<Vec<DirEntry>>))
    ensures
        plan_model(r.0) == expand(plan_model(node), entries_view(entries@)),
        r.1 is Some <==> next_pending(plan_model(node)) is None,
        r.1 matches Some(left) ==> left == entries,
    decreases node,
{
    match node {
        PlanNode::File { name, path } => (PlanNode::File { name, path }, Some(entries)),
        PlanNode::Pending { name, path } => {
            let children = plan_of_entries(entries);
            proof {
                lemma_listed_model(name, path, children);
            }
            (PlanNode::Listed { name, path, children }, None)
        },
        PlanNode::Listed { name, path, children } => {
            let ghost initial = children@;
            let ghost models = plan_models(initial);
            let ghost listed = entries_view(entries@);
            proof {
                lemma_listed_model(name, path, children);
                assert forall|j: int| 0 <= j < initial.len() implies decreases_to!(node => #[trigger] initial[j]) by {
                    assert(decreases_to!(children => children@[j]));
                }
            }
            let mut children = children;
            let mut remaining = entries;
            let mut i: usize = 0;
            while i < children.len()
                invariant
                    i <= children.len(),
                    children.len() == initial.len(),
                    plan_model(node) == (PlanModel::Listed {
                        name: name@,
                        path: path@,
                        children: models,
                    }),
                    remaining == entries,
                    listed == entries_view(entries@),
                    models == plan_models(initial),
                    plan_models(children@) == models,
                    forall|j: int| i <= j < children.len() ==> children@[j] == initial[j],
                    forall|j: int|
                        0 <= j < initial.len() ==> decreases_to!(node => #[trigger] initial[j]),
                    forall|j: int| 0 <= j < i ==> next_pending(#[trigger] models[j]) is None,
                    expand_from(models, 0, listed) == expand_from(models, i as int, listed),
                    next_pending_from(models, 0) == next_pending_from(models, i as int),
                decreases children.len() - i,
            {
                let mut slot = PlanNode::File { name: String::new(), path: String::new() };
                std::mem::swap(&mut children[i], &mut slot);
                let (expanded, left) = expand_node(slot, remaining);
                children[i] = expanded;
                match left {
                    None => {
                        proof {
                            lemma_listed_model(name, path, children);
                            assert(plan_models(children@) =~= models.update(
                                i as int,
                                expand(models[i as int], listed),
                            ));
                        }
                        return (PlanNode::Listed { name, path, children }, None);
                    },
                    Some(back) => {
                        proof {
                            lemma_expand_none(models[i as int], listed);
                            assert(plan_models(children@) =~= models);
                        }
                        remaining = back;
                    },
                }
                i += 1;
            }
            proof {
                lemma_listed_model(name, path, children);
            }
            (PlanNode::Listed { name, path, children }, Some(remaining))
        },
    }
}

/// The finished tree of a plan.
fn plan_to_tree(node: &PlanNode) -> (r: FileNode)
    ensures
        r@ == tree_of(plan_model(*node)),
    decreases node,
{
    match node {
        PlanNode::File { name, path } => FileNode {
            name: name.clone(),
            path: path.clone(),
            children: None,
        },
        PlanNode::Pending { name, path } => {
            let children: Vec<FileNode> = Vec::new();
            let name = name.clone();
            let path = path.clone();
            proof {
                lemma_directory_view(name, path, children);
                assert(nodes_view(children@) =~= Seq::empty());
            }
            FileNode { name, path, children: Some(children) }
        },
        PlanNode::Listed { name, path, children } => {
            proof {
                lemma_listed_model(*name, *path, *children);
                assert forall|j: int| 0 <= j < children@.len() implies decreases_to!(*node => #[trigger] children@[j]) by {
                    assert(decreases_to!(*children => children@[j]));
                }
            }
            let ghost models = plan_models(children@);
            let mut trees: Vec<FileNode> = Vec::new();
            let mut i: usize = 0;
            while i < children.len()
                invariant
                    i <= children.len(),
                    trees.len() == i,
                    models == plan_models(children@),
                    forall|j: int|
                        0 <= j < children@.len() ==> decreases_to!(*node => #[trigger] children@[j]),
                    forall|j: int| 0 <= j < i ==> (#[trigger] trees@[j])@ == tree_of(models[j]),
                decreases children.len() - i,
            {
                trees.push(plan_to_tree(&children[i]));
                i += 1;
            }
            let name = name.clone();
            let path = path.clone();
            proof {
                lemma_directory_view(name, path, trees);
                let whole = PlanModel::Listed { name: name@, path: path@, children: models };
                assert(tree_of(whole).children is Some);
                assert(tree_of(whole).children->0 =~= nodes_view(trees@));
            }
            FileNode { name, path, children: Some(trees) }
        },
    }
}

/// A walk over a folder: the tree as far as it is known.
pub struct TreeWalk {
    root: PlanNode,
}

impl View for TreeWalk {
    type V = PlanModel;

    closed spec fn view(&self) -> PlanModel {
        plan_model(self.root)
    }
}

impl TreeWalk {
    /// The walk that starts at `root`. A root that is a directory waits for
    /// its listing; a root that is a file is a finished tree.
    pub fn begin(root: DirEntry) -> (walk: TreeWalk)
        ensures
            walk@ == entry_plan(root@),
    {
        let node = if root.is_dir {
            PlanNode::Pending { name: root.name, path: root.path }
        } else {
            PlanNode::File { name: root.name, path: root.path }
        };
        TreeWalk { root: node }
    }

    /// The path of the directory to list next, or nothing when the tree is
    /// finished.
    pub fn next_directory(&self) -> (r: Option<String>)
        ensures
            optional_text(r) == next_pending(self@),
    {
        first_pending(&self.root)
    }

    /// Takes the listing of the directory that `next_directory` named: its
    /// entries become its children, in their order. Where no directory waits
    /// the listing is dropped. Each call walks the tree as far as that
    /// directory.
    pub fn listed(&mut self, entries: Vec<DirEntry>)
        ensures
            final(self)@ == expand(old(self)@, entries_view(entries@)),
    {
        let mut slot = PlanNode::File { name: String::new(), path: String::new() };
        std::mem::swap(&mut self.root, &mut slot);
        let (expanded, _) = expand_node(slot, entries);
        self.root = expanded;
    }

    /// The finished tree, once no directory waits.
    pub fn finish(&self) -> (r: Option<FileNode>)
        ensures
            match r {
                Some(tree) => next_pending(self@) is None && tree@ == tree_of(self@),
                None => next_pending(self@) is Some,
            },
    {
        match first_pending(&self.root) {
            Some(_) => None,
            None => Some(plan_to_tree(&self.root)),
        }
    }
}

/// A folder that was opened: where it is, and what it holds.
#[derive(Debug, PartialEq, Eq)]
pub struct OpenedFolder {
    pub root_path: String,
    pub tree: FileNode,
}

/// The reply for a folder whose tree is finished.
pub fn opened_folder(tree: FileNode) -> (r: OpenedFolder)
    ensures
        r.root_path@ == tree.path@,
        r.tree == tree,
{
    OpenedFolder { root_path: tree.path.clone(), tree }
}

/// Starts the walk that builds the tree below `root`.
pub fn list_directory_tree(root: DirEntry) -> (walk: TreeWalk)
    ensures
        walk@ == entry_plan(root@),
{
    TreeWalk::begin(root)
}

/// What the folder picker reports when the user dismissed it.
pub open spec fn no_folder_failure(error: CommandError) -> bool {
    &&& error.kind == ErrorKind::UserCancelled
    &&& error.message@ == "No folder selected"@
}

/// Starts the walk over the folder that the user picked. With no folder
/// picked it fails, and nothing is to be listed.
pub fn open_folder(picked: Option<DirEntry>) -> (r: Result<TreeWalk, CommandError>)
    ensures
        match (picked, r) {
            (None, Err(error)) => no_folder_failure(error),
            (Some(root), Ok(walk)) => walk@ == entry_plan(root@),
            _ => false,
        },
{
    match picked {
        None => Err(CommandError::new(ErrorKind::UserCancelled, "No folder selected")),
        Some(root) => Ok(TreeWalk::begin(root)),
    }
}

/// What a walk reports when the host could not list a directory.
pub fn read_failure(detail: &str) -> (error: CommandError)
    ensures
        error.kind == ErrorKind::Io,
        error.message@ == labelled("Failed to read directory"@, detail@),
{
    CommandError::with_detail(ErrorKind::Io, "Failed to read directory", detail)
}

/// In a finished tree a file has no children field and a directory has one.
pub proof fn law_only_directories_have_children(plan: PlanModel)
    ensures
        tree_of(plan).children is None <==> plan is File,
{
}

/// The number of directories that wait for their listing.
pub open spec fn waiting(plan: PlanModel) -> nat
    decreases plan, 0nat,
{
    match plan {
        PlanModel::File { .. } => 0,
        PlanModel::Pending { .. } => 1,
        PlanModel::Listed { children, .. } => waiting_from(children, 0),
    }
}

/// The number of waiting directories among the children from `start` on.
pub open spec fn waiting_from(children: Seq<PlanModel>, start: int) -> nat
    decreases children, children.len() - start,
{
    if 0 <= start < children.len() {
        waiting(children[start]) + waiting_from(children, start + 1)
    } else {
        0
    }
}

/// The number of directories among the first `count` entries of a listing.
pub open spec fn directories(entries: Seq<DirEntryModel>, count: int) -> nat
    decreases count,
{
    if 0 < count <= entries.len() {
        directories(entries, count - 1) + if entries[count - 1].is_dir {
            1nat
        } else {
            0nat
        }
    } else {
        0
    }
}

/// A directory is named for listing exactly while some directory waits.
pub proof fn law_next_while_waiting(plan: PlanModel)
    ensures
        next_pending(plan) is Some <==> waiting(plan) > 0,
    decreases plan, 0nat,
{
    match plan {
        PlanModel::Listed { name, path, children } => {
            lemma_next_while_waiting_from(children, 0);
        },
        _ => {},
    }
}

/// Among children, a directory is named exactly while some directory waits.
pub proof fn lemma_next_while_waiting_from(children: Seq<PlanModel>, start: int)
    requires
        0 <= start <= children.len(),
    ensures
        next_pending_from(children, start) is Some <==> waiting_from(children, start) > 0,
    decreases children, children.len() - start,
{
    if start < children.len() {
        law_next_while_waiting(children[start]);
        lemma_next_while_waiting_from(children, start + 1);
    }
}

/// The freshly listed children hold as many waiting directories as the
/// listing holds directories.
proof fn lemma_waiting_of_listing(entries: Seq<DirEntryModel>, start: int)
    requires
        0 <= start <= entries.len(),
    ensures
        waiting_from(listing_plan(entries), start) + directories(entries, start) == directories(
            entries,
            entries.len() as int,
        ),
    decreases entries.len() - start,
{
    assert(listing_plan(entries).len() == entries.len());
    if start < entries.len() {
        lemma_waiting_of_listing(entries, start + 1);
        assert(listing_plan(entries)[start] == entry_plan(entries[start]));
        assert(waiting_from(listing_plan(entries), start) == waiting(entry_plan(entries[start]))
            + waiting_from(listing_plan(entries), start + 1));
        assert(directories(entries, start + 1) == directories(entries, start) + if entries[start].is_dir {
            1nat
        } else {
            0nat
        });
    }
}

/// Replacing one child changes the count by the change in that child.
proof fn lemma_waiting_update(children: Seq<PlanModel>, start: int, index: int, child: PlanModel)
    requires
        0 <= start <= index < children.len(),
    ensures
        waiting_from(children.update(index, child), start) + waiting(children[index])
            == waiting_from(children, start) + waiting(child),
    decreases children.len() - start,
{
    let updated = children.update(index, child);
    if start < index {
        lemma_waiting_update(children, start + 1, index, child);
    } else {
        lemma_waiting_same(children, updated, start + 1);
    }
}

/// Children that agree from `start` on hold the same number of waiting
/// directories from there on.
proof fn lemma_waiting_same(first: Seq<PlanModel>, second: Seq<PlanModel>, start: int)
    requires
        first.len() == second.len(),
        0 <= start <= first.len(),
        forall|j: int| start <= j < first.len() ==> first[j] == second[j],
    ensures
        waiting_from(first, start) == waiting_from(second, start),
    decreases first.len() - start,
{
    if start < first.len() {
        lemma_waiting_same(first, second, start + 1);
    }
}

/// Each listing settles one waiting directory and adds the directories it
/// holds: a walk over a finite tree ends after one listing per directory.
pub proof fn law_listing_settles_one(plan: PlanModel, entries: Seq<DirEntryModel>)
    requires
        waiting(plan) > 0,
    ensures
        waiting(expand(plan, entries)) + 1 == waiting(plan) + directories(
            entries,
            entries.len() as int,
        ),
    decreases plan, 0nat,
{
    match plan {
        PlanModel::Pending { name, path } => {
            lemma_waiting_of_listing(entries, 0);
        },
        PlanModel::Listed { name, path, children } => {
            lemma_listing_settles_one_from(children, 0, entries);
        },
        _ => {},
    }
}

/// Among children, each listing settles one waiting directory and adds the
/// directories it holds.
proof fn lemma_listing_settles_one_from(
    children: Seq<PlanModel>,
    start: int,
    entries: Seq<DirEntryModel>,
)
    requires
        0 <= start <= children.len(),
        waiting_from(children, start) > 0,
    ensures
        waiting_from(expand_from(children, start, entries), start) + 1 == waiting_from(
            children,
            start,
        ) + directories(entries, entries.len() as int),
    decreases children, children.len() - start,
{
    if start < children.len() {
        law_next_while_waiting(children[start]);
        if next_pending(children[start]) is Some {
            law_listing_settles_one(children[start], entries);
            lemma_waiting_update(children, start, start, expand(children[start], entries));
        } else {
            lemma_listing_settles_one_from(children, start + 1, entries);
            lemma_expand_from_keeps(children, start + 1, entries, start);
        }
    }
}

/// Listing a directory among the children from `start` on leaves the
/// children before `start` as they are, and the number of children.
proof fn lemma_expand_from_keeps(
    children: Seq<PlanModel>,
    start: int,
    entries: Seq<DirEntryModel>,
    index: int,
)
    requires
        0 <= index < start <= children.len(),
    ensures
        expand_from(children, start, entries).len() == children.len(),
        expand_from(children, start, entries)[index] == children[index],
    decreases children.len() - start,
{
    if start < children.len() {
        if next_pending(children[start]) is None {
            lemma_expand_from_keeps(children, start + 1, entries, index);
        }
    }
}

} // verus!
