use crate::object::{
    nodes_view, GitNodeType, GitObject, GitTreeNode, ObjectView, TreeEntryView, BLOB_MODE,
    TREE_MODE,
};
use crate::order::is_sorted_arrangement;
use vstd::prelude::*;

verus! {

/// A directory entry as a snapshot sees it: a file with its content, or a
/// subdirectory with its entries.
pub enum DirModel {
    File { name: Seq<char>, content: Seq<u8> },
    Dir { name: Seq<char>, entries: Seq<DirModel> },
}

impl DirModel {
    /// The entry's name within its directory.
    pub open spec fn name(self) -> Seq<char> {
        match self {
            DirModel::File { name, .. } => name,
            DirModel::Dir { name, .. } => name,
        }
    }
}

/// Within every directory of `n`, entries that share a name are the same
/// entry (as directory listings guarantee).
pub open spec fn well_named(n: DirModel) -> bool
    decreases n,
{
    match n {
        DirModel::File { .. } => true,
        DirModel::Dir { entries, .. } => {
            &&& forall|j: int, k: int|
                0 <= j < entries.len() && 0 <= k < entries.len() && (#[trigger] entries[j]).name()
                    == (#[trigger] entries[k]).name() ==> entries[j] == entries[k]
            &&& forall|j: int| 0 <= j < entries.len() ==> well_named(#[trigger] entries[j])
        },
    }
}

/// `r` is a record that one run of the tree builder can produce for `n`,
/// step by step as `blob_entry` and `tree_entry` state it: a file becomes a
/// blob record; each entry of a directory becomes a record in turn, the
/// directory listing handing them over in any order (`listed`), and the
/// directory's record points at a tree holding them in canonical order.
pub open spec fn built_record(n: DirModel, r: TreeEntryView) -> bool
    decreases n,
{
    match n {
        DirModel::File { name, content } => r == (TreeEntryView {
            mode: BLOB_MODE,
            node_type: GitNodeType::Blob,
            hash: ObjectView::Blob(content).hash(),
            filename: name,
        }),
        DirModel::Dir { name, entries } => exists|
            per_entry: Seq<TreeEntryView>,
            listed: Seq<TreeEntryView>,
            es: Seq<TreeEntryView>,
        |
            #![trigger per_entry.to_multiset(), listed.to_multiset(), es.to_multiset()]
            {
                &&& per_entry.len() == entries.len()
                &&& forall|j: int|
                    0 <= j < entries.len() ==> built_record(
                        #[trigger] entries[j],
                        per_entry[j],
                    )
                &&& listed.to_multiset() == per_entry.to_multiset()
                &&& is_sorted_arrangement(es, listed)
                &&& r == (TreeEntryView {
                    mode: TREE_MODE,
                    node_type: GitNodeType::Tree,
                    hash: ObjectView::Tree(es).hash(),
                    filename: name,
                })
            },
    }
}

/// Whether a directory entry named `name` is the store's own control
/// directory, which snapshots of the working directory leave out.
pub fn is_control_dir(name: &str) -> (r: bool)
    ensures
        r == (name@ == ".git"@),
{
    String::from_str(name) == String::from_str(".git")
}

/// A regular file named `name` holding `content`: the blob to store for it,
/// and the record that the enclosing tree keeps of it.
pub fn blob_entry(name: String, content: Vec<u8>) -> (r: (GitTreeNode, GitObject))
    ensures
        r.1@ == ObjectView::Blob(content@),
        r.0@ == (TreeEntryView {
            mode: BLOB_MODE,
            node_type: GitNodeType::Blob,
            hash: r.1@.hash(),
            filename: name@,
        }),
{
    let blob = GitObject::Blob(content);
    let hash = blob.to_hash();
    let node = GitTreeNode { mode: BLOB_MODE, node_type: GitNodeType::Blob, hash, filename: name };
    (node, blob)
}

/// A subdirectory named `name` whose entries became the records `children`:
/// the tree to store for it, in canonical order, and the record that the
/// enclosing tree keeps of it.
pub fn tree_entry(name: String, children: Vec<GitTreeNode>) -> (r: (GitTreeNode, GitObject))
    ensures
        r.1@ matches ObjectView::Tree(es) && is_sorted_arrangement(es, nodes_view(children@)),
        r.0@ == (TreeEntryView {
            mode: TREE_MODE,
            node_type: GitNodeType::Tree,
            hash: r.1@.hash(),
            filename: name@,
        }),
{
    let tree = GitObject::new_tree(children);
    let hash = tree.to_hash();
    let node = GitTreeNode { mode: TREE_MODE, node_type: GitNodeType::Tree, hash, filename: name };
    (node, tree)
}

} // verus!
