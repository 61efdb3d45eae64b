//! Where new directories go, and the tree of registered directories.

use vstd::prelude::*;
use crate::error::{Error, BAD_REQUEST};
use crate::paths::{file_name, file_name_of, join_path, joined};
use crate::query::directory::Directory;
use crate::text::owned;

verus! {

/// The root directory registered for `path`: no parent, the given name or
/// else the last component of the path, and the path itself. A path without a
/// last component (such as `/` or one ending in `..`) is refused with `400`
/// ("Invalid Path"), whether or not a name is given.
pub fn plan_root_directory(path: String, name: Option<String>) -> (r: Result<Directory, Error>)
    ensures
        match file_name_of(path@) {
            None => r matches Err(Error::StatusCode(code, m)) && code == BAD_REQUEST && m@
                == "Invalid Path"@,
            Some(last) => r matches Ok(d) && d.id == 0 && d.parent_id is None && d.path@ == path@
                && d.name@ == (match name {
                Some(n) => n@,
                None => last,
            }),
        },
{
    let last = match file_name(path.as_str()) {
        Some(l) => l,
        None => {
            return Err(Error::StatusCode(BAD_REQUEST, owned("Invalid Path")));
        },
    };
    let name = match name {
        Some(n) => n,
        None => last,
    };
    Ok(Directory::new(None, name, path))
}

/// A new directory named `name` inside `parent`: its parent is `parent`, and
/// its path is `name` joined to the parent's path.
pub fn child_directory(parent: &Directory, name: String) -> (d: Directory)
    ensures
        d.id == 0,
        d.parent_id == Some(parent.id),
        d.name == name,
        d.path@ == joined(parent.path@, name@),
{
    let path = join_path(parent.path.as_str(), name.as_str());
    Directory::new(Some(parent.id), name, path)
}

/// A directory with the directories inside it, each with its own.
#[derive(Debug, PartialEq, Eq)]
pub struct DirTree {
    pub dir: Directory,
    pub children: Vec<DirTree>,
}

/// The directories of `all` whose parent is `id`, in their order in `all`.
pub open spec fn children_of(all: Seq<Directory>, id: i64) -> Seq<Directory>
    decreases all.len(),
{
    if all.len() == 0 {
        Seq::<Directory>::empty()
    } else {
        let rest = children_of(all.drop_last(), id);
        if all.last().parent_id == Some(id) {
            rest.push(all.last())
        } else {
            rest
        }
    }
}

/// The directories of `all` without a parent, in their order in `all`.
pub open spec fn roots_of(all: Seq<Directory>) -> Seq<Directory>
    decreases all.len(),
{
    if all.len() == 0 {
        Seq::<Directory>::empty()
    } else {
        let rest = roots_of(all.drop_last());
        if all.last().parent_id is None {
            rest.push(all.last())
        } else {
            rest
        }
    }
}

/// Whether `t` is the tree of `t.dir` in `all`, down to `depth` levels: its
/// children are the directories of `all` whose parent is `t.dir`, in order,
/// each with its own tree one level shallower; at depth `0` it has none.
pub open spec fn is_tree_of(t: DirTree, all: Seq<Directory>, depth: nat) -> bool
    decreases depth,
{
    let kids = children_of(all, t.dir.id);
    if depth == 0 {
        t.children@.len() == 0
    } else {
        &&& t.children@.len() == kids.len()
        &&& forall|i: int|
            0 <= i < kids.len() ==> (#[trigger] t.children@[i]).dir == kids[i] && is_tree_of(
                t.children@[i],
                all,
                (depth - 1) as nat,
            )
    }
}

/// Whether no directory of `all` is left out of `t` by its depth limit: at
/// depth `0`, `t.dir` has no children in `all`, and every child's tree is
/// complete one level shallower.
pub open spec fn is_complete(t: DirTree, all: Seq<Directory>, depth: nat) -> bool
    decreases depth,
{
    if depth == 0 {
        children_of(all, t.dir.id).len() == 0
    } else {
        forall|i: int|
            0 <= i < t.children@.len() ==> is_complete(
                #[trigger] t.children@[i],
                all,
                (depth - 1) as nat,
            )
    }
}

/// Whether no two directories of `all` share an id (ids are the table's
/// primary key).
pub open spec fn unique_ids(all: Seq<Directory>) -> bool {
    forall|i: int, j: int| 0 <= i < all.len() && 0 <= j < all.len() && #[trigger] all[i].id == #[trigger] all[j].id ==> i == j
}

/// Whether `chain` runs down from a root, each directory a child of the one
/// before it, all of them directories of `all`.
pub open spec fn is_root_chain(chain: Seq<Directory>, all: Seq<Directory>) -> bool {
    &&& chain.len() >= 1
    &&& chain[0].parent_id is None
    &&& forall|i: int| 0 <= i < chain.len() - 1 ==> #[trigger] chain[i + 1].parent_id == Some(chain[i].id)
    &&& forall|i: int| 0 <= i < chain.len() ==> all.contains(#[trigger] chain[i])
}

/// The children of a directory are directories of `all` whose parent it is.
proof fn lemma_children_of(all: Seq<Directory>, id: i64)
    ensures
        forall|k: int| 0 <= k < children_of(all, id).len() ==> all.contains(#[trigger] children_of(all, id)[k])
            && children_of(all, id)[k].parent_id == Some(id),
    decreases all.len(),
{
    if all.len() > 0 {
        let rest = children_of(all.drop_last(), id);
        lemma_children_of(all.drop_last(), id);
        assert forall|k: int| 0 <= k < children_of(all, id).len() implies all.contains(#[trigger] children_of(all, id)[k])
            && children_of(all, id)[k].parent_id == Some(id) by {
            if k < rest.len() {
                let x = rest[k];
                assert(all.drop_last().contains(x));
                let j = choose|j: int| 0 <= j < all.drop_last().len() && all.drop_last()[j] == x;
                assert(all[j] == x);
            } else {
                assert(all[all.len() - 1] == all.last());
            }
        }
    }
}

/// The directories on a chain down from a root are all different, so there
/// are no more of them than there are directories.
proof fn lemma_root_chain_bounded(chain: Seq<Directory>, all: Seq<Directory>)
    requires
        unique_ids(all),
        is_root_chain(chain, all),
    ensures
        chain.len() <= all.len(),
{
    assert forall|i: int, j: int| 0 <= i < chain.len() && 0 <= j < chain.len() && i != j implies chain[i] != chain[j] by {
        if chain[i] == chain[j] {
            lemma_chain_no_repeat(chain, all, if i < j { i } else { j }, if i < j { j } else { i });
        }
    }
    chain.unique_seq_to_set();
    assert(chain.to_set().subset_of(all.to_set()));
    vstd::seq_lib::seq_to_set_is_finite(all);
    vstd::set_lib::lemma_len_subset(chain.to_set(), all.to_set());
    all.lemma_cardinality_of_set();
}

/// On a chain down from a root, a directory never comes back: the same
/// directory at two places would have the same ancestors, and the one
/// nearer the root would need an ancestor before the root.
proof fn lemma_chain_no_repeat(chain: Seq<Directory>, all: Seq<Directory>, i: int, j: int)
    requires
        unique_ids(all),
        is_root_chain(chain, all),
        0 <= i < j < chain.len(),
    ensures
        chain[i] != chain[j],
    decreases i,
{
    if chain[i] == chain[j] {
        let pj = j - 1;
        assert(chain[pj + 1].parent_id == Some(chain[pj].id));
        if i == 0 {
        } else {
            let pi = i - 1;
            assert(chain[pi + 1].parent_id == Some(chain[pi].id));
            assert(all.contains(chain[i - 1]));
            assert(all.contains(chain[j - 1]));
            let a = choose|a: int| 0 <= a < all.len() && all[a] == chain[i - 1];
            let b = choose|b: int| 0 <= b < all.len() && all[b] == chain[j - 1];
            assert(all[a].id == all[b].id);
            lemma_chain_no_repeat(chain, all, i - 1, j - 1);
        }
    }
}

/// A tree reached down a chain from a root, with as much depth left as the
/// chain leaves room for, is complete.
proof fn lemma_tree_complete(t: DirTree, all: Seq<Directory>, depth: nat, chain: Seq<Directory>)
    requires
        unique_ids(all),
        is_tree_of(t, all, depth),
        is_root_chain(chain, all),
        chain.last() == t.dir,
        chain.len() + depth == all.len() + 1,
    ensures
        is_complete(t, all, depth),
    decreases depth,
{
    lemma_root_chain_bounded(chain, all);
    if depth > 0 {
        let kids = children_of(all, t.dir.id);
        lemma_children_of(all, t.dir.id);
        assert forall|i: int| 0 <= i < t.children@.len() implies is_complete(
            #[trigger] t.children@[i],
            all,
            (depth - 1) as nat,
        ) by {
            let c = t.children@[i];
            let next = chain.push(c.dir);
            assert(c.dir == kids[i]);
            assert(is_root_chain(next, all)) by {
                assert forall|k: int| 0 <= k < next.len() - 1 implies #[trigger] next[k + 1].parent_id == Some(next[k].id) by {
                    if k < chain.len() - 1 {
                        assert(next[k + 1] == chain[k + 1]);
                    }
                }
                assert forall|k: int| 0 <= k < next.len() implies all.contains(#[trigger] next[k]) by {
                    if k < chain.len() {
                        assert(next[k] == chain[k]);
                    }
                }
            }
            lemma_tree_complete(c, all, (depth - 1) as nat, next);
        }
    }
}

/// The tree of every root reaches all the directories below it: when ids
/// are unique, the depth limit of `all.len()` levels leaves no directory out.
pub proof fn lemma_forest_complete(all: Seq<Directory>, forest: Seq<DirTree>)
    requires
        unique_ids(all),
        forest.len() == roots_of(all).len(),
        forall|i: int|
            0 <= i < forest.len() ==> (#[trigger] forest[i]).dir == roots_of(all)[i] && is_tree_of(
                forest[i],
                all,
                all.len(),
            ),
    ensures
        forall|i: int| 0 <= i < forest.len() ==> is_complete(#[trigger] forest[i], all, all.len()),
{
    lemma_roots_of(all);
    assert forall|i: int| 0 <= i < forest.len() implies is_complete(#[trigger] forest[i], all, all.len()) by {
        let chain = seq![forest[i].dir];
        assert(is_root_chain(chain, all));
        lemma_tree_complete(forest[i], all, all.len(), chain);
    }
}

/// The roots are directories of `all` without a parent.
proof fn lemma_roots_of(all: Seq<Directory>)
    ensures
        forall|k: int| 0 <= k < roots_of(all).len() ==> all.contains(#[trigger] roots_of(all)[k])
            && roots_of(all)[k].parent_id is None,
    decreases all.len(),
{
    if all.len() > 0 {
        let rest = roots_of(all.drop_last());
        lemma_roots_of(all.drop_last());
        assert forall|k: int| 0 <= k < roots_of(all).len() implies all.contains(#[trigger] roots_of(all)[k])
            && roots_of(all)[k].parent_id is None by {
            if k < rest.len() {
                let x = rest[k];
                assert(all.drop_last().contains(x));
                let j = choose|j: int| 0 <= j < all.drop_last().len() && all.drop_last()[j] == x;
                assert(all[j] == x);
            } else {
                assert(all[all.len() - 1] == all.last());
            }
        }
    }
}

/// The node reached from `t` by following `path`, each step the index of a
/// child; `None` when a step names no child.
pub open spec fn node_at(t: DirTree, path: Seq<int>) -> Option<DirTree>
    decreases path.len(),
{
    if path.len() == 0 {
        Some(t)
    } else if 0 <= path[0] < t.children@.len() {
        node_at(t.children@[path[0]], path.drop_first())
    } else {
        None
    }
}

/// A node `path.len()` steps below the top of a tree built to `depth`
/// levels is itself built to the levels that are left.
proof fn lemma_node_at_tree(t: DirTree, all: Seq<Directory>, depth: nat, path: Seq<int>)
    requires
        is_tree_of(t, all, depth),
        path.len() <= depth,
        node_at(t, path) is Some,
    ensures
        is_tree_of(node_at(t, path)->0, all, (depth - path.len()) as nat),
    decreases path.len(),
{
    if path.len() > 0 {
        let c = t.children@[path[0]];
        assert(is_tree_of(c, all, (depth - 1) as nat));
        lemma_node_at_tree(c, all, (depth - 1) as nat, path.drop_first());
    }
}

/// The children of `id` are the directories of `all` that name `id` as
/// their parent, kept in their order.
proof fn lemma_children_filter(all: Seq<Directory>, id: i64)
    ensures
        children_of(all, id) == all.filter(|d: Directory| d.parent_id == Some(id)),
    decreases all.len(),
{
    reveal(Seq::filter);
    if all.len() > 0 {
        lemma_children_filter(all.drop_last(), id);
    }
}

/// The roots are the directories of `all` without a parent, kept in their
/// order.
proof fn lemma_roots_filter(all: Seq<Directory>)
    ensures
        roots_of(all) == all.filter(|d: Directory| d.parent_id is None),
    decreases all.len(),
{
    reveal(Seq::filter);
    if all.len() > 0 {
        lemma_roots_filter(all.drop_last());
    }
}

/// The forest has one tree for each directory of `all` without a parent,
/// in their order in `all`, and no other.
pub proof fn law_forest_roots(all: &Vec<Directory>, forest: Vec<DirTree>)
    requires
        call_ensures(dir_forest, (all,), forest),
    ensures
        forest@.len() == all@.filter(|d: Directory| d.parent_id is None).len(),
        forall|r: int|
            0 <= r < forest@.len() ==> (#[trigger] forest@[r]).dir == all@.filter(
                |d: Directory| d.parent_id is None,
            )[r],
{
    lemma_roots_filter(all@);
}

/// Every node of a registered root's tree, above the depth limit, holds one
/// child for each directory of `all` that names it as parent, in their order
/// in `all`: none is left out and none is added.
pub proof fn law_tree_children(all: &Vec<Directory>, forest: Vec<DirTree>, r: int, path: Seq<int>)
    requires
        call_ensures(dir_forest, (all,), forest),
        0 <= r < forest@.len(),
        path.len() < all@.len(),
        node_at(forest@[r], path) is Some,
    ensures
        ({
            let n = node_at(forest@[r], path)->0;
            let kids = all@.filter(|d: Directory| d.parent_id == Some(n.dir.id));
            &&& n.children@.len() == kids.len()
            &&& forall|k: int| 0 <= k < n.children@.len() ==> (#[trigger] n.children@[k]).dir == kids[k]
        }),
{
    lemma_node_at_tree(forest@[r], all@, all@.len(), path);
    lemma_children_filter(all@, node_at(forest@[r], path)->0.dir.id);
}

/// A directory of `all` whose parent is `id` is one of the children of `id`.
proof fn lemma_child_listed(all: Seq<Directory>, id: i64, d: Directory) -> (k: int)
    requires
        all.contains(d),
        d.parent_id == Some(id),
    ensures
        0 <= k < children_of(all, id).len(),
        children_of(all, id)[k] == d,
    decreases all.len(),
{
    if all.last() == d {
        children_of(all.drop_last(), id).len() as int
    } else {
        let j = choose|j: int| 0 <= j < all.len() && all[j] == d;
        assert(all.drop_last()[j] == d);
        lemma_child_listed(all.drop_last(), id, d)
    }
}

/// A directory of `all` without a parent is one of the roots.
proof fn lemma_root_listed(all: Seq<Directory>, d: Directory) -> (k: int)
    requires
        all.contains(d),
        d.parent_id is None,
    ensures
        0 <= k < roots_of(all).len(),
        roots_of(all)[k] == d,
    decreases all.len(),
{
    if all.last() == d {
        roots_of(all.drop_last()).len() as int
    } else {
        let j = choose|j: int| 0 <= j < all.len() && all[j] == d;
        assert(all.drop_last()[j] == d);
        lemma_root_listed(all.drop_last(), d)
    }
}

/// Following a chain of directories down from the top of a tree, each a
/// child of the one before, reaches a node of the tree for the last of them,
/// as long as the chain fits in the tree's depth.
proof fn lemma_chain_path(t: DirTree, all: Seq<Directory>, depth: nat, chain: Seq<Directory>) -> (path: Seq<int>)
    requires
        is_tree_of(t, all, depth),
        chain.len() >= 1,
        chain.len() <= depth + 1,
        chain[0] == t.dir,
        forall|i: int| 0 <= i < chain.len() - 1 ==> #[trigger] chain[i + 1].parent_id == Some(chain[i].id),
        forall|i: int| 0 <= i < chain.len() ==> all.contains(#[trigger] chain[i]),
    ensures
        path.len() == chain.len() - 1,
        node_at(t, path) is Some,
        node_at(t, path)->0.dir == chain.last(),
    decreases chain.len(),
{
    if chain.len() == 1 {
        Seq::<int>::empty()
    } else {
        assert(chain[0int + 1].parent_id == Some(chain[0].id));
        assert(all.contains(chain[1]));
        let k = lemma_child_listed(all, t.dir.id, chain[1]);
        let c = t.children@[k];
        let rest = chain.drop_first();
        assert forall|i: int| 0 <= i < rest.len() - 1 implies #[trigger] rest[i + 1].parent_id == Some(rest[i].id) by {
            assert(chain[(i + 1) + 1].parent_id == Some(chain[i + 1].id));
        }
        assert forall|i: int| 0 <= i < rest.len() implies all.contains(#[trigger] rest[i]) by {
            assert(all.contains(chain[i + 1]));
        }
        let p = lemma_chain_path(c, all, (depth - 1) as nat, rest);
        let path = seq![k] + p;
        assert(path.drop_first() =~= p);
        path
    }
}

/// Every directory that lies below a registered root, through a chain of
/// parents, appears in that root's tree: some node of the forest holds it.
/// (Ids are unique, as the table's primary key makes them.)
pub proof fn law_tree_reaches(all: &Vec<Directory>, forest: Vec<DirTree>, chain: Seq<Directory>)
    requires
        call_ensures(dir_forest, (all,), forest),
        unique_ids(all@),
        is_root_chain(chain, all@),
    ensures
        exists|r: int, path: Seq<int>|
            0 <= r < forest@.len() && #[trigger] node_at(forest@[r], path) is Some && node_at(
                forest@[r],
                path,
            )->0.dir == chain.last(),
{
    lemma_root_chain_bounded(chain, all@);
    assert(all@.contains(chain[0]));
    let r = lemma_root_listed(all@, chain[0]);
    let path = lemma_chain_path(forest@[r], all@, all@.len(), chain);
    assert(node_at(forest@[r], path) is Some);
}

/// The tree of `dir` in `all`, down to `depth` levels.
fn subtree(all: &Vec<Directory>, dir: Directory, depth: usize) -> (t: DirTree)
    ensures
        t.dir == dir,
        is_tree_of(t, all@, depth as nat),
    decreases depth,
{
    let mut children: Vec<DirTree> = Vec::new();
    if depth > 0 {
        let mut i: usize = 0;
        while i < all.len()
            invariant
                0 < depth,
                i <= all.len(),
                children@.len() == children_of(all@.take(i as int), dir.id).len(),
                forall|k: int|
                    0 <= k < children@.len() ==> (#[trigger] children@[k]).dir == children_of(
                        all@.take(i as int),
                        dir.id,
                    )[k] && is_tree_of(children@[k], all@, (depth - 1) as nat),
            decreases all.len() - i,
        {
            let ghost before = children_of(all@.take(i as int), dir.id);
            assert(all@.take(i + 1).drop_last() =~= all@.take(i as int));
            assert(all@.take(i + 1).last() == all@[i as int]);
            let is_child = match all[i].parent_id {
                Some(p) => p == dir.id,
                None => false,
            };
            if is_child {
                let t = subtree(all, all[i].duplicate(), depth - 1);
                children.push(t);
                assert(children_of(all@.take(i + 1), dir.id) == before.push(all@[i as int]));
            }
            i = i + 1;
        }
        assert(all@.take(all.len() as int) =~= all@);
    }
    DirTree { dir, children }
}

/// The trees of the registered root directories in `all` (the directories
/// without a parent, in their order in `all`), each down to `all.len()`
/// levels.
pub fn dir_forest(all: &Vec<Directory>) -> (forest: Vec<DirTree>)
    ensures
        forest@.len() == roots_of(all@).len(),
        forall|i: int|
            0 <= i < forest@.len() ==> (#[trigger] forest@[i]).dir == roots_of(all@)[i]
                && is_tree_of(forest@[i], all@, all@.len()),
{
    let mut forest: Vec<DirTree> = Vec::new();
    let mut i: usize = 0;
    while i < all.len()
        invariant
            i <= all.len(),
            forest@.len() == roots_of(all@.take(i as int)).len(),
            forall|k: int|
                0 <= k < forest@.len() ==> (#[trigger] forest@[k]).dir == roots_of(
                    all@.take(i as int),
                )[k] && is_tree_of(forest@[k], all@, all@.len()),
        decreases all.len() - i,
    {
        let ghost before = roots_of(all@.take(i as int));
        assert(all@.take(i + 1).drop_last() =~= all@.take(i as int));
        assert(all@.take(i + 1).last() == all@[i as int]);
        if all[i].parent_id.is_none() {
            let t = subtree(all, all[i].duplicate(), all.len());
            forest.push(t);
            assert(roots_of(all@.take(i + 1)) == before.push(all@[i as int]));
        }
        i = i + 1;
    }
    assert(all@.take(all.len() as int) =~= all@);
    forest
}

} // verus!
