//! A model of the filesystem that a walk mirrors, and of a walk run
//! against it.
//!
//! The source is a tree of named nodes. The destination is a map from
//! chains of names to what is there. A walk is run against the two: each
//! action it asks for is done on the model and answered as a filesystem
//! would. What such a run comes to is proved in [`crate::mirroring`].

use vstd::prelude::*;
use crate::error::ErrorView;
use crate::replicator::{initial, walk_next, TreeActionView, TreeEventView, WalkView};
use crate::rules::{EntryView, Policy};

verus! {

/// A file with its bytes, or a directory with its entries in the order in
/// which it lists them.
pub enum Node {
    File(Seq<u8>),
    Dir(Seq<Child>),
}

/// An entry of a directory: its name and what it is.
pub struct Child {
    pub name: Seq<char>,
    pub node: Node,
}

/// What a destination holds at one place.
pub enum Item {
    File(Seq<u8>),
    Dir,
}

/// A destination: what it holds at each chain of names below its root. The
/// empty chain is the root itself.
pub type Tree = Map<Seq<Seq<char>>, Item>;

/// What a destination holds where a node was mirrored.
pub open spec fn item_of(node: Node) -> Item {
    match node {
        Node::File(bytes) => Item::File(bytes),
        Node::Dir(_) => Item::Dir,
    }
}

/// An entry as a listing shows it.
pub open spec fn entry_of(child: Child) -> EntryView {
    EntryView { name: child.name, is_dir: child.node is Dir }
}

/// The listing of a directory with these entries.
pub open spec fn listing(children: Seq<Child>) -> Seq<EntryView> {
    Seq::new(children.len(), |i: int| entry_of(children[i]))
}

/// The first of `children` that is called `name`.
pub open spec fn find(children: Seq<Child>, name: Seq<char>) -> Option<Node>
    decreases children.len(),
{
    if children.len() == 0 {
        None
    } else if children[0].name == name {
        Some(children[0].node)
    } else {
        find(children.drop_first(), name)
    }
}

/// The node at `chain` below `root`.
pub open spec fn lookup(root: Node, chain: Seq<Seq<char>>) -> Option<Node>
    decreases chain.len(),
{
    if chain.len() == 0 {
        Some(root)
    } else {
        match lookup(root, chain.drop_last()) {
            Some(Node::Dir(children)) => find(children, chain.last()),
            _ => None,
        }
    }
}

/// No two of `children` have the same name.
pub open spec fn distinct_names(children: Seq<Child>) -> bool {
    forall|i: int, j: int|
        0 <= i < j < children.len() ==> (#[trigger] children[i]).name != (
        #[trigger] children[j]).name
}

/// In every directory of the tree, no two entries have the same name.
pub open spec fn well_formed(node: Node) -> bool
    decreases node,
{
    match node {
        Node::File(_) => true,
        Node::Dir(children) => distinct_names(children) && forall|i: int|
            0 <= i < children.len() ==> well_formed((#[trigger] children[i]).node),
    }
}

/// A file stands at `chain`.
pub open spec fn holds_file(dst: Tree, chain: Seq<Seq<char>>) -> bool {
    dst.contains_key(chain) && dst[chain] is File
}

/// A directory stands at `chain`.
pub open spec fn holds_dir(dst: Tree, chain: Seq<Seq<char>>) -> bool {
    dst.contains_key(chain) && dst[chain] is Dir
}

/// What a filesystem with the source `src` and the destination `dst` does
/// when asked for `action`: what it answers, and the destination after it.
///
/// Making a directory fails where a file stands, and copying a file fails
/// where a directory stands or where the source has no file at the chain.
/// Listing fails where the source has no directory at the chain.
pub open spec fn respond(src: Node, dst: Tree, action: TreeActionView) -> (TreeEventView, Tree) {
    match action {
        TreeActionView::Probe => (TreeEventView::Exists(true), dst),
        TreeActionView::MakeDir(chain) => {
            if holds_file(dst, chain) {
                (TreeEventView::Failed(Seq::empty()), dst)
            } else {
                (TreeEventView::Completed, dst.insert(chain, Item::Dir))
            }
        },
        TreeActionView::List(chain) => match lookup(src, chain) {
            Some(Node::Dir(children)) => (TreeEventView::Listed(listing(children)), dst),
            _ => (TreeEventView::Failed(Seq::empty()), dst),
        },
        TreeActionView::Copy(chain) => match lookup(src, chain) {
            Some(Node::File(bytes)) => {
                if holds_dir(dst, chain) {
                    (TreeEventView::Failed(Seq::empty()), dst)
                } else {
                    (TreeEventView::Completed, dst.insert(chain, Item::File(bytes)))
                }
            },
            _ => (TreeEventView::Failed(Seq::empty()), dst),
        },
        _ => (TreeEventView::Completed, dst),
    }
}

/// What a run of a walk against the model comes to: how the walk ended, if
/// it did, the destination it left, and everything it asked for, in order.
pub struct Outcome {
    pub result: Option<Result<(), ErrorView>>,
    pub dst: Tree,
    pub asked: Seq<TreeActionView>,
}

/// The outcome `then`, after `first` was asked before it.
pub open spec fn after_asking(first: Seq<TreeActionView>, then: Outcome) -> Outcome {
    Outcome { result: then.result, dst: then.dst, asked: first + then.asked }
}

/// The outcome of a walk that has just moved to `step.0` and asked for
/// `step.1`, run against the model for at most `fuel` further actions. The
/// walk has no result if it has not ended by then, or was given up.
pub open spec fn proceed(
    src: Node,
    step: (WalkView, TreeActionView),
    dst: Tree,
    fuel: nat,
) -> Outcome
    decreases fuel,
{
    match step.1 {
        TreeActionView::Finish(r) => Outcome { result: Some(r), dst, asked: seq![step.1] },
        TreeActionView::Halted => Outcome { result: None, dst, asked: seq![step.1] },
        action => {
            if fuel == 0 {
                Outcome { result: None, dst, asked: Seq::empty() }
            } else {
                let (event, after) = respond(src, dst, action);
                after_asking(
                    seq![action],
                    proceed(src, walk_next(step.0, event), after, (fuel - 1) as nat),
                )
            }
        },
    }
}

/// The outcome of a whole walk under `rules` from the source `src` into the
/// destination `dst`, run against the model for at most `fuel` actions.
pub open spec fn replicate(src: Node, rules: Policy, dst: Tree, fuel: nat) -> Outcome {
    proceed(src, walk_next(initial(rules), TreeEventView::Begin), dst, fuel)
}

/// The destination `dst` after the entries `children` of the directory at
/// `at` were mirrored into it, one after the other, each with all that is
/// below it: an entry that the rules leave out changes nothing, a file is
/// put at its chain, and a directory is put at its chain and its own
/// entries are mirrored below it.
pub open spec fn mirror(
    children: Seq<Child>,
    rules: Policy,
    at: Seq<Seq<char>>,
    dst: Tree,
) -> Tree
    decreases children,
{
    if children.len() == 0 {
        dst
    } else {
        let child = children[0];
        let chain = at.push(child.name);
        let after = if rules.excludes(child.name, child.node is Dir) {
            dst
        } else {
            match child.node {
                Node::File(bytes) => dst.insert(chain, Item::File(bytes)),
                Node::Dir(inner) => mirror(inner, rules, chain, dst.insert(chain, Item::Dir)),
            }
        };
        mirror(children.drop_first(), rules, at, after)
    }
}

/// Whether `children` can be mirrored into `dst` below `at` without meeting
/// a file where a directory is to be made, or a directory where a file is
/// to be put.
pub open spec fn fits(
    children: Seq<Child>,
    rules: Policy,
    at: Seq<Seq<char>>,
    dst: Tree,
) -> bool
    decreases children,
{
    if children.len() == 0 {
        true
    } else {
        let child = children[0];
        let chain = at.push(child.name);
        if rules.excludes(child.name, child.node is Dir) {
            fits(children.drop_first(), rules, at, dst)
        } else {
            match child.node {
                Node::File(bytes) => !holds_dir(dst, chain) && fits(
                    children.drop_first(),
                    rules,
                    at,
                    dst.insert(chain, Item::File(bytes)),
                ),
                Node::Dir(inner) => !holds_file(dst, chain) && fits(
                    inner,
                    rules,
                    chain,
                    dst.insert(chain, Item::Dir),
                ) && fits(
                    children.drop_first(),
                    rules,
                    at,
                    mirror(inner, rules, chain, dst.insert(chain, Item::Dir)),
                ),
            }
        }
    }
}

/// The number of actions that a walk asks for while it is inside a
/// directory with the entries `children`, leaving it included.
pub open spec fn cost(children: Seq<Child>, rules: Policy) -> nat
    decreases children,
{
    if children.len() == 0 {
        1
    } else {
        let child = children[0];
        let here: nat = if rules.excludes(child.name, child.node is Dir) {
            1
        } else {
            match child.node {
                Node::File(_) => 1,
                Node::Dir(inner) => 2 + cost(inner, rules),
            }
        };
        here + cost(children.drop_first(), rules)
    }
}

/// What a walk asks for while it is inside the directory at `at` with the
/// entries `children`, in order: an entry that the rules leave out is
/// skipped, a file is copied, a directory is made, listed and walked, and at
/// the end the directory is left.
pub open spec fn journal(children: Seq<Child>, rules: Policy, at: Seq<Seq<char>>) -> Seq<
    TreeActionView,
>
    decreases children,
{
    if children.len() == 0 {
        seq![TreeActionView::Leave(at)]
    } else {
        let child = children[0];
        let chain = at.push(child.name);
        let here = if rules.excludes(child.name, child.node is Dir) {
            seq![TreeActionView::Skip(chain)]
        } else {
            match child.node {
                Node::File(_) => seq![TreeActionView::Copy(chain)],
                Node::Dir(inner) => seq![
                    TreeActionView::MakeDir(chain),
                    TreeActionView::List(chain),
                ] + journal(inner, rules, chain),
            }
        };
        here + journal(children.drop_first(), rules, at)
    }
}

} // verus!
