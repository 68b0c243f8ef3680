//! What mirroring does: the laws of a walk run against the model.
//!
//! A walk over a well-formed source into a destination that can receive it
//! ends in success and leaves the destination with every kept entry of the
//! source laid over what it held. The laws at the end of this file state
//! what follows: what an empty destination then holds, that nothing below a
//! left-out entry is touched, and that a second walk changes nothing.

use vstd::prelude::*;
use crate::error::ErrorView;
use crate::model::{
    after_asking, cost, entry_of, find, fits, holds_file, item_of, journal, listing, lookup,
    mirror, proceed, replicate, respond, distinct_names, well_formed, Child, Item, Node, Outcome,
    Tree,
};
use crate::replicator::{
    above, initial, visit_spec, walk_next, FrameView, Stage, TreeActionView, TreeEventView,
    WalkView,
};
use crate::rules::Policy;

verus! {

/// Where no two entries have the same name, an entry is found by its name.
proof fn lemma_find_at(children: Seq<Child>, i: int)
    requires
        distinct_names(children),
        0 <= i < children.len(),
    ensures
        find(children, children[i].name) == Some(children[i].node),
    decreases children.len(),
{
    if i > 0 {
        let rest = children.drop_first();
        assert(children[0].name != children[i].name);
        assert(rest[i - 1] == children[i]);
        assert forall|a: int, b: int| 0 <= a < b < rest.len() implies (#[trigger] rest[a]).name != (
        #[trigger] rest[b]).name by {
            assert(rest[a] == children[a + 1]);
            assert(rest[b] == children[b + 1]);
        }
        lemma_find_at(rest, i - 1);
    }
}

/// A walk that stands before entry `i` of the directory at `at` deals with
/// the entries from there on, leaves the directory, and goes on above it:
/// it asks for what `journal` says, and the destination is then as `mirror`
/// says.
proof fn lemma_walk(
    src: Node,
    rules: Policy,
    outer: Seq<FrameView>,
    at: Seq<Seq<char>>,
    children: Seq<Child>,
    i: int,
    dst: Tree,
    spare: nat,
)
    requires
        lookup(src, at) == Some(Node::Dir(children)),
        well_formed(Node::Dir(children)),
        0 <= i <= children.len(),
        fits(children.skip(i), rules, at, dst),
    ensures
        proceed(
            src,
            visit_spec(
                rules,
                outer.push(FrameView { entries: listing(children), next: i as nat }),
                at,
            ),
            dst,
            cost(children.skip(i), rules) + spare,
        ) == after_asking(
            journal(children.skip(i), rules, at),
            proceed(
                src,
                visit_spec(rules, outer, above(at)),
                mirror(children.skip(i), rules, at, dst),
                spare,
            ),
        ),
    decreases cost(children.skip(i), rules),
{
    let rest = children.skip(i);
    let frame = FrameView { entries: listing(children), next: i as nat };
    let stack = outer.push(frame);
    let step = visit_spec(rules, stack, at);
    let whole = proceed(src, step, dst, cost(rest, rules) + spare);
    let tail = proceed(
        src,
        visit_spec(rules, outer, above(at)),
        mirror(rest, rules, at, dst),
        spare,
    );
    assert(stack.last() == frame);
    assert(stack.drop_last() =~= outer);
    if i == children.len() {
        assert(rest.len() == 0);
        assert(step.1 == TreeActionView::Leave(at));
        assert(walk_next(step.0, TreeEventView::Completed) == visit_spec(rules, outer, above(at)));
        assert(whole == after_asking(seq![TreeActionView::Leave(at)], tail));
    } else {
        let child = children[i];
        let later = children.skip(i + 1);
        assert(rest[0] == child);
        assert(rest.drop_first() =~= later);
        let chain = at.push(child.name);
        let next_frame = FrameView { entries: listing(children), next: (i + 1) as nat };
        let advanced = outer.push(next_frame);
        let onward = visit_spec(rules, advanced, at);
        assert(stack.update(stack.len() - 1, next_frame) =~= advanced);
        assert(frame.entries[i] == entry_of(child));
        assert(chain.drop_last() =~= at);
        assert(chain.last() == child.name);
        lemma_find_at(children, i);
        assert(lookup(src, chain) == Some(child.node));
        if rules.excludes(child.name, child.node is Dir) {
            let here = seq![TreeActionView::Skip(chain)];
            assert(step.1 == TreeActionView::Skip(chain));
            assert(walk_next(step.0, TreeEventView::Completed) == onward);
            lemma_walk(src, rules, outer, at, children, i + 1, dst, spare);
            let mid = proceed(src, onward, dst, cost(later, rules) + spare);
            assert(whole == after_asking(here, mid));
            assert(journal(rest, rules, at) == here + journal(later, rules, at));
            assert(here + (journal(later, rules, at) + tail.asked) =~= journal(rest, rules, at)
                + tail.asked);
        } else {
            match child.node {
                Node::File(bytes) => {
                    let after = dst.insert(chain, Item::File(bytes));
                    let here = seq![TreeActionView::Copy(chain)];
                    assert(step.1 == TreeActionView::Copy(chain));
                    assert(respond(src, dst, step.1) == (TreeEventView::Completed, after));
                    assert(walk_next(step.0, TreeEventView::Completed) == onward);
                    lemma_walk(src, rules, outer, at, children, i + 1, after, spare);
                    let mid = proceed(src, onward, after, cost(later, rules) + spare);
                    assert(whole == after_asking(here, mid));
                    assert(journal(rest, rules, at) == here + journal(later, rules, at));
                    assert(here + (journal(later, rules, at) + tail.asked) =~= journal(
                        rest,
                        rules,
                        at,
                    ) + tail.asked);
                },
                Node::Dir(inner) => {
                    let made = dst.insert(chain, Item::Dir);
                    let filled = mirror(inner, rules, chain, made);
                    let within = cost(later, rules) + spare;
                    let listed = WalkView {
                        rules,
                        stack: advanced,
                        path: chain,
                        stage: Stage::Listing,
                    };
                    let entered = visit_spec(
                        rules,
                        advanced.push(FrameView { entries: listing(inner), next: 0 }),
                        chain,
                    );
                    let make = seq![TreeActionView::MakeDir(chain)];
                    let list = seq![TreeActionView::List(chain)];
                    assert(step.1 == TreeActionView::MakeDir(chain));
                    assert(respond(src, dst, step.1) == (TreeEventView::Completed, made));
                    assert(walk_next(step.0, TreeEventView::Completed) == (
                        listed,
                        TreeActionView::List(chain),
                    ));
                    assert(respond(src, made, TreeActionView::List(chain)) == (
                        TreeEventView::Listed(listing(inner)),
                        made,
                    ));
                    assert(walk_next(listed, TreeEventView::Listed(listing(inner))) == entered);
                    assert(inner.skip(0) =~= inner);
                    assert(above(chain) == at);
                    assert(well_formed(child.node));
                    assert(cost(rest, rules) == 2 + cost(inner, rules) + cost(later, rules));
                    let second = proceed(
                        src,
                        (listed, TreeActionView::List(chain)),
                        made,
                        (1 + cost(inner, rules) + within) as nat,
                    );
                    let third = proceed(src, entered, made, cost(inner, rules) + within);
                    let fourth = proceed(src, onward, filled, within);
                    assert(whole == after_asking(make, second));
                    assert(second == after_asking(list, third));
                    lemma_walk(src, rules, advanced, chain, inner, 0, made, within);
                    assert(third == after_asking(journal(inner, rules, chain), fourth));
                    lemma_walk(src, rules, outer, at, children, i + 1, filled, spare);
                    assert(fourth == after_asking(journal(later, rules, at), tail));
                    assert(journal(rest, rules, at) == (seq![
                        TreeActionView::MakeDir(chain),
                        TreeActionView::List(chain),
                    ] + journal(inner, rules, chain)) + journal(later, rules, at));
                    assert(make + (list + (journal(inner, rules, chain) + (journal(
                        later,
                        rules,
                        at,
                    ) + tail.asked))) =~= journal(rest, rules, at) + tail.asked);
                },
            }
        }
    }
}

/// The number of actions of a whole walk over a source whose root has the
/// entries `children`, short of the one that ends it.
pub open spec fn walk_length(children: Seq<Child>, rules: Policy) -> nat {
    3 + cost(children, rules)
}

/// The destination `dst` after the whole tree below a root with the entries
/// `children` was mirrored into it.
pub open spec fn mirrored(children: Seq<Child>, rules: Policy, dst: Tree) -> Tree {
    mirror(children, rules, Seq::empty(), dst.insert(Seq::empty(), Item::Dir))
}

/// Whether the whole tree below a root with the entries `children` can be
/// mirrored into `dst` without meeting a file where a directory is to be
/// made, or a directory where a file is to be put.
pub open spec fn receives(children: Seq<Child>, rules: Policy, dst: Tree) -> bool {
    !holds_file(dst, Seq::empty()) && fits(
        children,
        rules,
        Seq::empty(),
        dst.insert(Seq::empty(), Item::Dir),
    )
}

/// Everything that a whole walk over a source whose root has the entries
/// `children` asks for, in order, when nothing fails.
pub open spec fn script(children: Seq<Child>, rules: Policy) -> Seq<TreeActionView> {
    seq![
        TreeActionView::Probe,
        TreeActionView::MakeDir(Seq::empty()),
        TreeActionView::List(Seq::empty()),
    ] + journal(children, rules, Seq::empty()) + seq![TreeActionView::Finish(Ok(()))]
}

/// The outcome of a walk that went through: it ended in success, left the
/// destination as `mirrored` says, and asked for what `script` says.
pub open spec fn completed(children: Seq<Child>, rules: Policy, dst: Tree) -> Outcome {
    Outcome {
        result: Some(Ok(())),
        dst: mirrored(children, rules, dst),
        asked: script(children, rules),
    }
}

/// A walk over a well-formed source into a destination that can receive it
/// goes through: it ends in success after `walk_length` actions, leaves the
/// destination as `mirrored` says, and asks for what `script` says.
pub proof fn law_walk_mirrors(children: Seq<Child>, rules: Policy, dst: Tree, spare: nat)
    requires
        well_formed(Node::Dir(children)),
        receives(children, rules, dst),
    ensures
        replicate(Node::Dir(children), rules, dst, walk_length(children, rules) + spare)
            == completed(children, rules, dst),
{
    let src = Node::Dir(children);
    let root = Seq::<Seq<char>>::empty();
    let made = dst.insert(root, Item::Dir);
    let fuel = walk_length(children, rules) + spare;
    let first = walk_next(initial(rules), TreeEventView::Begin);
    let probing = WalkView { stage: Stage::Probing, ..initial(rules) };
    let making = WalkView { stage: Stage::Making, ..initial(rules) };
    let listed = WalkView { stage: Stage::Listing, ..initial(rules) };
    let entered = visit_spec(
        rules,
        Seq::<FrameView>::empty().push(FrameView { entries: listing(children), next: 0 }),
        root,
    );
    assert(first == (probing, TreeActionView::Probe));
    assert(walk_next(probing, TreeEventView::Exists(true)) == (
        making,
        TreeActionView::MakeDir(root),
    ));
    assert(walk_next(making, TreeEventView::Completed) == (listed, TreeActionView::List(root)));
    assert(lookup(src, root) == Some(src));
    assert(walk_next(listed, TreeEventView::Listed(listing(children))) == entered);
    let second = proceed(src, (making, TreeActionView::MakeDir(root)), dst, (fuel - 1) as nat);
    let third = proceed(src, (listed, TreeActionView::List(root)), made, (fuel - 2) as nat);
    let fourth = proceed(src, entered, made, (fuel - 3) as nat);
    let last = proceed(
        src,
        visit_spec(rules, Seq::empty(), above(root)),
        mirrored(children, rules, dst),
        spare,
    );
    assert(proceed(src, first, dst, fuel) == after_asking(seq![TreeActionView::Probe], second));
    assert(second == after_asking(seq![TreeActionView::MakeDir(root)], third));
    assert(third == after_asking(seq![TreeActionView::List(root)], fourth));
    assert(children.skip(0) =~= children);
    lemma_walk(src, rules, Seq::empty(), root, children, 0, made, spare);
    assert(fourth == after_asking(journal(children, rules, root), last));
    assert(last.asked == seq![TreeActionView::Finish(Ok::<(), ErrorView>(()))]);
    assert(seq![TreeActionView::Probe] + (seq![TreeActionView::MakeDir(root)] + (seq![
        TreeActionView::List(root),
    ] + (journal(children, rules, root) + last.asked))) =~= script(children, rules));
}

/// What the mirror of a directory with the entries `children` holds at the
/// chain `rel` below it, if anything: the entry that `rel` names, where
/// neither it nor a directory on the way to it is left out by the rules.
pub open spec fn replica_at(children: Seq<Child>, rules: Policy, rel: Seq<Seq<char>>) -> Option<
    Item,
>
    decreases rel.len(),
{
    if rel.len() == 0 {
        None
    } else {
        match find(children, rel[0]) {
            None => None,
            Some(node) => {
                if rules.excludes(rel[0], node is Dir) {
                    None
                } else if rel.len() == 1 {
                    Some(item_of(node))
                } else {
                    match node {
                        Node::Dir(inner) => replica_at(inner, rules, rel.drop_first()),
                        Node::File(_) => None,
                    }
                }
            },
        }
    }
}

/// The chain `c` leads through `at` and further.
pub open spec fn below(at: Seq<Seq<char>>, c: Seq<Seq<char>>) -> bool {
    at.len() < c.len() && c.take(at.len() as int) == at
}

/// What mirroring the entries `children` of the directory at `at` puts at
/// the chain `c`, if anything.
pub open spec fn image(
    children: Seq<Child>,
    rules: Policy,
    at: Seq<Seq<char>>,
    c: Seq<Seq<char>>,
) -> Option<Item> {
    if below(at, c) {
        replica_at(children, rules, c.skip(at.len() as int))
    } else {
        None
    }
}

/// The destination `dst` with what mirroring puts there laid over it.
pub open spec fn overlaid(
    children: Seq<Child>,
    rules: Policy,
    at: Seq<Seq<char>>,
    dst: Tree,
) -> Tree {
    Map::new(
        |c: Seq<Seq<char>>| dst.contains_key(c) || image(children, rules, at, c) is Some,
        |c: Seq<Seq<char>>|
            match image(children, rules, at, c) {
                Some(item) => item,
                None => dst[c],
            },
    )
}

/// Both are directories, or both are files.
pub open spec fn same_kind(a: Item, b: Item) -> bool {
    (a is Dir) == (b is Dir)
}

/// Wherever mirroring the entries `children` of the directory at `at` puts
/// something and `dst` holds something already, the two are of one kind.
pub open spec fn agrees(
    children: Seq<Child>,
    rules: Policy,
    at: Seq<Seq<char>>,
    dst: Tree,
) -> bool {
    forall|c: Seq<Seq<char>>|
        #![trigger image(children, rules, at, c)]
        image(children, rules, at, c) is Some && dst.contains_key(c) ==> same_kind(
            dst[c],
            image(children, rules, at, c)->Some_0,
        )
}

/// A name that no entry has is not found.
proof fn lemma_find_absent(children: Seq<Child>, name: Seq<char>)
    requires
        forall|i: int| 0 <= i < children.len() ==> (#[trigger] children[i]).name != name,
    ensures
        find(children, name) is None,
    decreases children.len(),
{
    if children.len() > 0 {
        let rest = children.drop_first();
        assert(children[0].name != name);
        assert forall|i: int| 0 <= i < rest.len() implies (#[trigger] rest[i]).name != name by {
            assert(rest[i] == children[i + 1]);
        }
        lemma_find_absent(rest, name);
    }
}

/// A well-formed directory stays so without its first entry, and that
/// entry is well-formed too.
proof fn lemma_rest_well_formed(children: Seq<Child>)
    requires
        children.len() > 0,
        well_formed(Node::Dir(children)),
    ensures
        well_formed(Node::Dir(children.drop_first())),
        well_formed(children[0].node),
{
    let rest = children.drop_first();
    assert forall|a: int, b: int| 0 <= a < b < rest.len() implies (#[trigger] rest[a]).name != (
    #[trigger] rest[b]).name by {
        assert(rest[a] == children[a + 1]);
        assert(rest[b] == children[b + 1]);
    }
    assert forall|i: int| 0 <= i < rest.len() implies well_formed((#[trigger] rest[i]).node) by {
        assert(rest[i] == children[i + 1]);
    }
}

/// What mirroring a directory puts at a chain comes from its first entry
/// where the chain leads through that entry, and from the other entries
/// where it does not.
proof fn lemma_split(children: Seq<Child>, rules: Policy, at: Seq<Seq<char>>, c: Seq<Seq<char>>)
    requires
        children.len() > 0,
        distinct_names(children),
    ensures
        ({
            let first = children[0];
            let rest = children.drop_first();
            let chain = at.push(first.name);
            let inside = below(at, c) && c[at.len() as int] == first.name;
            &&& (c == chain) == (inside && c.len() == at.len() + 1)
            &&& below(chain, c) == (inside && c.len() > at.len() + 1)
            &&& !inside ==> image(children, rules, at, c) == image(rest, rules, at, c)
            &&& inside ==> image(rest, rules, at, c) is None
            &&& inside ==> image(children, rules, at, c) == (if rules.excludes(
                first.name,
                first.node is Dir,
            ) {
                None
            } else if c == chain {
                Some(item_of(first.node))
            } else {
                match first.node {
                    Node::Dir(inner) => image(inner, rules, chain, c),
                    Node::File(_) => None,
                }
            })
        }),
{
    let first = children[0];
    let rest = children.drop_first();
    let chain = at.push(first.name);
    let n = at.len() as int;
    let inside = below(at, c) && c[n] == first.name;
    if c == chain {
        assert(c.take(n) =~= at);
    }
    if inside && c.len() == n + 1 {
        assert forall|j: int| 0 <= j < c.len() implies c[j] == chain[j] by {
            if j < n {
                assert(c.take(n)[j] == c[j]);
            }
        }
        assert(c =~= chain);
    }
    if below(chain, c) {
        assert(c.take(n + 1)[n] == c[n]);
        assert(c.take(n) =~= c.take(n + 1).take(n));
        assert(chain.take(n) =~= at);
    }
    if inside && c.len() > n + 1 {
        assert forall|j: int| 0 <= j < n + 1 implies c.take(n + 1)[j] == chain[j] by {
            if j < n {
                assert(c.take(n)[j] == c[j]);
            }
        }
        assert(c.take(n + 1) =~= chain);
    }
    if below(at, c) {
        let rel = c.skip(n);
        assert(rel[0] == c[n]);
        if inside {
            assert forall|i: int| 0 <= i < rest.len() implies (#[trigger] rest[i]).name
                != first.name by {
                assert(rest[i] == children[i + 1]);
            }
            lemma_find_absent(rest, first.name);
            assert(find(children, rel[0]) == Some(first.node));
            if c.len() > n + 1 {
                assert(c.skip(n + 1) =~= rel.drop_first());
            }
        } else {
            assert(find(children, rel[0]) == find(rest, rel[0]));
        }
    }
}

/// Mirroring lays over the destination what `image` says, and changes
/// nothing else.
proof fn lemma_mirror_overlays(
    children: Seq<Child>,
    rules: Policy,
    at: Seq<Seq<char>>,
    dst: Tree,
)
    requires
        well_formed(Node::Dir(children)),
    ensures
        mirror(children, rules, at, dst) == overlaid(children, rules, at, dst),
    decreases children,
{
    if children.len() == 0 {
        assert(overlaid(children, rules, at, dst) =~= dst);
    } else {
        let first = children[0];
        let rest = children.drop_first();
        let chain = at.push(first.name);
        lemma_rest_well_formed(children);
        let after = if rules.excludes(first.name, first.node is Dir) {
            dst
        } else {
            match first.node {
                Node::File(bytes) => dst.insert(chain, Item::File(bytes)),
                Node::Dir(inner) => {
                    lemma_mirror_overlays(inner, rules, chain, dst.insert(chain, Item::Dir));
                    mirror(inner, rules, chain, dst.insert(chain, Item::Dir))
                },
            }
        };
        lemma_mirror_overlays(rest, rules, at, after);
        let left = overlaid(rest, rules, at, after);
        let right = overlaid(children, rules, at, dst);
        assert forall|c: Seq<Seq<char>>| #[trigger]
            left.dom().contains(c) == right.dom().contains(c) by {
            lemma_split(children, rules, at, c);
        }
        assert forall|c: Seq<Seq<char>>| left.dom().contains(c) implies #[trigger] left[c]
            == right[c] by {
            lemma_split(children, rules, at, c);
        }
        assert(left =~= right);
    }
}

/// A destination that agrees in kind with what is mirrored can receive it.
proof fn lemma_agreeing_fits(children: Seq<Child>, rules: Policy, at: Seq<Seq<char>>, dst: Tree)
    requires
        well_formed(Node::Dir(children)),
        agrees(children, rules, at, dst),
    ensures
        fits(children, rules, at, dst),
    decreases children,
{
    if children.len() > 0 {
        let first = children[0];
        let rest = children.drop_first();
        let chain = at.push(first.name);
        lemma_rest_well_formed(children);
        lemma_split(children, rules, at, chain);
        if rules.excludes(first.name, first.node is Dir) {
            assert forall|c: Seq<Seq<char>>|
                #![trigger image(rest, rules, at, c)]
                image(rest, rules, at, c) is Some && dst.contains_key(c) implies same_kind(
                dst[c],
                image(rest, rules, at, c)->Some_0,
            ) by {
                lemma_split(children, rules, at, c);
                assert(image(children, rules, at, c) is Some);
            }
            lemma_agreeing_fits(rest, rules, at, dst);
        } else {
            assert(image(children, rules, at, chain) is Some);
            match first.node {
                Node::File(bytes) => {
                    let after = dst.insert(chain, Item::File(bytes));
                    assert forall|c: Seq<Seq<char>>|
                        #![trigger image(rest, rules, at, c)]
                        image(rest, rules, at, c) is Some && after.contains_key(c) implies same_kind(
                        after[c],
                        image(rest, rules, at, c)->Some_0,
                    ) by {
                        lemma_split(children, rules, at, c);
                        assert(image(children, rules, at, c) is Some);
                    }
                    lemma_agreeing_fits(rest, rules, at, after);
                },
                Node::Dir(inner) => {
                    let made = dst.insert(chain, Item::Dir);
                    let after = mirror(inner, rules, chain, made);
                    assert forall|c: Seq<Seq<char>>|
                        #![trigger image(inner, rules, chain, c)]
                        image(inner, rules, chain, c) is Some && made.contains_key(c) implies same_kind(
                        made[c],
                        image(inner, rules, chain, c)->Some_0,
                    ) by {
                        lemma_split(children, rules, at, c);
                        assert(image(children, rules, at, c) is Some);
                    }
                    lemma_agreeing_fits(inner, rules, chain, made);
                    lemma_mirror_overlays(inner, rules, chain, made);
                    assert forall|c: Seq<Seq<char>>|
                        #![trigger image(rest, rules, at, c)]
                        image(rest, rules, at, c) is Some && after.contains_key(c) implies same_kind(
                        after[c],
                        image(rest, rules, at, c)->Some_0,
                    ) by {
                        lemma_split(children, rules, at, c);
                        assert(image(children, rules, at, c) is Some);
                    }
                    lemma_agreeing_fits(rest, rules, at, after);
                },
            }
        }
    }
}

/// The chain `c` names an entry of the source that mirroring keeps: the
/// source has an entry at `c` and at every chain on the way to it, and the
/// rules leave none of them out.
pub open spec fn kept(src: Node, rules: Policy, c: Seq<Seq<char>>) -> bool {
    c.len() > 0 && forall|k: int|
        1 <= k <= c.len() ==> {
            let node = #[trigger] lookup(src, c.take(k));
            node is Some && !rules.excludes(c[k - 1], node->Some_0 is Dir)
        }
}

/// The node at a chain is found by its first name among the entries, and
/// by the rest of the chain below that entry.
proof fn lemma_lookup_first(children: Seq<Child>, c: Seq<Seq<char>>)
    requires
        c.len() > 0,
    ensures
        lookup(Node::Dir(children), c) == (match find(children, c[0]) {
            Some(node) => lookup(node, c.drop_first()),
            None => None,
        }),
    decreases c.len(),
{
    let root = Node::Dir(children);
    if c.len() == 1 {
        assert(c.drop_last().len() == 0);
        assert(lookup(root, c.drop_last()) == Some(root));
        assert(c.drop_first().len() == 0);
    } else {
        lemma_lookup_first(children, c.drop_last());
        assert(c.drop_last()[0] == c[0]);
        assert(c.drop_first().drop_last() =~= c.drop_last().drop_first());
        assert(c.drop_first().last() == c.last());
    }
}

/// Nothing is below a file.
proof fn lemma_lookup_in_file(bytes: Seq<u8>, c: Seq<Seq<char>>)
    requires
        c.len() > 0,
    ensures
        lookup(Node::File(bytes), c) is None,
    decreases c.len(),
{
    if c.len() > 1 {
        lemma_lookup_in_file(bytes, c.drop_last());
    } else {
        assert(c.drop_last().len() == 0);
        assert(lookup(Node::File(bytes), c.drop_last()) == Some(Node::File(bytes)));
    }
}

/// The mirror of a directory holds something at a chain exactly where the
/// chain names a kept entry, and then holds that entry.
proof fn lemma_replica_is_kept(children: Seq<Child>, rules: Policy, c: Seq<Seq<char>>)
    ensures
        replica_at(children, rules, c) == (if kept(Node::Dir(children), rules, c) {
            Some(item_of(lookup(Node::Dir(children), c)->Some_0))
        } else {
            None
        }),
    decreases c.len(),
{
    let root = Node::Dir(children);
    if c.len() > 0 {
        let tail = c.drop_first();
        lemma_lookup_first(children, c.take(1));
        assert(c.take(1)[0] == c[0]);
        assert(c.take(1).drop_first().len() == 0);
        assert(c.take(c.len() as int) =~= c);
        match find(children, c[0]) {
            None => {
                assert(lookup(root, c.take(1)) is None);
            },
            Some(node) => {
                assert(lookup(root, c.take(1)) == Some(node));
                if rules.excludes(c[0], node is Dir) {
                } else if c.len() == 1 {
                    assert(c.take(1) =~= c);
                    assert forall|k: int| 1 <= k <= c.len() implies {
                        let found = #[trigger] lookup(root, c.take(k));
                        found is Some && !rules.excludes(c[k - 1], found->Some_0 is Dir)
                    } by {}
                } else {
                    assert forall|k: int| 2 <= k <= c.len() implies #[trigger] lookup(
                        root,
                        c.take(k),
                    ) == lookup(node, tail.take(k - 1)) && c[k - 1] == tail[k - 2] by {
                        lemma_lookup_first(children, c.take(k));
                        assert(c.take(k)[0] == c[0]);
                        assert(c.take(k).drop_first() =~= tail.take(k - 1));
                    }
                    match node {
                        Node::File(bytes) => {
                            lemma_lookup_in_file(bytes, tail.take(1));
                            assert(lookup(root, c.take(2)) is None);
                        },
                        Node::Dir(inner) => {
                            lemma_replica_is_kept(inner, rules, tail);
                            lemma_lookup_first(children, c);
                            if kept(node, rules, tail) {
                                assert forall|k: int| 1 <= k <= c.len() implies {
                                    let found = #[trigger] lookup(root, c.take(k));
                                    found is Some && !rules.excludes(
                                        c[k - 1],
                                        found->Some_0 is Dir,
                                    )
                                } by {
                                    if k >= 2 {
                                        assert(lookup(node, tail.take(k - 1)) is Some);
                                    }
                                }
                            }
                            if kept(root, rules, c) {
                                assert forall|k: int| 1 <= k <= tail.len() implies {
                                    let found = #[trigger] lookup(node, tail.take(k));
                                    found is Some && !rules.excludes(
                                        tail[k - 1],
                                        found->Some_0 is Dir,
                                    )
                                } by {
                                    assert(lookup(root, c.take(k + 1)) is Some);
                                }
                            }
                        },
                    }
                }
            },
        }
    }
}

/// Below the root, what mirroring puts at a chain is the kept entry there.
proof fn lemma_image_from_root(children: Seq<Child>, rules: Policy, c: Seq<Seq<char>>)
    ensures
        image(children, rules, Seq::empty(), c) == (if kept(Node::Dir(children), rules, c) {
            Some(item_of(lookup(Node::Dir(children), c)->Some_0))
        } else {
            None
        }),
        c.len() == 0 ==> c == Seq::<Seq<char>>::empty(),
{
    lemma_replica_is_kept(children, rules, c);
    assert(c.skip(0) =~= c);
    assert(c.take(0) =~= Seq::<Seq<char>>::empty());
    if c.len() == 0 {
        assert(c =~= Seq::<Seq<char>>::empty());
    }
}

/// What a destination holds at one chain after a tree was mirrored into it.
proof fn lemma_mirrored_at(children: Seq<Child>, rules: Policy, dst: Tree, c: Seq<Seq<char>>)
    requires
        well_formed(Node::Dir(children)),
    ensures
        mirrored(children, rules, dst).contains_key(c) <==> (c.len() == 0 || kept(
            Node::Dir(children),
            rules,
            c,
        ) || dst.contains_key(c)),
        c.len() == 0 ==> mirrored(children, rules, dst)[c] == Item::Dir,
        kept(Node::Dir(children), rules, c) ==> mirrored(children, rules, dst)[c] == item_of(
            lookup(Node::Dir(children), c)->Some_0,
        ),
        c.len() > 0 && !kept(Node::Dir(children), rules, c) && dst.contains_key(c) ==> mirrored(
            children,
            rules,
            dst,
        )[c] == dst[c],
{
    let root = Seq::<Seq<char>>::empty();
    lemma_mirror_overlays(children, rules, root, dst.insert(root, Item::Dir));
    lemma_image_from_root(children, rules, c);
}

/// What a destination holds after a tree was mirrored into it: at the root
/// a directory, at every chain that names a kept entry of the source that
/// entry, and everywhere else what it held before.
pub proof fn lemma_mirrored_holds(children: Seq<Child>, rules: Policy, dst: Tree)
    requires
        well_formed(Node::Dir(children)),
    ensures
        forall|c: Seq<Seq<char>>| #[trigger]
            mirrored(children, rules, dst).contains_key(c) <==> (c.len() == 0 || kept(
                Node::Dir(children),
                rules,
                c,
            ) || dst.contains_key(c)),
        forall|c: Seq<Seq<char>>|
            c.len() == 0 ==> #[trigger] mirrored(children, rules, dst)[c] == Item::Dir,
        forall|c: Seq<Seq<char>>|
            kept(Node::Dir(children), rules, c) ==> #[trigger] mirrored(children, rules, dst)[c]
                == item_of(lookup(Node::Dir(children), c)->Some_0),
        forall|c: Seq<Seq<char>>|
            c.len() > 0 && !kept(Node::Dir(children), rules, c) && dst.contains_key(c)
                ==> #[trigger] mirrored(children, rules, dst)[c] == dst[c],
{
    let t = mirrored(children, rules, dst);
    assert forall|c: Seq<Seq<char>>| #[trigger]
        t.contains_key(c) <==> (c.len() == 0 || kept(Node::Dir(children), rules, c)
            || dst.contains_key(c)) by {
        lemma_mirrored_at(children, rules, dst, c);
    }
    assert forall|c: Seq<Seq<char>>| c.len() == 0 implies #[trigger] t[c] == Item::Dir by {
        lemma_mirrored_at(children, rules, dst, c);
    }
    assert forall|c: Seq<Seq<char>>| kept(Node::Dir(children), rules, c) implies #[trigger] t[c]
        == item_of(lookup(Node::Dir(children), c)->Some_0) by {
        lemma_mirrored_at(children, rules, dst, c);
    }
    assert forall|c: Seq<Seq<char>>|
        c.len() > 0 && !kept(Node::Dir(children), rules, c) && dst.contains_key(
            c,
        ) implies #[trigger] t[c] == dst[c] by {
        lemma_mirrored_at(children, rules, dst, c);
    }
}

/// A destination can receive a tree if its root is no file and, at every
/// chain that names a kept entry of the source, it holds nothing or
/// something of the same kind as that entry.
pub proof fn lemma_agreeing_destination_receives(children: Seq<Child>, rules: Policy, dst: Tree)
    requires
        well_formed(Node::Dir(children)),
        !holds_file(dst, Seq::empty()),
        forall|c: Seq<Seq<char>>|
            kept(Node::Dir(children), rules, c) && #[trigger] dst.contains_key(c) ==> same_kind(
                dst[c],
                item_of(lookup(Node::Dir(children), c)->Some_0),
            ),
    ensures
        receives(children, rules, dst),
{
    let root = Seq::<Seq<char>>::empty();
    let made = dst.insert(root, Item::Dir);
    assert forall|c: Seq<Seq<char>>|
        #![trigger image(children, rules, root, c)]
        image(children, rules, root, c) is Some && made.contains_key(c) implies same_kind(
        made[c],
        image(children, rules, root, c)->Some_0,
    ) by {
        lemma_image_from_root(children, rules, c);
        assert(dst.contains_key(c));
    }
    lemma_agreeing_fits(children, rules, root, made);
}

/// Mirroring into an empty destination leaves exactly the kept entries of
/// the source: the walk ends in success, and the destination then holds a
/// directory at its root, every entry of the source that the rules keep,
/// under the chain it has in the source and with the bytes it has there,
/// and nothing else.
pub proof fn law_empty_destination_holds_kept_entries(
    children: Seq<Child>,
    rules: Policy,
    spare: nat,
)
    requires
        well_formed(Node::Dir(children)),
    ensures
        replicate(
            Node::Dir(children),
            rules,
            Map::empty(),
            walk_length(children, rules) + spare,
        ) == completed(children, rules, Map::empty()),
        forall|c: Seq<Seq<char>>| #[trigger]
            mirrored(children, rules, Map::empty()).contains_key(c) <==> (c.len() == 0 || kept(
                Node::Dir(children),
                rules,
                c,
            )),
        forall|c: Seq<Seq<char>>|
            c.len() == 0 ==> #[trigger] mirrored(children, rules, Map::empty())[c] == Item::Dir,
        forall|c: Seq<Seq<char>>|
            kept(Node::Dir(children), rules, c) ==> #[trigger] mirrored(
                children,
                rules,
                Map::empty(),
            )[c] == item_of(lookup(Node::Dir(children), c)->Some_0),
{
    let dst = Map::<Seq<Seq<char>>, Item>::empty();
    lemma_agreeing_destination_receives(children, rules, dst);
    law_walk_mirrors(children, rules, dst, spare);
    lemma_mirrored_holds(children, rules, dst);
}

/// Nothing at or below an entry that the rules leave out is touched: where
/// the source has, on the way to the chain `c` or at `c` itself, an entry
/// that the rules leave out, `c` names no kept entry, and after the walk the
/// destination holds at `c` what it held before, or nothing as before.
pub proof fn law_excluded_entry_hides_what_is_below(
    children: Seq<Child>,
    rules: Policy,
    dst: Tree,
    c: Seq<Seq<char>>,
    k: int,
    spare: nat,
)
    requires
        well_formed(Node::Dir(children)),
        receives(children, rules, dst),
        1 <= k <= c.len(),
        lookup(Node::Dir(children), c.take(k)) is Some,
        rules.excludes(c[k - 1], lookup(Node::Dir(children), c.take(k))->Some_0 is Dir),
    ensures
        replicate(Node::Dir(children), rules, dst, walk_length(children, rules) + spare)
            == completed(children, rules, dst),
        !kept(Node::Dir(children), rules, c),
        mirrored(children, rules, dst).contains_key(c) == dst.contains_key(c),
        dst.contains_key(c) ==> mirrored(children, rules, dst)[c] == dst[c],
{
    law_walk_mirrors(children, rules, dst, spare);
    lemma_mirrored_at(children, rules, dst, c);
}

/// A directory at the top of the source that the rules leave out is never
/// entered: after the walk the destination holds, at the directory's own
/// chain and at every chain below it, what it held before, and so nothing
/// where it was empty.
pub proof fn law_excluded_directory_is_not_entered(
    children: Seq<Child>,
    rules: Policy,
    dst: Tree,
    i: int,
    c: Seq<Seq<char>>,
    spare: nat,
)
    requires
        well_formed(Node::Dir(children)),
        receives(children, rules, dst),
        0 <= i < children.len(),
        children[i].node is Dir,
        rules.excludes(children[i].name, true),
        c.len() > 0,
        c[0] == children[i].name,
    ensures
        replicate(Node::Dir(children), rules, dst, walk_length(children, rules) + spare)
            == completed(children, rules, dst),
        mirrored(children, rules, dst).contains_key(c) == dst.contains_key(c),
        dst.contains_key(c) ==> mirrored(children, rules, dst)[c] == dst[c],
{
    lemma_find_at(children, i);
    lemma_lookup_first(children, c.take(1));
    assert(c.take(1)[0] == c[0]);
    assert(c.take(1).drop_first().len() == 0);
    assert(lookup(Node::Dir(children), c.take(1)) == Some(children[i].node));
    law_excluded_entry_hides_what_is_below(children, rules, dst, c, 1, spare);
}

/// Mirroring again changes nothing: a destination that a walk has filled
/// can receive the same source again, and the second walk ends in success
/// and leaves the destination as the first left it.
pub proof fn law_second_walk_changes_nothing(
    children: Seq<Child>,
    rules: Policy,
    dst: Tree,
    spare: nat,
)
    requires
        well_formed(Node::Dir(children)),
        receives(children, rules, dst),
    ensures
        replicate(Node::Dir(children), rules, dst, walk_length(children, rules) + spare)
            == completed(children, rules, dst),
        replicate(
            Node::Dir(children),
            rules,
            mirrored(children, rules, dst),
            walk_length(children, rules) + spare,
        ) == completed(children, rules, dst),
{
    let t = mirrored(children, rules, dst);
    law_walk_mirrors(children, rules, dst, spare);
    lemma_mirrored_holds(children, rules, dst);
    assert(t[Seq::<Seq<char>>::empty()] == Item::Dir);
    lemma_agreeing_destination_receives(children, rules, t);
    law_walk_mirrors(children, rules, t, spare);
    lemma_mirrored_holds(children, rules, t);
    let again = mirrored(children, rules, t);
    assert forall|c: Seq<Seq<char>>| #[trigger]
        again.dom().contains(c) == t.dom().contains(c) by {
        assert(again.contains_key(c) == t.contains_key(c));
    }
    assert forall|c: Seq<Seq<char>>| again.dom().contains(c) implies #[trigger] again[c]
        == t[c] by {
        assert(t.contains_key(c));
        if c.len() == 0 {
        } else if kept(Node::Dir(children), rules, c) {
        } else {
        }
    }
    assert(again =~= t);
}

/// A file of the source that the rules keep is written over whatever file
/// the destination held in its place: after the walk the destination holds,
/// at the chain of the file, the bytes that the source has there.
pub proof fn law_changed_file_is_overwritten(
    children: Seq<Child>,
    rules: Policy,
    dst: Tree,
    c: Seq<Seq<char>>,
    bytes: Seq<u8>,
    spare: nat,
)
    requires
        well_formed(Node::Dir(children)),
        receives(children, rules, dst),
        kept(Node::Dir(children), rules, c),
        lookup(Node::Dir(children), c) == Some(Node::File(bytes)),
    ensures
        replicate(Node::Dir(children), rules, dst, walk_length(children, rules) + spare)
            == completed(children, rules, dst),
        mirrored(children, rules, dst).contains_key(c),
        mirrored(children, rules, dst)[c] == Item::File(bytes),
{
    law_walk_mirrors(children, rules, dst, spare);
    lemma_mirrored_at(children, rules, dst, c);
}

/// The chain of the entry that an action reads, makes or writes, if it does.
pub open spec fn touched(action: TreeActionView) -> Option<Seq<Seq<char>>> {
    match action {
        TreeActionView::MakeDir(c) => Some(c),
        TreeActionView::List(c) => Some(c),
        TreeActionView::Copy(c) => Some(c),
        _ => None,
    }
}

/// Whatever a walk inside a directory asks to make, list or copy is put
/// there by mirroring.
proof fn lemma_journal_touches_image(
    children: Seq<Child>,
    rules: Policy,
    at: Seq<Seq<char>>,
    k: int,
)
    requires
        well_formed(Node::Dir(children)),
        0 <= k < journal(children, rules, at).len(),
    ensures
        touched(journal(children, rules, at)[k]) matches Some(c) ==> image(children, rules, at, c)
            is Some,
    decreases children,
{
    if children.len() > 0 {
        let first = children[0];
        let rest = children.drop_first();
        let chain = at.push(first.name);
        lemma_rest_well_formed(children);
        lemma_split(children, rules, at, chain);
        let here = if rules.excludes(first.name, first.node is Dir) {
            seq![TreeActionView::Skip(chain)]
        } else {
            match first.node {
                Node::File(_) => seq![TreeActionView::Copy(chain)],
                Node::Dir(inner) => seq![
                    TreeActionView::MakeDir(chain),
                    TreeActionView::List(chain),
                ] + journal(inner, rules, chain),
            }
        };
        assert(journal(children, rules, at) == here + journal(rest, rules, at));
        if k >= here.len() {
            lemma_journal_touches_image(rest, rules, at, k - here.len());
            match touched(journal(rest, rules, at)[k - here.len()]) {
                Some(c) => {
                    lemma_split(children, rules, at, c);
                },
                None => {},
            }
        } else if !rules.excludes(first.name, first.node is Dir) {
            match first.node {
                Node::File(_) => {},
                Node::Dir(inner) => {
                    if k >= 2 {
                        lemma_journal_touches_image(inner, rules, chain, k - 2);
                        match touched(journal(inner, rules, chain)[k - 2]) {
                            Some(c) => {
                                lemma_split(children, rules, at, c);
                            },
                            None => {},
                        }
                    }
                },
            }
        }
    }
}

/// A walk reads, makes and writes only kept entries: every chain that a
/// walk which goes through asks to make, to list or to copy is the root or
/// names a kept entry of the source. So a directory that the rules leave out
/// is never listed, and nothing below it is ever seen.
pub proof fn law_walk_touches_only_kept_entries(children: Seq<Child>, rules: Policy, k: int)
    requires
        well_formed(Node::Dir(children)),
        0 <= k < script(children, rules).len(),
    ensures
        touched(script(children, rules)[k]) matches Some(c) ==> c.len() == 0 || kept(
            Node::Dir(children),
            rules,
            c,
        ),
{
    let root = Seq::<Seq<char>>::empty();
    let inside = journal(children, rules, root);
    if 3 <= k < 3 + inside.len() {
        lemma_journal_touches_image(children, rules, root, k - 3);
        match touched(inside[k - 3]) {
            Some(c) => {
                lemma_image_from_root(children, rules, c);
            },
            None => {},
        }
    }
}

} // verus!
