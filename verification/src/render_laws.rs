//! What holds of every rendering plan: guarded entries are never written,
//! and a second pass over an unchanged tree repeats the first.

use vstd::prelude::*;
use crate::paths::Path;
use crate::render::{
    child_plan, children_plan, created_by, grown, guard_hit, lemma_grown_concat, lemma_grown_empty,
    lemma_grown_one, node_plan, scaffold_plan, Child, DirSpec, Effect, Node,
};

verus! {

/// If a guard of an entry names something that exists when the traversal
/// reaches the entry, the entry contributes no step at all, whatever the
/// features say: neither it nor anything below it is written.
pub proof fn lemma_guarded_entry_is_skipped(
    child: Child,
    parent: Path,
    features: Map<Seq<char>, bool>,
    existing: Set<Path>,
)
    requires
        child.when is Some,
        guard_hit(child.when->0.if_not_present@, parent, existing),
    ensures
        child_plan(child, parent, features, existing) == Seq::<Effect>::empty(),
        grown(existing, child_plan(child, parent, features, existing)) == existing,
{
    lemma_grown_empty(existing);
}

/// An entry whose condition is closed is not written; at most an advisory is
/// given, and nothing that exists is removed.
pub proof fn lemma_unwanted_entry_is_not_written(
    child: Child,
    parent: Path,
    features: Map<Seq<char>, bool>,
    existing: Set<Path>,
)
    requires
        child.when is Some,
        !child.when->0.satisfied(features),
    ensures
        forall|k: int|
            0 <= k < child_plan(child, parent, features, existing).len() ==> created_by(
                #[trigger] child_plan(child, parent, features, existing)[k],
            ) is None,
        grown(existing, child_plan(child, parent, features, existing)) == existing,
{
    let plan = child_plan(child, parent, features, existing);
    if plan.len() == 0 {
        assert(plan =~= Seq::empty());
        lemma_grown_empty(existing);
    } else {
        let target = parent.push(child.name@);
        assert(plan =~= seq![Effect::LeftInPlace { path: target }]);
        lemma_grown_one(existing, Effect::LeftInPlace { path: target });
    }
}

/// Whether every step of `second` that creates a path is also a step of
/// `first`: same path, same permission bits, same contents.
pub open spec fn repeats(second: Seq<Effect>, first: Seq<Effect>) -> bool {
    forall|k: int|
        0 <= k < second.len() && created_by(#[trigger] second[k]) is Some ==> first.contains(
            second[k],
        )
}

proof fn lemma_repeats_concat(b1: Seq<Effect>, b2: Seq<Effect>, a1: Seq<Effect>, a2: Seq<Effect>)
    requires
        repeats(b1, a1),
        repeats(b2, a2),
    ensures
        repeats(b1 + b2, a1 + a2),
{
    let b = b1 + b2;
    let a = a1 + a2;
    assert forall|k: int| 0 <= k < b.len() && created_by(#[trigger] b[k]) is Some implies a.contains(
        b[k],
    ) by {
        if k < b1.len() {
            assert(b[k] == b1[k]);
            let j = choose|j: int| 0 <= j < a1.len() && a1[j] == b1[k];
            assert(a[j] == b[k]);
        } else {
            assert(b[k] == b2[k - b1.len()]);
            let j = choose|j: int| 0 <= j < a2.len() && a2[j] == b2[k - b1.len()];
            assert(a[a1.len() + j] == b[k]);
        }
    }
}

proof fn lemma_grown_covers(existing: Set<Path>, a: Seq<Effect>, b: Seq<Effect>)
    ensures
        existing.subset_of(grown(existing, a)),
        grown(existing, a).subset_of(grown(existing, a + b)),
{
    lemma_grown_concat(existing, a, b);
}

proof fn lemma_node_second_pass(
    node: Node,
    path: Path,
    mode: u32,
    features: Map<Seq<char>, bool>,
    before: Set<Path>,
    after: Set<Path>,
)
    requires
        grown(before, node_plan(node, path, mode, features, before)).subset_of(after),
    ensures
        grown(after, node_plan(node, path, mode, features, after)) == after,
        repeats(
            node_plan(node, path, mode, features, after),
            node_plan(node, path, mode, features, before),
        ),
    decreases node, 0nat,
{
    let first = node_plan(node, path, mode, features, before);
    let second = node_plan(node, path, mode, features, after);
    assert(created_by(first[0]) == Some(path));
    assert(grown(before, first).contains(path));
    assert(after.insert(path) =~= after);
    match node {
        Node::Dir(d) => {
            let head = seq![Effect::MakeDir { path, mode }];
            let tail_first = children_plan(d, 0, path, features, before.insert(path));
            let tail_second = children_plan(d, 0, path, features, after);
            lemma_grown_one(before, head[0]);
            lemma_grown_concat(before, head, tail_first);
            lemma_children_second_pass(d, 0, path, features, before.insert(path), after);
            lemma_grown_one(after, head[0]);
            lemma_grown_concat(after, head, tail_second);
            assert(head[0] == head[0] && head.contains(head[0]));
            assert(repeats(head, head));
            lemma_repeats_concat(head, tail_second, head, tail_first);
        },
        Node::File(f) => {
            lemma_grown_one(after, second[0]);
            assert(first =~= second);
            assert forall|k: int| 0 <= k < second.len() implies first.contains(
                #[trigger] second[k],
            ) by {
                assert(first[k] == second[k]);
            }
        },
        Node::Template(t) => {
            lemma_grown_one(after, second[0]);
            assert(first =~= second);
            assert forall|k: int| 0 <= k < second.len() implies first.contains(
                #[trigger] second[k],
            ) by {
                assert(first[k] == second[k]);
            }
        },
    }
}

proof fn lemma_children_second_pass(
    dir: DirSpec,
    i: int,
    parent: Path,
    features: Map<Seq<char>, bool>,
    before: Set<Path>,
    after: Set<Path>,
)
    requires
        0 <= i,
        grown(before, children_plan(dir, i, parent, features, before)).subset_of(after),
    ensures
        grown(after, children_plan(dir, i, parent, features, after)) == after,
        repeats(
            children_plan(dir, i, parent, features, after),
            children_plan(dir, i, parent, features, before),
        ),
    decreases dir, dir.children@.len() - i,
{
    if i < dir.children@.len() {
        let child = dir.children@[i];
        let head_first = child_plan(child, parent, features, before);
        let tail_first = children_plan(dir, i + 1, parent, features, grown(before, head_first));
        let head_second = child_plan(child, parent, features, after);
        lemma_grown_covers(before, head_first, tail_first);
        lemma_grown_concat(before, head_first, tail_first);
        assert(decreases_to!(dir.children => dir.children@));
        assert(decreases_to!(dir.children@ => dir.children@[i]));
        lemma_child_second_pass(child, parent, features, before, after);
        let tail_second = children_plan(dir, i + 1, parent, features, after);
        lemma_children_second_pass(dir, i + 1, parent, features, grown(before, head_first), after);
        lemma_grown_concat(after, head_second, tail_second);
        lemma_repeats_concat(head_second, tail_second, head_first, tail_first);
    } else {
        lemma_grown_empty(after);
    }
}

proof fn lemma_child_second_pass(
    child: Child,
    parent: Path,
    features: Map<Seq<char>, bool>,
    before: Set<Path>,
    after: Set<Path>,
)
    requires
        grown(before, child_plan(child, parent, features, before)).subset_of(after),
    ensures
        grown(after, child_plan(child, parent, features, after)) == after,
        repeats(
            child_plan(child, parent, features, after),
            child_plan(child, parent, features, before),
        ),
    decreases child, 0nat,
{
    let target = parent.push(child.name@);
    let first = child_plan(child, parent, features, before);
    lemma_grown_covers(before, first, Seq::empty());
    assert(before.subset_of(after));
    match child.when {
        Some(w) => {
            if guard_hit(w.if_not_present@, parent, after) {
                lemma_grown_empty(after);
            } else if !w.satisfied(features) {
                lemma_unwanted_entry_is_not_written(child, parent, features, after);
            } else {
                if guard_hit(w.if_not_present@, parent, before) {
                    let g = choose|g: int|
                        0 <= g < w.if_not_present@.len() && before.contains(
                            parent.push(#[trigger] w.if_not_present@[g]@),
                        );
                    assert(after.contains(parent.push(w.if_not_present@[g]@)));
                }
                lemma_node_second_pass(child.node, target, child.mode, features, before, after);
            }
        },
        None => {
            lemma_node_second_pass(child.node, target, child.mode, features, before, after);
        },
    }
}

/// Rendering an unchanged tree a second time, with unchanged features, onto
/// what the first pass left: the set of existing paths stays as it is, and
/// every directory made and every file written by the second pass was made
/// or written by the first, under the same path, with the same permission
/// bits and the same contents.
pub proof fn lemma_second_pass_repeats_first(
    root: Node,
    features: Map<Seq<char>, bool>,
    existing: Set<Path>,
)
    ensures
        ({
            let first = scaffold_plan(root, features, existing);
            let left = grown(existing, first);
            let second = scaffold_plan(root, features, left);
            &&& grown(left, second) == left
            &&& repeats(second, first)
        }),
{
    let first = scaffold_plan(root, features, existing);
    let left = grown(existing, first);
    if root is Dir {
        lemma_node_second_pass(root, Seq::empty(), 0o777, features, existing, left);
    } else {
        lemma_grown_empty(left);
    }
}

/// A pass never removes a path: whatever existed before it exists after it.
pub proof fn lemma_nothing_is_removed(
    root: Node,
    features: Map<Seq<char>, bool>,
    existing: Set<Path>,
)
    ensures
        existing.subset_of(grown(existing, scaffold_plan(root, features, existing))),
{
}

} // verus!
