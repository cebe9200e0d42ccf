//! Trees whose directories name each entry once, and what that gives: a
//! plan creates every path at most once.

use vstd::prelude::*;
use crate::paths::Path;
use crate::text::same_text;
use crate::render::{
    child_plan, children_plan, created_by, grown, guard_hit, node_plan, scaffold_plan, Child, DirSpec,
    Effect, Node,
};

verus! {

/// Whether no two entries of the directory share a name.
pub open spec fn distinct_names(dir: DirSpec) -> bool {
    forall|i: int, j: int|
        0 <= i < j < dir.children@.len() ==> (#[trigger] dir.children@[i]).name@
            != (#[trigger] dir.children@[j]).name@
}

/// Whether every directory of the tree names each of its entries once.
pub open spec fn well_formed(node: Node) -> bool
    decreases node,
{
    match node {
        Node::Dir(d) => distinct_names(d) && forall|i: int|
            0 <= i < d.children@.len() ==> well_formed((#[trigger] d.children@[i]).node),
        _ => true,
    }
}

/// Checks that no two entries of the directory share a name.
pub fn names_are_distinct(dir: &DirSpec) -> (r: bool)
    ensures
        r == distinct_names(*dir),
{
    let mut j: usize = 0;
    while j < dir.children.len()
        invariant
            j <= dir.children.len(),
            forall|a: int, b: int|
                0 <= a < b < j ==> (#[trigger] dir.children@[a]).name@
                    != (#[trigger] dir.children@[b]).name@,
        decreases dir.children.len() - j,
    {
        let mut i: usize = 0;
        while i < j
            invariant
                i <= j < dir.children.len(),
                forall|a: int|
                    0 <= a < i ==> (#[trigger] dir.children@[a]).name@ != dir.children@[j as int].name@,
            decreases j - i,
        {
            if same_text(dir.children[i].name.as_str(), dir.children[j].name.as_str()) {
                assert(dir.children@[i as int].name@ == dir.children@[j as int].name@);
                return false;
            }
            i += 1;
        }
        j += 1;
    }
    true
}

impl Node {
    /// Checks that every directory of the tree names each of its entries
    /// once.
    pub fn is_well_formed(&self) -> (r: bool)
        ensures
            r == well_formed(*self),
        decreases self,
    {
        match self {
            Node::Dir(d) => {
                if !names_are_distinct(d) {
                    return false;
                }
                let mut i: usize = 0;
                while i < d.children.len()
                    invariant
                        i <= d.children.len(),
                        *self is Dir && self->Dir_0 == *d,
                        forall|a: int| 0 <= a < i ==> well_formed((#[trigger] d.children@[a]).node),
                    decreases d.children.len() - i,
                {
                    let child = &d.children[i];
                    assert(decreases_to!(*self => self->Dir_0));
                    assert(decreases_to!(d.children => d.children@));
                    assert(decreases_to!(d.children@ => d.children@[i as int]));
                    if !child.node.is_well_formed() {
                        return false;
                    }
                    i += 1;
                }
                true
            },
            _ => true,
        }
    }
}

/// The path that an effect is about.
pub open spec fn step_path(e: Effect) -> Path {
    match e {
        Effect::MakeDir { path, .. } => path,
        Effect::WriteFile { path, .. } => path,
        Effect::WriteTemplate { path, .. } => path,
        Effect::LeftInPlace { path } => path,
    }
}

/// Whether every step is about `root` or a path below it.
pub open spec fn all_below(steps: Seq<Effect>, root: Path) -> bool {
    forall|k: int| 0 <= k < steps.len() ==> root.is_prefix_of(step_path(#[trigger] steps[k]))
}

/// Whether no path is created by two steps.
pub open spec fn created_once(steps: Seq<Effect>) -> bool {
    forall|j: int, k: int|
        0 <= j < k < steps.len() && created_by(#[trigger] steps[j]) is Some && created_by(
            #[trigger] steps[k],
        ) is Some ==> created_by(steps[j]) != created_by(steps[k])
}

/// Whether `path` lies at or below an entry of `dir` from position `i` on.
pub open spec fn under_entry(dir: DirSpec, i: int, parent: Path, path: Path) -> bool {
    exists|m: int|
        i <= m < dir.children@.len() && parent.push((#[trigger] dir.children@[m]).name@).is_prefix_of(
            path,
        )
}

proof fn lemma_prefix_of_push(parent: Path, name: Seq<char>, path: Path)
    requires
        parent.push(name).is_prefix_of(path),
    ensures
        parent.is_prefix_of(path),
        path.len() > parent.len(),
        path[parent.len() as int] == name,
        path != parent,
{
    let longer = parent.push(name);
    assert(path.subrange(0, longer.len() as int) =~= longer);
    assert(path[parent.len() as int] == path.subrange(0, longer.len() as int)[parent.len() as int]);
    assert(parent =~= path.subrange(0, parent.len() as int)) by {
        assert forall|k: int| 0 <= k < parent.len() implies parent[k] == path[k] by {
            assert(longer[k] == path.subrange(0, longer.len() as int)[k]);
        }
    }
}

proof fn lemma_created_once_concat(a: Seq<Effect>, b: Seq<Effect>)
    requires
        created_once(a),
        created_once(b),
        forall|j: int, k: int|
            0 <= j < a.len() && 0 <= k < b.len() ==> step_path(#[trigger] a[j]) != step_path(
                #[trigger] b[k],
            ),
    ensures
        created_once(a + b),
{
    let ab = a + b;
    assert forall|j: int, k: int|
        0 <= j < k < ab.len() && created_by(#[trigger] ab[j]) is Some && created_by(
            #[trigger] ab[k],
        ) is Some implies created_by(ab[j]) != created_by(ab[k]) by {
        if k < a.len() {
            assert(ab[j] == a[j] && ab[k] == a[k]);
        } else if j >= a.len() {
            assert(ab[j] == b[j - a.len()] && ab[k] == b[k - a.len()]);
        } else {
            assert(ab[j] == a[j] && ab[k] == b[k - a.len()]);
            assert(step_path(a[j]) != step_path(b[k - a.len()]));
        }
    }
}

/// Every step of the plan for a node is about the node's path or a path
/// below it, and in a well-formed tree no path is created twice.
pub proof fn lemma_node_plan_shape(
    node: Node,
    path: Path,
    mode: u32,
    features: Map<Seq<char>, bool>,
    existing: Set<Path>,
)
    requires
        well_formed(node),
    ensures
        all_below(node_plan(node, path, mode, features, existing), path),
        created_once(node_plan(node, path, mode, features, existing)),
    decreases node, 0nat,
{
    let plan = node_plan(node, path, mode, features, existing);
    match node {
        Node::Dir(d) => {
            let head = seq![Effect::MakeDir { path, mode }];
            let tail = children_plan(d, 0, path, features, existing.insert(path));
            lemma_children_plan_shape(d, 0, path, features, existing.insert(path));
            assert forall|j: int, k: int| 0 <= j < head.len() && 0 <= k < tail.len() implies step_path(
                #[trigger] head[j],
            ) != step_path(#[trigger] tail[k]) by {
                let m = choose|m: int|
                    0 <= m < d.children@.len() && path.push(
                        (#[trigger] d.children@[m]).name@,
                    ).is_prefix_of(step_path(tail[k]));
                lemma_prefix_of_push(path, d.children@[m].name@, step_path(tail[k]));
            }
            lemma_created_once_concat(head, tail);
            assert forall|k: int| 0 <= k < plan.len() implies path.is_prefix_of(
                step_path(#[trigger] plan[k]),
            ) by {
                if k == 0 {
                    assert(step_path(plan[0]) == path);
                    assert(path.subrange(0, path.len() as int) =~= path);
                } else {
                    assert(plan[k] == tail[k - 1]);
                    let m = choose|m: int|
                        0 <= m < d.children@.len() && path.push(
                            (#[trigger] d.children@[m]).name@,
                        ).is_prefix_of(step_path(tail[k - 1]));
                    lemma_prefix_of_push(path, d.children@[m].name@, step_path(tail[k - 1]));
                }
            }
        },
        _ => {
            assert(path.subrange(0, path.len() as int) =~= path);
        },
    }
}

proof fn lemma_children_plan_shape(
    dir: DirSpec,
    i: int,
    parent: Path,
    features: Map<Seq<char>, bool>,
    existing: Set<Path>,
)
    requires
        0 <= i,
        distinct_names(dir),
        forall|m: int| 0 <= m < dir.children@.len() ==> well_formed((#[trigger] dir.children@[m]).node),
    ensures
        created_once(children_plan(dir, i, parent, features, existing)),
        forall|k: int|
            0 <= k < children_plan(dir, i, parent, features, existing).len() ==> under_entry(
                dir,
                i,
                parent,
                step_path(#[trigger] children_plan(dir, i, parent, features, existing)[k]),
            ),
    decreases dir, dir.children@.len() - i,
{
    if i < dir.children@.len() {
        let child = dir.children@[i];
        let target = parent.push(child.name@);
        let first = child_plan(child, parent, features, existing);
        let rest = children_plan(dir, i + 1, parent, features, grown(existing, first));
        let plan = first + rest;
        assert(decreases_to!(dir.children => dir.children@));
        assert(decreases_to!(dir.children@ => dir.children@[i]));
        lemma_child_plan_shape(child, parent, features, existing);
        lemma_children_plan_shape(
            dir,
            i + 1,
            parent,
            features,
            grown(existing, first),
        );
        assert forall|j: int, k: int| 0 <= j < first.len() && 0 <= k < rest.len() implies step_path(
            #[trigger] first[j],
        ) != step_path(#[trigger] rest[k]) by {
            let m = choose|m: int|
                i + 1 <= m < dir.children@.len() && parent.push(
                    (#[trigger] dir.children@[m]).name@,
                ).is_prefix_of(step_path(rest[k]));
            lemma_prefix_of_push(parent, dir.children@[m].name@, step_path(rest[k]));
            lemma_prefix_of_push(parent, child.name@, step_path(first[j]));
            assert(dir.children@[i].name@ != dir.children@[m].name@);
        }
        lemma_created_once_concat(first, rest);
        assert forall|k: int| 0 <= k < plan.len() implies under_entry(
            dir,
            i,
            parent,
            step_path(#[trigger] plan[k]),
        ) by {
            if k < first.len() {
                assert(plan[k] == first[k]);
                assert(target.is_prefix_of(step_path(first[k])));
                assert(parent.push(dir.children@[i].name@).is_prefix_of(step_path(plan[k])));
            } else {
                assert(plan[k] == rest[k - first.len()]);
                let m = choose|m: int|
                    i + 1 <= m < dir.children@.len() && parent.push(
                        (#[trigger] dir.children@[m]).name@,
                    ).is_prefix_of(step_path(rest[k - first.len()]));
                assert(parent.push(dir.children@[m].name@).is_prefix_of(step_path(plan[k])));
            }
        }
    }
}

proof fn lemma_child_plan_shape(
    child: Child,
    parent: Path,
    features: Map<Seq<char>, bool>,
    existing: Set<Path>,
)
    requires
        well_formed(child.node),
    ensures
        all_below(child_plan(child, parent, features, existing), parent.push(child.name@)),
        created_once(child_plan(child, parent, features, existing)),
    decreases child, 0nat,
{
    let target = parent.push(child.name@);
    let plan = child_plan(child, parent, features, existing);
    lemma_node_plan_shape(child.node, target, child.mode, features, existing);
    if plan != node_plan(child.node, target, child.mode, features, existing) {
        assert(target.subrange(0, target.len() as int) =~= target);
        if plan.len() > 0 {
            assert(plan =~= seq![Effect::LeftInPlace { path: target }]);
        }
    }
}

/// In a well-formed tree, a pass creates no path twice: each directory is
/// made once and each file is written once.
pub proof fn lemma_pass_creates_each_path_once(
    root: Node,
    features: Map<Seq<char>, bool>,
    existing: Set<Path>,
)
    requires
        well_formed(root),
    ensures
        created_once(scaffold_plan(root, features, existing)),
{
    if root is Dir {
        lemma_node_plan_shape(root, Seq::empty(), 0o777, features, existing);
    }
}

/// In a directory that names each entry once: if a guard of the entry at
/// position `k` names something that exists when the traversal enters the
/// directory, then no step of the directory's plan is about that entry's
/// path or any path below it, whatever the features say. The entry and all
/// its descendants stay unwritten.
pub proof fn lemma_guarded_entry_stays_unwritten(
    dir: DirSpec,
    i: int,
    k: int,
    parent: Path,
    features: Map<Seq<char>, bool>,
    existing: Set<Path>,
)
    requires
        0 <= i <= k < dir.children@.len(),
        well_formed(Node::Dir(dir)),
        dir.children@[k].when is Some,
        guard_hit(dir.children@[k].when->0.if_not_present@, parent, existing),
    ensures
        forall|n: int|
            0 <= n < children_plan(dir, i, parent, features, existing).len() ==> !parent.push(
                dir.children@[k].name@,
            ).is_prefix_of(step_path(#[trigger] children_plan(dir, i, parent, features, existing)[n])),
    decreases k - i,
{
    let guarded = dir.children@[k];
    let spared = parent.push(guarded.name@);
    let child = dir.children@[i];
    let first = child_plan(child, parent, features, existing);
    let later = grown(existing, first);
    let rest = children_plan(dir, i + 1, parent, features, later);
    let plan = children_plan(dir, i, parent, features, existing);
    assert(plan == first + rest);
    assert(well_formed(dir.children@[i].node));
    lemma_child_plan_shape(child, parent, features, existing);
    lemma_children_plan_shape(dir, i + 1, parent, features, later);
    if i < k {
        let g = choose|g: int|
            0 <= g < guarded.when->0.if_not_present@.len() && existing.contains(
                parent.push(#[trigger] guarded.when->0.if_not_present@[g]@),
            );
        assert(later.contains(parent.push(guarded.when->0.if_not_present@[g]@)));
        lemma_guarded_entry_stays_unwritten(dir, i + 1, k, parent, features, later);
    }
    assert forall|n: int| 0 <= n < plan.len() implies !spared.is_prefix_of(
        step_path(#[trigger] plan[n]),
    ) by {
        if spared.is_prefix_of(step_path(plan[n])) {
            lemma_prefix_of_push(parent, guarded.name@, step_path(plan[n]));
            if n < first.len() {
                assert(plan[n] == first[n]);
                assert(i < k);
                lemma_prefix_of_push(parent, child.name@, step_path(first[n]));
                assert(dir.children@[i].name@ != dir.children@[k].name@);
            } else {
                let r = n - first.len();
                assert(plan[n] == rest[r]);
                if i == k {
                    let m = choose|m: int|
                        i + 1 <= m < dir.children@.len() && parent.push(
                            (#[trigger] dir.children@[m]).name@,
                        ).is_prefix_of(step_path(rest[r]));
                    lemma_prefix_of_push(parent, dir.children@[m].name@, step_path(rest[r]));
                    assert(dir.children@[k].name@ != dir.children@[m].name@);
                }
            }
        }
    }
}

} // verus!
