//! The paths whose existence a rendering plan depends on.

use vstd::prelude::*;
use crate::paths::{child_path, Path};
use crate::render::{
    child_plan, children_plan, grown, guard_hit, node_plan, scaffold_plan, Child, DirSpec, Effect,
    Node,
};
use crate::text::texts;

verus! {

/// The paths in the directory `parent` that the guards name.
pub open spec fn guard_paths(guards: Seq<String>, parent: Path) -> Seq<Path> {
    Seq::new(guards.len(), |i: int| parent.push(guards[i]@))
}

/// The paths consulted while planning `node` at `path`.
pub open spec fn node_probes(node: Node, path: Path) -> Seq<Path>
    decreases node, 0nat,
{
    match node {
        Node::Dir(d) => children_probes(d, 0, path),
        _ => Seq::empty(),
    }
}

/// The paths consulted while planning the entries of `dir` from `i` on.
pub open spec fn children_probes(dir: DirSpec, i: int, parent: Path) -> Seq<Path>
    decreases dir, dir.children@.len() - i,
{
    if 0 <= i < dir.children@.len() {
        child_probes(dir.children@[i], parent) + children_probes(dir, i + 1, parent)
    } else {
        Seq::empty()
    }
}

/// The paths consulted while planning one entry: its own path, the paths
/// its guards name, and what planning the entry itself consults.
pub open spec fn child_probes(child: Child, parent: Path) -> Seq<Path>
    decreases child, 0nat,
{
    let target = parent.push(child.name@);
    let guards = match child.when {
        Some(w) => guard_paths(w.if_not_present@, parent),
        None => Seq::empty(),
    };
    seq![target] + guards + node_probes(child.node, target)
}

/// Whether two sets of existing paths agree on every probe.
pub open spec fn agree_on(a: Set<Path>, b: Set<Path>, probes: Seq<Path>) -> bool {
    forall|k: int| 0 <= k < probes.len() ==> a.contains(#[trigger] probes[k]) == b.contains(probes[k])
}

/// The paths of a list, each as its segments' texts.
pub open spec fn path_texts(paths: Seq<Vec<String>>) -> Seq<Path> {
    Seq::new(paths.len(), |i: int| texts(paths[i]@))
}

fn probe_node(node: &Node, path: &Vec<String>, out: &mut Vec<Vec<String>>)
    ensures
        path_texts(final(out)@) == path_texts(old(out)@) + node_probes(*node, texts(path@)),
    decreases node, 0nat,
{
    match node {
        Node::Dir(d) => {
            let ghost here = texts(path@);
            let ghost whole = node_probes(*node, here);
            let mut i: usize = 0;
            while i < d.children.len()
                invariant
                    i <= d.children.len(),
                    *node is Dir && node->Dir_0 == *d,
                    here == texts(path@),
                    path_texts(out@) + children_probes(*d, i as int, here) == path_texts(old(out)@)
                        + whole,
                decreases d.children.len() - i,
            {
                let ghost done = path_texts(out@);
                let ghost first = child_probes(d.children@[i as int], here);
                let ghost rest = children_probes(*d, i + 1, here);
                let child = &d.children[i];
                assert(decreases_to!(*node => node->Dir_0));
                assert(decreases_to!(d.children => d.children@));
                assert(decreases_to!(d.children@ => d.children@[i as int]));
                probe_child(child, path, out);
                assert(done + (first + rest) =~= (done + first) + rest);
                i += 1;
            }
            assert(path_texts(out@) + Seq::<Path>::empty() =~= path_texts(out@));
        },
        _ => {
            assert(path_texts(out@) + Seq::<Path>::empty() =~= path_texts(out@));
        },
    }
}

fn probe_child(child: &Child, parent: &Vec<String>, out: &mut Vec<Vec<String>>)
    ensures
        path_texts(final(out)@) == path_texts(old(out)@) + child_probes(*child, texts(parent@)),
    decreases child, 0nat,
{
    let ghost start = path_texts(out@);
    let ghost here = texts(parent@);
    let target = child_path(parent, &child.name);
    let ghost target_text = texts(target@);
    out.push(child_path(parent, &child.name));
    assert(path_texts(out@) =~= start + seq![target_text]);
    match &child.when {
        Some(w) => {
            let mut i: usize = 0;
            while i < w.if_not_present.len()
                invariant
                    i <= w.if_not_present.len(),
                    here == texts(parent@),
                    path_texts(out@) == start + seq![target_text] + guard_paths(
                        w.if_not_present@,
                        here,
                    ).take(i as int),
                decreases w.if_not_present.len() - i,
            {
                let ghost done = path_texts(out@);
                let probe = child_path(parent, &w.if_not_present[i]);
                let ghost probe_text = texts(probe@);
                out.push(probe);
                proof {
                    let guards = guard_paths(w.if_not_present@, here);
                    assert(guards.take(i + 1) =~= guards.take(i as int).push(probe_text));
                    assert(path_texts(out@) =~= done.push(probe_text));
                    assert(path_texts(out@) =~= start + seq![target_text] + guards.take(i + 1));
                }
                i += 1;
            }
            proof {
                let guards = guard_paths(w.if_not_present@, here);
                assert(guards.take(guards.len() as int) =~= guards);
            }
        },
        None => {
            assert(path_texts(out@) =~= start + seq![target_text] + Seq::<Path>::empty());
        },
    }
    let ghost mid = path_texts(out@);
    probe_node(&child.node, &target, out);
    proof {
        let guards = if child.when is Some {
            guard_paths(child.when->0.if_not_present@, here)
        } else {
            Seq::empty()
        };
        let below = node_probes(child.node, target_text);
        assert(start + (seq![target_text] + guards + below) =~= (start + seq![target_text] + guards)
            + below);
    }
}

/// Lists the paths whose existence decides what the plan for `root` holds.
/// A caller need look at no other path of the target directory.
pub fn probe_paths(root: &Node) -> (r: Vec<Vec<String>>)
    ensures
        path_texts(r@) == node_probes(*root, Seq::empty()),
{
    let mut out: Vec<Vec<String>> = Vec::new();
    let top: Vec<String> = Vec::new();
    assert(texts(top@) =~= Seq::<Seq<char>>::empty());
    assert(path_texts(out@) =~= Seq::<Path>::empty());
    probe_node(root, &top, &mut out);
    assert(Seq::<Path>::empty() + node_probes(*root, Seq::empty()) =~= node_probes(
        *root,
        Seq::empty(),
    ));
    out
}

proof fn lemma_agree_split(a: Set<Path>, b: Set<Path>, p: Seq<Path>, q: Seq<Path>)
    requires
        agree_on(a, b, p + q),
    ensures
        agree_on(a, b, p),
        agree_on(a, b, q),
{
    let pq = p + q;
    assert forall|k: int| 0 <= k < p.len() implies a.contains(#[trigger] p[k]) == b.contains(p[k]) by {
        assert(pq[k] == p[k]);
    }
    assert forall|k: int| 0 <= k < q.len() implies a.contains(#[trigger] q[k]) == b.contains(q[k]) by {
        assert(pq[p.len() + k] == q[k]);
    }
}

proof fn lemma_agree_grown(a: Set<Path>, b: Set<Path>, probes: Seq<Path>, steps: Seq<Effect>)
    requires
        agree_on(a, b, probes),
    ensures
        agree_on(grown(a, steps), grown(b, steps), probes),
{
}

proof fn lemma_node_reads_probes(
    node: Node,
    path: Path,
    mode: u32,
    features: Map<Seq<char>, bool>,
    a: Set<Path>,
    b: Set<Path>,
)
    requires
        agree_on(a, b, node_probes(node, path)),
    ensures
        node_plan(node, path, mode, features, a) == node_plan(node, path, mode, features, b),
    decreases node, 0nat,
{
    match node {
        Node::Dir(d) => {
            assert(agree_on(a.insert(path), b.insert(path), children_probes(d, 0, path)));
            lemma_children_read_probes(d, 0, path, features, a.insert(path), b.insert(path));
        },
        _ => {},
    }
}

proof fn lemma_children_read_probes(
    dir: DirSpec,
    i: int,
    parent: Path,
    features: Map<Seq<char>, bool>,
    a: Set<Path>,
    b: Set<Path>,
)
    requires
        0 <= i,
        agree_on(a, b, children_probes(dir, i, parent)),
    ensures
        children_plan(dir, i, parent, features, a) == children_plan(dir, i, parent, features, b),
    decreases dir, dir.children@.len() - i,
{
    if i < dir.children@.len() {
        let child = dir.children@[i];
        let rest = children_probes(dir, i + 1, parent);
        lemma_agree_split(a, b, child_probes(child, parent), rest);
        assert(decreases_to!(dir.children => dir.children@));
        assert(decreases_to!(dir.children@ => dir.children@[i]));
        lemma_child_reads_probes(child, parent, features, a, b);
        let first = child_plan(child, parent, features, a);
        lemma_agree_grown(a, b, rest, first);
        lemma_children_read_probes(dir, i + 1, parent, features, grown(a, first), grown(b, first));
    }
}

proof fn lemma_child_reads_probes(
    child: Child,
    parent: Path,
    features: Map<Seq<char>, bool>,
    a: Set<Path>,
    b: Set<Path>,
)
    requires
        agree_on(a, b, child_probes(child, parent)),
    ensures
        child_plan(child, parent, features, a) == child_plan(child, parent, features, b),
    decreases child, 0nat,
{
    let target = parent.push(child.name@);
    let guards = match child.when {
        Some(w) => guard_paths(w.if_not_present@, parent),
        None => Seq::empty(),
    };
    let below = node_probes(child.node, target);
    lemma_agree_split(a, b, seq![target] + guards, below);
    lemma_agree_split(a, b, seq![target], guards);
    assert(seq![target][0] == target);
    assert(a.contains(target) == b.contains(target));
    match child.when {
        Some(w) => {
            assert forall|g: int| 0 <= g < w.if_not_present@.len() implies a.contains(
                parent.push(#[trigger] w.if_not_present@[g]@),
            ) == b.contains(parent.push(w.if_not_present@[g]@)) by {
                assert(guards[g] == parent.push(w.if_not_present@[g]@));
            }
            assert(guard_hit(w.if_not_present@, parent, a) == guard_hit(w.if_not_present@, parent, b));
        },
        None => {},
    }
    lemma_node_reads_probes(child.node, target, child.mode, features, a, b);
}

/// The plan depends on the target directory only through the probes: two
/// sets of existing paths that agree on every probe give the same plan.
pub proof fn lemma_plan_reads_only_probes(
    root: Node,
    features: Map<Seq<char>, bool>,
    a: Set<Path>,
    b: Set<Path>,
)
    requires
        agree_on(a, b, node_probes(root, Seq::empty())),
    ensures
        scaffold_plan(root, features, a) == scaffold_plan(root, features, b),
{
    lemma_node_reads_probes(root, Seq::empty(), 0o777, features, a, b);
}

} // verus!
