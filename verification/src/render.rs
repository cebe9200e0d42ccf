//! Planning the rendering of a declarative tree of directories, files and
//! templates onto a target directory.
//!
//! The planner reads no disk. It is given the set of paths that exist and
//! returns, in traversal order, the steps that bring the tree onto the
//! target. Whoever carries the steps out stops at the first one that fails.

use vstd::prelude::*;
use crate::paths::{child_path, Path, PathSet};
use crate::text::texts;
use crate::settings::Settings;
use crate::when::{FeatureMap, When};

verus! {

/// A file with literal contents.
pub struct FileSpec {
    pub contents: String,
}

/// A file whose contents come from rendering a named template.
pub struct TemplateSpec {
    pub template_name: String,
}

/// One entry of a directory: its name, its permission bits, what it is and
/// the condition that decides whether it is rendered.
pub struct Child {
    pub name: String,
    pub mode: u32,
    pub node: Node,
    pub when: Option<When>,
}

/// A directory, with its entries in traversal order.
pub struct DirSpec {
    pub children: Vec<Child>,
}

/// A node of the tree.
pub enum Node {
    Dir(DirSpec),
    File(FileSpec),
    Template(TemplateSpec),
}

/// One step of a rendering plan.
pub enum Step {
    /// Create the directory if it does not exist yet.
    MakeDir { path: Vec<String>, mode: u32 },
    /// Create or truncate the file and write the literal contents.
    WriteFile { path: Vec<String>, mode: u32, contents: String },
    /// Create or truncate the file and write what the template renders to,
    /// given the feature snapshot and the file's own path.
    WriteTemplate { path: Vec<String>, mode: u32, template_name: String },
    /// Advisory: the path exists but is no longer wanted; it is not removed.
    LeftInPlace { path: Vec<String> },
}

/// The mathematical content of a [`Step`].
pub enum Effect {
    MakeDir { path: Path, mode: u32 },
    WriteFile { path: Path, mode: u32, contents: Seq<char> },
    WriteTemplate { path: Path, mode: u32, template_name: Seq<char> },
    LeftInPlace { path: Path },
}

impl View for Step {
    type V = Effect;

    open spec fn view(&self) -> Effect {
        match self {
            Step::MakeDir { path, mode } => Effect::MakeDir { path: texts(path@), mode: *mode },
            Step::WriteFile { path, mode, contents } => Effect::WriteFile {
                path: texts(path@),
                mode: *mode,
                contents: contents@,
            },
            Step::WriteTemplate { path, mode, template_name } => Effect::WriteTemplate {
                path: texts(path@),
                mode: *mode,
                template_name: template_name@,
            },
            Step::LeftInPlace { path } => Effect::LeftInPlace { path: texts(path@) },
        }
    }
}

/// The effects that a list of steps denotes.
pub open spec fn effects(steps: Seq<Step>) -> Seq<Effect> {
    Seq::new(steps.len(), |i: int| steps[i]@)
}

/// The path that an effect brings into existence, if it does.
pub open spec fn created_by(e: Effect) -> Option<Path> {
    match e {
        Effect::MakeDir { path, .. } => Some(path),
        Effect::WriteFile { path, .. } => Some(path),
        Effect::WriteTemplate { path, .. } => Some(path),
        Effect::LeftInPlace { .. } => None,
    }
}

/// Whether an effect writes a file.
pub open spec fn is_write(e: Effect) -> bool {
    e is WriteFile || e is WriteTemplate
}

/// The paths that exist once `steps` have been carried out on a target where
/// `existing` existed. Nothing is ever removed.
pub open spec fn grown(existing: Set<Path>, steps: Seq<Effect>) -> Set<Path> {
    Set::new(
        |p: Path|
            existing.contains(p) || exists|k: int|
                0 <= k < steps.len() && created_by(#[trigger] steps[k]) == Some(p),
    )
}

/// Whether one of the guard segments names something that exists in the
/// directory `parent`.
pub open spec fn guard_hit(guards: Seq<String>, parent: Path, existing: Set<Path>) -> bool {
    exists|i: int| 0 <= i < guards.len() && existing.contains(parent.push(#[trigger] guards[i]@))
}

/// The steps for `node` at `path`.
pub open spec fn node_plan(
    node: Node,
    path: Path,
    mode: u32,
    features: Map<Seq<char>, bool>,
    existing: Set<Path>,
) -> Seq<Effect>
    decreases node, 0nat,
{
    match node {
        Node::Dir(d) => seq![Effect::MakeDir { path, mode }] + children_plan(
            d,
            0,
            path,
            features,
            existing.insert(path),
        ),
        Node::File(f) => seq![Effect::WriteFile { path, mode, contents: f.contents@ }],
        Node::Template(t) => seq![
            Effect::WriteTemplate { path, mode, template_name: t.template_name@ },
        ],
    }
}

/// The steps for the entries of `dir` from position `i` on, in order; each
/// entry sees what the entries before it created.
pub open spec fn children_plan(
    dir: DirSpec,
    i: int,
    parent: Path,
    features: Map<Seq<char>, bool>,
    existing: Set<Path>,
) -> Seq<Effect>
    decreases dir, dir.children@.len() - i,
{
    if 0 <= i < dir.children@.len() {
        let first = child_plan(dir.children@[i], parent, features, existing);
        first + children_plan(dir, i + 1, parent, features, grown(existing, first))
    } else {
        Seq::empty()
    }
}

/// The steps for one entry of the directory `parent`.
///
/// A conditional entry is skipped whole if one of its guard segments exists in
/// `parent`. Otherwise, if its condition is closed, nothing is written, and an
/// advisory is given if its path exists. An open or missing condition renders the
/// entry.
pub open spec fn child_plan(
    child: Child,
    parent: Path,
    features: Map<Seq<char>, bool>,
    existing: Set<Path>,
) -> Seq<Effect>
    decreases child, 0nat,
{
    let target = parent.push(child.name@);
    match child.when {
        Some(w) => if guard_hit(w.if_not_present@, parent, existing) {
            Seq::empty()
        } else if !w.satisfied(features) {
            if existing.contains(target) {
                seq![Effect::LeftInPlace { path: target }]
            } else {
                Seq::empty()
            }
        } else {
            node_plan(child.node, target, child.mode, features, existing)
        },
        None => node_plan(child.node, target, child.mode, features, existing),
    }
}

/// The plan for a whole tree: a directory at the root is rendered onto the
/// target directory itself, with all permission bits; any other root yields
/// nothing.
pub open spec fn scaffold_plan(
    root: Node,
    features: Map<Seq<char>, bool>,
    existing: Set<Path>,
) -> Seq<Effect> {
    if root is Dir {
        node_plan(root, Seq::empty(), 0o777, features, existing)
    } else {
        Seq::empty()
    }
}

/// Carrying out no step changes nothing.
pub proof fn lemma_grown_empty(existing: Set<Path>)
    ensures
        grown(existing, Seq::empty()) == existing,
{
    assert(grown(existing, Seq::empty()) =~= existing);
}

/// Carrying out one step adds the path it creates, if it creates one.
pub proof fn lemma_grown_one(existing: Set<Path>, e: Effect)
    ensures
        grown(existing, seq![e]) == (match created_by(e) {
            Some(p) => existing.insert(p),
            None => existing,
        }),
{
    let after = match created_by(e) {
        Some(p) => existing.insert(p),
        None => existing,
    };
    assert forall|p: Path| grown(existing, seq![e]).contains(p) == after.contains(p) by {
        if created_by(e) == Some(p) {
            assert(created_by(seq![e][0]) == Some(p));
        }
    }
    assert(grown(existing, seq![e]) =~= after);
}

/// Carrying out two lists of steps one after the other is carrying out
/// their concatenation.
pub proof fn lemma_grown_concat(existing: Set<Path>, a: Seq<Effect>, b: Seq<Effect>)
    ensures
        grown(grown(existing, a), b) == grown(existing, a + b),
{
    let ab = a + b;
    assert forall|p: Path| grown(grown(existing, a), b).contains(p) == grown(existing, ab).contains(
        p,
    ) by {
        if grown(existing, ab).contains(p) && !existing.contains(p) {
            let k = choose|k: int| 0 <= k < ab.len() && created_by(#[trigger] ab[k]) == Some(p);
            if k < a.len() {
                assert(created_by(a[k]) == Some(p));
            } else {
                assert(created_by(b[k - a.len()]) == Some(p));
            }
        }
        if grown(grown(existing, a), b).contains(p) && !existing.contains(p) {
            if grown(existing, a).contains(p) {
                let k = choose|k: int| 0 <= k < a.len() && created_by(#[trigger] a[k]) == Some(p);
                assert(created_by(ab[k]) == Some(p));
            } else {
                let k = choose|k: int| 0 <= k < b.len() && created_by(#[trigger] b[k]) == Some(p);
                assert(created_by(ab[a.len() + k]) == Some(p));
            }
        }
    }
    assert(grown(grown(existing, a), b) =~= grown(existing, ab));
}

fn guarded_by_existing(guards: &Vec<String>, parent: &Vec<String>, seen: &PathSet) -> (r: bool)
    ensures
        r == guard_hit(guards@, texts(parent@), seen@),
{
    let mut i: usize = 0;
    while i < guards.len()
        invariant
            i <= guards.len(),
            forall|j: int|
                0 <= j < i ==> !seen@.contains(texts(parent@).push(#[trigger] guards@[j]@)),
        decreases guards.len() - i,
    {
        let probe = child_path(parent, &guards[i]);
        if seen.contains(&probe) {
            return true;
        }
        i += 1;
    }
    false
}

fn record(out: &mut Vec<Step>, seen: &mut PathSet, step: Step, made: Option<Vec<String>>)
    requires
        match made {
            Some(p) => created_by(step@) == Some(texts(p@)),
            None => created_by(step@) is None,
        },
    ensures
        effects(final(out)@) == effects(old(out)@) + seq![step@],
        final(seen)@ == grown(old(seen)@, seq![step@]),
{
    proof {
        lemma_grown_one(seen@, step@);
    }
    out.push(step);
    assert(effects(out@) =~= effects(old(out)@) + seq![step@]);
    match made {
        Some(p) => {
            seen.insert(p);
        },
        None => {},
    }
}

impl Node {
    /// Appends to `out` the steps that render this node at `path`, and adds to
    /// `seen` the paths that those steps create.
    pub fn render(
        &self,
        path: &Vec<String>,
        mode: u32,
        features: &FeatureMap,
        seen: &mut PathSet,
        out: &mut Vec<Step>,
    )
        ensures
            effects(final(out)@) == effects(old(out)@) + node_plan(
                *self,
                texts(path@),
                mode,
                features@,
                old(seen)@,
            ),
            final(seen)@ == grown(
                old(seen)@,
                node_plan(*self, texts(path@), mode, features@, old(seen)@),
            ),
        decreases self, 0nat,
    {
        let ghost here = texts(path@);
        let ghost whole = node_plan(*self, here, mode, features@, seen@);
        match self {
            Node::File(f) => {
                let step = Step::WriteFile {
                    path: same_as(path),
                    mode,
                    contents: f.contents.clone(),
                };
                record(out, seen, step, Some(same_as(path)));
            },
            Node::Template(t) => {
                let step = Step::WriteTemplate {
                    path: same_as(path),
                    mode,
                    template_name: t.template_name.clone(),
                };
                record(out, seen, step, Some(same_as(path)));
            },
            Node::Dir(d) => {
                let step = Step::MakeDir { path: same_as(path), mode };
                let ghost first = seq![step@];
                record(out, seen, step, Some(same_as(path)));
                proof {
                    lemma_grown_one(old(seen)@, first[0]);
                    assert(seen@ == old(seen)@.insert(here));
                    lemma_grown_concat(old(seen)@, first, children_plan(*d, 0, here, features@, seen@));
                }
                let mut i: usize = 0;
                while i < d.children.len()
                    invariant
                        i <= d.children.len(),
                        *self is Dir && self->Dir_0 == *d,
                        here == texts(path@),
                        effects(out@) + children_plan(*d, i as int, here, features@, seen@) == effects(
                            old(out)@,
                        ) + whole,
                        grown(seen@, children_plan(*d, i as int, here, features@, seen@)) == grown(
                            old(seen)@,
                            whole,
                        ),
                    decreases d.children.len() - i,
                {
                    let ghost out_before = effects(out@);
                    let ghost seen_before = seen@;
                    let ghost first = child_plan(d.children@[i as int], here, features@, seen@);
                    let ghost rest = children_plan(
                        *d,
                        i + 1,
                        here,
                        features@,
                        grown(seen_before, first),
                    );
                    let child = &d.children[i];
                    assert(decreases_to!(*self => self->Dir_0));
                    assert(decreases_to!(d.children => d.children@));
                    assert(decreases_to!(d.children@ => d.children@[i as int]));
                    plan_child(child, path, features, seen, out);
                    proof {
                        assert(out_before + (first + rest) =~= (out_before + first) + rest);
                        lemma_grown_concat(seen_before, first, rest);
                    }
                    i += 1;
                }
                proof {
                    lemma_grown_empty(seen@);
                    assert(effects(out@) + Seq::<Effect>::empty() =~= effects(out@));
                }
            },
        }
    }
}

fn plan_child(
    child: &Child,
    parent: &Vec<String>,
    features: &FeatureMap,
    seen: &mut PathSet,
    out: &mut Vec<Step>,
)
    ensures
        effects(final(out)@) == effects(old(out)@) + child_plan(
            *child,
            texts(parent@),
            features@,
            old(seen)@,
        ),
        final(seen)@ == grown(old(seen)@, child_plan(*child, texts(parent@), features@, old(seen)@)),
    decreases child, 0nat,
{
    let target = child_path(parent, &child.name);
    match &child.when {
        Some(w) => {
            if guarded_by_existing(&w.if_not_present, parent, seen) {
                proof {
                    lemma_grown_empty(seen@);
                    assert(effects(out@) + Seq::<Effect>::empty() =~= effects(out@));
                }
                return ;
            }
            if !w.are_satisfied_by(features) {
                if seen.contains(&target) {
                    record(out, seen, Step::LeftInPlace { path: target }, None);
                } else {
                    proof {
                        lemma_grown_empty(seen@);
                        assert(effects(out@) + Seq::<Effect>::empty() =~= effects(out@));
                    }
                }
                return ;
            }
        },
        None => {},
    }
    child.node.render(&target, child.mode, features, seen, out);
}

fn same_as(path: &Vec<String>) -> (r: Vec<String>)
    ensures
        texts(r@) == texts(path@),
{
    let mut out: Vec<String> = Vec::new();
    let mut i: usize = 0;
    while i < path.len()
        invariant
            i <= path.len(),
            out@.len() == i,
            forall|j: int| 0 <= j < i ==> out@[j]@ == path@[j]@,
        decreases path.len() - i,
    {
        out.push(path[i].clone());
        i += 1;
    }
    assert(texts(out@) =~= texts(path@));
    out
}

/// Plans the rendering of `root`, under the given settings, onto a target
/// directory in which exactly the paths of `existing` exist.
pub fn scaffold(root: &Node, settings: &Settings, existing: &PathSet) -> (r: Vec<Step>)
    ensures
        effects(r@) == scaffold_plan(*root, settings.flat(), existing@),
{
    let features = settings.flatten();
    let mut out: Vec<Step> = Vec::new();
    match root {
        Node::Dir(_) => {
            let mut seen = PathSet { paths: copy_paths(existing) };
            let top: Vec<String> = Vec::new();
            assert(texts(top@) =~= Seq::<Seq<char>>::empty());
            root.render(&top, 0o777, &features, &mut seen, &mut out);
            assert(effects(out@) =~= scaffold_plan(*root, features@, existing@));
        },
        _ => {
            assert(effects(out@) =~= Seq::<Effect>::empty());
        },
    }
    out
}

fn copy_paths(set: &PathSet) -> (r: Vec<Vec<String>>)
    ensures
        (PathSet { paths: r })@ == set@,
{
    let mut out: Vec<Vec<String>> = Vec::new();
    let mut i: usize = 0;
    while i < set.paths.len()
        invariant
            i <= set.paths.len(),
            out@.len() == i,
            forall|j: int| 0 <= j < i ==> texts(#[trigger] out@[j]@) == texts(set.paths@[j]@),
        decreases set.paths.len() - i,
    {
        out.push(same_as(&set.paths[i]));
        i += 1;
    }
    proof {
        let copy = PathSet { paths: out };
        assert forall|p: Path| copy@.contains(p) == set@.contains(p) by {
            if copy@.contains(p) {
                let k = choose|k: int| 0 <= k < out@.len() && texts(#[trigger] out@[k]@) == p;
                assert(texts(set.paths@[k]@) == p);
            }
            if set@.contains(p) {
                let k = choose|k: int|
                    0 <= k < set.paths@.len() && texts(#[trigger] set.paths@[k]@) == p;
                assert(texts(out@[k]@) == p);
            }
        }
        assert(copy@ =~= set@);
    }
    out
}

} // verus!
