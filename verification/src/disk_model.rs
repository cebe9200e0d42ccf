//! A model of the target directory, and the proof that a second pass over
//! an unchanged tree leaves it as the first pass left it.

use vstd::prelude::*;
use crate::paths::Path;
use crate::render::{
    created_by, grown, is_write, lemma_grown_concat, lemma_grown_one, scaffold_plan, Effect, Node,
};
use crate::render_laws::{lemma_second_pass_repeats_first, repeats};
use crate::tree_shape::{created_once, lemma_pass_creates_each_path_once, well_formed};

verus! {

/// What lies at a path.
pub enum Entry {
    /// A directory.
    Directory,
    /// A file with the given contents.
    Literal(Seq<char>),
    /// A file holding what the named template renders to for the file at
    /// the given path, under the settings of the run.
    Rendered { template_name: Seq<char>, filename: Path },
}

/// The target directory: what lies at each path that exists.
pub type Disk = Map<Path, Entry>;

/// The disk after one step. Making a directory that exists changes
/// nothing; writing a file replaces what was there; an advisory changes
/// nothing.
pub open spec fn after_step(disk: Disk, e: Effect) -> Disk {
    match e {
        Effect::MakeDir { path, .. } => if disk.dom().contains(path) {
            disk
        } else {
            disk.insert(path, Entry::Directory)
        },
        Effect::WriteFile { path, contents, .. } => disk.insert(path, Entry::Literal(contents)),
        Effect::WriteTemplate { path, template_name, .. } => disk.insert(
            path,
            Entry::Rendered { template_name, filename: path },
        ),
        Effect::LeftInPlace { .. } => disk,
    }
}

/// The disk after all the steps, carried out in order.
pub open spec fn carried_out(disk: Disk, steps: Seq<Effect>) -> Disk
    decreases steps.len(),
{
    if steps.len() == 0 {
        disk
    } else {
        after_step(carried_out(disk, steps.drop_last()), steps.last())
    }
}

/// The paths that exist after the steps are those that existed before and
/// those that the steps created.
pub proof fn lemma_paths_after(disk: Disk, steps: Seq<Effect>)
    ensures
        carried_out(disk, steps).dom() == grown(disk.dom(), steps),
    decreases steps.len(),
{
    if steps.len() == 0 {
        assert(grown(disk.dom(), steps) =~= disk.dom());
    } else {
        let front = steps.drop_last();
        let mid = carried_out(disk, front);
        lemma_paths_after(disk, front);
        lemma_grown_one(mid.dom(), steps.last());
        lemma_grown_concat(disk.dom(), front, seq![steps.last()]);
        assert(front + seq![steps.last()] =~= steps);
        assert(after_step(mid, steps.last()).dom() =~= grown(mid.dom(), seq![steps.last()]));
    }
}

/// What a write leaves at its path.
pub open spec fn written_by(e: Effect) -> Entry {
    match e {
        Effect::WriteFile { contents, .. } => Entry::Literal(contents),
        Effect::WriteTemplate { path, template_name, .. } => Entry::Rendered {
            template_name,
            filename: path,
        },
        _ => Entry::Directory,
    }
}

proof fn lemma_write_survives(disk: Disk, steps: Seq<Effect>, k: int)
    requires
        created_once(steps),
        0 <= k < steps.len(),
        is_write(steps[k]),
    ensures
        carried_out(disk, steps).dom().contains(created_by(steps[k])->0),
        carried_out(disk, steps)[created_by(steps[k])->0] == written_by(steps[k]),
    decreases steps.len(),
{
    let front = steps.drop_last();
    if k < steps.len() - 1 {
        assert(created_once(front)) by {
            assert forall|a: int, b: int|
                0 <= a < b < front.len() && created_by(#[trigger] front[a]) is Some && created_by(
                    #[trigger] front[b],
                ) is Some implies created_by(front[a]) != created_by(front[b]) by {
                assert(front[a] == steps[a] && front[b] == steps[b]);
            }
        }
        assert(front[k] == steps[k]);
        lemma_write_survives(disk, front, k);
        if created_by(steps.last()) is Some {
            assert(created_by(steps[k]) != created_by(steps[steps.len() - 1]));
        }
    }
}

proof fn lemma_idle_steps(disk: Disk, steps: Seq<Effect>)
    requires
        forall|k: int| 0 <= k < steps.len() ==> after_step(disk, #[trigger] steps[k]) == disk,
    ensures
        carried_out(disk, steps) == disk,
    decreases steps.len(),
{
    if steps.len() > 0 {
        let front = steps.drop_last();
        assert forall|k: int| 0 <= k < front.len() implies after_step(disk, #[trigger] front[k])
            == disk by {
            assert(front[k] == steps[k]);
        }
        lemma_idle_steps(disk, front);
        assert(steps.last() == steps[steps.len() - 1]);
    }
}

/// Rendering a well-formed tree twice, with unchanged features: the second
/// pass leaves at every path exactly what the first pass left there. No
/// path appears or disappears, and no file changes its contents.
pub proof fn lemma_render_is_idempotent(root: Node, features: Map<Seq<char>, bool>, disk: Disk)
    requires
        well_formed(root),
    ensures
        ({
            let first = scaffold_plan(root, features, disk.dom());
            let once = carried_out(disk, first);
            let second = scaffold_plan(root, features, once.dom());
            carried_out(once, second) == once
        }),
{
    let first = scaffold_plan(root, features, disk.dom());
    let once = carried_out(disk, first);
    let second = scaffold_plan(root, features, once.dom());
    lemma_paths_after(disk, first);
    lemma_second_pass_repeats_first(root, features, disk.dom());
    lemma_pass_creates_each_path_once(root, features, disk.dom());
    assert(repeats(second, first));
    assert forall|k: int| 0 <= k < second.len() implies after_step(once, #[trigger] second[k])
        == once by {
        let step = second[k];
        if created_by(step) is Some {
            let path = created_by(step)->0;
            assert(grown(once.dom(), second).contains(path));
            assert(once.dom().contains(path));
            if is_write(step) {
                let j = choose|j: int| 0 <= j < first.len() && first[j] == step;
                lemma_write_survives(disk, first, j);
                assert(once.insert(path, written_by(step)) =~= once);
            }
        }
    }
    lemma_idle_steps(once, second);
}

} // verus!
