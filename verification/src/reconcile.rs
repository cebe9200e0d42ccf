//! One reconciliation of a whole manifest: dependencies, then run scripts,
//! then the settings block. Everything else in the manifest is left alone.

use vstd::prelude::*;
use crate::deps::{notes, reconcile_dependencies, DependencyAction, DependencySpec, Ledger};
use crate::manifest::json_entries;
use crate::scripts::{reconcile_scripts, Journal, RunScriptSpec, ScriptAction};
use crate::settings::Settings;

verus! {

/// A project manifest, split into what the tool manages and the rest.
pub struct ProjectManifest {
    /// Every field that the tool does not manage.
    pub rest: serde_json::Map<String, serde_json::Value>,
    pub dependencies: serde_json::Map<String, serde_json::Value>,
    pub dev_dependencies: serde_json::Map<String, serde_json::Value>,
    pub scripts: serde_json::Map<String, serde_json::Value>,
    /// The settings persisted by the last run.
    pub settings: Settings,
}

/// What one reconciliation did, for the user to read.
pub struct Report {
    pub dependency_actions: Vec<DependencyAction>,
    pub script_actions: Vec<ScriptAction>,
}

/// Reconciles the manifest with the candidates. The settings found in the
/// manifest are the old snapshot, `updated` is the new one and replaces
/// them; `last_run` is the release that wrote the manifest last.
pub fn reconcile_manifest(
    manifest: &mut ProjectManifest,
    updated: Settings,
    dependency_candidates: &Vec<DependencySpec>,
    script_candidates: &Vec<RunScriptSpec>,
    last_run: &str,
) -> (r: Report)
    ensures
        final(manifest).rest == old(manifest).rest,
        final(manifest).settings == updated,
        ({
            let end = crate::deps::reconciled(
                dependency_candidates@,
                dependency_candidates@.len() as int,
                old(manifest).settings.flat(),
                updated.flat(),
                Ledger {
                    deps: json_entries(old(manifest).dependencies),
                    dev: json_entries(old(manifest).dev_dependencies),
                    log: Seq::empty(),
                },
            );
            &&& json_entries(final(manifest).dependencies) == end.deps
            &&& json_entries(final(manifest).dev_dependencies) == end.dev
            &&& notes(r.dependency_actions@) == end.log
        }),
        ({
            let end = crate::scripts::reconciled(
                script_candidates@,
                script_candidates@.len() as int,
                updated.flat(),
                last_run@,
                Journal { scripts: json_entries(old(manifest).scripts), log: Seq::empty() },
            );
            &&& json_entries(final(manifest).scripts) == end.scripts
            &&& r.script_actions@ == end.log
        }),
{
    let before = manifest.settings.flatten();
    let after = updated.flatten();
    let dependency_actions = reconcile_dependencies(
        dependency_candidates,
        &before,
        &after,
        &mut manifest.dependencies,
        &mut manifest.dev_dependencies,
    );
    let script_actions = reconcile_scripts(script_candidates, &after, &mut manifest.scripts, last_run);
    manifest.settings = updated;
    Report { dependency_actions, script_actions }
}

} // verus!
