//! Reconciling the run scripts of a manifest with a list of candidates,
//! overwriting an existing script only where its value is known to be one
//! that an earlier release wrote.

use vstd::prelude::*;
use crate::manifest::{entry_text, json_entries, put_text, text_at};
use crate::when::{FeatureMap, When};

verus! {

/// What an earlier release wrote for a script: the release and the value.
pub struct VersionedScript {
    pub version: String,
    pub value: String,
}

/// A run script that the tool manages.
pub struct RunScriptSpec {
    pub key: String,
    pub value: String,
    pub preconditions: Option<When>,
    pub versions: Vec<VersionedScript>,
}

/// What happened to a script.
#[derive(Clone, Copy, Debug, PartialEq, Eq, Structural)]
pub enum ScriptChange {
    /// The desired value was written.
    Written,
    /// The script holds a value that the tool does not recognise as its
    /// own, and was left as it is.
    LeftInPlace,
}

/// One line of the action log: the candidate, by its position in the list,
/// and what happened to its script.
#[derive(Clone, Copy, Debug, PartialEq, Eq, Structural)]
pub struct ScriptAction {
    pub candidate: usize,
    pub change: ScriptChange,
}

/// Whether version `a` precedes or equals version `b` in semantic-version
/// order; `None` if either text is no semantic version.
pub uninterp spec fn semver_at_most(a: Seq<char>, b: Seq<char>) -> Option<bool>;

/// Trusted: `semver::Version::parse` on both texts, and the `<=` that
/// `semver::Version` derives. The result is a function of the two texts
/// alone; nothing else is claimed of it.
#[verifier::external_body]
pub(crate) fn version_at_most(a: &str, b: &str) -> (r: Option<bool>)
    ensures
        r == semver_at_most(a@, b@),
{
    match (semver::Version::parse(a), semver::Version::parse(b)) {
        (Ok(x), Ok(y)) => Some(x <= y),
        _ => None,
    }
}

/// Whether the history entry at `i` was released no later than `last_run`.
pub open spec fn eligible(history: Seq<VersionedScript>, i: int, last_run: Seq<char>) -> bool {
    semver_at_most(history[i].version@, last_run) == Some(true)
}

/// Among the first `n` history entries, the position of the one that the
/// release `last_run` would have written: the eligible entry of the greatest
/// version, and of several at that version the one listed first.
pub open spec fn source_among(history: Seq<VersionedScript>, n: int, last_run: Seq<char>) -> Option<
    int,
>
    decreases n,
{
    if n <= 0 {
        None
    } else {
        let best = source_among(history, n - 1, last_run);
        if !eligible(history, n - 1, last_run) {
            best
        } else if best is None {
            Some(n - 1)
        } else if semver_at_most(history[n - 1].version@, history[best->0].version@) == Some(true) {
            best
        } else {
            Some(n - 1)
        }
    }
}

/// The outcome for one wanted-or-not candidate, from plain facts.
///
/// `guarded` says that the candidate declares presence guards and its key
/// already has a value; `owned` says that the current value is exactly what
/// the release of the last run would have written.
pub open spec fn decision(
    wanted: bool,
    guarded: bool,
    current: Seq<char>,
    desired: Seq<char>,
    owned: bool,
) -> Option<ScriptChange> {
    if !wanted || current == desired {
        None
    } else if guarded && !owned {
        Some(ScriptChange::LeftInPlace)
    } else {
        Some(ScriptChange::Written)
    }
}

/// Decides what to do with one script from plain facts about it.
pub fn decide(wanted: bool, guarded: bool, current: &String, desired: &String, owned: bool) -> (r:
    Option<ScriptChange>)
    ensures
        r == decision(wanted, guarded, current@, desired@, owned),
{
    if !wanted || *current == *desired {
        None
    } else if guarded && !owned {
        Some(ScriptChange::LeftInPlace)
    } else {
        Some(ScriptChange::Written)
    }
}

/// Whether the candidate is wanted under the snapshot: only `all_of` and
/// `none_of` are consulted, and a candidate without a condition is wanted.
pub open spec fn wanted(c: RunScriptSpec, features: Map<Seq<char>, bool>) -> bool {
    match c.preconditions {
        Some(w) => w.satisfied_without_any(features),
        None => true,
    }
}

/// Whether the candidate is guarded: it declares presence guards and its key
/// already has a value.
pub open spec fn guarded(c: RunScriptSpec, scripts: Map<Seq<char>, Option<Seq<char>>>) -> bool {
    &&& c.preconditions is Some
    &&& c.preconditions->0.if_not_present@.len() > 0
    &&& scripts.dom().contains(c.key@)
}

/// Whether the script's current value is the one that the release of the
/// last run would have written.
pub open spec fn owned(
    c: RunScriptSpec,
    scripts: Map<Seq<char>, Option<Seq<char>>>,
    last_run: Seq<char>,
) -> bool {
    let source = source_among(c.versions@, c.versions@.len() as int, last_run);
    source is Some && c.versions@[source->0].value@ == text_at(scripts, c.key@)
}

/// What happens to the script of candidate `c`.
pub open spec fn change_of(
    c: RunScriptSpec,
    features: Map<Seq<char>, bool>,
    scripts: Map<Seq<char>, Option<Seq<char>>>,
    last_run: Seq<char>,
) -> Option<ScriptChange> {
    decision(
        wanted(c, features),
        guarded(c, scripts),
        text_at(scripts, c.key@),
        c.value@,
        owned(c, scripts, last_run),
    )
}

/// The scripts after candidate `c`: its desired value is written exactly
/// when the change is `Written`.
pub open spec fn scripts_after(
    c: RunScriptSpec,
    features: Map<Seq<char>, bool>,
    scripts: Map<Seq<char>, Option<Seq<char>>>,
    last_run: Seq<char>,
) -> Map<Seq<char>, Option<Seq<char>>> {
    if change_of(c, features, scripts, last_run) == Some(ScriptChange::Written) {
        scripts.insert(c.key@, Some(c.value@))
    } else {
        scripts
    }
}

/// The scripts and the log, between candidates.
pub struct Journal {
    pub scripts: Map<Seq<char>, Option<Seq<char>>>,
    pub log: Seq<ScriptAction>,
}

/// The journal after the first `n` candidates, taken in list order.
pub open spec fn reconciled(
    candidates: Seq<RunScriptSpec>,
    n: int,
    features: Map<Seq<char>, bool>,
    last_run: Seq<char>,
    start: Journal,
) -> Journal
    decreases n,
{
    if n <= 0 {
        start
    } else {
        let j = reconciled(candidates, n - 1, features, last_run, start);
        let c = candidates[n - 1];
        Journal {
            scripts: scripts_after(c, features, j.scripts, last_run),
            log: match change_of(c, features, j.scripts, last_run) {
                Some(ch) => j.log.push(ScriptAction { candidate: (n - 1) as usize, change: ch }),
                None => j.log,
            },
        }
    }
}

/// Finds the history entry that the release `last_run` would have written.
pub fn find_source(history: &Vec<VersionedScript>, last_run: &str) -> (r: Option<usize>)
    ensures
        r is Some == source_among(history@, history@.len() as int, last_run@) is Some,
        r is Some ==> r->0 as int == source_among(history@, history@.len() as int, last_run@)->0,
        r is Some ==> r->0 < history@.len(),
{
    let mut best: Option<usize> = None;
    let mut i: usize = 0;
    while i < history.len()
        invariant
            i <= history.len(),
            best is Some == source_among(history@, i as int, last_run@) is Some,
            best is Some ==> best->0 as int == source_among(history@, i as int, last_run@)->0,
            best is Some ==> best->0 < i,
        decreases history.len() - i,
    {
        let fits = version_at_most(history[i].version.as_str(), last_run);
        if fits == Some(true) {
            match best {
                None => {
                    best = Some(i);
                },
                Some(b) => {
                    let older = version_at_most(
                        history[i].version.as_str(),
                        history[b].version.as_str(),
                    );
                    if older != Some(true) {
                        best = Some(i);
                    }
                },
            }
        }
        i += 1;
    }
    best
}

/// Applies one candidate to the scripts and reports what happened.
pub fn reconcile_script(
    c: &RunScriptSpec,
    features: &FeatureMap,
    scripts: &mut serde_json::Map<String, serde_json::Value>,
    last_run: &str,
) -> (r: Option<ScriptChange>)
    ensures
        r == change_of(*c, features@, json_entries(*old(scripts)), last_run@),
        json_entries(*final(scripts)) == scripts_after(
            *c,
            features@,
            json_entries(*old(scripts)),
            last_run@,
        ),
{
    let held = entry_text(scripts, c.key.as_str());
    let is_present = held.is_some();
    let current = match held {
        Some(Some(s)) => s,
        _ => String::new(),
    };
    let (is_wanted, is_guarded) = match &c.preconditions {
        Some(w) => (w.are_required_by(features), w.if_not_present.len() > 0 && is_present),
        None => (true, false),
    };
    let is_owned = match find_source(&c.versions, last_run) {
        Some(k) => c.versions[k].value == current,
        None => false,
    };
    let change = decide(is_wanted, is_guarded, &current, &c.value, is_owned);
    match change {
        Some(ScriptChange::Written) => {
            put_text(scripts, c.key.clone(), c.value.clone());
        },
        _ => {},
    }
    change
}

/// Reconciles the scripts with the candidates, strictly in list order, and
/// returns the log of what happened. No script is ever removed.
pub fn reconcile_scripts(
    candidates: &Vec<RunScriptSpec>,
    features: &FeatureMap,
    scripts: &mut serde_json::Map<String, serde_json::Value>,
    last_run: &str,
) -> (r: Vec<ScriptAction>)
    ensures
        ({
            let end = reconciled(
                candidates@,
                candidates@.len() as int,
                features@,
                last_run@,
                Journal { scripts: json_entries(*old(scripts)), log: Seq::empty() },
            );
            &&& json_entries(*final(scripts)) == end.scripts
            &&& r@ == end.log
        }),
{
    let mut actions: Vec<ScriptAction> = Vec::new();
    let ghost start = Journal { scripts: json_entries(*scripts), log: Seq::empty() };
    let mut i: usize = 0;
    while i < candidates.len()
        invariant
            i <= candidates.len(),
            json_entries(*scripts) == reconciled(candidates@, i as int, features@, last_run@, start).scripts,
            actions@ == reconciled(candidates@, i as int, features@, last_run@, start).log,
        decreases candidates.len() - i,
    {
        match reconcile_script(&candidates[i], features, scripts, last_run) {
            Some(ch) => {
                actions.push(ScriptAction { candidate: i, change: ch });
            },
            None => {},
        }
        i += 1;
    }
    actions
}

/// A script is overwritten only if it is wanted and either unguarded or
/// holding exactly the value that the release of the last run wrote.
pub proof fn lemma_overwrite_needs_ownership(
    c: RunScriptSpec,
    features: Map<Seq<char>, bool>,
    scripts: Map<Seq<char>, Option<Seq<char>>>,
    last_run: Seq<char>,
)
    requires
        scripts_after(c, features, scripts, last_run) != scripts,
    ensures
        wanted(c, features),
        !guarded(c, scripts) || owned(c, scripts, last_run),
{
}

/// A guarded script whose value is neither the desired one nor the one that
/// the release of the last run wrote stays as it is, and is reported as left
/// in place.
pub proof fn lemma_customised_script_is_kept(
    c: RunScriptSpec,
    features: Map<Seq<char>, bool>,
    scripts: Map<Seq<char>, Option<Seq<char>>>,
    last_run: Seq<char>,
)
    requires
        wanted(c, features),
        guarded(c, scripts),
        text_at(scripts, c.key@) != c.value@,
        !owned(c, scripts, last_run),
    ensures
        scripts_after(c, features, scripts, last_run) == scripts,
        change_of(c, features, scripts, last_run) == Some(ScriptChange::LeftInPlace),
{
}

/// A wanted script that still holds what the release of the last run
/// wrote, and not yet the desired value, is overwritten with the desired
/// value and reported as written, guarded or not.
pub proof fn lemma_stale_script_is_overwritten(
    c: RunScriptSpec,
    features: Map<Seq<char>, bool>,
    scripts: Map<Seq<char>, Option<Seq<char>>>,
    last_run: Seq<char>,
)
    requires
        wanted(c, features),
        text_at(scripts, c.key@) != c.value@,
        owned(c, scripts, last_run),
    ensures
        scripts_after(c, features, scripts, last_run) == scripts.insert(c.key@, Some(c.value@)),
        change_of(c, features, scripts, last_run) == Some(ScriptChange::Written),
{
}

/// A candidate that is not wanted changes nothing and logs nothing.
pub proof fn lemma_unwanted_script_is_skipped(
    c: RunScriptSpec,
    features: Map<Seq<char>, bool>,
    scripts: Map<Seq<char>, Option<Seq<char>>>,
    last_run: Seq<char>,
)
    requires
        !wanted(c, features),
    ensures
        scripts_after(c, features, scripts, last_run) == scripts,
        change_of(c, features, scripts, last_run) is None,
{
}

/// A script whose key no candidate names comes through a whole
/// reconciliation unchanged.
pub proof fn lemma_unmanaged_scripts_pass_through(
    candidates: Seq<RunScriptSpec>,
    n: int,
    features: Map<Seq<char>, bool>,
    last_run: Seq<char>,
    start: Journal,
    key: Seq<char>,
)
    requires
        0 <= n <= candidates.len(),
        forall|i: int| 0 <= i < n ==> (#[trigger] candidates[i]).key@ != key,
    ensures
        reconciled(candidates, n, features, last_run, start).scripts.dom().contains(key)
            == start.scripts.dom().contains(key),
        start.scripts.dom().contains(key) ==> reconciled(
            candidates,
            n,
            features,
            last_run,
            start,
        ).scripts[key] == start.scripts[key],
    decreases n,
{
    if n > 0 {
        lemma_unmanaged_scripts_pass_through(candidates, n - 1, features, last_run, start, key);
        assert(candidates[n - 1].key@ != key);
    }
}

/// Reconciliation never removes a script: every key present before is
/// present after.
pub proof fn lemma_scripts_are_never_removed(
    candidates: Seq<RunScriptSpec>,
    n: int,
    features: Map<Seq<char>, bool>,
    last_run: Seq<char>,
    start: Journal,
    key: Seq<char>,
)
    requires
        0 <= n <= candidates.len(),
        start.scripts.dom().contains(key),
    ensures
        reconciled(candidates, n, features, last_run, start).scripts.dom().contains(key),
    decreases n,
{
    if n > 0 {
        lemma_scripts_are_never_removed(candidates, n - 1, features, last_run, start, key);
    }
}

/// Whether the release of entry `i` precedes or equals that of entry `j`.
pub open spec fn no_later(history: Seq<VersionedScript>, i: int, j: int) -> bool {
    semver_at_most(history[i].version@, history[j].version@) == Some(true)
}

/// Whether the releases of the history are linearly ordered: any two can be
/// compared, and the comparison is transitive.
pub open spec fn linearly_ordered(history: Seq<VersionedScript>) -> bool {
    &&& forall|i: int, j: int|
        0 <= i < history.len() && 0 <= j < history.len() ==> #[trigger] no_later(history, i, j)
            || no_later(history, j, i)
    &&& forall|i: int, j: int, k: int|
        0 <= i < history.len() && 0 <= j < history.len() && 0 <= k < history.len()
            && #[trigger] no_later(history, i, j) && #[trigger] no_later(history, j, k)
            ==> no_later(history, i, k)
}

/// The source is an eligible entry, and there is one whenever any entry is
/// eligible.
pub proof fn lemma_source_is_eligible(history: Seq<VersionedScript>, n: int, last_run: Seq<char>)
    requires
        0 <= n <= history.len(),
    ensures
        source_among(history, n, last_run) is Some ==> 0 <= source_among(history, n, last_run)->0 < n
            && eligible(history, source_among(history, n, last_run)->0, last_run),
        source_among(history, n, last_run) is None ==> forall|i: int|
            0 <= i < n ==> !eligible(history, i, last_run),
    decreases n,
{
    if n > 0 {
        lemma_source_is_eligible(history, n - 1, last_run);
    }
}

/// Where the releases are linearly ordered, the source is the eligible
/// entry of the greatest release, and every eligible entry listed before it
/// is of a strictly earlier release.
pub proof fn lemma_source_is_greatest(history: Seq<VersionedScript>, n: int, last_run: Seq<char>)
    requires
        0 <= n <= history.len(),
        linearly_ordered(history),
        source_among(history, n, last_run) is Some,
    ensures
        forall|i: int|
            0 <= i < n && eligible(history, i, last_run) ==> #[trigger] no_later(
                history,
                i,
                source_among(history, n, last_run)->0,
            ),
        forall|i: int|
            0 <= i < source_among(history, n, last_run)->0 && eligible(history, i, last_run)
                ==> !#[trigger] no_later(history, source_among(history, n, last_run)->0, i),
    decreases n,
{
    let last = n - 1;
    let before = source_among(history, n - 1, last_run);
    let now = source_among(history, n, last_run)->0;
    lemma_source_is_eligible(history, n - 1, last_run);
    lemma_source_is_eligible(history, n, last_run);
    if before is Some {
        lemma_source_is_greatest(history, n - 1, last_run);
    }
    assert(no_later(history, last, last) || no_later(history, last, last));
    if before is Some && now == last {
        let best = before->0;
        assert(no_later(history, last, best) || no_later(history, best, last));
        assert forall|i: int| 0 <= i < n && eligible(history, i, last_run) implies #[trigger] no_later(
            history,
            i,
            now,
        ) by {
            if i < last {
                assert(no_later(history, i, best) && no_later(history, best, last));
            }
        }
        assert forall|i: int| 0 <= i < now && eligible(history, i, last_run) implies !#[trigger] no_later(
            history,
            now,
            i,
        ) by {
            if no_later(history, now, i) {
                assert(no_later(history, last, i) && no_later(history, i, best));
            }
        }
    }
}

} // verus!
