//! Reconciling the dependency maps of a manifest with a list of candidates.

use vstd::prelude::*;
use crate::manifest::{drop_entry, entry_text, json_entries, put_text, text_at};
use crate::when::{FeatureMap, When};

verus! {

/// Which dependency map a candidate belongs to.
#[derive(Clone, Copy, Debug, PartialEq, Eq, Structural)]
pub enum DependencyType {
    Normal,
    Development,
}

impl DependencyType {
    /// The marker shown beside a dependency of this kind: nothing for a
    /// normal one, `(dev)` for a development one.
    pub fn label(&self) -> (r: &'static str)
        ensures
            r@ == (if *self == DependencyType::Normal {
                ""@
            } else {
                "(dev)"@
            }),
    {
        match self {
            DependencyType::Normal => "",
            DependencyType::Development => "(dev)",
        }
    }
}

/// A dependency that the tool manages, with the condition that activates it.
pub struct DependencySpec {
    pub name: String,
    pub version: String,
    pub kind: DependencyType,
    pub preconditions: Option<When>,
}

/// What happened to a dependency entry.
#[derive(Clone, Copy, Debug, PartialEq, Eq, Structural)]
pub enum DependencyChange {
    /// An unconditional candidate was missing and was inserted.
    Added,
    /// A conditional candidate became wanted and was inserted.
    Enabled,
    /// A conditional candidate stopped being wanted and was removed.
    Disabled,
    /// An unconditional candidate was present at another version and was
    /// overwritten.
    Upgraded,
}

/// One line of the action log: the candidate (by its position in the list),
/// what happened, and for an upgrade the version text that was replaced.
#[derive(Debug)]
pub struct DependencyAction {
    pub candidate: usize,
    pub change: DependencyChange,
    pub previous: String,
}

/// The mathematical content of a [`DependencyAction`].
pub struct DependencyNote {
    pub candidate: int,
    pub change: DependencyChange,
    pub previous: Seq<char>,
}

impl View for DependencyAction {
    type V = DependencyNote;

    open spec fn view(&self) -> DependencyNote {
        DependencyNote { candidate: self.candidate as int, change: self.change, previous: self.previous@ }
    }
}

/// The notes that a list of actions denotes.
pub open spec fn notes(actions: Seq<DependencyAction>) -> Seq<DependencyNote> {
    Seq::new(actions.len(), |i: int| actions[i]@)
}

/// The contents of one dependency map.
pub type Entries = Map<Seq<char>, Option<Seq<char>>>;

/// What one candidate does to the map it targets, given the snapshots
/// before (`before`) and after (`after`) the settings merge.
///
/// A conditional candidate that is wanted is always written; one that has just
/// stopped being wanted is removed; one that was not wanted before either is
/// left alone. An unconditional candidate is written when it is missing or held at
/// another version.
pub open spec fn target_after(
    c: DependencySpec,
    before: Map<Seq<char>, bool>,
    after: Map<Seq<char>, bool>,
    t: Entries,
) -> Entries {
    match c.preconditions {
        Some(w) => if w.satisfied(after) {
            t.insert(c.name@, Some(c.version@))
        } else if w.satisfied(before) {
            t.remove(c.name@)
        } else {
            t
        },
        None => if !t.dom().contains(c.name@) || text_at(t, c.name@) != c.version@ {
            t.insert(c.name@, Some(c.version@))
        } else {
            t
        },
    }
}

/// What one candidate adds to the log: a change is logged only when an entry
/// appears, disappears or changes its version.
pub open spec fn change_of(
    c: DependencySpec,
    before: Map<Seq<char>, bool>,
    after: Map<Seq<char>, bool>,
    t: Entries,
) -> Option<DependencyChange> {
    let present = t.dom().contains(c.name@);
    match c.preconditions {
        Some(w) => if w.satisfied(after) {
            if present {
                None
            } else {
                Some(DependencyChange::Enabled)
            }
        } else if w.satisfied(before) && present {
            Some(DependencyChange::Disabled)
        } else {
            None
        },
        None => if !present {
            Some(DependencyChange::Added)
        } else if text_at(t, c.name@) != c.version@ {
            Some(DependencyChange::Upgraded)
        } else {
            None
        },
    }
}

/// The two dependency maps and the log, between candidates.
pub struct Ledger {
    pub deps: Entries,
    pub dev: Entries,
    pub log: Seq<DependencyNote>,
}

/// The ledger after candidate `c`, which stands at position `idx`.
pub open spec fn ledger_after(
    c: DependencySpec,
    idx: int,
    before: Map<Seq<char>, bool>,
    after: Map<Seq<char>, bool>,
    l: Ledger,
) -> Ledger {
    let t = if c.kind == DependencyType::Normal {
        l.deps
    } else {
        l.dev
    };
    let t2 = target_after(c, before, after, t);
    let log = match change_of(c, before, after, t) {
        Some(ch) => l.log.push(
            DependencyNote {
                candidate: idx,
                change: ch,
                previous: if ch == DependencyChange::Upgraded {
                    text_at(t, c.name@)
                } else {
                    Seq::empty()
                },
            },
        ),
        None => l.log,
    };
    if c.kind == DependencyType::Normal {
        Ledger { deps: t2, dev: l.dev, log }
    } else {
        Ledger { deps: l.deps, dev: t2, log }
    }
}

/// The ledger after the first `n` candidates, taken in list order.
pub open spec fn reconciled(
    candidates: Seq<DependencySpec>,
    n: int,
    before: Map<Seq<char>, bool>,
    after: Map<Seq<char>, bool>,
    start: Ledger,
) -> Ledger
    decreases n,
{
    if n <= 0 {
        start
    } else {
        ledger_after(candidates[n - 1], n - 1, before, after, reconciled(candidates, n - 1, before, after, start))
    }
}

/// Applies one candidate to the map it targets and reports what changed.
pub fn reconcile_dependency(
    c: &DependencySpec,
    idx: usize,
    before: &FeatureMap,
    after: &FeatureMap,
    target: &mut serde_json::Map<String, serde_json::Value>,
) -> (r: Option<DependencyAction>)
    ensures
        json_entries(*final(target)) == target_after(*c, before@, after@, json_entries(*old(target))),
        r is Some == change_of(*c, before@, after@, json_entries(*old(target))) is Some,
        r is Some ==> r->0.candidate == idx && Some(r->0.change) == change_of(
            *c,
            before@,
            after@,
            json_entries(*old(target)),
        ) && r->0.previous@ == (if r->0.change == DependencyChange::Upgraded {
            text_at(json_entries(*old(target)), c.name@)
        } else {
            Seq::empty()
        }),
{
    let current = entry_text(target, c.name.as_str());
    let present = current.is_some();
    match &c.preconditions {
        Some(w) => {
            let wants = w.are_satisfied_by(after);
            let used_to = w.are_satisfied_by(before);
            if wants {
                put_text(target, c.name.clone(), c.version.clone());
                if present {
                    None
                } else {
                    Some(
                        DependencyAction {
                            candidate: idx,
                            change: DependencyChange::Enabled,
                            previous: String::new(),
                        },
                    )
                }
            } else if used_to {
                drop_entry(target, c.name.as_str());
                if present {
                    Some(
                        DependencyAction {
                            candidate: idx,
                            change: DependencyChange::Disabled,
                            previous: String::new(),
                        },
                    )
                } else {
                    None
                }
            } else {
                None
            }
        },
        None => {
            match current {
                None => {
                    put_text(target, c.name.clone(), c.version.clone());
                    Some(
                        DependencyAction {
                            candidate: idx,
                            change: DependencyChange::Added,
                            previous: String::new(),
                        },
                    )
                },
                Some(held) => {
                    let text = match held {
                        Some(s) => s,
                        None => String::new(),
                    };
                    if text != c.version {
                        put_text(target, c.name.clone(), c.version.clone());
                        Some(
                            DependencyAction {
                                candidate: idx,
                                change: DependencyChange::Upgraded,
                                previous: text,
                            },
                        )
                    } else {
                        None
                    }
                },
            }
        },
    }
}

/// Reconciles both dependency maps with the candidates, strictly in list
/// order, and returns the log of what changed.
pub fn reconcile_dependencies(
    candidates: &Vec<DependencySpec>,
    before: &FeatureMap,
    after: &FeatureMap,
    deps: &mut serde_json::Map<String, serde_json::Value>,
    dev: &mut serde_json::Map<String, serde_json::Value>,
) -> (r: Vec<DependencyAction>)
    ensures
        ({
            let end = reconciled(
                candidates@,
                candidates@.len() as int,
                before@,
                after@,
                Ledger {
                    deps: json_entries(*old(deps)),
                    dev: json_entries(*old(dev)),
                    log: Seq::empty(),
                },
            );
            &&& json_entries(*final(deps)) == end.deps
            &&& json_entries(*final(dev)) == end.dev
            &&& notes(r@) == end.log
        }),
{
    let mut actions: Vec<DependencyAction> = Vec::new();
    let ghost start = Ledger {
        deps: json_entries(*deps),
        dev: json_entries(*dev),
        log: Seq::empty(),
    };
    let mut i: usize = 0;
    assert(notes(actions@) =~= start.log);
    while i < candidates.len()
        invariant
            i <= candidates.len(),
            json_entries(*deps) == reconciled(candidates@, i as int, before@, after@, start).deps,
            json_entries(*dev) == reconciled(candidates@, i as int, before@, after@, start).dev,
            notes(actions@) == reconciled(candidates@, i as int, before@, after@, start).log,
        decreases candidates.len() - i,
    {
        let c = &candidates[i];
        let ghost logged = actions@;
        let action = match c.kind {
            DependencyType::Normal => reconcile_dependency(c, i, before, after, deps),
            DependencyType::Development => reconcile_dependency(c, i, before, after, dev),
        };
        match action {
            Some(a) => {
                actions.push(a);
                assert(notes(actions@) =~= notes(logged).push(a@));
            },
            None => {},
        }
        i += 1;
    }
    actions
}

/// Enabling and then disabling a conditional candidate leaves a map that did not
/// hold its name as it was: the first pass inserts the entry, the second
/// removes it again.
pub proof fn lemma_enable_then_disable(
    c: DependencySpec,
    off: Map<Seq<char>, bool>,
    on: Map<Seq<char>, bool>,
    t: Entries,
)
    requires
        c.preconditions is Some,
        c.preconditions->0.satisfied(on),
        !c.preconditions->0.satisfied(off),
        !t.dom().contains(c.name@),
    ensures
        target_after(c, off, on, t) == t.insert(c.name@, Some(c.version@)),
        target_after(c, on, off, target_after(c, off, on, t)) == t,
{
    assert(t.insert(c.name@, Some(c.version@)).remove(c.name@) =~= t);
}

/// A conditional candidate that is not wanted now and was not wanted before
/// changes nothing, whether or not its entry is present.
pub proof fn lemma_never_wanted_is_untouched(
    c: DependencySpec,
    before: Map<Seq<char>, bool>,
    after: Map<Seq<char>, bool>,
    t: Entries,
)
    requires
        c.preconditions is Some,
        !c.preconditions->0.satisfied(after),
        !c.preconditions->0.satisfied(before),
    ensures
        target_after(c, before, after, t) == t,
        change_of(c, before, after, t) is None,
{
}

/// A candidate touches no entry but its own.
pub proof fn lemma_other_entries_untouched(
    c: DependencySpec,
    before: Map<Seq<char>, bool>,
    after: Map<Seq<char>, bool>,
    t: Entries,
    key: Seq<char>,
)
    requires
        key != c.name@,
    ensures
        target_after(c, before, after, t).dom().contains(key) == t.dom().contains(key),
        t.dom().contains(key) ==> target_after(c, before, after, t)[key] == t[key],
{
}

/// An entry whose key no candidate names comes through a whole
/// reconciliation unchanged, in both maps.
pub proof fn lemma_unmanaged_entries_pass_through(
    candidates: Seq<DependencySpec>,
    n: int,
    before: Map<Seq<char>, bool>,
    after: Map<Seq<char>, bool>,
    start: Ledger,
    key: Seq<char>,
)
    requires
        0 <= n <= candidates.len(),
        forall|i: int| 0 <= i < n ==> (#[trigger] candidates[i]).name@ != key,
    ensures
        reconciled(candidates, n, before, after, start).deps.dom().contains(key)
            == start.deps.dom().contains(key),
        reconciled(candidates, n, before, after, start).dev.dom().contains(key) == start.dev.dom().contains(
            key,
        ),
        start.deps.dom().contains(key) ==> reconciled(candidates, n, before, after, start).deps[key]
            == start.deps[key],
        start.dev.dom().contains(key) ==> reconciled(candidates, n, before, after, start).dev[key]
            == start.dev[key],
    decreases n,
{
    if n > 0 {
        lemma_unmanaged_entries_pass_through(candidates, n - 1, before, after, start, key);
        let mid = reconciled(candidates, n - 1, before, after, start);
        let c = candidates[n - 1];
        lemma_other_entries_untouched(c, before, after, mid.deps, key);
        lemma_other_entries_untouched(c, before, after, mid.dev, key);
    }
}

/// A whole reconciliation with one conditional candidate, run once with the
/// candidate becoming wanted and once with it becoming unwanted, leaves both
/// maps as they were, provided the targeted map did not hold the
/// candidate's name at the start.
pub proof fn lemma_round_trip(
    c: DependencySpec,
    off: Map<Seq<char>, bool>,
    on: Map<Seq<char>, bool>,
    start: Ledger,
)
    requires
        c.preconditions is Some,
        c.preconditions->0.satisfied(on),
        !c.preconditions->0.satisfied(off),
        c.kind == DependencyType::Normal ==> !start.deps.dom().contains(c.name@),
        c.kind == DependencyType::Development ==> !start.dev.dom().contains(c.name@),
    ensures
        ({
            let enabled = reconciled(seq![c], 1, off, on, start);
            let disabled = reconciled(seq![c], 1, on, off, enabled);
            &&& disabled.deps == start.deps
            &&& disabled.dev == start.dev
            &&& c.kind == DependencyType::Normal ==> enabled.deps == start.deps.insert(
                c.name@,
                Some(c.version@),
            )
            &&& c.kind == DependencyType::Development ==> enabled.dev == start.dev.insert(
                c.name@,
                Some(c.version@),
            )
        }),
{
    let enabled = reconciled(seq![c], 1, off, on, start);
    assert(reconciled(seq![c], 0, off, on, start) == start);
    assert(seq![c][0] == c);
    assert(enabled == ledger_after(c, 0, off, on, start));
    assert(reconciled(seq![c], 0, on, off, enabled) == enabled);
    let t = if c.kind == DependencyType::Normal {
        start.deps
    } else {
        start.dev
    };
    lemma_enable_then_disable(c, off, on, t);
}

} // verus!
