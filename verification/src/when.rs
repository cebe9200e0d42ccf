//! Feature snapshots and the preconditions evaluated against them.

use vstd::prelude::*;
use crate::text::same_text;

verus! {

/// A flattened boolean view of a feature set: feature name to on/off.
/// A name that was never set counts as off.
pub struct FeatureMap {
    pub entries: Vec<(String, bool)>,
}

/// The map that a list of assignments denotes: later assignments win.
pub open spec fn assignments(s: Seq<(String, bool)>) -> Map<Seq<char>, bool>
    decreases s.len(),
{
    if s.len() == 0 {
        Map::empty()
    } else {
        assignments(s.drop_last()).insert(s.last().0@, s.last().1)
    }
}

/// Whether `name` is switched on in the flattened map `m`.
pub open spec fn is_on(m: Map<Seq<char>, bool>, name: Seq<char>) -> bool {
    m.dom().contains(name) && m[name]
}

/// Every name of `names` is on.
pub open spec fn all_on(names: Seq<String>, m: Map<Seq<char>, bool>) -> bool {
    forall|i: int| 0 <= i < names.len() ==> is_on(m, #[trigger] names[i]@)
}

/// At least one name of `names` is on.
pub open spec fn any_on(names: Seq<String>, m: Map<Seq<char>, bool>) -> bool {
    exists|i: int| 0 <= i < names.len() && is_on(m, #[trigger] names[i]@)
}

impl View for FeatureMap {
    type V = Map<Seq<char>, bool>;

    open spec fn view(&self) -> Map<Seq<char>, bool> {
        assignments(self.entries@)
    }
}

impl FeatureMap {
    /// The snapshot in which every feature is off.
    pub fn new() -> (r: FeatureMap)
        ensures
            r@ == Map::<Seq<char>, bool>::empty(),
    {
        FeatureMap { entries: Vec::new() }
    }

    /// Records `name` as on or off, replacing what was recorded before.
    pub fn set(&mut self, name: String, value: bool)
        ensures
            final(self)@ == old(self)@.insert(name@, value),
    {
        let ghost before = self.entries@;
        let ghost key = name@;
        self.entries.push((name, value));
        proof {
            assert(self.entries@.drop_last() =~= before);
            assert(self.entries@.last().0@ == key);
        }
    }

    /// Whether `name` is on. An unknown name is off.
    pub fn enabled(&self, name: &str) -> (r: bool)
        ensures
            r == is_on(self@, name@),
    {
        let mut i: usize = self.entries.len();
        assert(self.entries@.take(i as int) =~= self.entries@);
        while i > 0
            invariant
                i <= self.entries.len(),
                is_on(self@, name@) == is_on(assignments(self.entries@.take(i as int)), name@),
            decreases i,
        {
            i -= 1;
            let ghost prefix = self.entries@.take(i + 1);
            assert(prefix.drop_last() =~= self.entries@.take(i as int));
            assert(prefix.last() == self.entries@[i as int]);
            if same_text(self.entries[i].0.as_str(), name) {
                return self.entries[i].1;
            }
        }
        assert(self.entries@.take(0).len() == 0);
        false
    }
}

/// A condition on a tree node, a dependency or a script.
pub struct When {
    pub all_of: Vec<String>,
    pub none_of: Vec<String>,
    pub if_not_present: Vec<String>,
    pub any_of: Vec<String>,
}

/// Whether every name of `names` is on in `features`.
pub fn every_enabled(names: &Vec<String>, features: &FeatureMap) -> (r: bool)
    ensures
        r == all_on(names@, features@),
{
    let mut i: usize = 0;
    while i < names.len()
        invariant
            i <= names.len(),
            forall|j: int| 0 <= j < i ==> is_on(features@, #[trigger] names@[j]@),
        decreases names.len() - i,
    {
        if !features.enabled(names[i].as_str()) {
            return false;
        }
        i += 1;
    }
    true
}

/// Whether some name of `names` is on in `features`.
pub fn some_enabled(names: &Vec<String>, features: &FeatureMap) -> (r: bool)
    ensures
        r == any_on(names@, features@),
{
    let mut i: usize = 0;
    while i < names.len()
        invariant
            i <= names.len(),
            forall|j: int| 0 <= j < i ==> !is_on(features@, #[trigger] names@[j]@),
        decreases names.len() - i,
    {
        if features.enabled(names[i].as_str()) {
            return true;
        }
        i += 1;
    }
    false
}

impl When {
    /// The condition that is always open and guards nothing.
    pub fn new() -> (r: When)
        ensures
            r.all_of@.len() == 0,
            r.none_of@.len() == 0,
            r.any_of@.len() == 0,
            r.if_not_present@.len() == 0,
    {
        When { all_of: Vec::new(), none_of: Vec::new(), if_not_present: Vec::new(), any_of: Vec::new() }
    }

    /// What it means for the condition to be open under the snapshot `m`: all of
    /// `all_of` on (if any are named), one of `any_of` on (if any are named),
    /// and none of `none_of` on. The presence guard plays no part.
    pub open spec fn satisfied(&self, m: Map<Seq<char>, bool>) -> bool {
        &&& (self.all_of@.len() == 0 || all_on(self.all_of@, m))
        &&& (self.any_of@.len() == 0 || any_on(self.any_of@, m))
        &&& !any_on(self.none_of@, m)
    }

    /// The part of the condition that script reconciliation consults: `all_of`
    /// and `none_of` only.
    pub open spec fn satisfied_without_any(&self, m: Map<Seq<char>, bool>) -> bool {
        all_on(self.all_of@, m) && !any_on(self.none_of@, m)
    }

    /// Evaluates the condition against a feature snapshot.
    pub fn are_satisfied_by(&self, settings: &FeatureMap) -> (r: bool)
        ensures
            r == self.satisfied(settings@),
    {
        let has_all = self.all_of.len() == 0 || every_enabled(&self.all_of, settings);
        let has_any = self.any_of.len() == 0 || some_enabled(&self.any_of, settings);
        let excluded = some_enabled(&self.none_of, settings);
        has_all && has_any && !excluded
    }

    /// Evaluates `all_of` and `none_of` against a feature snapshot.
    pub fn are_required_by(&self, settings: &FeatureMap) -> (r: bool)
        ensures
            r == self.satisfied_without_any(settings@),
    {
        every_enabled(&self.all_of, settings) && !some_enabled(&self.none_of, settings)
    }
}

impl Default for When {
    fn default() -> (r: When)
        ensures
            r.all_of@.len() == 0,
            r.none_of@.len() == 0,
            r.any_of@.len() == 0,
            r.if_not_present@.len() == 0,
    {
        When::new()
    }
}

/// With `all_of = {a, b}`, `none_of = {c}` and no `any_of`, the condition is open
/// exactly when `a` and `b` are on and `c` is off.
pub proof fn lemma_two_required_one_excluded(w: When, m: Map<Seq<char>, bool>)
    requires
        w.all_of@.len() == 2,
        w.none_of@.len() == 1,
        w.any_of@.len() == 0,
    ensures
        w.satisfied(m) <==> (is_on(m, w.all_of@[0]@) && is_on(m, w.all_of@[1]@) && !is_on(
            m,
            w.none_of@[0]@,
        )),
{
    if is_on(m, w.none_of@[0]@) {
        assert(any_on(w.none_of@, m));
    }
}

/// A condition that names nothing is open under every snapshot.
pub proof fn lemma_empty_condition_holds(w: When, m: Map<Seq<char>, bool>)
    requires
        w.all_of@.len() == 0,
        w.any_of@.len() == 0,
        w.none_of@.len() == 0,
    ensures
        w.satisfied(m),
{
}

/// A condition with a non-empty `any_of` is open only if one of its members is on.
pub proof fn lemma_any_of_needs_a_member(w: When, m: Map<Seq<char>, bool>)
    requires
        w.any_of@.len() > 0,
        w.satisfied(m),
    ensures
        exists|i: int| 0 <= i < w.any_of@.len() && is_on(m, #[trigger] w.any_of@[i]@),
{
}

/// A name that the snapshot does not know is off, so a condition that requires it
/// is closed and a condition that excludes it is not held shut by it.
pub proof fn lemma_unknown_feature_is_off(m: Map<Seq<char>, bool>, name: Seq<char>)
    requires
        !m.dom().contains(name),
    ensures
        !is_on(m, name),
{
}

} // verus!
