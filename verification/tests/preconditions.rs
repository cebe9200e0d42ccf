use boltzmann::when::{FeatureMap, When};

fn names(xs: &[&str]) -> Vec<String> {
    xs.iter().map(|x| x.to_string()).collect()
}

fn snapshot(pairs: &[(&str, bool)]) -> FeatureMap {
    let mut m = FeatureMap::new();
    for (name, value) in pairs {
        m.set(name.to_string(), *value);
    }
    m
}

#[test]
fn two_required_one_excluded() {
    let mut w = When::new();
    w.all_of = names(&["a", "b"]);
    w.none_of = names(&["c"]);
    for a in [false, true] {
        for b in [false, true] {
            for c in [false, true] {
                let m = snapshot(&[("a", a), ("b", b), ("c", c)]);
                assert_eq!(w.are_satisfied_by(&m), a && b && !c);
            }
        }
    }
}

#[test]
fn empty_condition_holds() {
    let w = When::new();
    assert!(w.are_satisfied_by(&FeatureMap::new()));
    assert!(w.are_satisfied_by(&snapshot(&[("a", true)])));
}

#[test]
fn any_of_needs_one_member() {
    let mut w = When::new();
    w.any_of = names(&["a", "b"]);
    assert!(!w.are_satisfied_by(&snapshot(&[("a", false), ("b", false)])));
    assert!(w.are_satisfied_by(&snapshot(&[("a", false), ("b", true)])));
    assert!(w.are_satisfied_by(&snapshot(&[("a", true), ("b", true)])));
    assert!(!w.are_satisfied_by(&FeatureMap::new()));
}

#[test]
fn unknown_names_count_as_off() {
    let mut required = When::new();
    required.all_of = names(&["mystery"]);
    assert!(!required.are_satisfied_by(&snapshot(&[("a", true)])));
    let mut excluded = When::new();
    excluded.none_of = names(&["mystery"]);
    assert!(excluded.are_satisfied_by(&snapshot(&[("a", true)])));
}

#[test]
fn presence_guard_plays_no_part() {
    let mut w = When::new();
    w.all_of = names(&["a"]);
    w.if_not_present = names(&["anything"]);
    assert!(w.are_satisfied_by(&snapshot(&[("a", true)])));
    assert!(!w.are_satisfied_by(&snapshot(&[("a", false)])));
}

#[test]
fn script_condition_ignores_any_of() {
    let mut w = When::new();
    w.all_of = names(&["a"]);
    w.any_of = names(&["b"]);
    w.none_of = names(&["c"]);
    let m = snapshot(&[("a", true), ("b", false), ("c", false)]);
    assert!(!w.are_satisfied_by(&m));
    assert!(w.are_required_by(&m));
    assert!(!w.are_required_by(&snapshot(&[("a", true), ("c", true)])));
}

#[test]
fn later_assignment_wins() {
    let mut m = FeatureMap::new();
    m.set("a".to_string(), true);
    m.set("a".to_string(), false);
    assert!(!m.enabled("a"));
    m.set("a".to_string(), true);
    assert!(m.enabled("a"));
    assert!(!m.enabled("A"));
}
