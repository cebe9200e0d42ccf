use boltzmann::scripts::{
    decide, find_source, reconcile_scripts, RunScriptSpec, ScriptAction, ScriptChange, VersionedScript,
};
use boltzmann::when::{FeatureMap, When};
use serde_json::Value;

fn history(entries: &[(&str, &str)]) -> Vec<VersionedScript> {
    entries
        .iter()
        .map(|(v, s)| VersionedScript { version: v.to_string(), value: s.to_string() })
        .collect()
}

fn guarded(key: &str) -> When {
    let mut w = When::new();
    w.if_not_present = vec![key.to_string()];
    w
}

fn test_script(value: &str, when: Option<When>, versions: &[(&str, &str)]) -> RunScriptSpec {
    RunScriptSpec {
        key: "test".to_string(),
        value: value.to_string(),
        preconditions: when,
        versions: history(versions),
    }
}

fn scripts_with(key: &str, value: &str) -> serde_json::Map<String, Value> {
    let mut m = serde_json::Map::new();
    m.insert(key.to_string(), Value::String(value.to_string()));
    m
}

fn text(m: &serde_json::Map<String, Value>, key: &str) -> Option<String> {
    m.get(key).and_then(|v| v.as_str()).map(|s| s.to_string())
}

#[test]
fn stale_tool_owned_script_is_overwritten() {
    let candidates = vec![test_script("tap test --cov", Some(guarded("test")), &[("1.0.0", "tap test")])];
    let mut scripts = scripts_with("test", "tap test");
    let log = reconcile_scripts(&candidates, &FeatureMap::new(), &mut scripts, "1.0.0");
    assert_eq!(text(&scripts, "test"), Some("tap test --cov".to_string()));
    assert_eq!(log, vec![ScriptAction { candidate: 0, change: ScriptChange::Written }]);
}

#[test]
fn customised_script_is_left_in_place() {
    let candidates = vec![test_script("tap test --cov", Some(guarded("test")), &[("1.0.0", "tap test")])];
    let mut scripts = scripts_with("test", "jest");
    let log = reconcile_scripts(&candidates, &FeatureMap::new(), &mut scripts, "1.0.0");
    assert_eq!(text(&scripts, "test"), Some("jest".to_string()));
    assert_eq!(log, vec![ScriptAction { candidate: 0, change: ScriptChange::LeftInPlace }]);
}

#[test]
fn script_without_history_is_left_in_place() {
    let candidates = vec![test_script("tap test --cov", Some(guarded("test")), &[])];
    let mut scripts = scripts_with("test", "tap test");
    let log = reconcile_scripts(&candidates, &FeatureMap::new(), &mut scripts, "1.0.0");
    assert_eq!(text(&scripts, "test"), Some("tap test".to_string()));
    assert_eq!(log, vec![ScriptAction { candidate: 0, change: ScriptChange::LeftInPlace }]);
}

#[test]
fn script_already_correct_is_a_no_op() {
    let candidates = vec![test_script("tap test", Some(guarded("test")), &[])];
    let mut scripts = scripts_with("test", "tap test");
    let log = reconcile_scripts(&candidates, &FeatureMap::new(), &mut scripts, "1.0.0");
    assert_eq!(text(&scripts, "test"), Some("tap test".to_string()));
    assert!(log.is_empty());
}

#[test]
fn missing_script_is_written() {
    let candidates = vec![test_script("tap test", Some(guarded("test")), &[])];
    let mut scripts = serde_json::Map::new();
    let log = reconcile_scripts(&candidates, &FeatureMap::new(), &mut scripts, "0.0.0");
    assert_eq!(text(&scripts, "test"), Some("tap test".to_string()));
    assert_eq!(log, vec![ScriptAction { candidate: 0, change: ScriptChange::Written }]);
}

#[test]
fn unguarded_script_is_always_brought_up_to_date() {
    let candidates = vec![test_script("tap test", None, &[])];
    let mut scripts = scripts_with("test", "jest");
    let log = reconcile_scripts(&candidates, &FeatureMap::new(), &mut scripts, "1.0.0");
    assert_eq!(text(&scripts, "test"), Some("tap test".to_string()));
    assert_eq!(log, vec![ScriptAction { candidate: 0, change: ScriptChange::Written }]);
}

#[test]
fn unwanted_script_is_neither_written_nor_removed() {
    let mut condition = When::new();
    condition.all_of = vec!["esbuild".to_string()];
    let candidates = vec![test_script("esbuild src", Some(condition), &[])];
    let mut features = FeatureMap::new();
    features.set("esbuild".to_string(), false);

    let mut scripts = scripts_with("test", "old bundle");
    let log = reconcile_scripts(&candidates, &features, &mut scripts, "1.0.0");
    assert_eq!(text(&scripts, "test"), Some("old bundle".to_string()));
    assert!(log.is_empty());

    let mut empty = serde_json::Map::new();
    let log = reconcile_scripts(&candidates, &features, &mut empty, "1.0.0");
    assert!(empty.is_empty());
    assert!(log.is_empty());

    features.set("esbuild".to_string(), true);
    let log = reconcile_scripts(&candidates, &features, &mut empty, "1.0.0");
    assert_eq!(text(&empty, "test"), Some("esbuild src".to_string()));
    assert_eq!(log.len(), 1);
}

#[test]
fn excluded_feature_switches_a_script_off() {
    let mut condition = When::new();
    condition.none_of = vec!["typescript".to_string()];
    let candidates = vec![test_script("node index.js", Some(condition), &[])];
    let mut features = FeatureMap::new();
    features.set("typescript".to_string(), true);
    let mut scripts = serde_json::Map::new();
    let log = reconcile_scripts(&candidates, &features, &mut scripts, "1.0.0");
    assert!(scripts.is_empty());
    assert!(log.is_empty());
}

#[test]
fn source_is_the_greatest_release_not_after_the_last_run() {
    let h = history(&[("1.9.0", "a"), ("1.10.0", "b"), ("2.0.0", "c"), ("0.5.0", "d")]);
    assert_eq!(find_source(&h, "1.10.0"), Some(1));
    assert_eq!(find_source(&h, "1.9.5"), Some(0));
    assert_eq!(find_source(&h, "3.0.0"), Some(2));
    assert_eq!(find_source(&h, "0.5.0"), Some(3));
    assert_eq!(find_source(&h, "0.4.9"), None);
    assert_eq!(find_source(&history(&[]), "1.0.0"), None);
}

#[test]
fn source_prefers_the_first_of_equal_releases_and_orders_prereleases() {
    let h = history(&[("1.0.0", "a"), ("1.0.0", "b")]);
    assert_eq!(find_source(&h, "1.0.0"), Some(0));
    let h = history(&[("1.0.0-beta.2", "a"), ("1.0.0-beta.11", "b"), ("1.0.0", "c")]);
    assert_eq!(find_source(&h, "1.0.0-rc.1"), Some(1));
    assert_eq!(find_source(&h, "1.0.0"), Some(2));
}

#[test]
fn text_that_is_no_version_is_never_a_source() {
    let h = history(&[("one", "a"), ("1.0", "b")]);
    assert_eq!(find_source(&h, "9.9.9"), None);
    let h = history(&[("1.0.0", "a")]);
    assert_eq!(find_source(&h, "latest"), None);
}

#[test]
fn history_picks_the_release_of_the_last_run() {
    let versions = [("1.0.0", "tap test"), ("1.5.0", "tap test -R spec")];
    let candidates = vec![test_script("tap test --cov", Some(guarded("test")), &versions)];

    let mut scripts = scripts_with("test", "tap test");
    let log = reconcile_scripts(&candidates, &FeatureMap::new(), &mut scripts, "1.6.0");
    assert_eq!(text(&scripts, "test"), Some("tap test".to_string()));
    assert_eq!(log, vec![ScriptAction { candidate: 0, change: ScriptChange::LeftInPlace }]);

    let mut scripts = scripts_with("test", "tap test -R spec");
    let log = reconcile_scripts(&candidates, &FeatureMap::new(), &mut scripts, "1.6.0");
    assert_eq!(text(&scripts, "test"), Some("tap test --cov".to_string()));
    assert_eq!(log, vec![ScriptAction { candidate: 0, change: ScriptChange::Written }]);
}

#[test]
fn decisions_from_plain_facts() {
    let cur = "jest".to_string();
    let want = "tap".to_string();
    assert_eq!(decide(false, false, &cur, &want, false), None);
    assert_eq!(decide(true, true, &want, &want, false), None);
    assert_eq!(decide(true, true, &cur, &want, false), Some(ScriptChange::LeftInPlace));
    assert_eq!(decide(true, true, &cur, &want, true), Some(ScriptChange::Written));
    assert_eq!(decide(true, false, &cur, &want, false), Some(ScriptChange::Written));
}
