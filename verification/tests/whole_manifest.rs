use boltzmann::deps::{DependencyChange, DependencySpec, DependencyType};
use boltzmann::reconcile::{reconcile_manifest, ProjectManifest};
use boltzmann::scripts::{RunScriptSpec, ScriptChange};
use boltzmann::settings::Settings;
use boltzmann::when::When;
use serde_json::Value;

fn needs(feature: &str) -> When {
    let mut w = When::new();
    w.all_of = vec![feature.to_string()];
    w
}

fn text(m: &serde_json::Map<String, Value>, key: &str) -> Option<String> {
    m.get(key).and_then(|v| v.as_str()).map(|s| s.to_string())
}

#[test]
fn unmanaged_fields_pass_through_a_run() {
    let mut rest = serde_json::Map::new();
    rest.insert("name".to_string(), Value::String("my-service".to_string()));
    rest.insert("private".to_string(), Value::Bool(true));
    rest.insert(
        "x-custom".to_string(),
        Value::Array(vec![Value::Null, Value::String("kept".to_string())]),
    );
    let before = rest.clone();

    let mut dependencies = serde_json::Map::new();
    dependencies.insert("left-pad".to_string(), Value::String("1.3.0".to_string()));
    let mut scripts = serde_json::Map::new();
    scripts.insert("deploy".to_string(), Value::String("./deploy.sh".to_string()));

    let mut old = Settings::empty();
    old.redis = Some(false);
    let mut new = Settings::empty();
    new.redis = Some(true);
    new.version = Some("2.0.0".to_string());

    let mut manifest = ProjectManifest {
        rest,
        dependencies,
        dev_dependencies: serde_json::Map::new(),
        scripts,
        settings: old,
    };
    let candidates = vec![
        DependencySpec {
            name: "handy-redis".to_string(),
            version: "2.3.1".to_string(),
            kind: DependencyType::Normal,
            preconditions: Some(needs("redis")),
        },
        DependencySpec {
            name: "tap".to_string(),
            version: "15.0.0".to_string(),
            kind: DependencyType::Development,
            preconditions: None,
        },
    ];
    let run_scripts = vec![RunScriptSpec {
        key: "test".to_string(),
        value: "tap test".to_string(),
        preconditions: None,
        versions: vec![],
    }];

    let report = reconcile_manifest(&mut manifest, new, &candidates, &run_scripts, "1.0.0");

    assert_eq!(manifest.rest, before);
    assert_eq!(text(&manifest.dependencies, "left-pad"), Some("1.3.0".to_string()));
    assert_eq!(text(&manifest.dependencies, "handy-redis"), Some("2.3.1".to_string()));
    assert_eq!(manifest.dependencies.len(), 2);
    assert_eq!(text(&manifest.dev_dependencies, "tap"), Some("15.0.0".to_string()));
    assert_eq!(text(&manifest.scripts, "deploy"), Some("./deploy.sh".to_string()));
    assert_eq!(text(&manifest.scripts, "test"), Some("tap test".to_string()));
    assert_eq!(manifest.settings.redis, Some(true));
    assert_eq!(manifest.settings.version, Some("2.0.0".to_string()));

    let changes: Vec<DependencyChange> =
        report.dependency_actions.iter().map(|a| a.change).collect();
    assert_eq!(changes, vec![DependencyChange::Enabled, DependencyChange::Added]);
    assert_eq!(report.script_actions.len(), 1);
    assert_eq!(report.script_actions[0].change, ScriptChange::Written);
}
