use boltzmann::paths::join_path;
use boltzmann::probes::probe_paths;
use boltzmann::render::{Child, DirSpec, FileSpec, Node};
use boltzmann::settings::Settings;
use boltzmann::table::row_bounds;
use boltzmann::when::When;

#[test]
fn rows_hold_a_fixed_number_of_items() {
    assert_eq!(row_bounds(0, 3), vec![(0, 0)]);
    assert_eq!(row_bounds(2, 3), vec![(0, 2)]);
    assert_eq!(row_bounds(3, 3), vec![(0, 3)]);
    assert_eq!(row_bounds(4, 3), vec![(0, 3), (3, 4)]);
    assert_eq!(row_bounds(6, 3), vec![(0, 3), (3, 6)]);
    assert_eq!(row_bounds(7, 3), vec![(0, 3), (3, 6), (6, 7)]);
    assert_eq!(row_bounds(3, 1), vec![(0, 1), (1, 2), (2, 3)]);
}

#[test]
fn paths_are_joined_with_slashes() {
    assert_eq!(join_path(&vec![]), "");
    assert_eq!(join_path(&vec!["a".to_string()]), "a");
    assert_eq!(join_path(&vec!["a".to_string(), "b".to_string(), "c.js".to_string()]), "a/b/c.js");
}

#[test]
fn probes_cover_entries_and_guards() {
    let mut guard = When::new();
    guard.if_not_present = vec!["mine".to_string(), "yours".to_string()];
    let tree = Node::Dir(DirSpec {
        children: vec![
            Child {
                name: "src".to_string(),
                mode: 0o755,
                node: Node::Dir(DirSpec {
                    children: vec![Child {
                        name: "a.js".to_string(),
                        mode: 0o644,
                        node: Node::File(FileSpec { contents: String::new() }),
                        when: Some(guard),
                    }],
                }),
                when: None,
            },
            Child {
                name: "b".to_string(),
                mode: 0o644,
                node: Node::File(FileSpec { contents: String::new() }),
                when: Some(When::new()),
            },
        ],
    });
    let probes: Vec<String> = probe_paths(&tree).iter().map(|p| p.join("/")).collect();
    assert_eq!(probes, vec!["src", "src/a.js", "src/mine", "src/yours", "b"]);
    let leaf = Node::File(FileSpec { contents: String::new() });
    assert!(probe_paths(&leaf).is_empty());
}

#[test]
fn template_context_holds_features_and_versions() {
    let mut s = Settings::empty();
    s.redis = Some(true);
    s.volta = Some(true);
    s.node_version = Some("18".to_string());
    let context = s.template_context();
    assert!(context.flags.enabled("redis"));
    assert!(!context.flags.enabled("csrf"));
    assert!(!context.flags.enabled("volta"));
    assert_eq!(context.version, "<unknown version>");
    assert_eq!(context.node_version, "18");
    s.version = Some("1.2.3".to_string());
    assert_eq!(s.template_context().version, "1.2.3");
}
