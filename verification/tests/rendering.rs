use boltzmann::paths::PathSet;
use boltzmann::render::{scaffold, Child, DirSpec, FileSpec, Node, Step, TemplateSpec};
use boltzmann::settings::Settings;
use boltzmann::when::When;

fn path(segments: &[&str]) -> Vec<String> {
    segments.iter().map(|s| s.to_string()).collect()
}

fn file(name: &str, contents: &str, when: Option<When>) -> Child {
    Child {
        name: name.to_string(),
        mode: 0o644,
        node: Node::File(FileSpec { contents: contents.to_string() }),
        when,
    }
}

fn template(name: &str, id: &str, when: Option<When>) -> Child {
    Child {
        name: name.to_string(),
        mode: 0o644,
        node: Node::Template(TemplateSpec { template_name: id.to_string() }),
        when,
    }
}

fn dir(name: &str, children: Vec<Child>, when: Option<When>) -> Child {
    Child { name: name.to_string(), mode: 0o755, node: Node::Dir(DirSpec { children }), when }
}

fn requires_feature(feature: &str) -> When {
    let mut w = When::new();
    w.all_of = vec![feature.to_string()];
    w
}

fn unless_present(segment: &str) -> When {
    let mut w = When::new();
    w.if_not_present = vec![segment.to_string()];
    w
}

fn existing(paths: &[&[&str]]) -> PathSet {
    let mut set = PathSet::new();
    for p in paths {
        set.insert(path(p));
    }
    set
}

fn describe(steps: &[Step]) -> Vec<String> {
    steps
        .iter()
        .map(|s| match s {
            Step::MakeDir { path, mode } => format!("mkdir {} {:o}", path.join("/"), mode),
            Step::WriteFile { path, mode, contents } => {
                format!("write {} {:o} {:?}", path.join("/"), mode, contents)
            }
            Step::WriteTemplate { path, mode, template_name } => {
                format!("render {} {:o} {}", path.join("/"), mode, template_name)
            }
            Step::LeftInPlace { path } => format!("kept {}", path.join("/")),
        })
        .collect()
}

fn after(before: &PathSet, steps: &[Step]) -> PathSet {
    let mut set = PathSet::new();
    for p in &before.paths {
        set.insert(p.clone());
    }
    for s in steps {
        match s {
            Step::MakeDir { path, .. }
            | Step::WriteFile { path, .. }
            | Step::WriteTemplate { path, .. } => set.insert(path.clone()),
            Step::LeftInPlace { .. } => {}
        }
    }
    set
}

fn sample_tree() -> Node {
    Node::Dir(DirSpec {
        children: vec![
            file("README.md", "# hello\n", Some(unless_present("README.md"))),
            dir(
                "src",
                vec![
                    template("index.js", "index.js.tmpl", None),
                    file("redis.js", "redis", Some(requires_feature("redis"))),
                ],
                None,
            ),
            dir(".github", vec![file("ci.yml", "ci", None)], Some(requires_feature("githubci"))),
        ],
    })
}

fn settings(redis: bool, githubci: bool) -> Settings {
    let mut s = Settings::empty();
    s.redis = Some(redis);
    s.githubci = Some(githubci);
    s
}

#[test]
fn fresh_directory_gets_every_wanted_entry_in_order() {
    let steps = scaffold(&sample_tree(), &settings(true, false), &PathSet::new());
    assert_eq!(
        describe(&steps),
        vec![
            "mkdir  777",
            "write README.md 644 \"# hello\\n\"",
            "mkdir src 755",
            "render src/index.js 644 index.js.tmpl",
            "write src/redis.js 644 \"redis\"",
        ]
    );
}

#[test]
fn guarded_entry_that_exists_is_not_written() {
    let present = existing(&[&["README.md"]]);
    for redis in [false, true] {
        let steps = scaffold(&sample_tree(), &settings(redis, true), &present);
        assert!(describe(&steps).iter().all(|s| !s.contains("README.md")));
    }
}

#[test]
fn guard_suppresses_a_whole_subtree() {
    let tree = Node::Dir(DirSpec {
        children: vec![dir(
            "docs",
            vec![file("a.md", "a", None), dir("deep", vec![file("b.md", "b", None)], None)],
            Some(unless_present("my-docs")),
        )],
    });
    let steps = scaffold(&tree, &Settings::empty(), &existing(&[&["my-docs"]]));
    assert_eq!(describe(&steps), vec!["mkdir  777"]);
    let steps = scaffold(&tree, &Settings::empty(), &PathSet::new());
    assert_eq!(steps.len(), 5);
}

#[test]
fn guard_sees_what_an_earlier_entry_created() {
    let tree = Node::Dir(DirSpec {
        children: vec![file("a", "1", None), file("b", "2", Some(unless_present("a")))],
    });
    let steps = scaffold(&tree, &Settings::empty(), &PathSet::new());
    assert_eq!(describe(&steps), vec!["mkdir  777", "write a 644 \"1\""]);
}

#[test]
fn unwanted_entry_that_exists_is_left_in_place() {
    let present = existing(&[&["src"], &["src", "redis.js"]]);
    let steps = scaffold(&sample_tree(), &settings(false, false), &present);
    assert_eq!(
        describe(&steps),
        vec![
            "mkdir  777",
            "write README.md 644 \"# hello\\n\"",
            "mkdir src 755",
            "render src/index.js 644 index.js.tmpl",
            "kept src/redis.js",
        ]
    );
}

#[test]
fn unwanted_entry_that_is_absent_is_passed_over() {
    let steps = scaffold(&sample_tree(), &settings(false, false), &PathSet::new());
    assert!(describe(&steps).iter().all(|s| !s.contains("redis") && !s.contains(".github")));
}

#[test]
fn second_pass_repeats_the_first() {
    let tree = sample_tree();
    let s = settings(true, true);
    let start = existing(&[&["package.json"]]);
    let first = scaffold(&tree, &s, &start);
    let left = after(&start, &first);
    let second = scaffold(&tree, &s, &left);
    let first_lines = describe(&first);
    for line in describe(&second) {
        assert!(first_lines.contains(&line));
    }
    let end = after(&left, &second);
    for p in &end.paths {
        assert!(left.contains(p));
    }
    assert!(end.contains(&path(&["package.json"])));
}

#[test]
fn root_that_is_no_directory_yields_nothing() {
    let root = Node::File(FileSpec { contents: "x".to_string() });
    assert!(scaffold(&root, &Settings::empty(), &PathSet::new()).is_empty());
}

#[test]
fn path_sets_compare_by_segments() {
    let set = existing(&[&["a", "b"], &[]]);
    assert!(set.contains(&path(&["a", "b"])));
    assert!(set.contains(&path(&[])));
    assert!(!set.contains(&path(&["a"])));
    assert!(!set.contains(&path(&["a/b"])));
    assert!(!set.contains(&path(&["b", "a"])));
}

#[test]
fn trees_with_a_repeated_name_are_not_well_formed() {
    assert!(sample_tree().is_well_formed());
    assert!(Node::File(FileSpec { contents: String::new() }).is_well_formed());
    let twice = Node::Dir(DirSpec { children: vec![file("a", "1", None), file("a", "2", None)] });
    assert!(!twice.is_well_formed());
    let nested = Node::Dir(DirSpec {
        children: vec![
            file("a", "1", None),
            dir("b", vec![file("a", "1", None), file("c", "1", None), file("a", "2", None)], None),
        ],
    });
    assert!(!nested.is_well_formed());
    let same_name_in_two_directories = Node::Dir(DirSpec {
        children: vec![file("a", "1", None), dir("b", vec![file("a", "1", None)], None)],
    });
    assert!(same_name_in_two_directories.is_well_formed());
}

#[test]
fn second_pass_differs_when_a_name_is_repeated() {
    let tree = Node::Dir(DirSpec {
        children: vec![
            file("x", "first", None),
            file("x", "second", Some(unless_present("y"))),
            file("y", "", None),
        ],
    });
    let first = scaffold(&tree, &Settings::empty(), &PathSet::new());
    assert_eq!(
        describe(&first),
        vec!["mkdir  777", "write x 644 \"first\"", "write x 644 \"second\"", "write y 644 \"\""]
    );
    let left = after(&PathSet::new(), &first);
    let second = scaffold(&tree, &Settings::empty(), &left);
    assert_eq!(describe(&second), vec!["mkdir  777", "write x 644 \"first\"", "write y 644 \"\""]);
}
