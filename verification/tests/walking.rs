use reburn::parse_selector;
use reburn::reduce::recursive_join;
use reburn::routes::{NameMatch, RouteItem};
use reburn::walk::{match_all, FsNode};

fn file(name: &str) -> (String, FsNode) {
    (name.to_string(), FsNode::File)
}

fn dir(name: &str, entries: Vec<(String, FsNode)>) -> (String, FsNode) {
    (name.to_string(), FsNode::Dir(entries))
}

/// src/{main.rs, lib.rs, util/helper.rs}, Cargo.toml
fn sample_tree() -> FsNode {
    FsNode::Dir(vec![
        dir(
            "src",
            vec![
                file("main.rs"),
                file("lib.rs"),
                dir("util", vec![file("helper.rs")]),
            ],
        ),
        file("Cargo.toml"),
    ])
}

fn targets_of(pattern: &str, root: &FsNode) -> Vec<(Vec<String>, bool)> {
    let routes = recursive_join(&parse_selector(pattern).unwrap()).unwrap();
    match_all(&routes, root)
}

fn path(segments: &[&str]) -> Vec<String> {
    segments.iter().map(|s| s.to_string()).collect()
}

#[test]
fn walk_literal_segments() {
    let tree = sample_tree();
    let out = targets_of("src/main.rs", &tree);
    assert_eq!(out, vec![(path(&["src", "main.rs"]), false)]);
}

#[test]
fn walk_single_wildcard() {
    let tree = sample_tree();
    let out = targets_of("src/*.rs", &tree);
    assert_eq!(
        out,
        vec![
            (path(&["src", "main.rs"]), false),
            (path(&["src", "lib.rs"]), false),
        ]
    );
}

#[test]
fn walk_trailing_depth_wildcard_is_recursive() {
    let tree = sample_tree();
    let out = targets_of("**", &tree);
    assert_eq!(out, vec![(path(&[]), true)]);
    let out = targets_of("src/**", &tree);
    assert_eq!(out, vec![(path(&["src"]), true)]);
}

#[test]
fn walk_dot_and_dotdot() {
    let tree = sample_tree();
    let out = targets_of("./src", &tree);
    assert_eq!(out, vec![(path(&["src"]), false)]);
    let out = targets_of("src/../Cargo.toml", &tree);
    assert_eq!(out, vec![(path(&["Cargo.toml"]), false)]);
    // the root has no parent: the branch is dropped silently
    let out = targets_of("../Cargo.toml", &tree);
    assert_eq!(out, Vec::<(Vec<String>, bool)>::new());
}

#[test]
fn walk_depth_wildcard_spans_levels() {
    let tree = sample_tree();
    let out = targets_of("**/*.rs", &tree);
    // every .rs file at any depth is found; the sequence is an unordered
    // set, and a path may be reached along more than one wildcard split
    let mut sorted = out.clone();
    sorted.sort();
    sorted.dedup();
    assert_eq!(
        sorted,
        vec![
            (path(&["src", "lib.rs"]), false),
            (path(&["src", "main.rs"]), false),
            (path(&["src", "util", "helper.rs"]), false),
        ]
    );
}

#[test]
fn walk_idempotent() {
    // walking the same routes against an unchanged tree twice yields the
    // same set of targets
    let tree = sample_tree();
    let routes = recursive_join(&parse_selector("**/*").unwrap()).unwrap();
    let mut first = match_all(&routes, &tree);
    let mut second = match_all(&routes, &tree);
    first.sort();
    second.sort();
    assert_eq!(first, second);
}

#[test]
fn walk_omission_zero_levels() {
    // a mid-route depth wildcard may consume zero levels: the targets of
    // the route without it are all present
    let tree = sample_tree();
    let with_wildcard = vec![vec![
        RouteItem::AnySubRoute,
        RouteItem::Name(vec![NameMatch::Literal("Cargo.toml".to_string())]),
    ]];
    let without = vec![vec![RouteItem::Name(vec![NameMatch::Literal(
        "Cargo.toml".to_string(),
    )])]];
    let full = match_all(&with_wildcard, &tree);
    let zero = match_all(&without, &tree);
    for t in &zero {
        assert!(full.contains(t));
    }
    assert!(full.contains(&(path(&["Cargo.toml"]), false)));
}

#[test]
fn walk_into_file_finds_nothing() {
    // a file offers no entries: a route that needs to descend past it
    // drops out silently
    let tree = sample_tree();
    let out = targets_of("Cargo.toml/x", &tree);
    assert_eq!(out, Vec::<(Vec<String>, bool)>::new());
    // but the file itself can be a target
    let out = targets_of("Cargo.toml", &tree);
    assert_eq!(out, vec![(path(&["Cargo.toml"]), false)]);
}
