use mcmod::error::ErrorKind;
use mcmod::graph::{build_graph, join_path, retired_targets, BuildGraph, CopyEdge, SourceEntry};

const BUILD_HEADER: &str = "\n# Incremental build file for copying source and assets\n# Please run `mcmod sync` to update this file when mcmod.yaml, or when the file structure changes\n\nrule cp\n  command = cp $in $out\n  description = Copying $in\n";
use mcmod::manifest::CopySpec;
use mcmod::walk::{children_valid, TreeWalk};

fn entry(rel: &str, is_dir: bool) -> SourceEntry {
    SourceEntry { rel: rel.to_string(), is_dir }
}

#[test]
fn graph_missing_source_is_not_found() {
    let rules = vec![CopySpec::Simple("src".to_string()), CopySpec::Simple("gone".to_string())];
    let trees = vec![Some(vec![entry("", true), entry("a.java", false)]), None];
    let r = build_graph("/p", "/p/target", &rules, &trees);
    assert_eq!(r.unwrap_err().kind, ErrorKind::NotFound);
}

#[test]
fn graph_one_edge_per_regular_file() {
    let rules = vec![CopySpec::SourceTarget("assets".to_string(), "src/main/resources".to_string())];
    let trees = vec![Some(vec![
        entry("", true),
        entry("a", true),
        entry("a/x.png", false),
        entry("a/y.png", false),
        entry("b.txt", false),
    ])];
    let g = build_graph("/p", "/p/target", &rules, &trees).unwrap();
    assert_eq!(g.edges.len(), 3);
    assert_eq!(g.edges[0].source, "/p/assets/a/x.png");
    assert_eq!(g.edges[0].target, "/p/target/src/main/resources/a/x.png");
    assert_eq!(g.edges[2].source, "/p/assets/b.txt");
    assert_eq!(
        g.dirs,
        vec!["/p/target/src/main/resources".to_string(), "/p/target/src/main/resources/a".to_string()]
    );
}

#[test]
fn graph_single_file_source() {
    let rules = vec![CopySpec::Simple("LICENSE".to_string())];
    let trees = vec![Some(vec![entry("", false)])];
    let g = build_graph("/p", "/p/target", &rules, &trees).unwrap();
    assert_eq!(g.edges.len(), 1);
    assert_eq!(g.edges[0].source, "/p/LICENSE");
    assert_eq!(g.edges[0].target, "/p/target/LICENSE");
}

#[test]
fn graph_retired_rule_is_skipped_even_without_source() {
    let rules = vec![CopySpec::SourceTarget("null".to_string(), "old".to_string())];
    let trees = vec![None];
    let g = build_graph("/p", "/p/target", &rules, &trees).unwrap();
    assert!(g.edges.is_empty());
    assert_eq!(retired_targets("/p/target", &rules), vec!["/p/target/old".to_string()]);
}

#[test]
fn graph_two_rules_writing_one_target_conflict() {
    let rules = vec![
        CopySpec::Simple("a".to_string()),
        CopySpec::SourceTarget("b".to_string(), "a".to_string()),
    ];
    let trees = vec![Some(vec![entry("", false)]), Some(vec![entry("", false)])];
    let r = build_graph("/p", "/p/t", &rules, &trees);
    assert_eq!(r.unwrap_err().kind, ErrorKind::AlreadyExists);
}

#[test]
fn graph_render_escapes_paths() {
    let g = BuildGraph {
        edges: vec![CopyEdge { source: "/s/a b:c$".to_string(), target: "/t/a b:c$".to_string() }],
        dirs: Vec::new(),
    };
    let text = g.render(false);
    assert!(text.starts_with(BUILD_HEADER));
    assert_eq!(&text[BUILD_HEADER.len()..], "\nbuild /t/a$ b$:c$$: cp /s/a$ b$:c$$\n");
    assert!(text.contains("rule cp\n  command = cp $in $out\n"));
}

#[test]
fn graph_render_without_edges_is_header() {
    let g = BuildGraph { edges: Vec::new(), dirs: Vec::new() };
    assert_eq!(g.render(false), BUILD_HEADER);
    assert_eq!(g.render(true), BUILD_HEADER.replace("command = cp", "command = coreutils cp"));
}

#[test]
fn join_paths_like_pathbuf() {
    assert_eq!(join_path("/a", "b"), "/a/b");
    assert_eq!(join_path("/a/", "b"), "/a/b");
    assert_eq!(join_path("/a", "/b"), "/b");
    assert_eq!(join_path("", "b"), "b");
}

#[test]
fn manifest_build_ninja_text() {
    let mut m = mcmod_with_rules(vec![CopySpec::Simple("src".to_string())]);
    let trees = vec![Some(vec![entry("", true), entry("A.java", false)])];
    let text = m.create_build_ninja("/p", "/p/target", &trees, false).unwrap();
    assert_eq!(
        text,
        format!("{}\nbuild /p/target/src/A.java: cp /p/src/A.java\n", BUILD_HEADER)
    );
    m.copy_paths.push(CopySpec::Simple("missing".to_string()));
    let trees = vec![Some(vec![entry("", false)]), None];
    assert_eq!(m.create_build_ninja("/p", "/p/target", &trees, false).unwrap_err().kind, ErrorKind::NotFound);
}

fn mcmod_with_rules(copy_paths: Vec<CopySpec>) -> mcmod::manifest::Mcmod {
    mcmod::manifest::Mcmod {
        template: mcmod::manifest::Template::Ntmc1710,
        name: "n".to_string(),
        modid: "n".to_string(),
        description: String::new(),
        url: String::new(),
        update_url: String::new(),
        authors: Vec::new(),
        credits: String::new(),
        logo: String::new(),
        screenshots: Vec::new(),
        version: String::new(),
        artifact_version: String::new(),
        group: String::new(),
        archives_base_name: String::new(),
        api: String::new(),
        coremod: String::new(),
        access_transformers: Vec::new(),
        mixins: String::new(),
        libs: Vec::new(),
        mods: Vec::new(),
        gradle_overrides: mcmod::properties::PropertyMap::new(),
        copy_paths,
    }
}

#[test]
fn tree_walk_records_entries_and_lists_directories() {
    let mut walk = TreeWalk::new(true);
    assert_eq!(walk.next_dir(), Some(String::new()));
    let top = vec![("a".to_string(), true), ("b.txt".to_string(), false)];
    assert!(children_valid(&top));
    walk.expand(top);
    assert_eq!(walk.next_dir(), Some("a".to_string()));
    walk.expand(vec![("x.png".to_string(), false), ("deep".to_string(), true)]);
    assert_eq!(walk.next_dir(), Some("a/deep".to_string()));
    walk.expand(Vec::new());
    assert_eq!(walk.next_dir(), None);
    let entries = walk.finish();
    let rels: Vec<(String, bool)> = entries.iter().map(|e| (e.rel.clone(), e.is_dir)).collect();
    assert_eq!(
        rels,
        vec![
            (String::new(), true),
            ("a".to_string(), true),
            ("b.txt".to_string(), false),
            ("a/x.png".to_string(), false),
            ("a/deep".to_string(), true),
        ]
    );
    let g = build_graph(
        "/p",
        "/p/t",
        &vec![CopySpec::Simple("assets".to_string())],
        &vec![Some(entries)],
    )
    .unwrap();
    assert_eq!(g.edges.len(), 2);
    assert_eq!(g.edges[1].target, "/p/t/assets/a/x.png");
}

#[test]
fn tree_walk_of_single_file_and_invalid_listings() {
    let walk = TreeWalk::new(false);
    assert_eq!(walk.next_dir(), None);
    assert_eq!(walk.finish().len(), 1);
    assert!(!children_valid(&vec![("".to_string(), false)]));
    assert!(!children_valid(&vec![("a/b".to_string(), false)]));
    assert!(!children_valid(&vec![("a".to_string(), false), ("a".to_string(), true)]));
}

#[test]
fn graph_plain_null_rule_is_skipped() {
    let rules = vec![CopySpec::Simple("null".to_string()), CopySpec::Simple("src".to_string())];
    let trees = vec![None, Some(vec![entry("", false)])];
    let g = build_graph("/p", "/p/t", &rules, &trees).unwrap();
    assert_eq!(g.edges.len(), 1);
    assert!(retired_targets("/p/t", &rules).is_empty());
}

#[test]
fn graph_render_windows_command() {
    let g = BuildGraph {
        edges: vec![CopyEdge { source: "/s/x".to_string(), target: "/t/x".to_string() }],
        dirs: Vec::new(),
    };
    let text = g.render(true);
    assert!(text.contains("rule cp\n  command = coreutils cp $in $out\n  description = Copying $in\n"));
    assert!(text.ends_with("\nbuild /t/x: cp /s/x\n"));
}
