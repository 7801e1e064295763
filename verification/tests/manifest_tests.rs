//! The manifest document grammar and include resolution.

use repo_utils::manifest_resolve::{resolve_manifest_with_table, Resolver};
use repo_utils::manifest_xml::{parse_manifest_text, ParseError};
use repo_utils::repo_project_selector::Manifest;

fn parsed(text: &str) -> Manifest {
    parse_manifest_text(text).expect("text parses")
}

fn paths_of(m: &Manifest) -> Vec<String> {
    m.projects.iter().map(|p| p.path.clone()).collect()
}

#[test]
fn parses_projects_and_attributes() {
    let m = parsed(
        "<manifest>\n  <project name=\"vendor/a\" path=\"a\" groups=\"g1,g2\"/>\n  <project name='vendor/b' path='b'/>\n</manifest>",
    );
    assert_eq!(m.projects.len(), 2);
    assert_eq!(m.projects[0].name, "vendor/a");
    assert_eq!(m.projects[0].path, "a");
    assert_eq!(m.projects[0].groups.as_deref(), Some("g1,g2"));
    assert_eq!(m.projects[1].path, "b");
    assert!(m.projects[1].groups.is_none());
    assert_eq!(m.includes.len(), 0);
}

#[test]
fn parses_includes_in_order() {
    let m = parsed(
        "<manifest><include name=\"one.xml\"/><project name=\"n\" path=\"p\"/><include name=\"two.xml\"/></manifest>",
    );
    let names: Vec<String> = m.includes.iter().map(|i| i.name.clone()).collect();
    assert_eq!(names, vec!["one.xml", "two.xml"]);
}

#[test]
fn ignores_prolog_comments_and_unknown_elements() {
    let m = parsed(
        "<?xml version=\"1.0\"?>\n<!-- fleet -->\n<manifest>\n  <remote name=\"origin\" fetch=\"..\"/>\n  <default revision=\"main\"/>\n  <project name=\"n\" path=\"p\"/>\n  <!-- trailing note -->\n</manifest>\n",
    );
    assert_eq!(paths_of(&m), vec!["p"]);
}

#[test]
fn ignores_children_of_project_elements() {
    let m = parsed(
        "<manifest><project name=\"n\" path=\"p\"><copyfile src=\"a\" dest=\"b\"/></project></manifest>",
    );
    assert_eq!(m.projects.len(), 1);
}

#[test]
fn nested_project_elements_are_not_top_level() {
    let m = parsed(
        "<manifest><unknown><project name=\"x\" path=\"deep\"/></unknown><project name=\"n\" path=\"p\"/></manifest>",
    );
    assert_eq!(paths_of(&m), vec!["p"]);
}

#[test]
fn decodes_entities_in_attribute_values() {
    let m = parsed(
        "<manifest><project name=\"a&amp;b\" path=\"x&lt;y&gt;z\" groups=\"q&quot;u&apos;o\"/></manifest>",
    );
    assert_eq!(m.projects[0].name, "a&b");
    assert_eq!(m.projects[0].path, "x<y>z");
    assert_eq!(m.projects[0].groups.as_deref(), Some("q\"u'o"));
}

#[test]
fn empty_self_closing_root_is_an_empty_manifest() {
    let m = parsed("<manifest/>");
    assert_eq!(m.projects.len(), 0);
    assert_eq!(m.includes.len(), 0);
}

#[test]
fn missing_required_attribute_is_malformed() {
    let r = parse_manifest_text("<manifest><project name=\"n\"/></manifest>");
    assert!(matches!(r, Err(ParseError::Malformed)));
    let r = parse_manifest_text("<manifest><include/></manifest>");
    assert!(matches!(r, Err(ParseError::Malformed)));
}

#[test]
fn malformed_markup_is_rejected() {
    assert!(parse_manifest_text("").is_err());
    assert!(parse_manifest_text("no markup at all").is_err());
    assert!(parse_manifest_text("<manifest>").is_err());
    assert!(parse_manifest_text("<manifest></wrong>").is_err());
    assert!(parse_manifest_text("<manifest></manifest><extra/>").is_err());
    assert!(parse_manifest_text("<manifest><project name=\"n\" path=\"p\"></manifest>").is_err());
    assert!(parse_manifest_text("<manifest><project name=\"n\" path='p/></manifest>").is_err());
    assert!(parse_manifest_text("<!-- unterminated <manifest/>").is_err());
}

#[test]
fn include_resolution_merges_child_projects() {
    let root = parsed("<manifest><project name=\"r\" path=\"root\"/><include name=\"child.xml\"/></manifest>");
    let table = vec![(
        "child.xml".to_string(),
        parsed("<manifest><project name=\"c\" path=\"child\"/></manifest>"),
    )];
    let resolved = resolve_manifest_with_table(root, &table).expect("resolves");
    assert_eq!(paths_of(&resolved), vec!["root", "child"]);
    assert_eq!(resolved.includes.len(), 0);
}

#[test]
fn include_resolution_is_transitive_and_depth_first() {
    let root = parsed(
        "<manifest><project name=\"r\" path=\"root\"/><include name=\"a.xml\"/><include name=\"b.xml\"/></manifest>",
    );
    let table = vec![
        (
            "a.xml".to_string(),
            parsed("<manifest><project name=\"a\" path=\"a\"/><include name=\"deep.xml\"/></manifest>"),
        ),
        (
            "b.xml".to_string(),
            parsed("<manifest><project name=\"b\" path=\"b\"/></manifest>"),
        ),
        (
            "deep.xml".to_string(),
            parsed("<manifest><project name=\"d\" path=\"deep\"/></manifest>"),
        ),
    ];
    let resolved = resolve_manifest_with_table(root, &table).expect("resolves");
    // depth-first: a's own include resolves before b.xml
    assert_eq!(paths_of(&resolved), vec!["root", "a", "deep", "b"]);
}

#[test]
fn missing_include_is_reported_by_name() {
    let root = parsed("<manifest><include name=\"absent.xml\"/></manifest>");
    let table: Vec<(String, Manifest)> = Vec::new();
    match resolve_manifest_with_table(root, &table) {
        Err(ParseError::MissingInclude(name)) => assert_eq!(name, "absent.xml"),
        other => panic!("expected a missing include, got {:?}", other.map(|m| m.projects.len())),
    }
}

#[test]
fn include_cycle_is_reported_by_name() {
    let root = parsed("<manifest><include name=\"loop.xml\"/></manifest>");
    let table = vec![(
        "loop.xml".to_string(),
        parsed("<manifest><include name=\"loop.xml\"/></manifest>"),
    )];
    match resolve_manifest_with_table(root, &table) {
        Err(ParseError::IncludeCycle(name)) => assert_eq!(name, "loop.xml"),
        other => panic!("expected a cycle, got {:?}", other.map(|m| m.projects.len())),
    }
}

#[test]
fn resolver_machine_hands_out_names_and_merges_children() {
    let root = parsed("<manifest><project name=\"r\" path=\"root\"/><include name=\"c.xml\"/></manifest>");
    let mut resolver = Resolver::new(root);
    let first = resolver.take_next().expect("no cycle").expect("one include");
    assert_eq!(first, "c.xml");
    let child = parsed("<manifest><project name=\"c\" path=\"child\"/></manifest>");
    resolver.supply(&child);
    assert!(resolver.take_next().expect("no cycle").is_none());
    let resolved = resolver.into_manifest();
    assert_eq!(paths_of(&resolved), vec!["root", "child"]);
}

#[test]
fn manifest_membership_queries() {
    let m = parsed(
        "<manifest><project name=\"a\" path=\"pa\" groups=\"g\"/><project name=\"b\" path=\"pb\"/></manifest>",
    );
    assert!(m.contains_project("pa"));
    assert!(m.contains_project("pb"));
    assert!(!m.contains_project("pc"));
    assert_eq!(m.find_project("pa").expect("found").name, "a");
    assert!(m.find_project("pc").is_none());
}

#[test]
fn append_keeps_order_and_duplicates() {
    let mut m = parsed("<manifest><project name=\"a\" path=\"p\"/></manifest>");
    let other = parsed("<manifest><project name=\"b\" path=\"p\"/></manifest>");
    m.append(&other);
    assert_eq!(m.projects.len(), 2);
    assert_eq!(m.projects[0].name, "a");
    assert_eq!(m.projects[1].name, "b");
}

#[test]
fn group_membership_splits_on_commas_and_spaces() {
    let m = parsed(
        "<manifest><project name=\"a\" path=\"p\" groups=\"one,two three\"/><project name=\"b\" path=\"q\"/></manifest>",
    );
    let p = m.find_project("p").expect("found");
    assert!(p.in_any_given_group(&["two".to_string()]));
    assert!(p.in_any_given_group(&["three".to_string()]));
    assert!(!p.in_any_given_group(&["four".to_string()]));
    assert!(!p.in_any_given_group(&[]));
    // a project without groups has the single empty group token
    let q = m.find_project("q").expect("found");
    assert!(q.in_any_given_group(&["".to_string()]));
    assert!(!q.in_any_given_group(&["one".to_string()]));
}
