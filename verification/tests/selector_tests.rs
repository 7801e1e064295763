//! Selection over a small fixture fleet: a primary manifest that includes a
//! second manifest file, and a project list naming five checked-out projects.

use repo_utils::manifest_resolve::resolve_manifest_with_table;
use repo_utils::manifest_xml::parse_manifest_text;
use repo_utils::repo_project_selector::{select_projects, Manifest};

const PROJECT_LIST: &str = "coffeemaker\nboiler\npressureliefvalve\npot\nstartbutton\n";

const MANIFEST_XML: &str = r#"<?xml version="1.0" encoding="UTF-8"?>
<manifest>
  <remote name="origin" fetch=".."/>
  <default revision="main" remote="origin"/>
  <project name="vendor/coffeemaker" path="coffeemaker" groups="toplevel"/>
  <include name="libs.xml"/>
</manifest>
"#;

const LIBS_XML: &str = r#"<manifest>
  <!-- parts below the top level -->
  <project name="vendor/boiler" path="boiler" groups="electrical,toplevel"/>
  <project name="vendor/pressureliefvalve" path="pressureliefvalve" groups="mechanical"/>
  <project name="vendor/pot" path="pot" groups="mechanical"/>
  <project name="vendor/startbutton" path="startbutton" groups="electrical"/>
</manifest>
"#;

/// The manifests folder of the fixture, as a name-to-text table.
fn manifests_on_disk() -> Vec<(String, String)> {
    vec![
        ("libs.xml".to_string(), LIBS_XML.to_string()),
        ("../manifest.xml".to_string(), MANIFEST_XML.to_string()),
    ]
}

/// Parses and fully resolves the manifest text filed under `name`.
fn load_manifest(name: &str) -> Manifest {
    let files = manifests_on_disk();
    let text = files
        .iter()
        .find(|(n, _)| n == name)
        .map(|(_, t)| t.clone())
        .expect("fixture manifest");
    let root = parse_manifest_text(&text).expect("fixture parses");
    let table: Vec<(String, Manifest)> = files
        .iter()
        .map(|(n, t)| (n.clone(), parse_manifest_text(t).expect("fixture parses")))
        .collect();
    resolve_manifest_with_table(root, &table).expect("fixture resolves")
}

fn assert_select_projects(
    include_manifest_repo: bool,
    filter_by_groups: Option<Vec<String>>,
    filter_by_manifest_files: Option<Vec<String>>,
    expected_seclection: &str,
) {
    let primary = load_manifest("../manifest.xml");
    let group_filter = filter_by_groups.map(|groups| (groups, primary));
    let manifest_filter = filter_by_manifest_files.map(|files| {
        let mut aggregate = Manifest::empty();
        for file in files {
            let resolved = load_manifest(&file);
            aggregate.append(&resolved);
        }
        aggregate
    });
    assert_eq!(
        select_projects(PROJECT_LIST, include_manifest_repo, group_filter, manifest_filter)
            .join(","),
        expected_seclection
    );
}

#[test]
fn test_select_projects() {
    assert_select_projects(
        false,
        None,
        None,
        "coffeemaker,boiler,pressureliefvalve,pot,startbutton",
    );
    assert_select_projects(
        true,
        None,
        None,
        "coffeemaker,boiler,pressureliefvalve,pot,startbutton,.repo/manifests",
    );
}

#[test]
fn test_select_projects_with_group_filter() {
    assert_select_projects(
        false,
        Some(vec!["mechanical".to_string()]),
        None,
        "pressureliefvalve,pot",
    );
    assert_select_projects(
        true,
        Some(vec!["electrical".to_string()]),
        None,
        "boiler,startbutton,.repo/manifests",
    );
    assert_select_projects(false, Some(vec!["chemical".to_string()]), None, "");
}

#[test]
fn test_select_projects_with_manifest_filter() {
    assert_select_projects(
        false,
        None,
        Some(vec!["libs.xml".to_string()]),
        "boiler,pressureliefvalve,pot,startbutton",
    );
    assert_select_projects(
        false,
        None,
        Some(vec!["../manifest.xml".to_string()]),
        "coffeemaker,boiler,pressureliefvalve,pot,startbutton",
    );
}

#[test]
fn test_select_projects_with_all_filters() {
    assert_select_projects(
        false,
        Some(vec!["toplevel".to_string(), "electrical".to_string()]),
        Some(vec!["libs.xml".to_string()]),
        "boiler,startbutton",
    );
    assert_select_projects(
        false,
        Some(vec!["toplevel".to_string(), "electrical".to_string()]),
        Some(vec!["libs.xml".to_string(), "../manifest.xml".to_string()]),
        "coffeemaker,boiler,startbutton",
    );
}

#[test]
fn manifest_repo_entry_is_appended_even_when_filters_drop_everything() {
    assert_select_projects(
        true,
        Some(vec!["chemical".to_string()]),
        None,
        ".repo/manifests",
    );
}

#[test]
fn group_filter_requires_presence_in_primary_manifest() {
    // a line of the project list that the primary manifest does not know
    // is dropped by the group filter even if a group name would match
    let primary = load_manifest("../manifest.xml");
    let selected = select_projects(
        "coffeemaker\nghostproject\n",
        false,
        Some((vec!["toplevel".to_string()], primary)),
        None,
    );
    assert_eq!(selected.join(","), "coffeemaker");
}

#[test]
fn manifest_filter_ignores_groups() {
    // pot is mechanical, yet the manifest filter keeps it: path presence alone decides
    let selected = select_projects(
        PROJECT_LIST,
        false,
        None,
        Some(load_manifest("libs.xml")),
    );
    assert!(selected.contains(&"pot".to_string()));
}

#[test]
fn selection_keeps_file_order() {
    let selected = select_projects("zeta\nalpha\nmid\n", false, None, None);
    assert_eq!(selected, vec!["zeta", "alpha", "mid"]);
}
