//! Text utilities, path handling, and the repository list builder.

use repo_utils::repo_history::repos_from;
use repo_utils::repo_project_selector::{
    find_project_list, find_repo_folder, find_repo_manifests_folder,
};
use repo_utils::text::{format_int, path_join, split_groups, split_lines, to_ascii_lower};
use repo_utils::worker_count;

#[test]
fn lines_split_on_lf_and_crlf() {
    assert_eq!(split_lines("a\nb\nc"), vec!["a", "b", "c"]);
    assert_eq!(split_lines("a\r\nb\r\n"), vec!["a", "b"]);
    assert_eq!(split_lines("a\n\nb"), vec!["a", "", "b"]);
    assert_eq!(split_lines("\n"), vec![""]);
    assert_eq!(split_lines(""), Vec::<String>::new());
    // a carriage return not followed by a line feed stays in the line
    assert_eq!(split_lines("a\rb"), vec!["a\rb"]);
}

#[test]
fn groups_split_on_commas_and_spaces_keeping_empty_tokens() {
    assert_eq!(split_groups("one,two three"), vec!["one", "two", "three"]);
    assert_eq!(split_groups(""), vec![""]);
    assert_eq!(split_groups("a,,b"), vec!["a", "", "b"]);
}

#[test]
fn ascii_lowercasing_folds_only_ascii_uppercase() {
    assert_eq!(to_ascii_lower("MiXeD 42!"), "mixed 42!");
    assert_eq!(to_ascii_lower(""), "");
}

#[test]
fn path_joining_inserts_one_separator() {
    assert_eq!(path_join("/base", "x"), "/base/x");
    assert_eq!(path_join("/base/", "x"), "/base/x");
    assert_eq!(path_join("", "x"), "x");
}

#[test]
fn numbers_format_with_zero_padding_and_signs() {
    assert_eq!(format_int(2015, 4, false), "2015");
    assert_eq!(format_int(5, 2, false), "05");
    assert_eq!(format_int(5, 2, true), "+5");
    assert_eq!(format_int(-5, 2, false), "-5");
    assert_eq!(format_int(-30, 2, false), "-30");
    assert_eq!(format_int(0, 4, false), "0000");
}

#[test]
fn repository_records_come_one_per_line_in_order() {
    let repos = repos_from("alpha\nsub/beta\n", "/fleet", true);
    assert_eq!(repos.len(), 3);
    assert_eq!(repos[0].abs_path, "/fleet/alpha");
    assert_eq!(repos[0].rel_path, "alpha");
    assert_eq!(repos[0].description, "alpha");
    assert_eq!(repos[1].abs_path, "/fleet/sub/beta");
    assert_eq!(repos[1].description, "beta");
    assert_eq!(repos[2].rel_path, ".repo/manifests");
    assert_eq!(repos[2].abs_path, "/fleet/.repo/manifests");
    assert_eq!(repos[2].description, "manifests");
}

#[test]
fn marker_folder_paths_hang_off_the_root() {
    assert_eq!(find_repo_folder("/fleet"), "/fleet/.repo");
    assert_eq!(find_repo_manifests_folder("/fleet"), "/fleet/.repo/manifests");
    assert_eq!(find_project_list("/fleet"), "/fleet/.repo/project.list");
}

#[test]
fn worker_count_is_capped() {
    assert_eq!(worker_count(1), 1);
    assert_eq!(worker_count(18), 18);
    assert_eq!(worker_count(36), 18);
}
