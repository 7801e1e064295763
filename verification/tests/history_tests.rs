//! The classifier, the per-repository walk state, the merge phase, and the
//! time rendering.

use std::sync::Arc;
use repo_utils::config::Config;
use repo_utils::repo_history::{
    Classifier, MultiRepoHistory, Repo, RepoCommit, RepoWalk, RevWalkStrategy,
};

fn repo() -> Arc<Repo> {
    Arc::new(Repo::from("/fleet/widget".to_string(), "widget".to_string()))
}

fn commit_at(time_secs: i64, author: &str, message: &str) -> RepoCommit {
    RepoCommit::from(
        repo(),
        time_secs,
        0,
        message.lines().next().unwrap_or("").to_string(),
        author.to_string(),
        author.to_string(),
        format!("{:040x}", time_secs as u128),
        message.to_string(),
    )
}

const DAY: i64 = 86400;

#[test]
fn classifier_excludes_and_aborts_on_old_commits() {
    let classifier = Classifier::new(30, None, None);
    let now: i64 = 1_000_000_000;
    let old_commit = commit_at(now - 31 * DAY, "ann", "anything");
    assert_eq!(classifier.classify(&old_commit, now), (false, true));
}

#[test]
fn classifier_keeps_future_commits() {
    // a commit dated after `now` has a negative age in whole days and so lies
    // within any window
    let classifier = Classifier::new(0, None, None);
    let now: i64 = 1_000_000_000;
    let future = commit_at(now + DAY, "ann", "anything");
    assert_eq!(classifier.classify(&future, now), (true, false));
}

#[test]
fn classifier_keeps_commits_within_the_window() {
    let classifier = Classifier::new(30, None, None);
    let now: i64 = 1_000_000_000;
    let fresh = commit_at(now - 29 * DAY, "ann", "anything");
    assert_eq!(classifier.classify(&fresh, now), (true, false));
    // exactly at the boundary: 30 whole days old is still within a 30 day window
    let edge = commit_at(now - 30 * DAY, "ann", "anything");
    assert_eq!(classifier.classify(&edge, now), (true, false));
}

#[test]
fn text_filters_narrow_inclusion_but_never_abort() {
    let now: i64 = 1_000_000_000;
    let by_author = Classifier::new(365, Some("ANN"), None);
    let wrong_author = commit_at(now - DAY, "Bob Builder", "fix the boiler");
    assert_eq!(by_author.classify(&wrong_author, now), (false, false));
    let right_author = commit_at(now - DAY, "Anna Lyse", "fix the boiler");
    assert_eq!(by_author.classify(&right_author, now), (true, false));

    let by_message = Classifier::new(365, None, Some("BOILER"));
    let wrong_message = commit_at(now - DAY, "ann", "polish the pot");
    assert_eq!(by_message.classify(&wrong_message, now), (false, false));
    let right_message = commit_at(now - DAY, "ann", "Fix The Boiler");
    assert_eq!(by_message.classify(&right_message, now), (true, false));
}

#[test]
fn walk_state_keeps_classified_commits_and_counts_missing() {
    let classifier = Classifier::new(30, None, None);
    let now: i64 = 1_000_000_000;
    let mut walk = RepoWalk::new();
    assert!(!walk.on_commit(&classifier, commit_at(now - DAY, "a", "m1"), now));
    walk.on_missing();
    assert!(!walk.on_commit(&classifier, commit_at(now - 2 * DAY, "a", "m2"), now));
    walk.on_missing();
    let aborted = walk.on_commit(&classifier, commit_at(now - 40 * DAY, "a", "m3"), now);
    assert!(aborted);
    assert_eq!(walk.commits.len(), 2);
    assert_eq!(walk.missing, 2);
}

#[test]
fn aggregation_merges_commits_by_time_descending() {
    let classifier = Classifier::new(u32::MAX, None, None);
    let now: i64 = 100;
    let mut r1 = RepoWalk::new();
    for t in [30i64, 20, 10] {
        r1.on_commit(&classifier, commit_at(t, "a", "m"), now);
    }
    let mut r2 = RepoWalk::new();
    for t in [25i64, 15] {
        r2.on_commit(&classifier, commit_at(t, "a", "m"), now);
    }
    let history = MultiRepoHistory::from(vec![repo(), repo()], vec![r1, r2]);
    let times: Vec<i64> = history.commits.iter().map(|c| c.commit_time_secs).collect();
    assert_eq!(times, vec![30, 25, 20, 15, 10]);
    assert_eq!(history.repos.len(), 2);
    assert_eq!(history.locally_missing_commits, 0);
}

#[test]
fn missing_commits_are_summed_across_repositories() {
    let mut r1 = RepoWalk::new();
    r1.on_missing();
    r1.on_missing();
    let mut r2 = RepoWalk::new();
    r2.on_missing();
    let history = MultiRepoHistory::from(vec![], vec![r1, r2]);
    assert_eq!(history.locally_missing_commits, 3);
    assert_eq!(history.commits.len(), 0);
}

#[test]
fn repo_description_is_the_last_path_segment() {
    let r = Repo::from("/fleet/vendor/boiler".to_string(), "vendor/boiler".to_string());
    assert_eq!(r.description, "boiler");
    let trailing = Repo::from("/fleet/vendor/pot/".to_string(), "vendor/pot".to_string());
    assert_eq!(trailing.description, "pot");
    let bare = Repo::from("".to_string(), "fallback".to_string());
    assert_eq!(bare.description, "fallback");
}

#[test]
fn commit_time_renders_in_civil_form() {
    // 2015-05-15 00:00:00 UTC
    let c = RepoCommit::from(
        repo(),
        1_431_648_000,
        0,
        "s".to_string(),
        "a".to_string(),
        "c".to_string(),
        "id".to_string(),
        "m".to_string(),
    );
    assert_eq!(c.time_as_str(), "2015-05-15 00:00 +000");
    let east = RepoCommit::from(
        repo(),
        1_431_648_000,
        330,
        "s".to_string(),
        "a".to_string(),
        "c".to_string(),
        "id".to_string(),
        "m".to_string(),
    );
    assert_eq!(east.time_as_str(), "2015-05-15 05:30 +530");
    let west = RepoCommit::from(
        repo(),
        1_431_648_000,
        -330,
        "s".to_string(),
        "a".to_string(),
        "c".to_string(),
        "id".to_string(),
        "m".to_string(),
    );
    assert_eq!(west.time_as_str(), "2015-05-14 18:30 -5-30");
}

#[test]
fn strategies_are_distinct_values() {
    assert_eq!(RevWalkStrategy::FirstParent, RevWalkStrategy::FirstParent);
    assert!(RevWalkStrategy::FirstParent != RevWalkStrategy::AllParents);
}

#[test]
fn config_starts_empty() {
    let c = Config::new();
    assert!(c.settings.is_empty());
    assert!(c.custom_command.is_empty());
}
