//! Multi-repository commit history: the repository and commit records, the
//! per-commit classifier with its early-abort signal, the per-repository walk
//! state, and the merge of all per-repository results into one stream of
//! commits ordered by time, descending.

use vstd::prelude::*;
use vstd::multiset::Multiset;
use std::sync::Arc;
use chrono::Datelike;
use chrono::Timelike;
use crate::text::{
    ascii_lower_seq, fmt_int_spec, format_int, join_path, last_segment, lower_of,
    path_join, path_last_segment, seq_contains_sub, split_lines, split_lines_spec, str_contains,
    to_ascii_lower, to_lowercase,
};

verus! {

broadcast use
    vstd::seq_lib::group_to_multiset_ensures,
    vstd::multiset::group_multiset_axioms,
    vstd::multiset::lemma_multiset_empty_len,
;

/// How a repository's commit graph is traversed: along first parents only
/// (the mainline, fast) or along all parents (every commit, slow).
#[derive(Clone, Copy, PartialEq, Eq, Structural, Debug)]
pub enum RevWalkStrategy {
    FirstParent,
    AllParents,
}

// ---------------------------------------------------------------------------
// Repositories and commits
// ---------------------------------------------------------------------------
/// A local git repository of the fleet. Shared read-only between the commits
/// taken from it.
pub struct Repo {
    pub abs_path: String,
    pub rel_path: String,
    pub description: String,
}

/// The description a repository record carries: the last non-empty segment of
/// its absolute path, or the relative path when there is none.
pub open spec fn description_spec(abs: Seq<char>, rel: Seq<char>) -> Seq<char> {
    match last_segment(abs) {
        Some(seg) => seg,
        None => rel,
    }
}

impl Repo {
    /// Builds a repository record; the description is derived from the path.
    pub fn from(abs_path: String, rel_path: String) -> (r: Repo)
        ensures
            r.abs_path@ == abs_path@,
            r.rel_path@ == rel_path@,
            r.description@ == description_spec(abs_path@, rel_path@),
    {
        let description = match path_last_segment(abs_path.as_str()) {
            Some(seg) => seg,
            None => rel_path.clone(),
        };
        Repo { abs_path, rel_path, description }
    }
}

/// A commit of one repository of the fleet: its time as seconds since the
/// epoch with the author's offset from UTC in minutes, its text fields, and
/// its identifier; the repository record is shared, not copied.
pub struct RepoCommit {
    pub repo: Arc<Repo>,
    pub commit_time_secs: i64,
    pub commit_time_offset_minutes: i32,
    pub summary: String,
    pub author: String,
    pub committer: String,
    pub commit_id: String,
    pub message: String,
}

impl RepoCommit {
    /// Builds a commit record from its plain parts.
    pub fn from(
        repo: Arc<Repo>,
        commit_time_secs: i64,
        commit_time_offset_minutes: i32,
        summary: String,
        author: String,
        committer: String,
        commit_id: String,
        message: String,
    ) -> (c: RepoCommit)
        ensures
            c.repo == repo,
            c.commit_time_secs == commit_time_secs,
            c.commit_time_offset_minutes == commit_time_offset_minutes,
            c.summary == summary,
            c.author == author,
            c.committer == committer,
            c.commit_id == commit_id,
            c.message == message,
    {
        RepoCommit {
            repo,
            commit_time_secs,
            commit_time_offset_minutes,
            summary,
            author,
            committer,
            commit_id,
            message,
        }
    }

    /// The commit's time as `YYYY-MM-DD HH:MM +HHMM` (offset hours signed,
    /// both offset parts truncated towards zero), or empty when the calendar
    /// cannot represent the instant.
    pub fn time_as_str(&self) -> (r: String)
        ensures
            r@ == time_string_spec(
                civil_of(self.commit_time_secs, self.commit_time_offset_minutes),
                self.commit_time_offset_minutes,
            ),
    {
        match civil_parts(self.commit_time_secs, self.commit_time_offset_minutes) {
            None => String::new(),
            Some((year, month, day, hour, minute)) => {
                let m: i64 = self.commit_time_offset_minutes as i64;
                let oh: i64 = if m >= 0 {
                    m / 60
                } else {
                    -((-m) / 60)
                };
                let om: i64 = m - oh * 60;
                proof {
                    assert(oh == div_towards_zero(
                        self.commit_time_offset_minutes as int,
                        60,
                    ));
                }
                let mut r = format_int(year as i64, 4, false);
                r.append("-");
                r.append(format_int(month as i64, 2, false).as_str());
                r.append("-");
                r.append(format_int(day as i64, 2, false).as_str());
                r.append(" ");
                r.append(format_int(hour as i64, 2, false).as_str());
                r.append(":");
                r.append(format_int(minute as i64, 2, false).as_str());
                r.append(" ");
                r.append(format_int(oh, 2, true).as_str());
                r.append(format_int(om, 2, false).as_str());
                proof {
                    reveal_strlit("-");
                    reveal_strlit(" ");
                    reveal_strlit(":");
                    assert(r@ =~= time_string_spec(
                        civil_of(self.commit_time_secs, self.commit_time_offset_minutes),
                        self.commit_time_offset_minutes,
                    ));
                }
                r
            },
        }
    }
}

/// Signed division truncated towards zero, as calendar offsets are split into
/// hours and leftover minutes.
pub open spec fn div_towards_zero(a: int, d: int) -> int
    recommends
        d > 0,
{
    if a >= 0 {
        a / d
    } else {
        -((-a) / d)
    }
}

/// The civil calendar parts — year, month, day, hour, minute — of an epoch
/// second count seen at a fixed offset from UTC; `None` when the calendar
/// cannot represent the instant. Its value is whatever chrono computes.
pub uninterp spec fn civil_of(secs: i64, offset_minutes: i32) -> Option<(i32, u32, u32, u32, u32)>;

/// Relies on chrono's calendar arithmetic (`DateTime::from_timestamp` and
/// `FixedOffset`): the civil parts of an instant depend on the arguments
/// alone, and `None` comes exactly when chrono cannot represent the instant.
#[verifier::external_body]
fn civil_parts(secs: i64, offset_minutes: i32) -> (r: Option<(i32, u32, u32, u32, u32)>)
    ensures
        r == civil_of(secs, offset_minutes),
{
    let offset_secs = offset_minutes.checked_mul(60).unwrap_or(0);
    let zone = chrono::FixedOffset::east_opt(offset_secs)
        .unwrap_or_else(|| chrono::FixedOffset::east_opt(0).unwrap());
    match chrono::DateTime::from_timestamp(secs, 0) {
        None => None,
        Some(utc) => {
            let local = utc.with_timezone(&zone);
            Some((local.year(), local.month(), local.day(), local.hour(), local.minute()))
        },
    }
}

/// The rendering of a commit time: `YYYY-MM-DD HH:MM +HHMM` from its civil
/// parts, or empty when the calendar gave none.
pub open spec fn time_string_spec(
    parts: Option<(i32, u32, u32, u32, u32)>,
    offset_minutes: i32,
) -> Seq<char> {
    match parts {
        None => Seq::<char>::empty(),
        Some((year, month, day, hour, minute)) => {
            let oh = div_towards_zero(offset_minutes as int, 60);
            let om = offset_minutes - oh * 60;
            fmt_int_spec(year as int, 4, false) + seq!['-'] + fmt_int_spec(month as int, 2, false)
                + seq!['-'] + fmt_int_spec(day as int, 2, false) + seq![' '] + fmt_int_spec(
                hour as int,
                2,
                false,
            ) + seq![':'] + fmt_int_spec(minute as int, 2, false) + seq![' '] + fmt_int_spec(
                oh,
                2,
                true,
            ) + fmt_int_spec(om, 2, false)
        },
    }
}

// ---------------------------------------------------------------------------
// The classifier
// ---------------------------------------------------------------------------
/// The per-commit predicate: an inclusion window in days, and optional
/// case-insensitive substring filters on the author name and the message.
pub struct Classifier {
    age: u32,
    author: Option<String>,
    message: Option<String>,
}

/// Whole days between two instants, truncated towards zero (negative when the
/// commit lies in the future).
pub open spec fn days_between(now_secs: int, commit_secs: int) -> int {
    div_towards_zero(now_secs - commit_secs, 86400)
}

/// A commit lies within the inclusion window when it is at most `age` whole
/// days old.
pub open spec fn within_window(age: u32, now_secs: int, commit_secs: int) -> bool {
    days_between(now_secs, commit_secs) <= age as int
}

/// A configured substring filter matches when the filter occurs in the
/// ASCII-lowercased text; an absent filter matches everything.
pub open spec fn text_filter_matches(filter: Option<Seq<char>>, text: Seq<char>) -> bool {
    match filter {
        None => true,
        Some(f) => seq_contains_sub(ascii_lower_seq(text), f),
    }
}

impl Classifier {
    /// The inclusion window, in days.
    pub closed spec fn age_spec(&self) -> u32 {
        self.age
    }

    /// The author filter, lowercased at construction.
    pub closed spec fn author_spec(&self) -> Option<Seq<char>> {
        match self.author {
            Some(ref a) => Some(a@),
            None => None,
        }
    }

    /// The message filter, lowercased at construction.
    pub closed spec fn message_spec(&self) -> Option<Seq<char>> {
        match self.message {
            Some(ref m) => Some(m@),
            None => None,
        }
    }

    /// Builds a classifier; the substring filters are lowercased once, here.
    pub fn new(age: u32, author: Option<&str>, message: Option<&str>) -> (c: Classifier)
        ensures
            c.age_spec() == age,
            c.author_spec() == match author {
                Some(a) => Some(lower_of(a@)),
                None => None::<Seq<char>>,
            },
            c.message_spec() == match message {
                Some(m) => Some(lower_of(m@)),
                None => None::<Seq<char>>,
            },
    {
        Classifier {
            age,
            author: match author {
                Some(a) => Some(to_lowercase(a)),
                None => None,
            },
            message: match message {
                Some(m) => Some(to_lowercase(m)),
                None => None,
            },
        }
    }

    /// Classifies one commit against the window and the filters at the given
    /// current time: `.0` says whether the commit belongs in the history,
    /// `.1` whether a time-descending walk of its repository may stop — age
    /// alone drives the abort, the text filters only narrow inclusion.
    pub fn classify(&self, commit: &RepoCommit, now_secs: i64) -> (r: (bool, bool))
        ensures
            r.0 == (within_window(self.age_spec(), now_secs as int, commit.commit_time_secs as int)
                && text_filter_matches(self.author_spec(), commit.author@)
                && text_filter_matches(self.message_spec(), commit.message@)),
            r.1 == !within_window(self.age_spec(), now_secs as int, commit.commit_time_secs as int),
    {
        let diff: i128 = now_secs as i128 - commit.commit_time_secs as i128;
        let within: bool = if diff < 0 {
            proof {
                assert(days_between(now_secs as int, commit.commit_time_secs as int) <= 0);
            }
            true
        } else {
            let days: i128 = diff / 86400;
            proof {
                assert(days == days_between(now_secs as int, commit.commit_time_secs as int));
            }
            days <= age_as_i128(self.age)
        };
        let mut included = within;
        if included {
            match &self.message {
                None => {},
                Some(m) => {
                    let lowered = to_ascii_lower(commit.message.as_str());
                    included = str_contains(lowered.as_str(), m.as_str());
                },
            }
        }
        if included {
            match &self.author {
                None => {},
                Some(a) => {
                    let lowered = to_ascii_lower(commit.author.as_str());
                    included = str_contains(lowered.as_str(), a.as_str());
                },
            }
        }
        (included, !within)
    }
}

fn age_as_i128(age: u32) -> (r: i128)
    ensures
        r == age as int,
{
    age as i128
}

// ---------------------------------------------------------------------------
// Per-repository walk state
// ---------------------------------------------------------------------------
/// What one repository's walk has produced so far: the commits kept by the
/// classifier, in walk order, and how many walked ids could not be resolved
/// to a commit locally.
pub struct RepoWalk {
    pub commits: Vec<RepoCommit>,
    pub missing: usize,
}

impl RepoWalk {
    /// A walk that has seen nothing yet.
    pub fn new() -> (w: RepoWalk)
        ensures
            w.commits@ == Seq::<RepoCommit>::empty(),
            w.missing == 0,
    {
        RepoWalk { commits: Vec::new(), missing: 0 }
    }

    /// Records one walked id that could not be resolved to a commit; the walk
    /// goes on.
    pub fn on_missing(&mut self)
        requires
            old(self).missing < usize::MAX,
        ensures
            final(self).missing == old(self).missing + 1,
            final(self).commits == old(self).commits,
    {
        self.missing = self.missing + 1;
    }

    /// Feeds one resolved commit to the classifier: the commit is kept
    /// exactly when the classifier includes it, and the return value tells
    /// the caller to stop walking this repository.
    pub fn on_commit(&mut self, classifier: &Classifier, commit: RepoCommit, now_secs: i64) -> (abort:
        bool)
        ensures
            abort == !within_window(
                classifier.age_spec(),
                now_secs as int,
                commit.commit_time_secs as int,
            ),
            final(self).commits@ == if within_window(
                classifier.age_spec(),
                now_secs as int,
                commit.commit_time_secs as int,
            ) && text_filter_matches(classifier.author_spec(), commit.author@)
                && text_filter_matches(classifier.message_spec(), commit.message@) {
                old(self).commits@.push(commit)
            } else {
                old(self).commits@
            },
            final(self).missing == old(self).missing,
    {
        let (included, abort) = classifier.classify(&commit, now_secs);
        if included {
            self.commits.push(commit);
        }
        abort
    }
}

// ---------------------------------------------------------------------------
// Merging the per-repository results
// ---------------------------------------------------------------------------
/// Commits ordered by time, newest first.
pub open spec fn sorted_desc(s: Seq<RepoCommit>) -> bool {
    forall|i: int, j: int|
        0 <= i <= j < s.len() ==> s[i].commit_time_secs >= s[j].commit_time_secs
}

/// The walk-yielded ids that failed resolution, summed over all walks.
pub open spec fn sum_missing(ws: Seq<RepoWalk>) -> int
    decreases ws.len(),
{
    if ws.len() == 0 {
        0
    } else {
        ws[0].missing + sum_missing(ws.skip(1))
    }
}

pub proof fn lemma_sum_missing_nonneg(ws: Seq<RepoWalk>)
    ensures
        sum_missing(ws) >= 0,
    decreases ws.len(),
{
    if ws.len() > 0 {
        lemma_sum_missing_nonneg(ws.skip(1));
    }
}

/// All commits the walks kept, taken together (order is no concern here).
pub open spec fn commits_multiset(ws: Seq<RepoWalk>) -> Multiset<RepoCommit>
    decreases ws.len(),
{
    if ws.len() == 0 {
        Multiset::<RepoCommit>::empty()
    } else {
        commits_multiset(ws.drop_last()).add(ws.last().commits@.to_multiset())
    }
}

/// Sorts commits by time, descending. The commits themselves are kept — the
/// result is a permutation — and ties may land in either relative order.
fn sort_commits_desc(input: Vec<RepoCommit>) -> (r: Vec<RepoCommit>)
    ensures
        r@.to_multiset() == input@.to_multiset(),
        sorted_desc(r@),
{
    let mut rest = input;
    let mut out: Vec<RepoCommit> = Vec::new();
    proof {
        assert(out@.to_multiset().add(rest@.to_multiset()) =~= input@.to_multiset());
    }
    while rest.len() > 0
        invariant
            sorted_desc(out@),
            out@.to_multiset().add(rest@.to_multiset()) == input@.to_multiset(),
        decreases rest@.len(),
    {
        let ghost rest_before = rest@;
        let c = rest.pop().unwrap();
        proof {
            assert(rest_before =~= rest@.push(c));
        }
        let n = out.len();
        let mut idx: usize = 0;
        while idx < n && out[idx].commit_time_secs >= c.commit_time_secs
            invariant
                n == out@.len(),
                idx <= n,
                forall|k: int| 0 <= k < idx ==> out@[k].commit_time_secs >= c.commit_time_secs,
            decreases n - idx,
        {
            idx = idx + 1;
        }
        let ghost out_before = out@;
        out.insert(idx, c);
        proof {
            let new = out_before.insert(idx as int, c);
            assert forall|i: int, j: int| 0 <= i <= j < new.len() implies new[i].commit_time_secs
                >= new[j].commit_time_secs by {
                if j < idx {
                } else if i > idx {
                    assert(new[i] == out_before[i - 1]);
                    assert(new[j] == out_before[j - 1]);
                } else if i < idx && j == idx {
                    assert(new[i] == out_before[i]);
                } else if i == idx && j > idx {
                    assert(out_before[idx as int].commit_time_secs < c.commit_time_secs || idx
                        == out_before.len());
                    assert(new[j] == out_before[j - 1]);
                } else if i < idx && j > idx {
                    assert(new[i] == out_before[i]);
                    assert(new[j] == out_before[j - 1]);
                }
            }
            assert(out@.to_multiset() == out_before.insert(idx as int, c).to_multiset());
            assert(out_before.insert(idx as int, c).to_multiset() =~= out_before.to_multiset().insert(
                c,
            ));
            assert(rest_before.to_multiset() == rest@.push(c).to_multiset());
            assert(rest@.push(c).to_multiset() =~= rest@.to_multiset().insert(c));
            assert(out@.to_multiset().add(rest@.to_multiset()) =~= input@.to_multiset());
        }
    }
    proof {
        assert(rest@ =~= Seq::<RepoCommit>::empty());
        rest@.to_multiset_ensures();
        assert(out@.to_multiset().add(Multiset::<RepoCommit>::empty()) =~= out@.to_multiset());
    }
    out
}

/// A history of commits across multiple repositories: the repositories, the
/// merged commit stream ordered by time descending, and the count of walked
/// commit ids that could not be resolved locally.
pub struct MultiRepoHistory {
    pub repos: Vec<Arc<Repo>>,
    pub commits: Vec<RepoCommit>,
    pub locally_missing_commits: usize,
}

impl MultiRepoHistory {
    /// Merges the per-repository walk results: every kept commit, and no
    /// other, stands in the merged stream, ordered by commit time descending;
    /// the locally-missing count is the sum over all walks.
    pub fn from(repos: Vec<Arc<Repo>>, walks: Vec<RepoWalk>) -> (h: MultiRepoHistory)
        requires
            sum_missing(walks@) <= usize::MAX,
        ensures
            h.repos == repos,
            h.commits@.to_multiset() == commits_multiset(walks@),
            sorted_desc(h.commits@),
            h.locally_missing_commits == sum_missing(walks@),
    {
        // sum the missing counts
        let n = walks.len();
        let mut missing: usize = 0;
        proof {
            assert(walks@.skip(0) =~= walks@);
        }
        let mut k: usize = 0;
        while k < n
            invariant
                n == walks@.len(),
                k <= n,
                sum_missing(walks@) <= usize::MAX,
                missing + sum_missing(walks@.skip(k as int)) == sum_missing(walks@),
            decreases n - k,
        {
            proof {
                assert(walks@.skip(k as int)[0] == walks@[k as int]);
                assert(walks@.skip(k as int).skip(1) =~= walks@.skip((k + 1) as int));
                lemma_sum_missing_nonneg(walks@.skip((k + 1) as int));
            }
            missing = missing + walks[k].missing;
            k = k + 1;
        }
        proof {
            assert(walks@.skip(n as int) =~= Seq::<RepoWalk>::empty());
        }
        // flatten all per-walk commit lists
        let mut flat: Vec<RepoCommit> = Vec::new();
        let mut ws = walks;
        proof {
            assert(flat@.to_multiset().add(commits_multiset(ws@)) =~= commits_multiset(walks@));
        }
        while ws.len() > 0
            invariant
                flat@.to_multiset().add(commits_multiset(ws@)) == commits_multiset(walks@),
            decreases ws@.len(),
        {
            let ghost ws_before = ws@;
            let mut w = ws.pop().unwrap();
            proof {
                assert(ws_before.drop_last() =~= ws@);
                assert(flat@.to_multiset().add(
                    commits_multiset(ws@).add(w.commits@.to_multiset()),
                ) =~= commits_multiset(walks@));
            }
            while w.commits.len() > 0
                invariant
                    flat@.to_multiset().add(
                        commits_multiset(ws@).add(w.commits@.to_multiset()),
                    ) == commits_multiset(walks@),
                decreases w.commits@.len(),
            {
                let ghost commits_before = w.commits@;
                let ghost flat_before = flat@;
                let c = w.commits.pop().unwrap();
                flat.push(c);
                proof {
                    assert(commits_before =~= w.commits@.push(c));
                    assert(commits_before.to_multiset() == w.commits@.push(c).to_multiset());
                    assert(w.commits@.push(c).to_multiset() =~= w.commits@.to_multiset().insert(c));
                    assert(flat@.to_multiset() == flat_before.push(c).to_multiset());
                    assert(flat_before.push(c).to_multiset() =~= flat_before.to_multiset().insert(
                        c,
                    ));
                    assert(flat@.to_multiset().add(
                        commits_multiset(ws@).add(w.commits@.to_multiset()),
                    ) =~= flat_before.to_multiset().add(
                        commits_multiset(ws@).add(commits_before.to_multiset()),
                    ));
                }
            }
            proof {
                assert(w.commits@ =~= Seq::<RepoCommit>::empty());
                w.commits@.to_multiset_ensures();
                assert(flat@.to_multiset().add(commits_multiset(ws@)) =~= commits_multiset(
                    walks@,
                ));
            }
        }
        proof {
            assert(ws@ =~= Seq::<RepoWalk>::empty());
            assert(flat@.to_multiset().add(Multiset::<RepoCommit>::empty()) =~= flat@.to_multiset());
        }
        let commits = sort_commits_desc(flat);
        MultiRepoHistory { repos, commits, locally_missing_commits: missing }
    }
}

// ---------------------------------------------------------------------------
// Building the repository list
// ---------------------------------------------------------------------------
/// A repository record stands for one project line: its absolute path joins
/// the base folder and the line, and its description derives from that path.
pub open spec fn repo_entry_matches(r: Arc<Repo>, base: Seq<char>, rel: Seq<char>) -> bool {
    (*r).abs_path@ == join_path(base, rel) && (*r).rel_path@ == rel && (*r).description@
        == description_spec(join_path(base, rel), rel)
}

/// Builds one shared repository record per project list line, in file order,
/// with the manifest repository appended when asked for.
pub fn repos_from(project_list_text: &str, base_folder: &str, include_manifest: bool) -> (r: Vec<
    Arc<Repo>,
>)
    ensures
        ({
            let lines = split_lines_spec(project_list_text@);
            &&& r@.len() == lines.len() + if include_manifest {
                1int
            } else {
                0int
            }
            &&& forall|i: int|
                0 <= i < lines.len() ==> repo_entry_matches(#[trigger] r@[i], base_folder@, lines[i])
            &&& include_manifest ==> repo_entry_matches(
                r@[r@.len() - 1],
                base_folder@,
                ".repo/manifests"@,
            )
        }),
{
    let lines = split_lines(project_list_text);
    let ghost lines_spec = split_lines_spec(project_list_text@);
    let n = lines.len();
    let mut repos: Vec<Arc<Repo>> = Vec::new();
    let mut k: usize = 0;
    while k < n
        invariant
            n == lines@.len(),
            lines.deep_view() == lines_spec,
            k <= n,
            repos@.len() == k,
            forall|i: int|
                0 <= i < k ==> repo_entry_matches(#[trigger] repos@[i], base_folder@, lines_spec[i]),
        decreases n - k,
    {
        let rel = lines[k].clone();
        let abs = path_join(base_folder, rel.as_str());
        repos.push(Arc::new(Repo::from(abs, rel)));
        k = k + 1;
    }
    if include_manifest {
        let rel = ".repo/manifests".to_owned();
        let abs = path_join(base_folder, rel.as_str());
        repos.push(Arc::new(Repo::from(abs, rel)));
    }
    repos
}

} // verus!
