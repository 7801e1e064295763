//! Project selection: the manifest model (projects, includes), group
//! membership tests, and the selection of checked-out projects by group
//! and/or manifest filters.

use vstd::prelude::*;
use crate::text::{
    join_path, path_join, split_by_seps, split_groups, split_lines, split_lines_spec,
};

verus! {

broadcast use vstd::seq_lib::group_seq_properties;

// ---------------------------------------------------------------------------
// Trusted string primitive
// ---------------------------------------------------------------------------
/// Relies on `str` equality: true exactly when the character sequences match.
#[verifier::external_body]
pub(crate) fn str_eq(a: &str, b: &str) -> (r: bool)
    ensures
        r == (a@ == b@),
{
    a == b
}

// ---------------------------------------------------------------------------
// Manifest model
// ---------------------------------------------------------------------------
/// A `project` element of a manifest: a repository with a name, a relative
/// path (the unique key within one manifest) and an optional group string
/// (comma or space separated group names).
pub struct Project {
    pub name: String,
    pub path: String,
    pub groups: Option<String>,
}

/// Mathematical image of a [`Project`].
pub ghost struct ProjectView {
    pub name: Seq<char>,
    pub path: Seq<char>,
    pub groups: Option<Seq<char>>,
}

impl View for Project {
    type V = ProjectView;

    open spec fn view(&self) -> ProjectView {
        ProjectView {
            name: self.name@,
            path: self.path@,
            groups: match self.groups {
                Some(g) => Some(g@),
                None => None,
            },
        }
    }
}

impl DeepView for Project {
    type V = ProjectView;

    open spec fn deep_view(&self) -> ProjectView {
        self.view()
    }
}

impl Clone for Project {
    fn clone(&self) -> (p: Self)
        ensures
            p == *self,
    {
        Project {
            name: self.name.clone(),
            path: self.path.clone(),
            groups: match &self.groups {
                Some(g) => Some(g.clone()),
                None => None,
            },
        }
    }
}

/// An `include` element of a manifest: a reference to another manifest file,
/// to be resolved and merged in.
pub struct Include {
    pub name: String,
}

impl Clone for Include {
    fn clone(&self) -> (i: Self)
        ensures
            i == *self,
    {
        Include { name: self.name.clone() }
    }
}

/// A manifest document: the projects it lists and the includes it names.
pub struct Manifest {
    pub projects: Vec<Project>,
    pub includes: Vec<Include>,
}

/// Mathematical image of a [`Manifest`]: its projects, and its include names.
pub ghost struct ManifestView {
    pub projects: Seq<ProjectView>,
    pub includes: Seq<Seq<char>>,
}

impl View for Manifest {
    type V = ManifestView;

    open spec fn view(&self) -> ManifestView {
        ManifestView {
            projects: self.projects.deep_view(),
            includes: Seq::new(self.includes@.len(), |i: int| self.includes@[i].name@),
        }
    }
}

/// First project of `projects` whose path is `path`, if any.
pub open spec fn find_project_spec(projects: Seq<ProjectView>, path: Seq<char>) -> Option<
    ProjectView,
>
    decreases projects.len(),
{
    if projects.len() == 0 {
        None
    } else if projects[0].path == path {
        Some(projects[0])
    } else {
        find_project_spec(projects.skip(1), path)
    }
}

/// Some project of `m` has path `path`.
pub open spec fn manifest_contains_path(m: ManifestView, path: Seq<char>) -> bool {
    exists|i: int| 0 <= i < m.projects.len() && #[trigger] m.projects[i].path == path
}

/// A manifest holds a project with a given path exactly when searching for
/// that path finds one.
pub proof fn lemma_find_project_iff_contains(projects: Seq<ProjectView>, path: Seq<char>)
    ensures
        find_project_spec(projects, path) is Some <==> exists|i: int|
            0 <= i < projects.len() && #[trigger] projects[i].path == path,
    decreases projects.len(),
{
    if projects.len() == 0 {
    } else if projects[0].path == path {
    } else {
        lemma_find_project_iff_contains(projects.skip(1), path);
        if find_project_spec(projects.skip(1), path) is Some {
            let i = choose|i: int|
                0 <= i < projects.skip(1).len() && #[trigger] projects.skip(1)[i].path == path;
            assert(projects[i + 1].path == path);
        }
        if exists|i: int| 0 <= i < projects.len() && #[trigger] projects[i].path == path {
            let i = choose|i: int| 0 <= i < projects.len() && #[trigger] projects[i].path == path;
            assert(projects.skip(1)[i - 1].path == path);
        }
    }
}

impl Manifest {
    /// A manifest with no projects and no includes.
    pub fn empty() -> (m: Manifest)
        ensures
            m@.projects == Seq::<ProjectView>::empty(),
            m@.includes == Seq::<Seq<char>>::empty(),
    {
        let m = Manifest { projects: Vec::new(), includes: Vec::new() };
        proof {
            assert(m@.projects =~= Seq::<ProjectView>::empty());
            assert(m@.includes =~= Seq::<Seq<char>>::empty());
        }
        m
    }

    /// Structural merge: appends the other manifest's projects to this one;
    /// includes are left untouched.
    pub fn append(&mut self, manifest: &Manifest)
        ensures
            final(self)@.projects == old(self)@.projects + manifest@.projects,
            final(self)@.includes == old(self)@.includes,
    {
        let n = manifest.projects.len();
        let mut k: usize = 0;
        while k < n
            invariant
                n == manifest.projects.len(),
                k <= n,
                self@.projects == old(self)@.projects + manifest@.projects.subrange(0, k as int),
                self@.includes == old(self)@.includes,
            decreases n - k,
        {
            let ghost prev = self@.projects;
            self.projects.push(manifest.projects[k].clone());
            proof {
                assert(self@.projects =~= prev.push(manifest@.projects[k as int]));
                assert(prev.push(manifest@.projects[k as int]) =~= old(self)@.projects
                    + manifest@.projects.subrange(0, (k + 1) as int));
            }
            k = k + 1;
        }
        proof {
            assert(manifest@.projects.subrange(0, n as int) =~= manifest@.projects);
        }
    }

    /// Whether some project of this manifest has the given path.
    pub fn contains_project(&self, local_path: &str) -> (r: bool)
        ensures
            r == manifest_contains_path(self@, local_path@),
    {
        let n = self.projects.len();
        let mut k: usize = 0;
        while k < n
            invariant
                n == self.projects.len(),
                k <= n,
                forall|i: int| 0 <= i < k ==> #[trigger] self@.projects[i].path != local_path@,
            decreases n - k,
        {
            if str_eq(self.projects[k].path.as_str(), local_path) {
                proof {
                    assert(self@.projects[k as int].path == local_path@);
                }
                return true;
            }
            k = k + 1;
        }
        false
    }

    /// The first project of this manifest with the given path, if any.
    pub fn find_project(&self, local_path: &str) -> (r: Option<&Project>)
        ensures
            match r {
                Some(p) => find_project_spec(self@.projects, local_path@) == Some(p@),
                None => find_project_spec(self@.projects, local_path@) is None,
            },
    {
        let n = self.projects.len();
        let mut k: usize = 0;
        while k < n
            invariant
                n == self.projects.len(),
                k <= n,
                find_project_spec(self@.projects, local_path@) == find_project_spec(
                    self@.projects.skip(k as int),
                    local_path@,
                ),
            decreases n - k,
        {
            proof {
                assert(self@.projects.skip(k as int)[0] == self@.projects[k as int]);
                assert(self@.projects.skip(k as int).skip(1) =~= self@.projects.skip(
                    (k + 1) as int,
                ));
            }
            if str_eq(self.projects[k].path.as_str(), local_path) {
                return Some(&self.projects[k]);
            }
            k = k + 1;
        }
        proof {
            assert(self@.projects.skip(n as int) =~= Seq::<ProjectView>::empty());
        }
        None
    }
}

// ---------------------------------------------------------------------------
// Group membership
// ---------------------------------------------------------------------------
/// The group tokens of a project: its group string (empty when absent) split
/// on commas and spaces. A project without groups has the single empty token.
pub open spec fn project_group_tokens(p: ProjectView) -> Seq<Seq<char>> {
    split_by_seps(
        match p.groups {
            Some(g) => g,
            None => Seq::<char>::empty(),
        },
    )
}

/// Whether one of the project's group tokens equals one of the requested
/// group names (any-match).
pub open spec fn in_any_group(p: ProjectView, tests: Seq<Seq<char>>) -> bool {
    exists|i: int, j: int|
        #![trigger project_group_tokens(p)[i], tests[j]]
        0 <= i < project_group_tokens(p).len() && 0 <= j < tests.len()
            && project_group_tokens(p)[i] == tests[j]
}

impl Project {
    /// Whether this project belongs to at least one of the given groups.
    pub fn in_any_given_group(&self, test_for_groups: &[String]) -> (r: bool)
        ensures
            r == in_any_group(self@, test_for_groups.deep_view()),
    {
        let tokens: Vec<String> = match &self.groups {
            Some(g) => split_groups(g.as_str()),
            None => split_groups(""),
        };
        proof {
            reveal_strlit("");
            assert(""@ =~= Seq::<char>::empty());
            assert(tokens.deep_view() == project_group_tokens(self@));
        }
        let nt = tokens.len();
        let ng = test_for_groups.len();
        let mut i: usize = 0;
        while i < nt
            invariant
                nt == tokens.len(),
                ng == test_for_groups@.len(),
                i <= nt,
                tokens.deep_view() == project_group_tokens(self@),
                forall|a: int, b: int|
                    #![trigger project_group_tokens(self@)[a], test_for_groups.deep_view()[b]]
                    0 <= a < i && 0 <= b < ng ==> project_group_tokens(self@)[a]
                        != test_for_groups.deep_view()[b],
            decreases nt - i,
        {
            let mut j: usize = 0;
            while j < ng
                invariant
                    nt == tokens.len(),
                    ng == test_for_groups@.len(),
                    i < nt,
                    j <= ng,
                    tokens.deep_view() == project_group_tokens(self@),
                    forall|b: int|
                        0 <= b < j ==> project_group_tokens(self@)[i as int] != #[trigger] test_for_groups.deep_view()[b],
                decreases ng - j,
            {
                if str_eq(tokens[i].as_str(), test_for_groups[j].as_str()) {
                    proof {
                        assert(project_group_tokens(self@)[i as int]
                            == test_for_groups.deep_view()[j as int]);
                    }
                    return true;
                }
                j = j + 1;
            }
            i = i + 1;
        }
        proof {
            if in_any_group(self@, test_for_groups.deep_view()) {
                let (a, b) = choose|a: int, b: int|
                    #![trigger project_group_tokens(self@)[a], test_for_groups.deep_view()[b]]
                    0 <= a < project_group_tokens(self@).len() && 0 <= b
                        < test_for_groups.deep_view().len() && project_group_tokens(self@)[a]
                        == test_for_groups.deep_view()[b];
                assert(project_group_tokens(self@)[a] != test_for_groups.deep_view()[b]);
            }
        }
        false
    }
}

// ---------------------------------------------------------------------------
// Selection
// ---------------------------------------------------------------------------
/// The synthetic entry standing for the manifest repository itself.
pub open spec fn manifest_repo_entry() -> Seq<char> {
    ".repo/manifests"@
}

/// View of the optional group filter: the requested group names and the
/// primary manifest they are matched against.
pub open spec fn group_filter_view(gf: Option<(Vec<String>, Manifest)>) -> Option<
    (Seq<Seq<char>>, ManifestView),
> {
    match gf {
        Some((groups, m)) => Some((groups.deep_view(), m@)),
        None => None,
    }
}

/// View of the optional manifest filter: the aggregate of the named manifest
/// files.
pub open spec fn manifest_filter_view(mf: Option<Manifest>) -> Option<ManifestView> {
    match mf {
        Some(m) => Some(m@),
        None => None,
    }
}

/// Whether the group filter keeps a project path: no filter keeps everything;
/// otherwise the path must name a project of the primary manifest whose
/// groups intersect the requested ones.
pub open spec fn keep_by_group(path: Seq<char>, gf: Option<(Seq<Seq<char>>, ManifestView)>) -> bool {
    match gf {
        None => true,
        Some((groups, m)) => match find_project_spec(m.projects, path) {
            Some(p) => in_any_group(p, groups),
            None => false,
        },
    }
}

/// Whether the manifest filter keeps a project path: no filter keeps
/// everything; otherwise the path must appear in the aggregate manifest.
pub open spec fn keep_by_manifest(path: Seq<char>, mf: Option<ManifestView>) -> bool {
    match mf {
        None => true,
        Some(m) => manifest_contains_path(m, path),
    }
}

/// Both filters keep the path (logical AND of the two independent decisions).
pub open spec fn keep_path(
    path: Seq<char>,
    gf: Option<(Seq<Seq<char>>, ManifestView)>,
    mf: Option<ManifestView>,
) -> bool {
    keep_by_group(path, gf) && keep_by_manifest(path, mf)
}

/// What selection returns: the lines of the project list, in file order,
/// those kept by both filters; with the manifest repository entry appended
/// (exactly once, as the last element) when asked for.
pub open spec fn select_spec(
    text: Seq<char>,
    include_manifest_repo: bool,
    gf: Option<(Seq<Seq<char>>, ManifestView)>,
    mf: Option<ManifestView>,
) -> Seq<Seq<char>> {
    let kept = split_lines_spec(text).filter(|p: Seq<char>| keep_path(p, gf, mf));
    if include_manifest_repo {
        kept.push(manifest_repo_entry())
    } else {
        kept
    }
}

/// Selects projects from the on-disk project list (one relative path per
/// line, in file order). A group filter keeps a path only if the primary
/// manifest lists it with a group among the requested ones; a manifest filter
/// keeps a path only if the aggregated manifest lists it; both given, a path
/// must pass both. `include_manifest_repo` appends the manifest repository
/// entry afterwards, unfiltered.
pub fn select_projects(
    project_list_text: &str,
    include_manifest_repo: bool,
    group_filter: Option<(Vec<String>, Manifest)>,
    manifest_filter: Option<Manifest>,
) -> (r: Vec<String>)
    ensures
        r.deep_view() == select_spec(
            project_list_text@,
            include_manifest_repo,
            group_filter_view(group_filter),
            manifest_filter_view(manifest_filter),
        ),
{
    let ghost gf = group_filter_view(group_filter);
    let ghost mf = manifest_filter_view(manifest_filter);
    let ghost pred = |p: Seq<char>| keep_path(p, gf, mf);
    let lines = split_lines(project_list_text);
    let ghost base = split_lines_spec(project_list_text@);
    let n = lines.len();
    let mut selected: Vec<String> = Vec::new();
    proof {
        reveal(Seq::filter);
        assert(base.subrange(0, 0) =~= Seq::<Seq<char>>::empty());
        assert(selected.deep_view() =~= base.subrange(0, 0).filter(pred));
    }
    let mut k: usize = 0;
    while k < n
        invariant
            n == lines.len(),
            k <= n,
            lines.deep_view() == base,
            selected.deep_view() == base.subrange(0, k as int).filter(pred),
            pred == (|p: Seq<char>| keep_path(p, gf, mf)),
            gf == group_filter_view(group_filter),
            mf == manifest_filter_view(manifest_filter),
        decreases n - k,
    {
        let line = &lines[k];
        let keeps_group = match &group_filter {
            None => true,
            Some((groups, m)) => match m.find_project(line.as_str()) {
                Some(p) => p.in_any_given_group(groups.as_slice()),
                None => false,
            },
        };
        let keep = keeps_group && match &manifest_filter {
            None => true,
            Some(m) => m.contains_project(line.as_str()),
        };
        proof {
            assert(base[k as int] == line@);
            assert(keep == pred(base[k as int]));
        }
        let ghost prev = selected.deep_view();
        if keep {
            selected.push(line.clone());
            proof {
                assert(selected.deep_view() =~= prev.push(base[k as int]));
            }
        }
        proof {
            reveal(Seq::filter);
            assert(base.subrange(0, (k + 1) as int).drop_last() =~= base.subrange(0, k as int));
            assert(base.subrange(0, (k + 1) as int).last() == base[k as int]);
        }
        k = k + 1;
    }
    proof {
        assert(base.subrange(0, n as int) =~= base);
    }
    if include_manifest_repo {
        let entry = ".repo/manifests".to_owned();
        let ghost prev = selected.deep_view();
        selected.push(entry);
        proof {
            assert(selected.deep_view() =~= prev.push(manifest_repo_entry()));
        }
    }
    selected
}

// ---------------------------------------------------------------------------
// Paths around the fixed marker folder
// ---------------------------------------------------------------------------
/// The `.repo` marker folder under the fleet's root folder.
pub fn find_repo_folder(root_folder: &str) -> (r: String)
    ensures
        r@ == join_path(root_folder@, ".repo"@),
{
    path_join(root_folder, ".repo")
}

/// The manifests folder kept inside the marker folder.
pub fn find_repo_manifests_folder(root_folder: &str) -> (r: String)
    ensures
        r@ == join_path(join_path(root_folder@, ".repo"@), "manifests"@),
{
    let repo = find_repo_folder(root_folder);
    path_join(repo.as_str(), "manifests")
}

/// The project list file kept inside the marker folder.
pub fn find_project_list(root_folder: &str) -> (r: String)
    ensures
        r@ == join_path(join_path(root_folder@, ".repo"@), "project.list"@),
{
    let repo = find_repo_folder(root_folder);
    path_join(repo.as_str(), "project.list")
}

// ---------------------------------------------------------------------------
// Laws
// ---------------------------------------------------------------------------
/// Law: with no filters, selection returns exactly the file's lines in file
/// order (with the manifest repository entry appended when asked for).
pub proof fn lemma_select_no_filters(text: Seq<char>, include_manifest_repo: bool)
    ensures
        select_spec(text, include_manifest_repo, None, None) == if include_manifest_repo {
            split_lines_spec(text).push(manifest_repo_entry())
        } else {
            split_lines_spec(text)
        },
{
    lemma_filter_all_true(split_lines_spec(text), |p: Seq<char>| keep_path(p, None, None));
}

proof fn lemma_filter_all_true<A>(s: Seq<A>, pred: spec_fn(A) -> bool)
    requires
        forall|x: A| #[trigger] pred(x),
    ensures
        s.filter(pred) == s,
    decreases s.len(),
{
    reveal(Seq::filter);
    if s.len() > 0 {
        lemma_filter_all_true(s.drop_last(), pred);
        assert(s.filter(pred) =~= s);
    }
}

/// Law: an element is selected under the combined group+manifest filter
/// exactly when it is selected under each filter alone — the combined
/// keep-set is the intersection of the two independent keep-sets.
pub proof fn lemma_combined_filter_is_intersection(
    text: Seq<char>,
    groups: Seq<Seq<char>>,
    primary: ManifestView,
    aggregate: ManifestView,
    p: Seq<char>,
)
    ensures
        select_spec(text, false, Some((groups, primary)), Some(aggregate)).contains(p) <==> (
        select_spec(text, false, Some((groups, primary)), None).contains(p) && select_spec(
            text,
            false,
            None,
            Some(aggregate),
        ).contains(p)),
{
    let base = split_lines_spec(text);
    let both = |q: Seq<char>| keep_path(q, Some((groups, primary)), Some(aggregate));
    let gonly = |q: Seq<char>| keep_path(q, Some((groups, primary)), None);
    let monly = |q: Seq<char>| keep_path(q, None, Some(aggregate));
    lemma_filter_membership(base, both, p);
    lemma_filter_membership(base, gonly, p);
    lemma_filter_membership(base, monly, p);
}

/// An element stands in a filtered sequence exactly when it stands in the
/// original and satisfies the predicate.
proof fn lemma_filter_membership<A>(s: Seq<A>, pred: spec_fn(A) -> bool, x: A)
    ensures
        s.filter(pred).contains(x) <==> (s.contains(x) && pred(x)),
    decreases s.len(),
{
    reveal(Seq::filter);
    if s.len() > 0 {
        lemma_filter_membership(s.drop_last(), pred, x);
        if s.drop_last().contains(x) {
            let i = choose|i: int| 0 <= i < s.drop_last().len() && s.drop_last()[i] == x;
            assert(s[i] == x);
        }
        if s.contains(x) && pred(x) {
            let i = choose|i: int| 0 <= i < s.len() && s[i] == x;
            if i < s.len() - 1 {
                assert(s.drop_last()[i] == x);
                let j = choose|j: int|
                    0 <= j < s.drop_last().filter(pred).len() && s.drop_last().filter(pred)[j]
                        == x;
                if pred(s.last()) {
                    assert(s.filter(pred)[j] == x);
                } else {
                    assert(s.filter(pred)[j] == x);
                }
            } else {
                assert(s.filter(pred).last() == x);
            }
        }
        if s.filter(pred).contains(x) {
            let j = choose|j: int| 0 <= j < s.filter(pred).len() && s.filter(pred)[j] == x;
            if pred(s.last()) {
                if j < s.filter(pred).len() - 1 {
                    assert(s.drop_last().filter(pred)[j] == x);
                }
            } else {
                assert(s.drop_last().filter(pred)[j] == x);
            }
            if s.drop_last().contains(x) {
                let i = choose|i: int| 0 <= i < s.drop_last().len() && s.drop_last()[i] == x;
                assert(s[i] == x);
            }
        }
    }
}

} // verus!
