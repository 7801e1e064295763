//! Include resolution: a parsed manifest names further manifests to merge in.
//! Resolution is depth-first — a child's own includes are resolved before the
//! parent's next include — and each resolved name is recorded so that a name
//! reached twice fails as a cycle instead of recursing without bound.
//!
//! The [`Resolver`] hands out one include name at a time and takes the parsed
//! child back, so a caller can fetch each named manifest from wherever the
//! manifests live; [`resolve_manifest_with_table`] runs the same machine to
//! completion against a supplied table of manifests and is proved to compute
//! exactly [`spec_resolve`].

use vstd::prelude::*;
use crate::manifest_xml::ParseError;
use crate::repo_project_selector::{Manifest, ManifestView, Project, ProjectView};
use crate::repo_project_selector::str_eq;

verus! {

/// Outcome of resolving a worklist of includes against a table of manifests.
pub ghost enum Resolution {
    /// All includes resolved; the projects, in depth-first order.
    Done(Seq<ProjectView>),
    /// An include name has no manifest in the table.
    Missing(Seq<char>),
    /// An include name was reached a second time.
    Cycle(Seq<char>),
}

/// First manifest of the table filed under the given name.
pub open spec fn spec_lookup(table: Seq<(Seq<char>, ManifestView)>, name: Seq<char>) -> Option<
    ManifestView,
>
    decreases table.len(),
{
    if table.len() == 0 {
        None
    } else if table[0].0 == name {
        Some(table[0].1)
    } else {
        spec_lookup(table.skip(1), name)
    }
}

/// The names the table files manifests under.
pub open spec fn table_keys(table: Seq<(Seq<char>, ManifestView)>) -> Seq<Seq<char>> {
    Seq::new(table.len(), |i: int| table[i].0)
}

pub proof fn lemma_lookup_some_is_key(table: Seq<(Seq<char>, ManifestView)>, name: Seq<char>)
    requires
        spec_lookup(table, name) is Some,
    ensures
        table_keys(table).contains(name),
    decreases table.len(),
{
    if table.len() == 0 {
    } else if table[0].0 == name {
        assert(table_keys(table)[0] == name);
    } else {
        lemma_lookup_some_is_key(table.skip(1), name);
        let i = choose|i: int|
            0 <= i < table_keys(table.skip(1)).len() && table_keys(table.skip(1))[i] == name;
        assert(table_keys(table)[i + 1] == name);
    }
}

/// A duplicate-free list of names that all have manifests in the table can be
/// no longer than the table.
pub proof fn lemma_visited_bounded(table: Seq<(Seq<char>, ManifestView)>, visited: Seq<Seq<char>>)
    requires
        visited.no_duplicates(),
        forall|k: int|
            0 <= k < visited.len() ==> spec_lookup(table, #[trigger] visited[k]) is Some,
    ensures
        visited.len() <= table.len(),
{
    broadcast use vstd::seq_lib::seq_to_set_is_finite;

    visited.unique_seq_to_set();
    let keys = table_keys(table);
    keys.lemma_cardinality_of_set();
    assert forall|x: Seq<char>| visited.to_set().contains(x) implies keys.to_set().contains(
        x,
    ) by {
        lemma_lookup_some_is_key(table, x);
    }
    assert(visited.to_set() <= keys.to_set());
    vstd::set_lib::lemma_len_subset(visited.to_set(), keys.to_set());
}

/// Depth-first include resolution. Names are taken from the front of
/// `pending`: a name seen before is a cycle; a name the table does not hold
/// is missing; otherwise the named manifest's projects are appended to `acc`
/// and its own includes go to the front of the worklist, so they resolve
/// before the names already waiting.
pub open spec fn spec_resolve(
    table: Seq<(Seq<char>, ManifestView)>,
    pending: Seq<Seq<char>>,
    visited: Seq<Seq<char>>,
    acc: Seq<ProjectView>,
) -> Resolution
    decreases table.len() + 1 - visited.len(),
    when visited.no_duplicates() && (forall|k: int|
        0 <= k < visited.len() ==> spec_lookup(table, #[trigger] visited[k]) is Some)
{
    if pending.len() == 0 {
        Resolution::Done(acc)
    } else {
        let name = pending[0];
        if visited.contains(name) {
            Resolution::Cycle(name)
        } else {
            match spec_lookup(table, name) {
                None => Resolution::Missing(name),
                Some(child) => {
                    proof {
                        lemma_visited_bounded(table, visited.push(name));
                    }
                    spec_resolve(
                        table,
                        child.includes + pending.skip(1),
                        visited.push(name),
                        acc + child.projects,
                    )
                },
            }
        }
    }
}

/// The resolution of one manifest: its own projects first, then its includes,
/// depth-first, starting from no visited names.
pub open spec fn spec_resolve_manifest(
    table: Seq<(Seq<char>, ManifestView)>,
    root: ManifestView,
) -> Resolution {
    spec_resolve(table, root.includes, Seq::<Seq<char>>::empty(), root.projects)
}

// ---------------------------------------------------------------------------
// The resolution machine
// ---------------------------------------------------------------------------
/// Step-by-step include resolution: [`Resolver::take_next`] hands out the
/// next include name to fetch (recording it against cycles), and
/// [`Resolver::supply`] merges the fetched manifest back in.
pub struct Resolver {
    /// Projects resolved so far, in depth-first order.
    pub resolved_projects: Vec<Project>,
    /// Include names still to resolve, front first.
    pub pending: Vec<String>,
    /// Include names already handed out.
    pub visited: Vec<String>,
}

impl Resolver {
    /// Starts resolving a parsed manifest: its projects are taken as already
    /// resolved, its includes as the worklist.
    pub fn new(root: Manifest) -> (r: Resolver)
        ensures
            r.resolved_projects.deep_view() == root@.projects,
            r.pending.deep_view() == root@.includes,
            r.visited@.len() == 0,
    {
        let includes = root.includes;
        let mut pending: Vec<String> = Vec::new();
        let n = includes.len();
        let mut k: usize = 0;
        while k < n
            invariant
                n == includes@.len(),
                k <= n,
                pending.deep_view() =~= Seq::new(k as nat, |i: int| includes@[i].name@),
            decreases n - k,
        {
            let ghost prev = pending.deep_view();
            pending.push(includes[k].name.clone());
            proof {
                assert(pending.deep_view() =~= prev.push(includes@[k as int].name@));
                assert(prev.push(includes@[k as int].name@) =~= Seq::new(
                    (k + 1) as nat,
                    |i: int| includes@[i].name@,
                ));
            }
            k = k + 1;
        }
        let r = Resolver { resolved_projects: root.projects, pending, visited: Vec::new() };
        proof {
            assert(r.pending.deep_view() =~= Seq::new(n as nat, |i: int| includes@[i].name@));
        }
        r
    }

    /// The next include name to fetch, marked as visited: `Ok(None)` when
    /// nothing is left, an [`ParseError::IncludeCycle`] when the front name
    /// was already handed out.
    pub fn take_next(&mut self) -> (r: Result<Option<String>, ParseError>)
        ensures
            match r {
                Ok(None) => old(self).pending@.len() == 0 && *final(self) == *old(self),
                Ok(Some(name)) => {
                    &&& old(self).pending@.len() > 0
                    &&& name@ == old(self).pending.deep_view()[0]
                    &&& !old(self).visited.deep_view().contains(name@)
                    &&& final(self).pending.deep_view() == old(self).pending.deep_view().skip(1)
                    &&& final(self).visited.deep_view() == old(self).visited.deep_view().push(name@)
                    &&& final(self).resolved_projects == old(self).resolved_projects
                },
                Err(e) => {
                    &&& old(self).pending@.len() > 0
                    &&& e matches ParseError::IncludeCycle(n) && n@ == old(
                        self,
                    ).pending.deep_view()[0]
                    &&& old(self).visited.deep_view().contains(old(self).pending.deep_view()[0])
                    &&& final(self).pending.deep_view() == old(self).pending.deep_view()
                    &&& final(self).visited == old(self).visited
                    &&& final(self).resolved_projects == old(self).resolved_projects
                },
            },
    {
        if self.pending.len() == 0 {
            return Ok(None);
        }
        let name = self.pending.remove(0);
        // is the name already visited?
        let nv = self.visited.len();
        let mut k: usize = 0;
        while k < nv
            invariant
                nv == self.visited@.len(),
                k <= nv,
                self.visited == old(self).visited,
                self.resolved_projects == old(self).resolved_projects,
                old(self).pending@.len() > 0,
                name@ == old(self).pending.deep_view()[0],
                self.pending.deep_view() == old(self).pending.deep_view().skip(1),
                forall|i: int| 0 <= i < k ==> #[trigger] self.visited.deep_view()[i] != name@,
            decreases nv - k,
        {
            if str_eq(self.visited[k].as_str(), name.as_str()) {
                proof {
                    assert(old(self).visited.deep_view()[k as int] == name@);
                    assert(old(self).visited.deep_view().contains(name@));
                }
                let ghost tail = self.pending.deep_view();
                self.pending.insert(0, name.clone());
                proof {
                    assert(self.pending.deep_view() =~= seq![name@] + tail);
                    assert(seq![name@] + old(self).pending.deep_view().skip(1) =~= old(
                        self,
                    ).pending.deep_view());
                }
                return Err(ParseError::IncludeCycle(name));
            }
            k = k + 1;
        }
        proof {
            if old(self).visited.deep_view().contains(name@) {
                let i = choose|i: int|
                    0 <= i < old(self).visited.deep_view().len() && old(
                        self,
                    ).visited.deep_view()[i] == name@;
                assert(self.visited.deep_view()[i] == name@);
            }
        }
        let ghost visited_prev = self.visited.deep_view();
        self.visited.push(name.clone());
        proof {
            assert(self.visited.deep_view() =~= visited_prev.push(name@));
        }
        Ok(Some(name))
    }

    /// Merges a fetched manifest: its projects are appended to the resolved
    /// ones, its includes go to the front of the worklist in order.
    pub fn supply(&mut self, child: &Manifest)
        ensures
            final(self).resolved_projects.deep_view() == old(self).resolved_projects.deep_view()
                + child@.projects,
            final(self).pending.deep_view() == child@.includes + old(self).pending.deep_view(),
            final(self).visited == old(self).visited,
    {
        let np = child.projects.len();
        let mut k: usize = 0;
        while k < np
            invariant
                np == child.projects@.len(),
                k <= np,
                self.resolved_projects.deep_view() == old(self).resolved_projects.deep_view()
                    + child@.projects.subrange(0, k as int),
                self.pending == old(self).pending,
                self.visited == old(self).visited,
            decreases np - k,
        {
            let ghost prev = self.resolved_projects.deep_view();
            self.resolved_projects.push(child.projects[k].clone());
            proof {
                assert(self.resolved_projects.deep_view() =~= prev.push(
                    child@.projects[k as int],
                ));
                assert(prev.push(child@.projects[k as int]) =~= old(
                    self,
                ).resolved_projects.deep_view() + child@.projects.subrange(0, (k + 1) as int));
            }
            k = k + 1;
        }
        proof {
            assert(child@.projects.subrange(0, np as int) =~= child@.projects);
        }
        let ni = child.includes.len();
        let mut j: usize = 0;
        while j < ni
            invariant
                ni == child.includes@.len(),
                j <= ni,
                self.pending@.len() == j + old(self).pending@.len(),
                self.pending.deep_view() == child@.includes.subrange(0, j as int) + old(
                    self,
                ).pending.deep_view(),
                self.resolved_projects.deep_view() == old(self).resolved_projects.deep_view()
                    + child@.projects,
                self.visited == old(self).visited,
            decreases ni - j,
        {
            let ghost prev = self.pending.deep_view();
            self.pending.insert(j, child.includes[j].name.clone());
            proof {
                assert(self.pending.deep_view() =~= prev.insert(
                    j as int,
                    child@.includes[j as int],
                ));
                assert(prev.insert(j as int, child@.includes[j as int]) =~= child@.includes.subrange(
                    0,
                    (j + 1) as int,
                ) + old(self).pending.deep_view());
            }
            j = j + 1;
        }
        proof {
            assert(child@.includes.subrange(0, ni as int) =~= child@.includes);
        }
    }

    /// The fully resolved manifest; meaningful once nothing is pending.
    pub fn into_manifest(self) -> (m: Manifest)
        ensures
            m@.projects == self.resolved_projects.deep_view(),
            m@.includes.len() == 0,
    {
        let m = Manifest { projects: self.resolved_projects, includes: Vec::new() };
        proof {
            assert(m@.includes =~= Seq::<Seq<char>>::empty());
        }
        m
    }
}

// ---------------------------------------------------------------------------
// Resolution against a table
// ---------------------------------------------------------------------------
/// Mathematical image of a table of manifests filed by name.
pub open spec fn table_view(t: Seq<(String, Manifest)>) -> Seq<(Seq<char>, ManifestView)> {
    Seq::new(t.len(), |i: int| (t[i].0@, t[i].1@))
}

/// First manifest of the table filed under the given name (see
/// [`spec_lookup`]).
fn table_lookup<'a>(table: &'a Vec<(String, Manifest)>, name: &str) -> (r: Option<&'a Manifest>)
    ensures
        match r {
            Some(m) => spec_lookup(table_view(table@), name@) == Some(m@),
            None => spec_lookup(table_view(table@), name@) is None,
        },
{
    let n = table.len();
    let ghost tv = table_view(table@);
    let mut k: usize = 0;
    proof {
        assert(tv.skip(0) =~= tv);
    }
    while k < n
        invariant
            n == table@.len(),
            k <= n,
            tv == table_view(table@),
            spec_lookup(tv, name@) == spec_lookup(tv.skip(k as int), name@),
        decreases n - k,
    {
        proof {
            assert(tv.skip(k as int)[0] == tv[k as int]);
            assert(tv.skip(k as int).skip(1) =~= tv.skip((k + 1) as int));
        }
        if str_eq(table[k].0.as_str(), name) {
            return Some(&table[k].1);
        }
        k = k + 1;
    }
    proof {
        assert(tv.skip(n as int) =~= Seq::<(Seq<char>, ManifestView)>::empty());
    }
    None
}

/// Resolves a manifest's includes against a table of parsed manifests filed
/// by include name. Returns the fully resolved manifest — the root's projects
/// followed, depth-first, by those of every included manifest — or the error
/// [`spec_resolve`] assigns: `MissingInclude` for a name the table does not
/// hold, `IncludeCycle` for a name reached twice.
pub fn resolve_manifest_with_table(root: Manifest, table: &Vec<(String, Manifest)>) -> (r: Result<
    Manifest,
    ParseError,
>)
    ensures
        match r {
            Ok(m) => spec_resolve_manifest(table_view(table@), root@) == Resolution::Done(
                m@.projects,
            ) && m@.includes.len() == 0,
            Err(e) => match e {
                ParseError::MissingInclude(n) => spec_resolve_manifest(table_view(table@), root@)
                    == Resolution::Missing(n@),
                ParseError::IncludeCycle(n) => spec_resolve_manifest(table_view(table@), root@)
                    == Resolution::Cycle(n@),
                ParseError::Malformed => false,
            },
        },
{
    let ghost tv = table_view(table@);
    let ghost goal = spec_resolve_manifest(tv, root@);
    let mut res = Resolver::new(root);
    proof {
        assert(res.visited.deep_view() =~= Seq::<Seq<char>>::empty());
    }
    loop
        invariant
            tv == table_view(table@),
            goal == spec_resolve_manifest(tv, root@),
            res.visited.deep_view().no_duplicates(),
            forall|k: int|
                0 <= k < res.visited.deep_view().len() ==> spec_lookup(
                    tv,
                    #[trigger] res.visited.deep_view()[k],
                ) is Some,
            spec_resolve(
                tv,
                res.pending.deep_view(),
                res.visited.deep_view(),
                res.resolved_projects.deep_view(),
            ) == goal,
        decreases tv.len() + 1 - res.visited.deep_view().len(),
    {
        let ghost pend0 = res.pending.deep_view();
        let ghost vis0 = res.visited.deep_view();
        let ghost acc0 = res.resolved_projects.deep_view();
        proof {
            lemma_visited_bounded(tv, vis0);
        }
        match res.take_next() {
            Err(e) => {
                return Err(e);
            },
            Ok(None) => {
                let m = res.into_manifest();
                return Ok(m);
            },
            Ok(Some(name)) => {
                match table_lookup(table, name.as_str()) {
                    None => {
                        return Err(ParseError::MissingInclude(name));
                    },
                    Some(child) => {
                        let ghost cv = child@;
                        res.supply(child);
                        proof {
                            assert(res.visited.deep_view() =~= vis0.push(name@));
                            assert(res.visited.deep_view().no_duplicates());
                            assert forall|k: int|
                                0 <= k < res.visited.deep_view().len() implies spec_lookup(
                                tv,
                                #[trigger] res.visited.deep_view()[k],
                            ) is Some by {
                                if k < vis0.len() {
                                    assert(res.visited.deep_view()[k] == vis0[k]);
                                }
                            }
                            assert(spec_resolve(tv, pend0, vis0, acc0) == spec_resolve(
                                tv,
                                cv.includes + pend0.skip(1),
                                vis0.push(name@),
                                acc0 + cv.projects,
                            ));
                            lemma_visited_bounded(tv, vis0.push(name@));
                        }
                    },
                }
            },
        }
    }
}

// ---------------------------------------------------------------------------
// Laws
// ---------------------------------------------------------------------------
/// Law: whatever the includes add, resolution keeps the projects already
/// collected as an unchanged prefix — a manifest's own projects stand first
/// in its resolution.
pub proof fn lemma_resolution_extends_acc(
    table: Seq<(Seq<char>, ManifestView)>,
    pending: Seq<Seq<char>>,
    visited: Seq<Seq<char>>,
    acc: Seq<ProjectView>,
)
    requires
        visited.no_duplicates(),
        forall|k: int|
            0 <= k < visited.len() ==> spec_lookup(table, #[trigger] visited[k]) is Some,
    ensures
        match spec_resolve(table, pending, visited, acc) {
            Resolution::Done(ps) => ps.len() >= acc.len() && ps.subrange(0, acc.len() as int)
                == acc,
            _ => true,
        },
    decreases table.len() + 1 - visited.len(),
{
    lemma_visited_bounded(table, visited);
    if pending.len() == 0 {
        assert(acc.subrange(0, acc.len() as int) =~= acc);
    } else {
        let name = pending[0];
        if visited.contains(name) {
        } else {
            match spec_lookup(table, name) {
                None => {},
                Some(child) => {
                    lemma_visited_bounded(table, visited.push(name));
                    lemma_resolution_extends_acc(
                        table,
                        child.includes + pending.skip(1),
                        visited.push(name),
                        acc + child.projects,
                    );
                    match spec_resolve(
                        table,
                        child.includes + pending.skip(1),
                        visited.push(name),
                        acc + child.projects,
                    ) {
                        Resolution::Done(ps) => {
                            assert((acc + child.projects).subrange(0, acc.len() as int) =~= acc);
                            assert(ps.subrange(0, acc.len() as int) =~= ps.subrange(
                                0,
                                (acc + child.projects).len() as int,
                            ).subrange(0, acc.len() as int));
                        },
                        _ => {},
                    }
                },
            }
        }
    }
}

/// Law: a resolved manifest holds its own projects first, unchanged and in
/// order, whatever its includes append after them.
pub proof fn lemma_resolution_keeps_own_projects(
    table: Seq<(Seq<char>, ManifestView)>,
    root: ManifestView,
)
    ensures
        match spec_resolve_manifest(table, root) {
            Resolution::Done(ps) => ps.len() >= root.projects.len() && ps.subrange(
                0,
                root.projects.len() as int,
            ) == root.projects,
            _ => true,
        },
{
    lemma_resolution_extends_acc(
        table,
        root.includes,
        Seq::<Seq<char>>::empty(),
        root.projects,
    );
}

/// Law: one level of include resolution — a manifest whose single include
/// names `child` resolves to its own projects followed by all of the child's.
pub proof fn lemma_single_include_union(
    table: Seq<(Seq<char>, ManifestView)>,
    root: ManifestView,
    name: Seq<char>,
    child: ManifestView,
)
    requires
        root.includes == seq![name],
        spec_lookup(table, name) == Some(child),
        child.includes.len() == 0,
    ensures
        spec_resolve_manifest(table, root) == Resolution::Done(root.projects + child.projects),
{
    let none: Seq<Seq<char>> = Seq::empty();
    assert(root.includes[0] == name);
    assert(child.includes + root.includes.skip(1) =~= Seq::<Seq<char>>::empty());
    assert(spec_resolve_manifest(table, root) == spec_resolve(
        table,
        child.includes + root.includes.skip(1),
        none.push(name),
        root.projects + child.projects,
    ));
}

/// Law: include resolution is transitive — with `root` including `n1`, whose
/// manifest in turn includes `n2`, the resolution holds the projects of all
/// three manifests, in depth-first order.
pub proof fn lemma_nested_include_union(
    table: Seq<(Seq<char>, ManifestView)>,
    root: ManifestView,
    n1: Seq<char>,
    child: ManifestView,
    n2: Seq<char>,
    grandchild: ManifestView,
)
    requires
        root.includes == seq![n1],
        spec_lookup(table, n1) == Some(child),
        child.includes == seq![n2],
        spec_lookup(table, n2) == Some(grandchild),
        grandchild.includes.len() == 0,
        n1 != n2,
    ensures
        spec_resolve_manifest(table, root) == Resolution::Done(
            root.projects + child.projects + grandchild.projects,
        ),
{
    let none: Seq<Seq<char>> = Seq::empty();
    assert(root.includes[0] == n1);
    assert(child.includes + root.includes.skip(1) =~= seq![n2]);
    assert(spec_resolve_manifest(table, root) == spec_resolve(
        table,
        seq![n2],
        none.push(n1),
        root.projects + child.projects,
    ));
    assert(!none.push(n1).contains(n2));
    assert(grandchild.includes + seq![n2].skip(1) =~= Seq::<Seq<char>>::empty());
    assert(spec_resolve(table, seq![n2], none.push(n1), root.projects + child.projects)
        == spec_resolve(
        table,
        grandchild.includes + seq![n2].skip(1),
        none.push(n1).push(n2),
        root.projects + child.projects + grandchild.projects,
    ));
}

} // verus!
