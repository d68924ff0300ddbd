//! The packages of a dependency graph, as plain values, and the lookups that
//! the reports make in them.
use vstd::prelude::*;

verus! {

/// One package of a resolved dependency graph: what the reports read of it.
/// The version is held as its text (`1.2.3-pre+build`), whose equality is
/// the equality of versions.
pub struct Package {
    pub name: String,
    pub version: String,
    pub source: Option<String>,
    pub repository: Option<String>,
    pub manifest_path: String,
}

/// The mathematical value of a `Package`.
pub struct PackageView {
    pub name: Seq<char>,
    pub version: Seq<char>,
    pub source: Option<Seq<char>>,
    pub repository: Option<Seq<char>>,
    pub manifest_path: Seq<char>,
}

/// The view of an optional string.
pub open spec fn opt_view(o: Option<String>) -> Option<Seq<char>> {
    match o {
        Some(s) => Some(s@),
        None => None,
    }
}

impl View for Package {
    type V = PackageView;

    open spec fn view(&self) -> PackageView {
        PackageView {
            name: self.name@,
            version: self.version@,
            source: opt_view(self.source),
            repository: opt_view(self.repository),
            manifest_path: self.manifest_path@,
        }
    }
}

/// The views of a sequence of packages.
pub open spec fn package_views(s: Seq<Package>) -> Seq<PackageView> {
    s.map_values(|p: Package| p@)
}

/// The views of a sequence of strings.
pub open spec fn string_views(s: Seq<String>) -> Seq<Seq<char>> {
    s.map_values(|x: String| x@)
}

impl Package {
    /// A package with the given fields.
    pub fn new(
        name: String,
        version: String,
        source: Option<String>,
        repository: Option<String>,
        manifest_path: String,
    ) -> (res: Package)
        ensures
            res.name == name,
            res.version == version,
            res.source == source,
            res.repository == repository,
            res.manifest_path == manifest_path,
    {
        Package { name, version, source, repository, manifest_path }
    }
}

/// A copy of an optional string.
pub fn clone_opt_string(o: &Option<String>) -> (res: Option<String>)
    ensures
        res == *o,
{
    match o {
        Some(s) => Some(s.clone()),
        None => None,
    }
}

/// Whether two optional strings are equal.
pub fn opt_string_eq(a: &Option<String>, b: &Option<String>) -> (res: bool)
    ensures
        res == (opt_view(*a) == opt_view(*b)),
{
    match (a, b) {
        (Some(x), Some(y)) => *x == *y,
        (None, None) => true,
        _ => false,
    }
}

/// The position of the first package at or after `k` named `name`.
pub open spec fn first_named_from(ps: Seq<PackageView>, name: Seq<char>, k: int) -> Option<int>
    decreases ps.len() - k,
{
    if k < 0 || k >= ps.len() {
        None
    } else if ps[k].name == name {
        Some(k)
    } else {
        first_named_from(ps, name, k + 1)
    }
}

/// The position of the first package named `name` (what
/// `iter().find(|p| p.name == name)` finds).
pub open spec fn first_named(ps: Seq<PackageView>, name: Seq<char>) -> Option<int> {
    first_named_from(ps, name, 0)
}

/// What `first_named_from` answers: the first package with that name at or
/// after `k`.
pub proof fn lemma_first_named_from(ps: Seq<PackageView>, name: Seq<char>, k: int)
    requires
        0 <= k,
    ensures
        first_named_from(ps, name, k) matches Some(i) ==> {
            &&& k <= i < ps.len()
            &&& ps[i].name == name
            &&& forall|j: int| k <= j < i ==> ps[j].name != name
        },
        first_named_from(ps, name, k) is None ==> forall|j: int|
            k <= j < ps.len() ==> ps[j].name != name,
    decreases ps.len() - k,
{
    if k < ps.len() && ps[k].name != name {
        lemma_first_named_from(ps, name, k + 1);
    }
}

/// The position of the first package in `ps` named `name`.
pub fn find_by_name(ps: &[Package], name: &String) -> (res: Option<usize>)
    ensures
        match res {
            Some(i) => i < ps@.len() && first_named(package_views(ps@), name@) == Some(i as int),
            None => first_named(package_views(ps@), name@) is None,
        },
{
    let ghost v = package_views(ps@);
    let mut i: usize = 0;
    while i < ps.len()
        invariant
            i <= ps.len(),
            v == package_views(ps@),
            first_named(v, name@) == first_named_from(v, name@, i as int),
        decreases ps.len() - i,
    {
        assert(v[i as int] == ps@[i as int]@);
        if ps[i].name == *name {
            return Some(i);
        }
        i = i + 1;
    }
    None
}

/// Some package of `ps` has this name and this version.
pub open spec fn has_release(ps: Seq<PackageView>, name: Seq<char>, version: Seq<char>) -> bool {
    exists|j: int| 0 <= j < ps.len() && ps[j].name == name && ps[j].version == version
}

/// Whether some package of `ps` has this name and this version.
pub fn has_package_version(ps: &[Package], name: &String, version: &String) -> (res: bool)
    ensures
        res == has_release(package_views(ps@), name@, version@),
{
    let ghost v = package_views(ps@);
    let mut i: usize = 0;
    while i < ps.len()
        invariant
            i <= ps.len(),
            v == package_views(ps@),
            forall|j: int| 0 <= j < i ==> !(v[j].name == name@ && v[j].version == version@),
        decreases ps.len() - i,
    {
        assert(v[i as int] == ps@[i as int]@);
        if ps[i].name == *name && ps[i].version == *version {
            return true;
        }
        i = i + 1;
    }
    false
}

} // verus!
