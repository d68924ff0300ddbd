//! The reports that compare the dependency graph before and after
//! `cargo update`: which crates changed version, which are new, and the lines
//! that the tool prints for them.
use vstd::prelude::*;
use crate::text::{
    chars_of, contains, contains_seq, string_of, trim_end_matches, trim_end_matches_seq,
};
use crate::package::{
    clone_opt_string, find_by_name, has_package_version, has_release, lemma_first_named_from,
    opt_string_eq, first_named, opt_view, package_views, string_views, Package,
    PackageView,
};

verus! {

// ---------------------------------------------------------------------------
// Version changes by crate name
// ---------------------------------------------------------------------------

/// A crate whose version differs between the two graphs.
pub struct VersionChange {
    pub name: String,
    pub old_version: String,
    pub new_version: String,
    /// The repository that the updated package declares.
    pub repository: Option<String>,
}

/// The mathematical value of a `VersionChange`.
pub struct VersionChangeView {
    pub name: Seq<char>,
    pub old_version: Seq<char>,
    pub new_version: Seq<char>,
    pub repository: Option<Seq<char>>,
}

impl View for VersionChange {
    type V = VersionChangeView;

    open spec fn view(&self) -> VersionChangeView {
        VersionChangeView {
            name: self.name@,
            old_version: self.old_version@,
            new_version: self.new_version@,
            repository: opt_view(self.repository),
        }
    }
}

/// The views of a sequence of changes.
pub open spec fn change_views(s: Seq<VersionChange>) -> Seq<VersionChangeView> {
    s.map_values(|c: VersionChange| c@)
}

/// The versions of crate `name`, among the first `n` packages of `orig`,
/// that no package of `upd` of that name has any more, in order.
pub open spec fn vanished_versions(
    orig: Seq<PackageView>,
    upd: Seq<PackageView>,
    name: Seq<char>,
    n: int,
) -> Seq<Seq<char>>
    decreases n,
{
    if n <= 0 {
        seq![]
    } else {
        let prev = vanished_versions(orig, upd, name, n - 1);
        let q = orig[n - 1];
        if q.name == name && !has_release(upd, name, q.version) {
            prev.push(q.version)
        } else {
            prev
        }
    }
}

/// How many of the first `n` packages of `upd` are crate `name` at a
/// version that `orig` does not have.
pub open spec fn new_versions_before(
    orig: Seq<PackageView>,
    upd: Seq<PackageView>,
    name: Seq<char>,
    n: int,
) -> nat
    decreases n,
{
    if n <= 0 {
        0
    } else {
        new_versions_before(orig, upd, name, n - 1) + if upd[n - 1].name == name && !has_release(
            orig,
            name,
            upd[n - 1].version,
        ) {
            1nat
        } else {
            0nat
        }
    }
}

/// The change that package `j` of the updated graph `upd` shows against
/// `orig`: the original graph has that crate, but not at that version. The
/// new versions of a crate are paired in order with the versions of it that
/// went away (the last of those serving any extra new version); where none
/// went away, the old version is the first version of the crate in `orig`.
pub open spec fn change_at(orig: Seq<PackageView>, upd: Seq<PackageView>, j: int) -> Option<
    VersionChangeView,
> {
    let p = upd[j];
    match first_named(orig, p.name) {
        None => None,
        Some(i) => if has_release(orig, p.name, p.version) {
            None
        } else {
            let gone = vanished_versions(orig, upd, p.name, orig.len() as int);
            let r = new_versions_before(orig, upd, p.name, j);
            let old = if r < gone.len() {
                gone[r as int]
            } else if gone.len() > 0 {
                gone.last()
            } else {
                orig[i].version
            };
            Some(
                VersionChangeView {
                    name: p.name,
                    old_version: old,
                    new_version: p.version,
                    repository: p.repository,
                },
            )
        },
    }
}

/// The changes that the first `n` packages of `upd` show against `orig`.
pub open spec fn version_changes_upto(orig: Seq<PackageView>, upd: Seq<PackageView>, n: int) -> Seq<
    VersionChangeView,
>
    decreases n,
{
    if n <= 0 {
        seq![]
    } else {
        let prev = version_changes_upto(orig, upd, n - 1);
        match change_at(orig, upd, n - 1) {
            Some(c) => prev.push(c),
            None => prev,
        }
    }
}

/// The changes between `orig` and `upd`, in the order of `upd`.
pub open spec fn version_changes(orig: Seq<PackageView>, upd: Seq<PackageView>) -> Seq<
    VersionChangeView,
> {
    version_changes_upto(orig, upd, upd.len() as int)
}

/// The versions of crate `name` in `original` that `updated` no longer has.
fn vanished_of(original: &[Package], updated: &[Package], name: &String) -> (res: Vec<String>)
    ensures
        string_views(res@) == vanished_versions(
            package_views(original@),
            package_views(updated@),
            name@,
            original@.len() as int,
        ),
{
    let ghost ov = package_views(original@);
    let ghost uv = package_views(updated@);
    let mut res: Vec<String> = Vec::new();
    let mut i: usize = 0;
    while i < original.len()
        invariant
            i <= original.len(),
            ov == package_views(original@),
            uv == package_views(updated@),
            string_views(res@) == vanished_versions(ov, uv, name@, i as int),
        decreases original.len() - i,
    {
        assert(ov[i as int] == original@[i as int]@);
        if original[i].name == *name && !has_package_version(updated, name, &original[i].version) {
            let v = original[i].version.clone();
            let ghost prev = res@;
            res.push(v);
            assert(string_views(res@) == string_views(prev).push(v@));
        }
        i = i + 1;
    }
    res
}

/// How many of the first `n` packages of `updated` are crate `name` at a
/// version that `original` does not have.
fn count_new_before(original: &[Package], updated: &[Package], name: &String, n: usize) -> (res:
    usize)
    requires
        n <= updated@.len(),
    ensures
        res == new_versions_before(package_views(original@), package_views(updated@), name@, n as int),
{
    let ghost ov = package_views(original@);
    let ghost uv = package_views(updated@);
    let mut count: usize = 0;
    let mut i: usize = 0;
    while i < n
        invariant
            i <= n <= updated@.len(),
            ov == package_views(original@),
            uv == package_views(updated@),
            count == new_versions_before(ov, uv, name@, i as int),
            count <= i,
        decreases n - i,
    {
        assert(uv[i as int] == updated@[i as int]@);
        if updated[i].name == *name && !has_package_version(original, name, &updated[i].version) {
            count = count + 1;
        }
        i = i + 1;
    }
    count
}

/// The crates of `updated` at a version that `original` does not have,
/// where `original` has the crate, in the order of `updated`.
pub fn updated_crate_changes(original: &[Package], updated: &[Package]) -> (res: Vec<VersionChange>)
    ensures
        change_views(res@) == version_changes(package_views(original@), package_views(updated@)),
{
    let ghost ov = package_views(original@);
    let ghost uv = package_views(updated@);
    let mut res: Vec<VersionChange> = Vec::new();
    let mut i: usize = 0;
    while i < updated.len()
        invariant
            i <= updated.len(),
            ov == package_views(original@),
            uv == package_views(updated@),
            change_views(res@) == version_changes_upto(ov, uv, i as int),
        decreases updated.len() - i,
    {
        let p = &updated[i];
        assert(uv[i as int] == p@);
        let ghost prev = res@;
        match find_by_name(original, &p.name) {
            Some(j) => {
                assert(ov[j as int] == original@[j as int]@);
                if !has_package_version(original, &p.name, &p.version) {
                    let gone = vanished_of(original, updated, &p.name);
                    let r = count_new_before(original, updated, &p.name, i);
                    let old = if r < gone.len() {
                        gone[r].clone()
                    } else if gone.len() > 0 {
                        gone[gone.len() - 1].clone()
                    } else {
                        original[j].version.clone()
                    };
                    let c = VersionChange {
                        name: p.name.clone(),
                        old_version: old,
                        new_version: p.version.clone(),
                        repository: clone_opt_string(&p.repository),
                    };
                    res.push(c);
                    assert(change_views(res@) == change_views(prev).push(c@));
                }
            },
            None => {},
        }
        i = i + 1;
    }
    res
}

// ---------------------------------------------------------------------------
// Output lines
// ---------------------------------------------------------------------------

/// The line that reports a version change: `- name (old → new)`.
pub open spec fn change_line(name: Seq<char>, old: Seq<char>, new: Seq<char>) -> Seq<char> {
    "- "@ + name + " ("@ + old + " → "@ + new + ")"@
}

/// The line that reports a version change.
pub fn format_change_line(name: &String, old: &String, new: &String) -> (res: String)
    ensures
        res@ == change_line(name@, old@, new@),
{
    let mut s = String::new();
    s.append("- ");
    s.append(name.as_str());
    s.append(" (");
    s.append(old.as_str());
    s.append(" → ");
    s.append(new.as_str());
    s.append(")");
    s
}

/// The lines that report a list of changes, one each.
pub open spec fn change_lines(cs: Seq<VersionChangeView>) -> Seq<Seq<char>> {
    cs.map_values(|c: VersionChangeView| change_line(c.name, c.old_version, c.new_version))
}

/// Appends one line per change to `out`.
fn push_change_lines(out: &mut Vec<String>, cs: &[VersionChange])
    ensures
        string_views(final(out)@) == string_views(old(out)@) + change_lines(change_views(cs@)),
{
    let mut i: usize = 0;
    while i < cs.len()
        invariant
            i <= cs.len(),
            string_views(out@) == string_views(old(out)@) + change_lines(
                change_views(cs@).take(i as int),
            ),
        decreases cs.len() - i,
    {
        let line = format_change_line(&cs[i].name, &cs[i].old_version, &cs[i].new_version);
        let ghost prev = out@;
        out.push(line);
        assert(change_lines(change_views(cs@).take(i + 1)) == change_lines(
            change_views(cs@).take(i as int),
        ).push(line@));
        assert(string_views(out@) == string_views(prev).push(line@));
        i = i + 1;
    }
    assert(change_views(cs@).take(cs.len() as int) == change_views(cs@));
}

/// What the short report prints: that nothing changed, or one line per
/// changed crate under a heading.
pub open spec fn minimal_report(orig: Seq<PackageView>, upd: Seq<PackageView>) -> Seq<Seq<char>> {
    let cs = version_changes(orig, upd);
    if cs.len() == 0 {
        seq!["All dependencies are up to date."@]
    } else {
        seq!["Updated dependencies:"@] + change_lines(cs)
    }
}

/// The lines of the short report of which dependencies `cargo update`
/// would change.
pub fn print_minimal_updated_crates(original: &[Package], updated: &[Package]) -> (res: Vec<String>)
    ensures
        string_views(res@) == minimal_report(package_views(original@), package_views(updated@)),
{
    let changes = updated_crate_changes(original, updated);
    let mut out: Vec<String> = Vec::new();
    if changes.len() == 0 {
        out.push(String::from_str("All dependencies are up to date."));
        assert(string_views(out@) == seq!["All dependencies are up to date."@]);
    } else {
        out.push(String::from_str("Updated dependencies:"));
        assert(string_views(out@) == seq!["Updated dependencies:"@]);
        push_change_lines(&mut out, changes.as_slice());
    }
    out
}

// ---------------------------------------------------------------------------
// New crates
// ---------------------------------------------------------------------------

/// The names in `upd` that no package of `orig` has, each once, in the
/// order in which they first occur in `upd`.
pub open spec fn new_crate_names(orig: Seq<PackageView>, upd: Seq<PackageView>) -> Seq<Seq<char>>
    decreases upd.len(),
{
    if upd.len() == 0 {
        seq![]
    } else {
        let prev = new_crate_names(orig, upd.drop_last());
        let n = upd.last().name;
        if first_named(orig, n) is None && !prev.contains(n) {
            prev.push(n)
        } else {
            prev
        }
    }
}

/// Whether `v` holds a string equal to `s`.
fn contains_string(v: &Vec<String>, s: &String) -> (res: bool)
    ensures
        res == string_views(v@).contains(s@),
{
    let mut i: usize = 0;
    while i < v.len()
        invariant
            i <= v.len(),
            forall|j: int| 0 <= j < i ==> v@[j]@ != s@,
        decreases v.len() - i,
    {
        if v[i] == *s {
            assert(string_views(v@)[i as int] == s@);
            return true;
        }
        i = i + 1;
    }
    assert(!string_views(v@).contains(s@)) by {
        if string_views(v@).contains(s@) {
            let j = choose|j: int| 0 <= j < string_views(v@).len() && string_views(v@)[j] == s@;
            assert(v@[j]@ == s@);
        }
    }
    false
}

/// The names of the crates in `updated` that `original` does not have, each
/// once, in the order of their first occurrence in `updated`.
pub fn new_crates(original: &[Package], updated: &[Package]) -> (res: Vec<String>)
    ensures
        string_views(res@) == new_crate_names(package_views(original@), package_views(updated@)),
{
    let ghost ov = package_views(original@);
    let ghost uv = package_views(updated@);
    let mut res: Vec<String> = Vec::new();
    let mut i: usize = 0;
    while i < updated.len()
        invariant
            i <= updated.len(),
            ov == package_views(original@),
            uv == package_views(updated@),
            string_views(res@) == new_crate_names(ov, uv.take(i as int)),
        decreases updated.len() - i,
    {
        assert(uv.take(i + 1).drop_last() == uv.take(i as int));
        assert(uv.take(i + 1).last() == updated@[i as int]@);
        let name = &updated[i].name;
        if find_by_name(original, name).is_none() && !contains_string(&res, name) {
            let ghost prev = res@;
            res.push(name.clone());
            assert(string_views(res@) == string_views(prev).push(name@));
        }
        i = i + 1;
    }
    assert(uv.take(updated.len() as int) == uv);
    res
}

/// `- name`, the line that reports a new crate.
pub open spec fn bullet_line(name: Seq<char>) -> Seq<char> {
    "- "@ + name
}

/// What the verbose report of updated crates prints: the new crates and the
/// changed ones, each part under its heading and left out where it is empty.
pub open spec fn updated_crates_report(orig: Seq<PackageView>, upd: Seq<PackageView>) -> Seq<
    Seq<char>,
> {
    let news = new_crate_names(orig, upd);
    let cs = version_changes(orig, upd);
    (if news.len() > 0 {
        seq!["\nNew crates added after update:"@] + news.map_values(|n: Seq<char>| bullet_line(n))
    } else {
        seq![]
    }) + (if cs.len() > 0 {
        seq!["\nCrates updated:"@] + change_lines(cs)
    } else {
        seq![]
    })
}

/// The lines of the verbose report of new and changed crates; nothing unless
/// `verbose`.
pub fn report_updated_crates(original: &[Package], updated: &[Package], verbose: bool) -> (res: Vec<
    String,
>)
    ensures
        string_views(res@) == if verbose {
            updated_crates_report(package_views(original@), package_views(updated@))
        } else {
            seq![]
        },
{
    let mut out: Vec<String> = Vec::new();
    if !verbose {
        assert(string_views(out@) == Seq::<Seq<char>>::empty());
        return out;
    }
    let ghost ov = package_views(original@);
    let ghost uv = package_views(updated@);
    let news = new_crates(original, updated);
    if news.len() > 0 {
        out.push(String::from_str("\nNew crates added after update:"));
        let mut i: usize = 0;
        while i < news.len()
            invariant
                i <= news.len(),
                string_views(out@) == seq!["\nNew crates added after update:"@] + string_views(
                    news@,
                ).take(i as int).map_values(|n: Seq<char>| bullet_line(n)),
            decreases news.len() - i,
        {
            let mut line = String::from_str("- ");
            line.append(news[i].as_str());
            let ghost prev = out@;
            out.push(line);
            assert(string_views(news@).take(i + 1).map_values(|n: Seq<char>| bullet_line(n))
                == string_views(news@).take(i as int).map_values(|n: Seq<char>| bullet_line(n)).push(
                line@,
            ));
            assert(string_views(out@) == string_views(prev).push(line@));
            i = i + 1;
        }
        assert(string_views(news@).take(news.len() as int) == string_views(news@));
    }
    let ghost first_part = string_views(out@);
    let changes = updated_crate_changes(original, updated);
    if changes.len() > 0 {
        out.push(String::from_str("\nCrates updated:"));
        assert(string_views(out@) == first_part + seq!["\nCrates updated:"@]);
        push_change_lines(&mut out, changes.as_slice());
    }
    out
}

// ---------------------------------------------------------------------------
// Repositories and compare links
// ---------------------------------------------------------------------------

/// The line that names the repository of a package, or says it has none.
pub open spec fn repository_line(p: PackageView) -> Seq<char> {
    match p.repository {
        Some(r) => "- "@ + p.name + ": "@ + r,
        None => "- "@ + p.name + ": <no repository specified>"@,
    }
}

/// What the verbose list of repositories prints.
pub open spec fn crate_repositories_report(upd: Seq<PackageView>) -> Seq<Seq<char>> {
    seq!["\nCrate repositories (after update):"@] + upd.map_values(
        |p: PackageView| repository_line(p),
    )
}

/// The lines that list the repository of every updated package; nothing
/// unless `verbose`.
pub fn print_crate_repositories(updated: &[Package], verbose: bool) -> (res: Vec<String>)
    ensures
        string_views(res@) == if verbose {
            crate_repositories_report(package_views(updated@))
        } else {
            seq![]
        },
{
    let mut out: Vec<String> = Vec::new();
    if !verbose {
        assert(string_views(out@) == Seq::<Seq<char>>::empty());
        return out;
    }
    let ghost uv = package_views(updated@);
    out.push(String::from_str("\nCrate repositories (after update):"));
    let mut i: usize = 0;
    while i < updated.len()
        invariant
            i <= updated.len(),
            uv == package_views(updated@),
            string_views(out@) == seq!["\nCrate repositories (after update):"@] + uv.take(
                i as int,
            ).map_values(|p: PackageView| repository_line(p)),
        decreases updated.len() - i,
    {
        let p = &updated[i];
        let mut line = String::from_str("- ");
        line.append(p.name.as_str());
        match &p.repository {
            Some(r) => {
                line.append(": ");
                line.append(r.as_str());
            },
            None => {
                line.append(": <no repository specified>");
            },
        }
        assert(uv[i as int] == p@);
        assert(line@ == repository_line(uv[i as int]));
        let ghost prev = out@;
        out.push(line);
        assert(uv.take(i + 1).map_values(|p: PackageView| repository_line(p)) == uv.take(
            i as int,
        ).map_values(|p: PackageView| repository_line(p)).push(line@));
        assert(string_views(out@) == string_views(prev).push(line@));
        i = i + 1;
    }
    assert(uv.take(updated.len() as int) == uv);
    out
}

/// The compare link of a change whose repository is `repo`:
/// `- name: <repo without trailing .git>/compare/v<old>...v<new>`.
pub open spec fn compare_link_line(c: VersionChangeView, repo: Seq<char>) -> Seq<char> {
    "- "@ + c.name + ": "@ + trim_end_matches_seq(repo, ".git"@) + "/compare/v"@ + c.old_version
        + "...v"@ + c.new_version
}

/// The compare links of the changes whose repository is on GitHub.
pub open spec fn compare_link_lines(cs: Seq<VersionChangeView>) -> Seq<Seq<char>>
    decreases cs.len(),
{
    if cs.len() == 0 {
        seq![]
    } else {
        let prev = compare_link_lines(cs.drop_last());
        let c = cs.last();
        match c.repository {
            Some(r) => if contains_seq(r, "github.com"@) {
                prev.push(compare_link_line(c, r))
            } else {
                prev
            },
            None => prev,
        }
    }
}

/// What the verbose list of GitHub compare links prints.
pub open spec fn compare_links_report(orig: Seq<PackageView>, upd: Seq<PackageView>) -> Seq<
    Seq<char>,
> {
    seq!["\nGitHub compare links for updated crates:"@] + compare_link_lines(
        version_changes(orig, upd),
    )
}

/// The lines that give a GitHub compare link for every changed crate whose
/// repository is on GitHub; nothing unless `verbose`.
pub fn print_github_compare_links(original: &[Package], updated: &[Package], verbose: bool) -> (res:
    Vec<String>)
    ensures
        string_views(res@) == if verbose {
            compare_links_report(package_views(original@), package_views(updated@))
        } else {
            seq![]
        },
{
    let mut out: Vec<String> = Vec::new();
    if !verbose {
        assert(string_views(out@) == Seq::<Seq<char>>::empty());
        return out;
    }
    out.push(String::from_str("\nGitHub compare links for updated crates:"));
    let changes = updated_crate_changes(original, updated);
    let ghost cv = change_views(changes@);
    let github = chars_of("github.com");
    let git_suffix = chars_of(".git");
    let mut i: usize = 0;
    while i < changes.len()
        invariant
            i <= changes.len(),
            cv == change_views(changes@),
            github@ == "github.com"@,
            git_suffix@ == ".git"@,
            string_views(out@) == seq!["\nGitHub compare links for updated crates:"@]
                + compare_link_lines(cv.take(i as int)),
        decreases changes.len() - i,
    {
        assert(cv.take(i + 1).drop_last() == cv.take(i as int));
        assert(cv.take(i + 1).last() == changes@[i as int]@);
        let c = &changes[i];
        match &c.repository {
            Some(r) => {
                let rc = chars_of(r.as_str());
                if contains(&rc, &github) {
                    let trimmed = trim_end_matches(&rc, &git_suffix);
                    let url = string_of(&trimmed);
                    let mut line = String::from_str("- ");
                    line.append(c.name.as_str());
                    line.append(": ");
                    line.append(url.as_str());
                    line.append("/compare/v");
                    line.append(c.old_version.as_str());
                    line.append("...v");
                    line.append(c.new_version.as_str());
                    let ghost prev = out@;
                    out.push(line);
                    assert(string_views(out@) == string_views(prev).push(line@));
                }
            },
            None => {},
        }
        i = i + 1;
    }
    assert(cv.take(changes.len() as int) == cv);
    out
}

// ---------------------------------------------------------------------------
// Version changes by crate name and source
// ---------------------------------------------------------------------------

/// What tells two packages apart in the lock file: their name and source.
pub open spec fn source_key(p: PackageView) -> (Seq<char>, Option<Seq<char>>) {
    (p.name, p.source)
}

/// The version recorded for each key, the last package with that key
/// winning (what inserting the packages in order into a map gives).
pub open spec fn version_map(ps: Seq<PackageView>) -> Map<(Seq<char>, Option<Seq<char>>), Seq<char>>
    decreases ps.len(),
{
    if ps.len() == 0 {
        Map::empty()
    } else {
        version_map(ps.drop_last()).insert(source_key(ps.last()), ps.last().version)
    }
}

/// The key of package `n` was already met before it.
pub open spec fn key_seen_before(ps: Seq<PackageView>, n: int) -> bool {
    exists|j: int| 0 <= j < n && source_key(ps[j]) == source_key(ps[n])
}

/// A package whose version differs between the graphs, found by name and
/// source.
pub struct SourceChange {
    pub name: String,
    pub source: Option<String>,
    pub old_version: String,
    pub new_version: String,
}

/// The mathematical value of a `SourceChange`.
pub struct SourceChangeView {
    pub name: Seq<char>,
    pub source: Option<Seq<char>>,
    pub old_version: Seq<char>,
    pub new_version: Seq<char>,
}

impl View for SourceChange {
    type V = SourceChangeView;

    open spec fn view(&self) -> SourceChangeView {
        SourceChangeView {
            name: self.name@,
            source: opt_view(self.source),
            old_version: self.old_version@,
            new_version: self.new_version@,
        }
    }
}

/// The views of a sequence of source changes.
pub open spec fn source_change_views(s: Seq<SourceChange>) -> Seq<SourceChangeView> {
    s.map_values(|c: SourceChange| c@)
}

/// The changed keys among the first `n` packages of `orig`, each key taken
/// at its first occurrence, with the versions that the two maps record.
pub open spec fn source_changes_upto(orig: Seq<PackageView>, upd: Seq<PackageView>, n: int) -> Seq<
    SourceChangeView,
>
    decreases n,
{
    if n <= 0 {
        seq![]
    } else {
        let prev = source_changes_upto(orig, upd, n - 1);
        let k = source_key(orig[n - 1]);
        let om = version_map(orig);
        let um = version_map(upd);
        if !key_seen_before(orig, n - 1) && um.contains_key(k) && om[k] != um[k] {
            prev.push(SourceChangeView { name: k.0, source: k.1, old_version: om[k], new_version: um[k] })
        } else {
            prev
        }
    }
}

/// The packages, told apart by name and source, whose version differs
/// between `orig` and `upd`, in the order in which their keys first occur
/// in `orig`.
pub open spec fn source_version_changes(orig: Seq<PackageView>, upd: Seq<PackageView>) -> Seq<
    SourceChangeView,
> {
    source_changes_upto(orig, upd, orig.len() as int)
}

/// A key is in the version map exactly when some package has it.
pub proof fn lemma_version_map_keys(ps: Seq<PackageView>, k: (Seq<char>, Option<Seq<char>>))
    ensures
        version_map(ps).contains_key(k) <==> exists|j: int|
            0 <= j < ps.len() && source_key(ps[j]) == k,
    decreases ps.len(),
{
    if ps.len() > 0 {
        let pre = ps.drop_last();
        lemma_version_map_keys(pre, k);
        if exists|j: int| 0 <= j < ps.len() && source_key(ps[j]) == k {
            let j = choose|j: int| 0 <= j < ps.len() && source_key(ps[j]) == k;
            if j < ps.len() - 1 {
                assert(source_key(pre[j]) == k);
            }
        }
        if version_map(pre).contains_key(k) {
            let j = choose|j: int| 0 <= j < pre.len() && source_key(pre[j]) == k;
            assert(source_key(ps[j]) == k);
        }
    }
}

/// Where several packages share a key, the version recorded for it is that
/// of the last of them.
pub proof fn law_version_map_keeps_last(ps: Seq<PackageView>, j: int)
    requires
        0 <= j < ps.len(),
        forall|m: int| j < m < ps.len() ==> source_key(ps[m]) != source_key(ps[j]),
    ensures
        version_map(ps).contains_key(source_key(ps[j])),
        version_map(ps)[source_key(ps[j])] == ps[j].version,
    decreases ps.len(),
{
    let pre = ps.drop_last();
    if j < ps.len() - 1 {
        assert(source_key(ps[ps.len() - 1]) != source_key(ps[j]));
        assert forall|m: int| j < m < pre.len() implies source_key(pre[m]) != source_key(pre[j]) by {
            assert(pre[m] == ps[m]);
        }
        law_version_map_keeps_last(pre, j);
    }
}

/// The position of the last package of `ps` with the given name and source.
fn last_with_key(ps: &[Package], name: &String, source: &Option<String>) -> (res: Option<usize>)
    ensures
        ({
            let k = (name@, opt_view(*source));
            let vm = version_map(package_views(ps@));
            match res {
                Some(j) => j < ps@.len() && vm.contains_key(k) && vm[k] == ps@[j as int]@.version,
                None => !vm.contains_key(k),
            }
        }),
{
    let ghost k = (name@, opt_view(*source));
    let ghost pv = package_views(ps@);
    let mut last: Option<usize> = None;
    let mut i: usize = 0;
    while i < ps.len()
        invariant
            i <= ps.len(),
            pv == package_views(ps@),
            k == (name@, opt_view(*source)),
            match last {
                Some(j) => j < i && version_map(pv.take(i as int)).contains_key(k) && version_map(
                    pv.take(i as int),
                )[k] == pv[j as int].version,
                None => !version_map(pv.take(i as int)).contains_key(k),
            },
        decreases ps.len() - i,
    {
        assert(pv.take(i + 1).drop_last() == pv.take(i as int));
        assert(pv.take(i + 1).last() == pv[i as int]);
        assert(pv[i as int] == ps@[i as int]@);
        if ps[i].name == *name && opt_string_eq(&ps[i].source, source) {
            last = Some(i);
        }
        i = i + 1;
    }
    assert(pv.take(ps.len() as int) == pv);
    last
}

/// Whether package `n` has the same name and source as an earlier one.
fn seen_before(ps: &[Package], n: usize) -> (res: bool)
    requires
        n < ps@.len(),
    ensures
        res == key_seen_before(package_views(ps@), n as int),
{
    let ghost pv = package_views(ps@);
    let mut j: usize = 0;
    while j < n
        invariant
            j <= n < ps@.len(),
            pv == package_views(ps@),
            forall|m: int| 0 <= m < j ==> source_key(pv[m]) != source_key(pv[n as int]),
        decreases n - j,
    {
        assert(pv[j as int] == ps@[j as int]@ && pv[n as int] == ps@[n as int]@);
        if ps[j].name == ps[n].name && opt_string_eq(&ps[j].source, &ps[n].source) {
            assert(source_key(pv[j as int]) == source_key(pv[n as int]));
            return true;
        }
        j = j + 1;
    }
    false
}

/// The packages, told apart by name and source, whose version differs
/// between `original` and `updated`, each once, in the order in which their
/// keys first occur in `original`.
pub fn source_version_changes_of(original: &[Package], updated: &[Package]) -> (res: Vec<
    SourceChange,
>)
    ensures
        source_change_views(res@) == source_version_changes(
            package_views(original@),
            package_views(updated@),
        ),
{
    let ghost ov = package_views(original@);
    let ghost uv = package_views(updated@);
    let mut res: Vec<SourceChange> = Vec::new();
    let mut i: usize = 0;
    while i < original.len()
        invariant
            i <= original.len(),
            ov == package_views(original@),
            uv == package_views(updated@),
            source_change_views(res@) == source_changes_upto(ov, uv, i as int),
        decreases original.len() - i,
    {
        let p = &original[i];
        assert(ov[i as int] == p@);
        proof {
            lemma_version_map_keys(ov, source_key(ov[i as int]));
        }
        if !seen_before(original, i) {
            match last_with_key(updated, &p.name, &p.source) {
                Some(u) => {
                    match last_with_key(original, &p.name, &p.source) {
                        Some(o) => {
                            if original[o].version != updated[u].version {
                                let c = SourceChange {
                                    name: p.name.clone(),
                                    source: clone_opt_string(&p.source),
                                    old_version: original[o].version.clone(),
                                    new_version: updated[u].version.clone(),
                                };
                                let ghost prev = res@;
                                res.push(c);
                                assert(source_change_views(res@) == source_change_views(prev).push(
                                    c@,
                                ));
                            }
                        },
                        None => {},
                    }
                },
                None => {},
            }
        }
        i = i + 1;
    }
    res
}

/// A key changes between the graphs: both record it, with different
/// versions.
pub open spec fn key_changed(
    orig: Seq<PackageView>,
    upd: Seq<PackageView>,
    k: (Seq<char>, Option<Seq<char>>),
) -> bool {
    &&& version_map(orig).contains_key(k)
    &&& version_map(upd).contains_key(k)
    &&& version_map(orig)[k] != version_map(upd)[k]
}

/// The key of a reported change.
pub open spec fn change_key(c: SourceChangeView) -> (Seq<char>, Option<Seq<char>>) {
    (c.name, c.source)
}

#[verifier::spinoff_prover]
proof fn lemma_source_changes_upto(orig: Seq<PackageView>, upd: Seq<PackageView>, n: int)
    requires
        0 <= n <= orig.len(),
    ensures
        ({
            let cs = source_changes_upto(orig, upd, n);
            &&& forall|i: int|
                0 <= i < cs.len() ==> {
                    &&& key_changed(orig, upd, change_key(#[trigger] cs[i]))
                    &&& cs[i].old_version == version_map(orig)[change_key(cs[i])]
                    &&& cs[i].new_version == version_map(upd)[change_key(cs[i])]
                    &&& exists|j: int| 0 <= j < n && source_key(orig[j]) == change_key(cs[i])
                }
            &&& forall|i: int, l: int|
                0 <= i < l < cs.len() ==> change_key(#[trigger] cs[i]) != change_key(
                    #[trigger] cs[l],
                )
            &&& forall|j: int|
                0 <= j < n && key_changed(orig, upd, #[trigger] source_key(orig[j])) ==> exists|
                    i: int,
                | 0 <= i < cs.len() && change_key(cs[i]) == source_key(orig[j])
        }),
    decreases n,
{
    if n > 0 {
        lemma_source_changes_upto(orig, upd, n - 1);
        let prev = source_changes_upto(orig, upd, n - 1);
        let cs = source_changes_upto(orig, upd, n);
        let k = source_key(orig[n - 1]);
        lemma_version_map_keys(orig, k);
        assert(version_map(orig).contains_key(k));
        if !key_seen_before(orig, n - 1) && key_changed(orig, upd, k) {
            assert(cs == prev.push(
                SourceChangeView {
                    name: k.0,
                    source: k.1,
                    old_version: version_map(orig)[k],
                    new_version: version_map(upd)[k],
                },
            ));
            assert(change_key(cs[cs.len() - 1]) == k);
            assert forall|i: int| 0 <= i < cs.len() implies exists|j: int|
                0 <= j < n && source_key(orig[j]) == change_key(#[trigger] cs[i]) by {
                if i < prev.len() {
                    assert(cs[i] == prev[i]);
                } else {
                    assert(source_key(orig[n - 1]) == change_key(cs[i]));
                }
            }
            assert forall|i: int, l: int|
                0 <= i < l < cs.len() implies change_key(#[trigger] cs[i]) != change_key(
                #[trigger] cs[l],
            ) by {
                assert(cs[i] == prev[i]);
                if l == cs.len() - 1 {
                    let j = choose|j: int|
                        0 <= j < n - 1 && source_key(orig[j]) == change_key(prev[i]);
                    assert(key_seen_before(orig, n - 1) || source_key(orig[j]) != k);
                } else {
                    assert(cs[l] == prev[l]);
                }
            }
            assert forall|j: int|
                0 <= j < n && key_changed(orig, upd, #[trigger] source_key(orig[j])) implies exists|
                i: int,
            | 0 <= i < cs.len() && change_key(cs[i]) == source_key(orig[j]) by {
                if j < n - 1 {
                    let i = choose|i: int|
                        0 <= i < prev.len() && change_key(prev[i]) == source_key(orig[j]);
                    assert(cs[i] == prev[i]);
                } else {
                    assert(change_key(cs[cs.len() - 1]) == source_key(orig[j]));
                }
            }
        } else {
            assert(cs == prev);
            assert forall|j: int|
                0 <= j < n && key_changed(orig, upd, #[trigger] source_key(orig[j])) implies exists|
                i: int,
            | 0 <= i < cs.len() && change_key(cs[i]) == source_key(orig[j]) by {
                if j == n - 1 {
                    let m = choose|m: int|
                        0 <= m < n - 1 && #[trigger] source_key(orig[m]) == source_key(orig[n - 1]);
                    assert(key_changed(orig, upd, source_key(orig[m])));
                }
            }
            assert forall|i: int| 0 <= i < cs.len() implies exists|j: int|
                0 <= j < n && source_key(orig[j]) == change_key(#[trigger] cs[i]) by {
                let j = choose|j: int|
                    0 <= j < n - 1 && source_key(orig[j]) == change_key(prev[i]);
                assert(source_key(orig[j]) == change_key(cs[i]));
            }
        }
    }
}

/// The report of changes by name and source is exact: it names each key at
/// most once, every key it names is recorded by both graphs with different
/// versions (and it reports those two versions), and every such key is
/// named.
pub proof fn law_dependency_changes_exact(orig: Seq<PackageView>, upd: Seq<PackageView>)
    ensures
        ({
            let cs = source_version_changes(orig, upd);
            &&& forall|i: int|
                0 <= i < cs.len() ==> {
                    &&& key_changed(orig, upd, change_key(#[trigger] cs[i]))
                    &&& cs[i].old_version == version_map(orig)[change_key(cs[i])]
                    &&& cs[i].new_version == version_map(upd)[change_key(cs[i])]
                }
            &&& forall|i: int, l: int|
                0 <= i < l < cs.len() ==> change_key(#[trigger] cs[i]) != change_key(
                    #[trigger] cs[l],
                )
            &&& forall|k: (Seq<char>, Option<Seq<char>>)|
                #[trigger] key_changed(orig, upd, k) ==> exists|i: int|
                    0 <= i < cs.len() && change_key(cs[i]) == k
        }),
{
    lemma_source_changes_upto(orig, upd, orig.len() as int);
    assert forall|k: (Seq<char>, Option<Seq<char>>)| #[trigger] key_changed(orig, upd, k) implies exists|
        i: int,
    | 0 <= i < source_version_changes(orig, upd).len() && change_key(
        source_version_changes(orig, upd)[i],
    ) == k by {
        lemma_version_map_keys(orig, k);
        let j = choose|j: int| 0 <= j < orig.len() && source_key(orig[j]) == k;
        assert(key_changed(orig, upd, source_key(orig[j])));
    }
}

/// What the verbose report of changes by name and source prints.
pub open spec fn dependency_changes_report(orig: Seq<PackageView>, upd: Seq<PackageView>) -> Seq<
    Seq<char>,
> {
    seq!["\nDependency changes (old → new):"@] + source_version_changes(orig, upd).map_values(
        |c: SourceChangeView| change_line(c.name, c.old_version, c.new_version),
    )
}

/// The lines that report, for every package told apart by name and source,
/// a version that differs between the graphs; nothing unless `verbose`.
pub fn diff_package_versions(original: &[Package], updated: &[Package], verbose: bool) -> (res: Vec<
    String,
>)
    ensures
        string_views(res@) == if verbose {
            dependency_changes_report(package_views(original@), package_views(updated@))
        } else {
            seq![]
        },
{
    let mut out: Vec<String> = Vec::new();
    if !verbose {
        assert(string_views(out@) == Seq::<Seq<char>>::empty());
        return out;
    }
    let changes = source_version_changes_of(original, updated);
    let ghost cv = source_change_views(changes@);
    out.push(String::from_str("\nDependency changes (old → new):"));
    let mut i: usize = 0;
    while i < changes.len()
        invariant
            i <= changes.len(),
            cv == source_change_views(changes@),
            string_views(out@) == seq!["\nDependency changes (old → new):"@] + cv.take(
                i as int,
            ).map_values(|c: SourceChangeView| change_line(c.name, c.old_version, c.new_version)),
        decreases changes.len() - i,
    {
        let c = &changes[i];
        let line = format_change_line(&c.name, &c.old_version, &c.new_version);
        let ghost prev = out@;
        out.push(line);
        assert(cv.take(i + 1).map_values(
            |c: SourceChangeView| change_line(c.name, c.old_version, c.new_version),
        ) == cv.take(i as int).map_values(
            |c: SourceChangeView| change_line(c.name, c.old_version, c.new_version),
        ).push(line@));
        assert(string_views(out@) == string_views(prev).push(line@));
        i = i + 1;
    }
    assert(cv.take(changes.len() as int) == cv);
    out
}

// ---------------------------------------------------------------------------
// Package lists
// ---------------------------------------------------------------------------

/// The line that lists a package: `- name version (manifest path)`.
pub open spec fn package_line(p: PackageView) -> Seq<char> {
    "- "@ + p.name + " "@ + p.version + " ("@ + p.manifest_path + ")"@
}

/// The lines that list the packages `ps` under the heading `title`.
pub fn package_list_lines(title: &str, ps: &[Package]) -> (res: Vec<String>)
    ensures
        string_views(res@) == seq![title@] + package_views(ps@).map_values(
            |p: PackageView| package_line(p),
        ),
{
    let ghost pv = package_views(ps@);
    let mut out: Vec<String> = Vec::new();
    out.push(String::from_str(title));
    let mut i: usize = 0;
    while i < ps.len()
        invariant
            i <= ps.len(),
            pv == package_views(ps@),
            string_views(out@) == seq![title@] + pv.take(i as int).map_values(
                |p: PackageView| package_line(p),
            ),
        decreases ps.len() - i,
    {
        let p = &ps[i];
        let mut line = String::from_str("- ");
        line.append(p.name.as_str());
        line.append(" ");
        line.append(p.version.as_str());
        line.append(" (");
        line.append(p.manifest_path.as_str());
        line.append(")");
        assert(pv[i as int] == p@);
        let ghost prev = out@;
        out.push(line);
        assert(pv.take(i + 1).map_values(|p: PackageView| package_line(p)) == pv.take(
            i as int,
        ).map_values(|p: PackageView| package_line(p)).push(line@));
        assert(string_views(out@) == string_views(prev).push(line@));
        i = i + 1;
    }
    assert(pv.take(ps.len() as int) == pv);
    out
}

// ---------------------------------------------------------------------------
// Laws
// ---------------------------------------------------------------------------

/// A crate is listed as new exactly when the updated graph has a package of
/// that name and the original graph has none; no name is listed twice.
pub proof fn law_new_crates_exact(orig: Seq<PackageView>, upd: Seq<PackageView>)
    ensures
        ({
            let ns = new_crate_names(orig, upd);
            &&& forall|i: int, l: int| 0 <= i < l < ns.len() ==> #[trigger] ns[i] != #[trigger] ns[l]
            &&& forall|n: Seq<char>|
                #[trigger] ns.contains(n) <==> (exists|j: int|
                    0 <= j < upd.len() && upd[j].name == n) && (forall|j: int|
                    0 <= j < orig.len() ==> orig[j].name != n)
        }),
    decreases upd.len(),
{
    if upd.len() > 0 {
        let pre = upd.drop_last();
        law_new_crates_exact(orig, pre);
        let prev = new_crate_names(orig, pre);
        let ns = new_crate_names(orig, upd);
        let last = upd.last().name;
        lemma_first_named_from(orig, last, 0);
        assert forall|n: Seq<char>|
            #[trigger] ns.contains(n) <==> (exists|j: int|
                0 <= j < upd.len() && upd[j].name == n) && (forall|j: int|
                0 <= j < orig.len() ==> orig[j].name != n) by {
            lemma_first_named_from(orig, n, 0);
            if exists|j: int| 0 <= j < pre.len() && pre[j].name == n {
                let j = choose|j: int| 0 <= j < pre.len() && pre[j].name == n;
                assert(upd[j].name == n);
            }
            if exists|j: int| 0 <= j < upd.len() && upd[j].name == n {
                let j = choose|j: int| 0 <= j < upd.len() && upd[j].name == n;
                if j < pre.len() {
                    assert(pre[j].name == n);
                }
            }
            if ns.contains(n) && !prev.contains(n) {
                let i = choose|i: int| 0 <= i < ns.len() && ns[i] == n;
                if i < prev.len() {
                    assert(prev[i] == n);
                }
            }
            if prev.contains(n) {
                let i = choose|i: int| 0 <= i < prev.len() && prev[i] == n;
                assert(ns[i] == n);
            }
            if n == last && first_named(orig, n) is None && !prev.contains(n) {
                assert(ns[ns.len() - 1] == n);
            }
        }
    }
}

proof fn lemma_vanished_versions(
    orig: Seq<PackageView>,
    upd: Seq<PackageView>,
    name: Seq<char>,
    n: int,
)
    requires
        0 <= n <= orig.len(),
    ensures
        forall|k: int|
            0 <= k < vanished_versions(orig, upd, name, n).len() ==> has_release(
                orig,
                name,
                #[trigger] vanished_versions(orig, upd, name, n)[k],
            ) && !has_release(upd, name, vanished_versions(orig, upd, name, n)[k]),
        vanished_versions(orig, upd, name, n).len() == 0 ==> forall|j: int|
            0 <= j < n && #[trigger] orig[j].name == name ==> has_release(upd, name, orig[j].version),
    decreases n,
{
    if n > 0 {
        lemma_vanished_versions(orig, upd, name, n - 1);
        let prev = vanished_versions(orig, upd, name, n - 1);
        let vv = vanished_versions(orig, upd, name, n);
        let q = orig[n - 1];
        if q.name == name && !has_release(upd, name, q.version) {
            assert(vv == prev.push(q.version));
            assert forall|k: int| 0 <= k < vv.len() implies has_release(
                orig,
                name,
                #[trigger] vv[k],
            ) && !has_release(upd, name, vv[k]) by {
                if k < prev.len() {
                    assert(vv[k] == prev[k]);
                } else {
                    assert(orig[n - 1].name == name && orig[n - 1].version == vv[k]);
                }
            }
        } else {
            assert(vv == prev);
        }
    }
}

/// What a reported change says of a crate.
pub open spec fn change_is_sound(
    orig: Seq<PackageView>,
    upd: Seq<PackageView>,
    c: VersionChangeView,
) -> bool {
    &&& has_release(orig, c.name, c.old_version)
    &&& !has_release(orig, c.name, c.new_version)
    &&& c.old_version != c.new_version
    &&& has_release(upd, c.name, c.new_version)
    &&& (exists|j: int|
        0 <= j < orig.len() && orig[j].name == c.name && !has_release(upd, c.name, orig[j].version))
        ==> !has_release(upd, c.name, c.old_version)
}

#[verifier::spinoff_prover]
proof fn lemma_version_changes_upto(orig: Seq<PackageView>, upd: Seq<PackageView>, n: int)
    requires
        0 <= n <= upd.len(),
    ensures
        forall|i: int|
            0 <= i < version_changes_upto(orig, upd, n).len() ==> change_is_sound(
                orig,
                upd,
                #[trigger] version_changes_upto(orig, upd, n)[i],
            ),
        forall|j: int|
            0 <= j < n && first_named(orig, upd[j].name) is Some && !has_release(
                orig,
                upd[j].name,
                upd[j].version,
            ) ==> exists|i: int|
                0 <= i < version_changes_upto(orig, upd, n).len() && (#[trigger] version_changes_upto(
                    orig,
                    upd,
                    n,
                )[i]).name == upd[j].name && version_changes_upto(orig, upd, n)[i].new_version
                    == upd[j].version,
    decreases n,
{
    if n > 0 {
        lemma_version_changes_upto(orig, upd, n - 1);
        let prev = version_changes_upto(orig, upd, n - 1);
        let cs = version_changes_upto(orig, upd, n);
        let p = upd[n - 1];
        lemma_first_named_from(orig, p.name, 0);
        lemma_vanished_versions(orig, upd, p.name, orig.len() as int);
        match change_at(orig, upd, n - 1) {
            Some(c) => {
                assert(cs == prev.push(c));
                let i0 = first_named(orig, p.name)->0;
                assert(has_release(upd, c.name, c.new_version)) by {
                    assert(upd[n - 1].name == c.name && upd[n - 1].version == c.new_version);
                }
                let gone = vanished_versions(orig, upd, p.name, orig.len() as int);
                let r = new_versions_before(orig, upd, p.name, n - 1);
                if r < gone.len() {
                    assert(has_release(orig, c.name, gone[r as int]));
                } else if gone.len() > 0 {
                    assert(has_release(orig, c.name, gone[gone.len() - 1]));
                } else {
                    assert(orig[i0].name == c.name && orig[i0].version == c.old_version);
                    assert forall|j: int|
                        0 <= j < orig.len() && orig[j].name == c.name implies has_release(
                        upd,
                        c.name,
                        orig[j].version,
                    ) by {
                        assert(orig[j].name == p.name);
                    }
                }
                assert(change_is_sound(orig, upd, c));
                assert forall|i: int| 0 <= i < cs.len() implies change_is_sound(
                    orig,
                    upd,
                    #[trigger] cs[i],
                ) by {
                    if i < prev.len() {
                        assert(cs[i] == prev[i]);
                    }
                }
                assert forall|j: int|
                    0 <= j < n && first_named(orig, upd[j].name) is Some && !has_release(
                        orig,
                        upd[j].name,
                        upd[j].version,
                    ) implies exists|i: int|
                    0 <= i < cs.len() && (#[trigger] cs[i]).name == upd[j].name
                        && cs[i].new_version == upd[j].version by {
                    if j < n - 1 {
                        let i = choose|i: int|
                            0 <= i < prev.len() && (#[trigger] prev[i]).name == upd[j].name
                                && prev[i].new_version == upd[j].version;
                        assert(cs[i] == prev[i]);
                    } else {
                        assert(cs[cs.len() - 1] == c);
                    }
                }
            },
            None => {
                assert(cs == prev);
            },
        }
    }
}

/// Every reported change is a crate that the original graph has, at a
/// version that it does not have and that the updated graph has; the old
/// version is one that the original graph has, and one that the updated
/// graph no longer has wherever some version of the crate went away. Every
/// package of the updated graph whose crate the original graph has, at
/// another version, is reported.
pub proof fn law_version_changes_exact(orig: Seq<PackageView>, upd: Seq<PackageView>)
    ensures
        forall|i: int|
            0 <= i < version_changes(orig, upd).len() ==> change_is_sound(
                orig,
                upd,
                #[trigger] version_changes(orig, upd)[i],
            ),
        forall|j: int|
            0 <= j < upd.len() && first_named(orig, upd[j].name) is Some && !has_release(
                orig,
                upd[j].name,
                upd[j].version,
            ) ==> exists|i: int|
                0 <= i < version_changes(orig, upd).len() && (#[trigger] version_changes(
                    orig,
                    upd,
                )[i]).name == upd[j].name && version_changes(orig, upd)[i].new_version
                    == upd[j].version,
{
    let n = upd.len() as int;
    lemma_version_changes_upto(orig, upd, n);
    let cs = version_changes(orig, upd);
    assert(cs == version_changes_upto(orig, upd, n));
    assert forall|j: int|
        0 <= j < upd.len() && first_named(orig, upd[j].name) is Some && !has_release(
            orig,
            upd[j].name,
            upd[j].version,
        ) implies exists|i: int|
        0 <= i < cs.len() && (#[trigger] cs[i]).name == upd[j].name && cs[i].new_version
            == upd[j].version by {
        let i = choose|i: int|
            0 <= i < version_changes_upto(orig, upd, n).len() && (#[trigger] version_changes_upto(
                orig,
                upd,
                n,
            )[i]).name == upd[j].name && version_changes_upto(orig, upd, n)[i].new_version
                == upd[j].version;
        assert(cs[i] == version_changes_upto(orig, upd, n)[i]);
    }
}

/// Comparing a graph with itself reports no new crate, and, told apart by
/// name and source, no change.
pub proof fn law_same_graph_no_source_changes(ps: Seq<PackageView>)
    ensures
        new_crate_names(ps, ps).len() == 0,
        source_version_changes(ps, ps).len() == 0,
{
    law_new_crates_exact(ps, ps);
    law_dependency_changes_exact(ps, ps);
    let ns = new_crate_names(ps, ps);
    if ns.len() > 0 {
        assert(ns.contains(ns[0]));
    }
    let cs = source_version_changes(ps, ps);
    if cs.len() > 0 {
        assert(key_changed(ps, ps, change_key(cs[0])));
    }
}

/// Comparing a graph with itself reports no changed crate, and the short
/// report says that all dependencies are up to date.
pub proof fn law_same_graph_up_to_date(ps: Seq<PackageView>)
    ensures
        version_changes(ps, ps).len() == 0,
        minimal_report(ps, ps) == seq!["All dependencies are up to date."@],
        updated_crates_report(ps, ps).len() == 0,
{
    law_same_graph_no_source_changes(ps);
    law_version_changes_exact(ps, ps);
    let cs = version_changes(ps, ps);
    if cs.len() > 0 {
        assert(change_is_sound(ps, ps, cs[0]));
    }
}

/// The short report and the verbose report of updated crates name the same
/// changed crates, in the same lines: where some crate changed, the lines
/// after the heading of the short report are the last lines of the verbose
/// one.
pub proof fn law_reports_agree_on_changes(orig: Seq<PackageView>, upd: Seq<PackageView>)
    ensures
        ({
            let cs = version_changes(orig, upd);
            let short = minimal_report(orig, upd);
            let long = updated_crates_report(orig, upd);
            cs.len() > 0 ==> {
                &&& short.len() == cs.len() + 1
                &&& long.len() >= cs.len() + 1
                &&& long.subrange(long.len() - cs.len(), long.len() as int) == short.subrange(
                    1,
                    short.len() as int,
                )
                &&& long[long.len() - cs.len() - 1] == "\nCrates updated:"@
            }
        }),
{
    let cs = version_changes(orig, upd);
    let short = minimal_report(orig, upd);
    let long = updated_crates_report(orig, upd);
    if cs.len() > 0 {
        let tail = seq!["\nCrates updated:"@] + change_lines(cs);
        let news = new_crate_names(orig, upd);
        let head: Seq<Seq<char>> = if news.len() > 0 {
            seq!["\nNew crates added after update:"@] + news.map_values(|n: Seq<char>| bullet_line(n))
        } else {
            seq![]
        };
        assert(long == head + tail);
        assert(long.subrange(long.len() - cs.len(), long.len() as int) =~= change_lines(cs));
        assert(short.subrange(1, short.len() as int) =~= change_lines(cs));
        assert(long[long.len() - cs.len() - 1] == tail[0]);
    }
}

/// The verbose report lists every new crate: where there are new crates it
/// begins with their heading and one line `- name` for each, in order,
/// then gives the heading of the updated crates and one line for each
/// change; the two parts are left out where empty.
pub proof fn law_updated_crates_report_parts(orig: Seq<PackageView>, upd: Seq<PackageView>)
    ensures
        ({
            let news = new_crate_names(orig, upd);
            let cs = version_changes(orig, upd);
            let r = updated_crates_report(orig, upd);
            let h = if news.len() > 0 {
                news.len() + 1
            } else {
                0
            };
            &&& r.len() == h + if cs.len() > 0 {
                cs.len() + 1
            } else {
                0
            }
            &&& news.len() > 0 ==> r[0] == "\nNew crates added after update:"@
            &&& forall|i: int| 0 <= i < news.len() ==> r[i + 1] == "- "@ + #[trigger] news[i]
            &&& cs.len() > 0 ==> r[h as int] == "\nCrates updated:"@
            &&& forall|i: int|
                0 <= i < cs.len() ==> r[h + 1 + i] == "- "@ + (#[trigger] cs[i]).name + " ("@
                    + cs[i].old_version + " → "@ + cs[i].new_version + ")"@
            &&& forall|j: int|
                0 <= j < upd.len() && (forall|m: int|
                    0 <= m < orig.len() ==> orig[m].name != (#[trigger] upd[j]).name) ==> exists|
                    i: int,
                | 1 <= i <= news.len() && r[i] == "- "@ + upd[j].name
        }),
{
    law_new_crates_exact(orig, upd);
    let news = new_crate_names(orig, upd);
    let r = updated_crates_report(orig, upd);
    assert forall|j: int|
        0 <= j < upd.len() && (forall|m: int|
            0 <= m < orig.len() ==> orig[m].name != (#[trigger] upd[j]).name) implies exists|i: int|
        1 <= i <= news.len() && r[i] == "- "@ + upd[j].name by {
        let n = upd[j].name;
        assert(news.contains(n));
        let i = choose|i: int| 0 <= i < news.len() && news[i] == n;
        assert(r[i + 1] == "- "@ + news[i]);
    }
}

/// Whether a change is of a crate whose repository is on GitHub.
pub open spec fn on_github(c: VersionChangeView) -> bool {
    c.repository matches Some(r) && contains_seq(r, "github.com"@)
}

/// There is one compare link for each change of a crate on GitHub, in
/// order, whatever the other changes are.
pub proof fn law_compare_links_one_per_github_change(cs: Seq<VersionChangeView>)
    ensures
        compare_link_lines(cs) == cs.filter(|c: VersionChangeView| on_github(c)).map_values(
            |c: VersionChangeView|
                "- "@ + c.name + ": "@ + trim_end_matches_seq(c.repository->0, ".git"@)
                    + "/compare/v"@ + c.old_version + "...v"@ + c.new_version,
        ),
    decreases cs.len(),
{
    reveal(Seq::filter);
    if cs.len() > 0 {
        law_compare_links_one_per_github_change(cs.drop_last());
    } else {
        assert(cs.filter(|c: VersionChangeView| on_github(c)) == cs);
    }
}

/// The short report has one line per change under its heading, or the one
/// line that all dependencies are up to date.
pub proof fn law_minimal_report_lines(orig: Seq<PackageView>, upd: Seq<PackageView>)
    ensures
        ({
            let cs = version_changes(orig, upd);
            let r = minimal_report(orig, upd);
            &&& cs.len() == 0 ==> r == seq!["All dependencies are up to date."@]
            &&& cs.len() > 0 ==> r.len() == cs.len() + 1 && r[0] == "Updated dependencies:"@
                && forall|i: int|
                0 <= i < cs.len() ==> r[i + 1] == "- "@ + (#[trigger] cs[i]).name + " ("@
                    + cs[i].old_version + " → "@ + cs[i].new_version + ")"@
        }),
{
}

/// The list of repositories has one line per updated package, in order,
/// naming its repository or saying it has none.
pub proof fn law_repositories_one_line_per_package(upd: Seq<PackageView>)
    ensures
        ({
            let r = crate_repositories_report(upd);
            &&& r.len() == upd.len() + 1
            &&& r[0] == "\nCrate repositories (after update):"@
            &&& forall|i: int|
                0 <= i < upd.len() ==> r[i + 1] == match (#[trigger] upd[i]).repository {
                    Some(repo) => "- "@ + upd[i].name + ": "@ + repo,
                    None => "- "@ + upd[i].name + ": <no repository specified>"@,
                }
        }),
{
}

/// The report of changes by name and source has one line per changed key,
/// under its heading.
pub proof fn law_dependency_changes_lines(orig: Seq<PackageView>, upd: Seq<PackageView>)
    ensures
        ({
            let cs = source_version_changes(orig, upd);
            let r = dependency_changes_report(orig, upd);
            &&& r.len() == cs.len() + 1
            &&& r[0] == "\nDependency changes (old → new):"@
            &&& forall|i: int|
                0 <= i < cs.len() ==> r[i + 1] == "- "@ + (#[trigger] cs[i]).name + " ("@
                    + cs[i].old_version + " → "@ + cs[i].new_version + ")"@
        }),
{
}

} // verus!
