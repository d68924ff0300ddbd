//! Where the changelog of an updated crate is looked for, which lines of it
//! are shown, and the decisions taken between the network requests that
//! look for it.
use vstd::prelude::*;
use vstd::slice::slice_subrange;
use crate::package::{
    find_by_name, first_named, opt_view, package_views, string_views, Package, PackageView,
};
use crate::report::{
    change_views, updated_crate_changes, version_changes, VersionChange, VersionChangeView,
};
use crate::text::{
    chars_of, contains, contains_seq, copy_range, find, first_occurrence,
    lemma_first_occurrence_from, lines, lines_seq, occurs_at, replace, replace_seq, starts_with,
    starts_with_seq, string_of, trim_end_matches, trim_end_matches_seq, trim_start,
    trim_start_seq, views,
};
use crate::release_notes::{github_owner_repo, tag_page_notes};
use crate::bindings::{
    compile_pattern, escape_pattern, pattern_is_match, regex_compiles, regex_escaped,
    regex_is_match,
};

verus! {

// ---------------------------------------------------------------------------
// Repository URLs
// ---------------------------------------------------------------------------

/// The repository URL with trailing `.git` and `/` removed and cut before a
/// `/tree/` part, or else before a `/blob/` part.
pub open spec fn normalized_repo_url(repo: Seq<char>) -> Seq<char> {
    let t = trim_end_matches_seq(trim_end_matches_seq(repo, ".git"@), "/"@);
    match first_occurrence(t, "/tree/"@) {
        Some(i) => t.take(i),
        None => match first_occurrence(t, "/blob/"@) {
            Some(i) => t.take(i),
            None => t,
        },
    }
}

/// The repository URL without trailing `.git` and `/`, and without a
/// `/tree/...` or `/blob/...` part.
pub fn normalize_repo_url(repo: &str) -> (res: Vec<char>)
    ensures
        res@ == normalized_repo_url(repo@),
{
    let r = chars_of(repo);
    let git = chars_of(".git");
    let slash = chars_of("/");
    let t1 = trim_end_matches(&r, &git);
    let t = trim_end_matches(&t1, &slash);
    let tree = chars_of("/tree/");
    match find(&t, &tree) {
        Some(i) => copy_range(&t, 0, i),
        None => {
            let blob = chars_of("/blob/");
            match find(&t, &blob) {
                Some(i) => copy_range(&t, 0, i),
                None => t,
            }
        },
    }
}

/// Where the raw `CHANGELOG.md` of a branch is served.
pub open spec fn raw_changelog_url(repo_url: Seq<char>, branch: Seq<char>) -> Seq<char> {
    replace_seq(repo_url, "https://github.com/"@, "https://raw.githubusercontent.com/"@) + "/"@
        + branch + "/CHANGELOG.md"@
}

/// Where the `CHANGELOG.md` of a branch is shown on GitHub.
pub open spec fn changelog_blob_url(repo_url: Seq<char>, branch: Seq<char>) -> Seq<char> {
    repo_url + "/blob/"@ + branch + "/CHANGELOG.md"@
}

/// The URL of the raw `CHANGELOG.md` of `branch`.
pub fn raw_changelog_url_of(repo_url: &[char], branch: &str) -> (res: String)
    ensures
        res@ == raw_changelog_url(repo_url@, branch@),
{
    let from = chars_of("https://github.com/");
    let to = chars_of("https://raw.githubusercontent.com/");
    proof {
        reveal_strlit("https://github.com/");
    }
    let replaced = replace(repo_url, &from, &to);
    let mut s = string_of(&replaced);
    s.append("/");
    s.append(branch);
    s.append("/CHANGELOG.md");
    s
}

/// The URL of the `CHANGELOG.md` of `branch` on GitHub.
pub fn changelog_blob_url_of(repo_url: &[char], branch: &str) -> (res: String)
    ensures
        res@ == changelog_blob_url(repo_url@, branch@),
{
    let mut s = string_of(repo_url);
    s.append("/blob/");
    s.append(branch);
    s.append("/CHANGELOG.md");
    s
}

// ---------------------------------------------------------------------------
// Trying candidates in order
// ---------------------------------------------------------------------------

/// What to do next when candidates are tried in order until one succeeds.
pub enum ProbeStep {
    /// Try the candidate at this position.
    Fetch(usize),
    /// The candidate at this position succeeded.
    Found(usize),
    /// Every candidate failed.
    Exhausted,
}

/// The next step, given how many candidates there are and how the ones
/// tried so far turned out: the first success is taken, otherwise the next
/// untried candidate, otherwise nothing is left.
pub fn next_probe_step(candidates: usize, outcomes: &[bool]) -> (res: ProbeStep)
    ensures
        match res {
            ProbeStep::Found(i) => i < outcomes@.len() && outcomes@[i as int] && forall|j: int|
                0 <= j < i ==> !outcomes@[j],
            ProbeStep::Fetch(i) => i == outcomes@.len() && i < candidates && forall|j: int|
                0 <= j < outcomes@.len() ==> !outcomes@[j],
            ProbeStep::Exhausted => outcomes@.len() >= candidates && forall|j: int|
                0 <= j < outcomes@.len() ==> !outcomes@[j],
        },
{
    let mut i: usize = 0;
    while i < outcomes.len()
        invariant
            i <= outcomes.len(),
            forall|j: int| 0 <= j < i ==> !outcomes@[j],
        decreases outcomes.len() - i,
    {
        if outcomes[i] {
            return ProbeStep::Found(i);
        }
        i = i + 1;
    }
    if outcomes.len() < candidates {
        ProbeStep::Fetch(outcomes.len())
    } else {
        ProbeStep::Exhausted
    }
}

// ---------------------------------------------------------------------------
// Changelog links
// ---------------------------------------------------------------------------

/// The changelog of a crate on GitHub, to be looked for on the branches
/// `main` and then `master`: the raw URLs to request, and the links to show.
pub struct ChangelogLinkProbe {
    pub name: String,
    pub raw_urls: Vec<String>,
    pub blob_urls: Vec<String>,
}

/// One entry of the list of changelog links: a line, or a changelog to look
/// for first.
pub enum ChangelogLinkItem {
    Line(String),
    Probe(ChangelogLinkProbe),
}

/// The mathematical value of a `ChangelogLinkItem`.
pub enum ChangelogLinkItemView {
    Line(Seq<char>),
    Probe { name: Seq<char>, raw_urls: Seq<Seq<char>>, blob_urls: Seq<Seq<char>> },
}

impl View for ChangelogLinkItem {
    type V = ChangelogLinkItemView;

    open spec fn view(&self) -> ChangelogLinkItemView {
        match self {
            ChangelogLinkItem::Line(l) => ChangelogLinkItemView::Line(l@),
            ChangelogLinkItem::Probe(p) => ChangelogLinkItemView::Probe {
                name: p.name@,
                raw_urls: string_views(p.raw_urls@),
                blob_urls: string_views(p.blob_urls@),
            },
        }
    }
}

/// The branches on which a changelog link is looked for, in order.
pub open spec fn link_branches() -> Seq<Seq<char>> {
    seq!["main"@, "master"@]
}

/// What the list of changelog links holds for one changed crate.
pub open spec fn changelog_link_item(c: VersionChangeView) -> ChangelogLinkItemView {
    match c.repository {
        None => ChangelogLinkItemView::Line("- "@ + c.name + ": <no repository specified>"@),
        Some(r) => if contains_seq(r, "github.com"@) {
            let u = normalized_repo_url(r);
            ChangelogLinkItemView::Probe {
                name: c.name,
                raw_urls: link_branches().map_values(|b: Seq<char>| raw_changelog_url(u, b)),
                blob_urls: link_branches().map_values(|b: Seq<char>| changelog_blob_url(u, b)),
            }
        } else {
            ChangelogLinkItemView::Line("- "@ + c.name + ": <no GitHub repository>"@)
        },
    }
}

/// The views of a sequence of changelog link items.
pub open spec fn link_item_views(s: Seq<ChangelogLinkItem>) -> Seq<ChangelogLinkItemView> {
    s.map_values(|x: ChangelogLinkItem| x@)
}

/// What the verbose list of changelog links holds.
pub open spec fn changelog_links_report(orig: Seq<PackageView>, upd: Seq<PackageView>) -> Seq<
    ChangelogLinkItemView,
> {
    seq![ChangelogLinkItemView::Line("\nGuessed changelog links for updated crates:"@)]
        + version_changes(orig, upd).map_values(|c: VersionChangeView| changelog_link_item(c))
}

/// The item of the changelog list for one changed crate.
fn link_item_of(c: &VersionChange) -> (res: ChangelogLinkItem)
    ensures
        res@ == changelog_link_item(c@),
{
    match &c.repository {
        None => {
            let mut l = String::from_str("- ");
            l.append(c.name.as_str());
            l.append(": <no repository specified>");
            ChangelogLinkItem::Line(l)
        },
        Some(r) => {
            let rc = chars_of(r.as_str());
            let github = chars_of("github.com");
            if contains(&rc, &github) {
                let u = normalize_repo_url(r.as_str());
                let mut raw_urls: Vec<String> = Vec::new();
                raw_urls.push(raw_changelog_url_of(&u, "main"));
                raw_urls.push(raw_changelog_url_of(&u, "master"));
                let mut blob_urls: Vec<String> = Vec::new();
                blob_urls.push(changelog_blob_url_of(&u, "main"));
                blob_urls.push(changelog_blob_url_of(&u, "master"));
                let res = ChangelogLinkItem::Probe(
                    ChangelogLinkProbe { name: c.name.clone(), raw_urls, blob_urls },
                );
                assert(string_views(raw_urls@) =~= link_branches().map_values(
                    |b: Seq<char>| raw_changelog_url(u@, b),
                ));
                assert(string_views(blob_urls@) =~= link_branches().map_values(
                    |b: Seq<char>| changelog_blob_url(u@, b),
                ));
                res
            } else {
                let mut l = String::from_str("- ");
                l.append(c.name.as_str());
                l.append(": <no GitHub repository>");
                ChangelogLinkItem::Line(l)
            }
        },
    }
}

/// The list of changelog links for the changed crates: a line for each
/// crate without a GitHub repository, and a changelog to look for on each
/// other one; nothing unless `verbose`.
pub fn print_changelog_links(original: &[Package], updated: &[Package], verbose: bool) -> (res: Vec<
    ChangelogLinkItem,
>)
    ensures
        link_item_views(res@) == if verbose {
            changelog_links_report(package_views(original@), package_views(updated@))
        } else {
            seq![]
        },
{
    let mut out: Vec<ChangelogLinkItem> = Vec::new();
    if !verbose {
        assert(link_item_views(out@) == Seq::<ChangelogLinkItemView>::empty());
        return out;
    }
    out.push(ChangelogLinkItem::Line(String::from_str("\nGuessed changelog links for updated crates:")));
    let changes = updated_crate_changes(original, updated);
    let ghost cv = change_views(changes@);
    let mut i: usize = 0;
    while i < changes.len()
        invariant
            i <= changes.len(),
            cv == change_views(changes@),
            link_item_views(out@) == seq![
                ChangelogLinkItemView::Line("\nGuessed changelog links for updated crates:"@),
            ] + cv.take(i as int).map_values(|c: VersionChangeView| changelog_link_item(c)),
        decreases changes.len() - i,
    {
        let item = link_item_of(&changes[i]);
        let ghost prev = out@;
        out.push(item);
        assert(cv.take(i + 1).map_values(|c: VersionChangeView| changelog_link_item(c)) == cv.take(
            i as int,
        ).map_values(|c: VersionChangeView| changelog_link_item(c)).push(item@));
        assert(link_item_views(out@) == link_item_views(prev).push(item@));
        i = i + 1;
    }
    assert(cv.take(changes.len() as int) == cv);
    out
}

/// The line shown for a changelog that was looked for: the link of the
/// first branch where it was found, or that it was found on neither.
pub open spec fn changelog_link_line(name: Seq<char>, blob_urls: Seq<Seq<char>>, found: Option<int>) -> Seq<
    char,
> {
    match found {
        Some(i) => "- "@ + name + ": "@ + blob_urls[i],
        None => "- "@ + name + ": <could not find CHANGELOG.md on main or master>"@,
    }
}

/// The line for a changelog that was looked for, given the position of the
/// first branch whose raw URL answered with success, if any.
pub fn changelog_link_outcome(probe: &ChangelogLinkProbe, found: Option<usize>) -> (res: String)
    requires
        found matches Some(i) ==> i < probe.blob_urls@.len(),
    ensures
        res@ == changelog_link_line(
            probe.name@,
            string_views(probe.blob_urls@),
            match found {
                Some(i) => Some(i as int),
                None => None,
            },
        ),
{
    let mut l = String::from_str("- ");
    l.append(probe.name.as_str());
    match found {
        Some(i) => {
            l.append(": ");
            l.append(probe.blob_urls[i].as_str());
        },
        None => {
            l.append(": <could not find CHANGELOG.md on main or master>");
        },
    }
    l
}

// ---------------------------------------------------------------------------
// Changelog entries
// ---------------------------------------------------------------------------

/// The position of the first line at or after `k` that contains `v`.
pub open spec fn first_containing_from(ls: Seq<Seq<char>>, v: Seq<char>, k: int) -> Option<int>
    decreases ls.len() - k,
{
    if k < 0 || k >= ls.len() {
        None
    } else if contains_seq(ls[k], v) {
        Some(k)
    } else {
        first_containing_from(ls, v, k + 1)
    }
}

/// A line that ends the entry of version `v`: a heading (`#...`) that does
/// not mention `v`.
pub open spec fn is_entry_break(l: Seq<char>, v: Seq<char>) -> bool {
    !contains_seq(l, v) && starts_with_seq(l, "#"@)
}

/// The position of the first line at or after `k` that ends the entry.
pub open spec fn first_break_from(ls: Seq<Seq<char>>, v: Seq<char>, k: int) -> Option<int>
    decreases ls.len() - k,
{
    if k < 0 || k >= ls.len() {
        None
    } else if is_entry_break(ls[k], v) {
        Some(k)
    } else {
        first_break_from(ls, v, k + 1)
    }
}

/// The most lines of a changelog that an entry shows.
pub open spec fn entry_line_limit() -> int {
    10
}

/// The lines of a changelog shown for version `v`: from the first line that
/// mentions `v` up to the next heading that does not mention it, at most ten
/// lines; or, where no line mentions `v`, the first ten lines.
pub open spec fn changelog_excerpt(ls: Seq<Seq<char>>, v: Seq<char>) -> Seq<Seq<char>> {
    match first_containing_from(ls, v, 0) {
        None => if ls.len() <= entry_line_limit() {
            ls
        } else {
            ls.take(entry_line_limit())
        },
        Some(k) => {
            let end = match first_break_from(ls, v, k + 1) {
                Some(j) => j,
                None => ls.len() as int,
            };
            ls.subrange(k, if end < k + entry_line_limit() { end } else { k + entry_line_limit() })
        },
    }
}

/// The first line at or after `from` that contains `v`.
fn find_line_containing(ls: &[Vec<char>], v: &[char], from: usize) -> (res: Option<usize>)
    ensures
        match res {
            Some(k) => from <= k < ls@.len() && first_containing_from(views(ls@), v@, from as int) == Some(
                k as int,
            ),
            None => first_containing_from(views(ls@), v@, from as int) is None,
        },
{
    let ghost lv = views(ls@);
    let mut i = from;
    while i < ls.len()
        invariant
            from <= i,
            lv == views(ls@),
            first_containing_from(lv, v@, from as int) == first_containing_from(lv, v@, i as int),
        decreases ls.len() - i,
    {
        assert(lv[i as int] == ls@[i as int]@);
        if contains(&ls[i], v) {
            return Some(i);
        }
        i = i + 1;
    }
    None
}

/// The first line at or after `from` that ends the entry of `v`.
fn find_entry_break(ls: &[Vec<char>], v: &[char], from: usize) -> (res: Option<usize>)
    ensures
        match res {
            Some(k) => from <= k < ls@.len() && first_break_from(views(ls@), v@, from as int) == Some(
                k as int,
            ),
            None => first_break_from(views(ls@), v@, from as int) is None,
        },
{
    let ghost lv = views(ls@);
    let hash = chars_of("#");
    let mut i = from;
    while i < ls.len()
        invariant
            from <= i,
            lv == views(ls@),
            hash@ == "#"@,
            first_break_from(lv, v@, from as int) == first_break_from(lv, v@, i as int),
        decreases ls.len() - i,
    {
        assert(lv[i as int] == ls@[i as int]@);
        if !contains(&ls[i], v) && starts_with(&ls[i], &hash) {
            return Some(i);
        }
        i = i + 1;
    }
    None
}

/// The lines of the changelog `ls` that are shown for version `v`.
pub fn changelog_excerpt_of(ls: &[Vec<char>], v: &[char]) -> (res: Vec<Vec<char>>)
    ensures
        views(res@) == changelog_excerpt(views(ls@), v@),
{
    let ghost lv = views(ls@);
    let (from, to) = match find_line_containing(ls, v, 0) {
        None => (0, if ls.len() <= 10 { ls.len() } else { 10 }),
        Some(k) => {
            assert(k < ls.len());
            let end = match find_entry_break(ls, v, k + 1) {
                Some(j) => j,
                None => ls.len(),
            };
            (k, if end - k < 10 { end } else { k + 10 })
        },
    };
    let mut out: Vec<Vec<char>> = Vec::new();
    let mut i = from;
    while i < to
        invariant
            from <= i <= to <= ls@.len(),
            lv == views(ls@),
            views(out@) == lv.subrange(from as int, i as int),
        decreases to - i,
    {
        let l = ls[i].clone();
        let ghost prev = out@;
        out.push(l);
        assert(views(out@) == views(prev).push(l@));
        assert(lv.subrange(from as int, i + 1) == lv.subrange(from as int, i as int).push(
            lv[i as int],
        ));
        i = i + 1;
    }
    assert(lv.take(lv.len() as int) == lv);
    out
}

/// A line of a changelog as it is shown: indented by four spaces.
pub open spec fn indented(l: Seq<char>) -> Seq<char> {
    "    "@ + l
}

/// Appends the lines `ls`, each indented, to `out`.
fn push_indented(out: &mut Vec<String>, ls: &[Vec<char>])
    ensures
        string_views(final(out)@) == string_views(old(out)@) + views(ls@).map_values(
            |l: Seq<char>| indented(l),
        ),
{
    let mut i: usize = 0;
    while i < ls.len()
        invariant
            i <= ls.len(),
            string_views(out@) == string_views(old(out)@) + views(ls@).take(i as int).map_values(
                |l: Seq<char>| indented(l),
            ),
        decreases ls.len() - i,
    {
        let mut line = String::from_str("    ");
        let body = string_of(&ls[i]);
        line.append(body.as_str());
        let ghost prev = out@;
        out.push(line);
        assert(views(ls@).take(i + 1).map_values(|l: Seq<char>| indented(l)) == views(ls@).take(
            i as int,
        ).map_values(|l: Seq<char>| indented(l)).push(line@));
        assert(string_views(out@) == string_views(prev).push(line@));
        i = i + 1;
    }
    assert(views(ls@).take(ls.len() as int) == views(ls@));
}

/// What is shown of a changelog found for crate `name` at version `v`.
pub open spec fn changelog_entry_report(name: Seq<char>, text: Seq<char>, v: Seq<char>) -> Seq<
    Seq<char>,
> {
    seq!["- "@ + name + ":"@] + changelog_excerpt(lines_seq(text), v).map_values(
        |l: Seq<char>| indented(l),
    )
}

/// The lines shown for the changelog `text` of crate `name`, whose updated
/// version is `version`.
pub fn changelog_entry_lines(name: &str, text: &str, version: &str) -> (res: Vec<String>)
    ensures
        string_views(res@) == changelog_entry_report(name@, text@, version@),
{
    let mut out: Vec<String> = Vec::new();
    let mut head = String::from_str("- ");
    head.append(name);
    head.append(":");
    out.push(head);
    let tc = chars_of(text);
    let ls = lines(&tc);
    let vc = chars_of(version);
    let ex = changelog_excerpt_of(&ls, &vc);
    push_indented(&mut out, &ex);
    out
}

// ---------------------------------------------------------------------------
// The changelog section of one version
// ---------------------------------------------------------------------------

/// The pattern of the heading of the section of version `v`:
/// `^#+\s*\[?v?<v, escaped>\]?\s*$`.
pub open spec fn section_heading_pattern(v: Seq<char>) -> Seq<char> {
    "^#+\\s*\\[?v?"@ + regex_escaped(v) + "\\]?\\s*$"@
}

/// The pattern of a heading that starts the section of some version.
pub open spec fn version_heading_pattern() -> Seq<char> {
    "^#+\\s*\\[?v?[0-9]+\\."@
}

/// The position of the first `true` at or after `k`.
pub open spec fn first_true_from(fs: Seq<bool>, k: int) -> Option<int>
    decreases fs.len() - k,
{
    if k < 0 || k >= fs.len() {
        None
    } else if fs[k] {
        Some(k)
    } else {
        first_true_from(fs, k + 1)
    }
}

/// The most lines of a changelog section that are shown.
pub open spec fn section_line_limit() -> int {
    100
}

/// The lines `[start, end)` of the section shown, given for each line
/// whether it is the heading looked for and whether it starts the section
/// of another version: from the first heading on, stopping before a line
/// whose successor starts a section (the line right after the heading is
/// never such a stop), at most a hundred lines.
pub open spec fn section_bounds(heading: Seq<bool>, next_header: Seq<bool>) -> Option<(int, int)> {
    match first_true_from(heading, 0) {
        None => None,
        Some(k) => {
            let n = heading.len() as int;
            let stop = match first_true_from(next_header, k + 2) {
                Some(j) => j - 1,
                None => n,
            };
            Some((k, if stop < k + section_line_limit() { stop } else { k + section_line_limit() }))
        },
    }
}

/// The first `true` at or after `from`.
fn find_true(fs: &[bool], from: usize) -> (res: Option<usize>)
    ensures
        match res {
            Some(k) => from <= k < fs@.len() && first_true_from(fs@, from as int) == Some(k as int),
            None => first_true_from(fs@, from as int) is None,
        },
{
    let mut i = from;
    while i < fs.len()
        invariant
            from <= i,
            first_true_from(fs@, from as int) == first_true_from(fs@, i as int),
        decreases fs.len() - i,
    {
        if fs[i] {
            return Some(i);
        }
        i = i + 1;
    }
    None
}

/// The lines of the section shown, from the two flags of every line.
pub fn changelog_section_bounds(heading: &[bool], next_header: &[bool]) -> (res: Option<(usize, usize)>)
    requires
        heading@.len() == next_header@.len(),
    ensures
        match res {
            Some((k, e)) => k < e <= heading@.len() && section_bounds(heading@, next_header@) == Some(
                (k as int, e as int),
            ),
            None => section_bounds(heading@, next_header@) is None,
        },
{
    match find_true(heading, 0) {
        None => None,
        Some(k) => {
            let n = heading.len();
            let stop = if n - k >= 2 {
                match find_true(next_header, k + 2) {
                    Some(j) => j - 1,
                    None => n,
                }
            } else {
                assert(first_true_from(next_header@, k + 2) is None);
                n
            };
            proof {
                lemma_first_true_from(next_header@, k + 2);
            }
            Some((k, if stop - k < 100 { stop } else { k + 100 }))
        },
    }
}

/// Whether a line starts the section of some version: after its leading
/// white space it begins with `#` and matches the version heading pattern.
pub open spec fn starts_version_section(l: Seq<char>) -> bool {
    starts_with_seq(trim_start_seq(l), "#"@) && regex_is_match(
        version_heading_pattern(),
        trim_start_seq(l),
    )
}

/// What is shown of the changelog `text` for crate `name` at version `v`:
/// the section of that version, each line indented, or that it was not
/// found.
pub open spec fn changelog_diff_report(name: Seq<char>, text: Seq<char>, v: Seq<char>) -> Seq<
    Seq<char>,
> {
    let ls = lines_seq(text);
    let heading = ls.map_values(|l: Seq<char>| regex_is_match(section_heading_pattern(v), l));
    let next = ls.map_values(|l: Seq<char>| starts_version_section(l));
    seq!["Changelog diff for "@ + name + ":"@] + match section_bounds(heading, next) {
        Some((k, e)) => ls.subrange(k, e).map_values(|l: Seq<char>| indented(l)),
        None => seq!["    (Could not find changelog section for version "@ + v + ")"@],
    }
}

/// The lines shown for the changelog `text` of crate `name` at version
/// `version`: its section for that version, found by the heading patterns.
/// `None` where one of the two patterns does not compile.
pub fn changelog_diff_lines(name: &str, text: &str, version: &str) -> (res: Option<Vec<String>>)
    ensures
        match res {
            Some(out) => string_views(out@) == changelog_diff_report(name@, text@, version@),
            None => !regex_compiles(section_heading_pattern(version@)) || !regex_compiles(
                version_heading_pattern(),
            ),
        },
{
    let escaped = escape_pattern(version);
    let mut hp = String::from_str("^#+\\s*\\[?v?");
    hp.append(escaped.as_str());
    hp.append("\\]?\\s*$");
    let heading_re = match compile_pattern(hp.as_str()) {
        Some(c) => c,
        None => return None,
    };
    let next_re = match compile_pattern("^#+\\s*\\[?v?[0-9]+\\.") {
        Some(c) => c,
        None => return None,
    };
    let tc = chars_of(text);
    let ls = lines(&tc);
    let ghost lv = views(ls@);
    let ghost hv = lv.map_values(|l: Seq<char>| regex_is_match(section_heading_pattern(version@), l));
    let ghost nv = lv.map_values(|l: Seq<char>| starts_version_section(l));
    let hash = chars_of("#");
    let mut heading: Vec<bool> = Vec::new();
    let mut next: Vec<bool> = Vec::new();
    let mut i: usize = 0;
    while i < ls.len()
        invariant
            i <= ls.len(),
            lv == views(ls@),
            hash@ == "#"@,
            heading_re.pattern() == section_heading_pattern(version@),
            next_re.pattern() == version_heading_pattern(),
            hv == lv.map_values(|l: Seq<char>| regex_is_match(section_heading_pattern(version@), l)),
            nv == lv.map_values(|l: Seq<char>| starts_version_section(l)),
            heading@ == hv.take(i as int),
            next@ == nv.take(i as int),
        decreases ls.len() - i,
    {
        let line = string_of(&ls[i]);
        let h = pattern_is_match(&heading_re, line.as_str());
        let trimmed = trim_start(&ls[i]);
        let nh = if starts_with(&trimmed, &hash) {
            let ts = string_of(&trimmed);
            pattern_is_match(&next_re, ts.as_str())
        } else {
            false
        };
        assert(lv[i as int] == ls@[i as int]@);
        heading.push(h);
        next.push(nh);
        assert(heading@ == hv.take(i + 1));
        assert(next@ == nv.take(i + 1));
        i = i + 1;
    }
    assert(hv.take(ls.len() as int) == hv);
    assert(nv.take(ls.len() as int) == nv);
    let mut out: Vec<String> = Vec::new();
    let mut head = String::from_str("Changelog diff for ");
    head.append(name);
    head.append(":");
    out.push(head);
    match changelog_section_bounds(&heading, &next) {
        Some((k, e)) => {
            let section = slice_subrange(ls.as_slice(), k, e);
            assert(views(section@) == lv.subrange(k as int, e as int));
            push_indented(&mut out, section);
        },
        None => {
            let mut l = String::from_str("    (Could not find changelog section for version ");
            l.append(version);
            l.append(")");
            out.push(l);
        },
    }
    Some(out)
}

// ---------------------------------------------------------------------------
// Fetching changelogs
// ---------------------------------------------------------------------------

/// A changelog to fetch: the raw URLs to try in order, and what is needed
/// to show it and to fall back to the release notes.
pub struct ChangelogFetch {
    pub name: String,
    pub version: String,
    pub repo_url: String,
    pub raw_urls: Vec<String>,
}

/// The mathematical value of a `ChangelogFetch`.
pub struct ChangelogFetchView {
    pub name: Seq<char>,
    pub version: Seq<char>,
    pub repo_url: Seq<char>,
    pub raw_urls: Seq<Seq<char>>,
}

impl View for ChangelogFetch {
    type V = ChangelogFetchView;

    open spec fn view(&self) -> ChangelogFetchView {
        ChangelogFetchView {
            name: self.name@,
            version: self.version@,
            repo_url: self.repo_url@,
            raw_urls: string_views(self.raw_urls@),
        }
    }
}

/// The branches on which a changelog is fetched, in order.
pub open spec fn fetch_branches() -> Seq<Seq<char>> {
    seq!["master"@, "main"@]
}

/// The fetch of the changelog of crate `name` at `version` from `repo`.
pub open spec fn changelog_fetch(name: Seq<char>, version: Seq<char>, repo: Seq<char>) -> ChangelogFetchView {
    let u = normalized_repo_url(repo);
    ChangelogFetchView {
        name,
        version,
        repo_url: u,
        raw_urls: fetch_branches().map_values(|b: Seq<char>| raw_changelog_url(u, b)),
    }
}

/// The fetch of the changelog of a crate on GitHub.
fn changelog_fetch_of(name: &String, version: &String, repo: &str) -> (res: ChangelogFetch)
    ensures
        res@ == changelog_fetch(name@, version@, repo@),
{
    let u = normalize_repo_url(repo);
    let mut raw_urls: Vec<String> = Vec::new();
    raw_urls.push(raw_changelog_url_of(&u, "master"));
    raw_urls.push(raw_changelog_url_of(&u, "main"));
    assert(string_views(raw_urls@) =~= fetch_branches().map_values(
        |b: Seq<char>| raw_changelog_url(u@, b),
    ));
    ChangelogFetch {
        name: name.clone(),
        version: version.clone(),
        repo_url: string_of(&u),
        raw_urls,
    }
}

/// One entry of the list of changelog entries: a line, or a changelog to
/// fetch first.
pub enum ChangelogEntryItem {
    Line(String),
    Fetch(ChangelogFetch),
}

/// The mathematical value of a `ChangelogEntryItem`.
pub enum ChangelogEntryItemView {
    Line(Seq<char>),
    Fetch(ChangelogFetchView),
}

impl View for ChangelogEntryItem {
    type V = ChangelogEntryItemView;

    open spec fn view(&self) -> ChangelogEntryItemView {
        match self {
            ChangelogEntryItem::Line(l) => ChangelogEntryItemView::Line(l@),
            ChangelogEntryItem::Fetch(f) => ChangelogEntryItemView::Fetch(f@),
        }
    }
}

/// The views of a sequence of changelog entry items.
pub open spec fn entry_item_views(s: Seq<ChangelogEntryItem>) -> Seq<ChangelogEntryItemView> {
    s.map_values(|x: ChangelogEntryItem| x@)
}

/// What the list of changelog entries holds for one changed crate.
pub open spec fn changelog_entry_item(c: VersionChangeView) -> ChangelogEntryItemView {
    match c.repository {
        None => ChangelogEntryItemView::Line("- "@ + c.name + ": <no repository specified>"@),
        Some(r) => if contains_seq(r, "github.com"@) {
            ChangelogEntryItemView::Fetch(changelog_fetch(c.name, c.new_version, r))
        } else {
            ChangelogEntryItemView::Line("- "@ + c.name + ": <no GitHub repository>"@)
        },
    }
}

/// What the verbose list of changelog entries holds.
pub open spec fn changelog_entries_report(orig: Seq<PackageView>, upd: Seq<PackageView>) -> Seq<
    ChangelogEntryItemView,
> {
    seq![ChangelogEntryItemView::Line("\nExtracted changelog entries for updated crates:"@)]
        + version_changes(orig, upd).map_values(|c: VersionChangeView| changelog_entry_item(c))
}

/// The item of the list of changelog entries for one changed crate.
fn entry_item_of(c: &VersionChange) -> (res: ChangelogEntryItem)
    ensures
        res@ == changelog_entry_item(c@),
{
    match &c.repository {
        None => {
            let mut l = String::from_str("- ");
            l.append(c.name.as_str());
            l.append(": <no repository specified>");
            ChangelogEntryItem::Line(l)
        },
        Some(r) => {
            let rc = chars_of(r.as_str());
            let github = chars_of("github.com");
            if contains(&rc, &github) {
                ChangelogEntryItem::Fetch(changelog_fetch_of(&c.name, &c.new_version, r.as_str()))
            } else {
                let mut l = String::from_str("- ");
                l.append(c.name.as_str());
                l.append(": <no GitHub repository>");
                ChangelogEntryItem::Line(l)
            }
        },
    }
}

/// The list of changelog entries for the changed crates: a line for each
/// crate without a GitHub repository, and a changelog to fetch for each
/// other one; nothing unless `verbose`.
pub fn print_changelog_entries(original: &[Package], updated: &[Package], verbose: bool) -> (res:
    Vec<ChangelogEntryItem>)
    ensures
        entry_item_views(res@) == if verbose {
            changelog_entries_report(package_views(original@), package_views(updated@))
        } else {
            seq![]
        },
{
    let mut out: Vec<ChangelogEntryItem> = Vec::new();
    if !verbose {
        assert(entry_item_views(out@) == Seq::<ChangelogEntryItemView>::empty());
        return out;
    }
    out.push(
        ChangelogEntryItem::Line(String::from_str("\nExtracted changelog entries for updated crates:")),
    );
    let changes = updated_crate_changes(original, updated);
    let ghost cv = change_views(changes@);
    let mut i: usize = 0;
    while i < changes.len()
        invariant
            i <= changes.len(),
            cv == change_views(changes@),
            entry_item_views(out@) == seq![
                ChangelogEntryItemView::Line("\nExtracted changelog entries for updated crates:"@),
            ] + cv.take(i as int).map_values(|c: VersionChangeView| changelog_entry_item(c)),
        decreases changes.len() - i,
    {
        let item = entry_item_of(&changes[i]);
        let ghost prev = out@;
        out.push(item);
        assert(cv.take(i + 1).map_values(|c: VersionChangeView| changelog_entry_item(c)) == cv.take(
            i as int,
        ).map_values(|c: VersionChangeView| changelog_entry_item(c)).push(item@));
        assert(entry_item_views(out@) == entry_item_views(prev).push(item@));
        i = i + 1;
    }
    assert(cv.take(changes.len() as int) == cv);
    out
}

/// The line shown where no changelog was found: the release notes, or that
/// nothing could be found.
pub open spec fn release_notes_line(name: Seq<char>, notes: Option<Seq<char>>) -> Seq<char> {
    match notes {
        Some(n) => "- "@ + name + " (from GitHub releases):\n"@ + n,
        None => "- "@ + name + ": <could not fetch or parse changelog>"@,
    }
}

/// The line shown for crate `name` where no changelog was found, given the
/// release notes found in its place, if any.
pub fn release_notes_fallback_line(name: &str, notes: &Option<String>) -> (res: String)
    ensures
        res@ == release_notes_line(name@, opt_view(*notes)),
{
    let mut l = String::from_str("- ");
    l.append(name);
    match notes {
        Some(n) => {
            l.append(" (from GitHub releases):\n");
            l.append(n.as_str());
        },
        None => {
            l.append(": <could not fetch or parse changelog>");
        },
    }
    l
}

// ---------------------------------------------------------------------------
// Looking up a changelog, step by step
// ---------------------------------------------------------------------------

/// What to do next while looking for what changed in a crate: its
/// changelog first, then the release page of its tag, then the GitHub API.
pub enum LookupAction {
    /// Request the changelog at this raw URL.
    FetchChangelog(usize),
    /// Show the changelog that this raw URL served.
    ShowChangelog(usize),
    /// Request the release page at this URL.
    FetchReleasePage(usize),
    /// Read the release notes off the release page that this URL served.
    ReadReleasePage(usize),
    /// Show the release notes read off the release page.
    ShowReleaseNotes,
    /// Ask the GitHub API for the release notes, and show what it gives.
    QueryApi,
    /// Nothing was found.
    GiveUp,
}

/// The next step of the lookup, given what is known: how many changelog
/// URLs there are and which of those tried served a changelog; how many
/// release pages there are to try (none where the repository is not a
/// GitHub one), and which of those tried were served; and, once a release
/// page was read, whether it held release notes.
///
/// A changelog that was served is shown. Only when every changelog URL
/// failed are release pages tried, in order. A page that was served is read;
/// its notes are shown, or else the API is asked. Where no release page was
/// served, or there is none to try, the lookup gives up without asking the
/// API.
pub open spec fn lookup_action(
    changelog_urls: nat,
    changelog: Seq<bool>,
    release_pages: Option<nat>,
    pages: Seq<bool>,
    page_had_notes: Option<bool>,
) -> LookupAction {
    match first_true_from(changelog, 0) {
        Some(i) => LookupAction::ShowChangelog(i as usize),
        None => if changelog.len() < changelog_urls {
            LookupAction::FetchChangelog(changelog.len() as usize)
        } else {
            match release_pages {
                None => LookupAction::GiveUp,
                Some(m) => match first_true_from(pages, 0) {
                    Some(j) => match page_had_notes {
                        None => LookupAction::ReadReleasePage(j as usize),
                        Some(true) => LookupAction::ShowReleaseNotes,
                        Some(false) => LookupAction::QueryApi,
                    },
                    None => if pages.len() < m {
                        LookupAction::FetchReleasePage(pages.len() as usize)
                    } else {
                        LookupAction::GiveUp
                    },
                },
            }
        },
    }
}

/// The next step of the lookup of a changelog (see `lookup_action`).
pub fn next_lookup_action(
    changelog_urls: usize,
    changelog: &[bool],
    release_pages: Option<usize>,
    pages: &[bool],
    page_had_notes: Option<bool>,
) -> (res: LookupAction)
    ensures
        res == lookup_action(
            changelog_urls as nat,
            changelog@,
            match release_pages {
                Some(m) => Some(m as nat),
                None => None,
            },
            pages@,
            page_had_notes,
        ),
{
    if let Some(i) = find_true(changelog, 0) {
        return LookupAction::ShowChangelog(i);
    }
    if changelog.len() < changelog_urls {
        return LookupAction::FetchChangelog(changelog.len());
    }
    match release_pages {
        None => LookupAction::GiveUp,
        Some(m) => match find_true(pages, 0) {
            Some(j) => match page_had_notes {
                None => LookupAction::ReadReleasePage(j),
                Some(true) => LookupAction::ShowReleaseNotes,
                Some(false) => LookupAction::QueryApi,
            },
            None => if pages.len() < m {
                LookupAction::FetchReleasePage(pages.len())
            } else {
                LookupAction::GiveUp
            },
        },
    }
}

/// The lookup never asks the API unless every changelog URL was tried in
/// vain and some release page was served and read without notes; it never
/// reads a release page while a changelog could still be found.
pub proof fn law_lookup_order(
    changelog_urls: nat,
    changelog: Seq<bool>,
    release_pages: Option<nat>,
    pages: Seq<bool>,
    page_had_notes: Option<bool>,
)
    ensures
        lookup_action(changelog_urls, changelog, release_pages, pages, page_had_notes) is QueryApi
            ==> {
            &&& changelog.len() >= changelog_urls
            &&& forall|i: int| 0 <= i < changelog.len() ==> !#[trigger] changelog[i]
            &&& release_pages is Some
            &&& exists|j: int| 0 <= j < pages.len() && #[trigger] pages[j]
            &&& page_had_notes == Some(false)
        },
        (lookup_action(changelog_urls, changelog, release_pages, pages, page_had_notes) is FetchReleasePage
            || lookup_action(changelog_urls, changelog, release_pages, pages, page_had_notes) is ReadReleasePage)
            ==> changelog.len() >= changelog_urls && forall|i: int|
            0 <= i < changelog.len() ==> !#[trigger] changelog[i],
        (release_pages is None && changelog.len() >= changelog_urls && forall|i: int|
            0 <= i < changelog.len() ==> !#[trigger] changelog[i]) ==> lookup_action(
            changelog_urls,
            changelog,
            release_pages,
            pages,
            page_had_notes,
        ) is GiveUp,
        (release_pages matches Some(m) && pages.len() >= m && changelog.len() >= changelog_urls
            && (forall|i: int| 0 <= i < changelog.len() ==> !#[trigger] changelog[i]) && (forall|
            j: int,
        | 0 <= j < pages.len() ==> !#[trigger] pages[j])) ==> lookup_action(
            changelog_urls,
            changelog,
            release_pages,
            pages,
            page_had_notes,
        ) is GiveUp,
{
    lemma_first_true_from(changelog, 0);
    lemma_first_true_from(pages, 0);
}

/// What a lookup ends with: a changelog, or in its place the release notes
/// found, if any.
pub enum LookupOutcome {
    Changelog(Seq<char>),
    ReleaseNotes(Option<Seq<char>>),
}

/// Which of the answers were served.
pub open spec fn served(xs: Seq<Option<Seq<char>>>) -> Seq<bool> {
    xs.map_values(|x: Option<Seq<char>>| x is Some)
}

/// How many release pages there are to try.
pub open spec fn page_count(pages: Option<Seq<Option<Seq<char>>>>) -> nat {
    match pages {
        Some(ps) => ps.len(),
        None => 0,
    }
}

/// Running the lookup step by step from a state (`c`, `p`, `had`), where
/// changelog URL `i` answers `changelog[i]`, release page `j` answers
/// `pages[j]` (no pages where the repository is not a GitHub one), a page
/// is read as `tag_page_notes` reads it, and the API answers `api`.
pub open spec fn run_lookup_from(
    changelog: Seq<Option<Seq<char>>>,
    pages: Option<Seq<Option<Seq<char>>>>,
    version: Seq<char>,
    api: Option<Seq<char>>,
    c: Seq<bool>,
    p: Seq<bool>,
    had: Option<bool>,
) -> LookupOutcome
    decreases (changelog.len() - c.len()) + (page_count(pages) - p.len()) + (if had is None {
        1int
    } else {
        0int
    }),
{
    if c.len() > changelog.len() || p.len() > page_count(pages) {
        LookupOutcome::ReleaseNotes(None)
    } else {
        let release_pages = match pages {
            Some(ps) => Some(ps.len()),
            None => None,
        };
        match lookup_action(changelog.len(), c, release_pages, p, had) {
            LookupAction::FetchChangelog(i) => if i == c.len() && i < changelog.len() {
                run_lookup_from(
                    changelog,
                    pages,
                    version,
                    api,
                    c.push(changelog[i as int] is Some),
                    p,
                    had,
                )
            } else {
                LookupOutcome::ReleaseNotes(None)
            },
            LookupAction::ShowChangelog(i) => if i < changelog.len() && changelog[i as int] is Some {
                LookupOutcome::Changelog(changelog[i as int]->0)
            } else {
                LookupOutcome::ReleaseNotes(None)
            },
            LookupAction::FetchReleasePage(i) => match pages {
                Some(ps) => if i == p.len() && i < ps.len() {
                    run_lookup_from(
                        changelog,
                        pages,
                        version,
                        api,
                        c,
                        p.push(ps[i as int] is Some),
                        had,
                    )
                } else {
                    LookupOutcome::ReleaseNotes(None)
                },
                None => LookupOutcome::ReleaseNotes(None),
            },
            LookupAction::ReadReleasePage(i) => match pages {
                Some(ps) => if had is None && i < ps.len() && ps[i as int] is Some {
                    run_lookup_from(
                        changelog,
                        pages,
                        version,
                        api,
                        c,
                        p,
                        Some(tag_page_notes(ps[i as int]->0, version) is Some),
                    )
                } else {
                    LookupOutcome::ReleaseNotes(None)
                },
                None => LookupOutcome::ReleaseNotes(None),
            },
            LookupAction::ShowReleaseNotes => match (pages, first_true_from(p, 0)) {
                (Some(ps), Some(j)) => if j < ps.len() && ps[j] is Some {
                    LookupOutcome::ReleaseNotes(tag_page_notes(ps[j]->0, version))
                } else {
                    LookupOutcome::ReleaseNotes(None)
                },
                _ => LookupOutcome::ReleaseNotes(None),
            },
            LookupAction::QueryApi => LookupOutcome::ReleaseNotes(api),
            LookupAction::GiveUp => LookupOutcome::ReleaseNotes(None),
        }
    }
}

/// Running the lookup from its start.
pub open spec fn run_lookup(
    changelog: Seq<Option<Seq<char>>>,
    pages: Option<Seq<Option<Seq<char>>>>,
    version: Seq<char>,
    api: Option<Seq<char>>,
) -> LookupOutcome {
    run_lookup_from(changelog, pages, version, api, seq![], seq![], None)
}

/// The release notes that the search finds: from the first release page
/// served, its notes (the chosen Markdown block, else the article), or else
/// what the API answers; nothing where no page is served or there is none.
pub open spec fn release_notes_search(
    pages: Option<Seq<Option<Seq<char>>>>,
    version: Seq<char>,
    api: Option<Seq<char>>,
) -> Option<Seq<char>> {
    match pages {
        None => None,
        Some(ps) => match first_true_from(served(ps), 0) {
            None => None,
            Some(j) => match tag_page_notes(ps[j]->0, version) {
                Some(n) => Some(n),
                None => api,
            },
        },
    }
}

/// What the lookup finds: the first changelog served, or else the release
/// notes that the search finds.
pub open spec fn lookup_outcome(
    changelog: Seq<Option<Seq<char>>>,
    pages: Option<Seq<Option<Seq<char>>>>,
    version: Seq<char>,
    api: Option<Seq<char>>,
) -> LookupOutcome {
    match first_true_from(served(changelog), 0) {
        Some(i) => LookupOutcome::Changelog(changelog[i]->0),
        None => LookupOutcome::ReleaseNotes(release_notes_search(pages, version, api)),
    }
}

proof fn lemma_first_true_is(fs: Seq<bool>, k: int, i: int)
    requires
        0 <= k <= i < fs.len(),
        fs[i],
        forall|j: int| k <= j < i ==> !fs[j],
    ensures
        first_true_from(fs, k) == Some(i),
    decreases i - k,
{
    if k < i {
        lemma_first_true_is(fs, k + 1, i);
    }
}

/// The first `true` of a prefix is the first `true` of the whole.
proof fn lemma_first_true_prefix(fs: Seq<bool>, n: int)
    requires
        0 <= n <= fs.len(),
    ensures
        first_true_from(fs.take(n), 0) matches Some(i) ==> first_true_from(fs, 0) == Some(i),
        first_true_from(fs.take(n), 0) is None && n == fs.len() ==> first_true_from(fs, 0) is None,
{
    lemma_first_true_from(fs.take(n), 0);
    lemma_first_true_from(fs, 0);
    if let Some(i) = first_true_from(fs.take(n), 0) {
        assert forall|j: int| 0 <= j < i implies !fs[j] by {
            assert(fs.take(n)[j] == fs[j]);
        }
        assert(fs.take(n)[i] == fs[i]);
        lemma_first_true_is(fs, 0, i);
    } else if n == fs.len() {
        assert(fs.take(n) == fs);
    }
}

/// The state of a lookup run that follows the answers: what was learned
/// agrees with them.
pub open spec fn lookup_state_ok(
    changelog: Seq<Option<Seq<char>>>,
    pages: Option<Seq<Option<Seq<char>>>>,
    version: Seq<char>,
    c: Seq<bool>,
    p: Seq<bool>,
    had: Option<bool>,
) -> bool {
    &&& changelog.len() <= usize::MAX
    &&& page_count(pages) <= usize::MAX
    &&& c.len() <= changelog.len()
    &&& c == served(changelog).take(c.len() as int)
    &&& p.len() <= page_count(pages)
    &&& (pages matches Some(ps) ==> p == served(ps).take(p.len() as int))
    &&& (pages is None ==> p.len() == 0)
    &&& (had matches Some(b) ==> pages matches Some(ps) && first_true_from(p, 0) matches Some(j)
        && b == (tag_page_notes(ps[j]->0, version) is Some))
}

#[verifier::spinoff_prover]
proof fn lemma_run_lookup_from(
    changelog: Seq<Option<Seq<char>>>,
    pages: Option<Seq<Option<Seq<char>>>>,
    version: Seq<char>,
    api: Option<Seq<char>>,
    c: Seq<bool>,
    p: Seq<bool>,
    had: Option<bool>,
)
    requires
        lookup_state_ok(changelog, pages, version, c, p, had),
    ensures
        run_lookup_from(changelog, pages, version, api, c, p, had) == lookup_outcome(
            changelog,
            pages,
            version,
            api,
        ),
    decreases (changelog.len() - c.len()) + (page_count(pages) - p.len()) + (if had is None {
        1int
    } else {
        0int
    }),
{
    let sc = served(changelog);
    lemma_first_true_from(c, 0);
    lemma_first_true_prefix(sc, c.len() as int);
    lemma_first_true_from(p, 0);
    let release_pages = match pages {
        Some(ps) => Some(ps.len()),
        None => None,
    };
    match first_true_from(c, 0) {
        Some(i) => {
            assert(sc[i] == c[i]);
            assert(changelog[i] is Some);
            assert(first_true_from(sc, 0) == Some(i));
        },
        None => {
            if c.len() < changelog.len() {
                let c2 = c.push(changelog[c.len() as int] is Some);
                assert(c2 == sc.take(c.len() + 1 as int));
                lemma_run_lookup_from(changelog, pages, version, api, c2, p, had);
            } else {
                match pages {
                    None => {},
                    Some(ps) => {
                        let sp = served(ps);
                        lemma_first_true_prefix(sp, p.len() as int);
                        match first_true_from(p, 0) {
                            Some(j) => {
                                assert(sp[j] == p[j]);
                                match had {
                                    None => {
                                        lemma_run_lookup_from(
                                            changelog,
                                            pages,
                                            version,
                                            api,
                                            c,
                                            p,
                                            Some(tag_page_notes(ps[j]->0, version) is Some),
                                        );
                                    },
                                    Some(b) => {},
                                }
                            },
                            None => {
                                if p.len() < ps.len() {
                                    let p2 = p.push(ps[p.len() as int] is Some);
                                    assert(p2 == sp.take(p.len() + 1 as int));
                                    lemma_run_lookup_from(changelog, pages, version, api, c, p2, had);
                                }
                            },
                        }
                    },
                }
            }
        },
    }
}

/// The lookup, run step by step, finds the first changelog served; where
/// none is served, the release notes of the first release page served
/// (the chosen Markdown block, else the article), or, only where that page
/// held no notes, what the API answers; and nothing where no release page
/// was served or there is none.
pub proof fn law_lookup_finds(
    changelog: Seq<Option<Seq<char>>>,
    pages: Option<Seq<Option<Seq<char>>>>,
    version: Seq<char>,
    api: Option<Seq<char>>,
)
    requires
        changelog.len() <= usize::MAX,
        page_count(pages) <= usize::MAX,
    ensures
        run_lookup(changelog, pages, version, api) == lookup_outcome(changelog, pages, version, api),
{
    assert(served(changelog).take(0) == Seq::<bool>::empty());
    if let Some(ps) = pages {
        assert(served(ps).take(0) == Seq::<bool>::empty());
    }
    lemma_run_lookup_from(changelog, pages, version, api, seq![], seq![], None);
}

/// What is shown of the changelog of a crate once the lookup is done: the
/// section of its version, or the one line of release notes (named after
/// `crate_name`).
pub open spec fn changelog_lookup_lines(
    crate_name: Seq<char>,
    fetch: ChangelogFetchView,
    outcome: LookupOutcome,
) -> Seq<Seq<char>> {
    match outcome {
        LookupOutcome::Changelog(t) => changelog_diff_report(fetch.name, t, fetch.version),
        LookupOutcome::ReleaseNotes(n) => seq![release_notes_line(crate_name, n)],
    }
}

/// Where no changelog URL serves a changelog, exactly one line is shown:
/// the release notes that the search of the crate's release pages finds
/// (none where the repository is not a GitHub one), or that nothing could
/// be found.
pub proof fn law_changelog_fallback(
    crate_name: Seq<char>,
    fetch: ChangelogFetchView,
    changelog: Seq<Option<Seq<char>>>,
    pages: Seq<Option<Seq<char>>>,
    api: Option<Seq<char>>,
)
    requires
        forall|i: int| 0 <= i < changelog.len() ==> #[trigger] changelog[i] is None,
        changelog.len() <= usize::MAX,
        pages.len() <= usize::MAX,
    ensures
        ({
            let ps = if github_owner_repo(fetch.repo_url) is Some {
                Some(pages)
            } else {
                None
            };
            let notes = release_notes_search(ps, fetch.version, api);
            &&& run_lookup(changelog, ps, fetch.version, api) == LookupOutcome::ReleaseNotes(notes)
            &&& changelog_lookup_lines(
                crate_name,
                fetch,
                run_lookup(changelog, ps, fetch.version, api),
            ) == seq![release_notes_line(crate_name, notes)]
            &&& (ps is None ==> notes is None)
        }),
{
    let ps = if github_owner_repo(fetch.repo_url) is Some {
        Some(pages)
    } else {
        None
    };
    law_lookup_finds(changelog, ps, fetch.version, api);
    lemma_first_true_from(served(changelog), 0);
}

// ---------------------------------------------------------------------------
// One crate
// ---------------------------------------------------------------------------

/// What to do about the changelog of one crate.
pub enum ChangelogDiffPlan {
    /// Nothing: the report is not verbose, or the crate did not change.
    Nothing,
    /// Show this line.
    Line(String),
    /// Fetch this changelog and show its section.
    Fetch(ChangelogFetch),
}

/// The mathematical value of a `ChangelogDiffPlan`.
pub enum ChangelogDiffPlanView {
    Nothing,
    Line(Seq<char>),
    Fetch(ChangelogFetchView),
}

impl View for ChangelogDiffPlan {
    type V = ChangelogDiffPlanView;

    open spec fn view(&self) -> ChangelogDiffPlanView {
        match self {
            ChangelogDiffPlan::Nothing => ChangelogDiffPlanView::Nothing,
            ChangelogDiffPlan::Line(l) => ChangelogDiffPlanView::Line(l@),
            ChangelogDiffPlan::Fetch(f) => ChangelogDiffPlanView::Fetch(f@),
        }
    }
}

/// What to do about the changelog of the updated package `p`.
pub open spec fn changelog_diff_plan(p: PackageView, verbose: bool) -> ChangelogDiffPlanView {
    if !verbose {
        ChangelogDiffPlanView::Nothing
    } else {
        match p.repository {
            None => ChangelogDiffPlanView::Line("    <no repository specified>"@),
            Some(r) => if contains_seq(r, "github.com"@) {
                ChangelogDiffPlanView::Fetch(changelog_fetch(p.name, p.version, r))
            } else {
                ChangelogDiffPlanView::Line("    <no GitHub repository>"@)
            },
        }
    }
}

/// What to do about the changelog of the updated package of `crate_name`:
/// nothing unless `verbose`, a line where it has no GitHub repository, or
/// the changelog to fetch. The line shown where the changelog is not found
/// names `crate_name` (see `release_notes_fallback_line`).
pub fn print_changelog_diff_for_crate_verbose(
    _orig: &Package,
    updated: &Package,
    verbose: bool,
    _crate_name: &str,
) -> (res: ChangelogDiffPlan)
    ensures
        res@ == changelog_diff_plan(updated@, verbose),
{
    if !verbose {
        return ChangelogDiffPlan::Nothing;
    }
    match &updated.repository {
        None => ChangelogDiffPlan::Line(String::from_str("    <no repository specified>")),
        Some(r) => {
            let rc = chars_of(r.as_str());
            let github = chars_of("github.com");
            if contains(&rc, &github) {
                ChangelogDiffPlan::Fetch(changelog_fetch_of(&updated.name, &updated.version, r.as_str()))
            } else {
                ChangelogDiffPlan::Line(String::from_str("    <no GitHub repository>"))
            }
        },
    }
}

/// The report on one crate: the lines to show and what to do about its
/// changelog.
pub struct SingleCrateReport {
    pub lines: Vec<String>,
    pub changelog: ChangelogDiffPlan,
}

/// The lines of the report on crate `name`, by whether each graph has a
/// package of that name (the first one) and its version.
pub open spec fn single_crate_lines(name: Seq<char>, orig: Seq<PackageView>, upd: Seq<PackageView>) -> Seq<
    Seq<char>,
> {
    match (first_named(orig, name), first_named(upd, name)) {
        (Some(o), Some(u)) => if orig[o].version != upd[u].version {
            seq![name + ": "@ + orig[o].version + " → "@ + upd[u].version]
        } else {
            seq![name + ": no version change ("@ + orig[o].version + ")."@]
        },
        (None, Some(u)) => seq![name + ": newly added at version "@ + upd[u].version],
        (Some(o), None) => seq![name + ": removed (was at version "@ + orig[o].version + ")"@],
        (None, None) => seq![name + ": not found in either lockfile"@],
    }
}

/// What to do about the changelog of crate `name`: look at its updated
/// package where it changed version or is new.
pub open spec fn single_crate_plan(
    name: Seq<char>,
    orig: Seq<PackageView>,
    upd: Seq<PackageView>,
    verbose: bool,
) -> ChangelogDiffPlanView {
    match (first_named(orig, name), first_named(upd, name)) {
        (Some(o), Some(u)) => if orig[o].version != upd[u].version {
            changelog_diff_plan(upd[u], verbose)
        } else {
            ChangelogDiffPlanView::Nothing
        },
        (None, Some(u)) => changelog_diff_plan(upd[u], verbose),
        _ => ChangelogDiffPlanView::Nothing,
    }
}

/// The report on one crate: whether it changed version, is new, was
/// removed, or is in neither graph; and, where it changed or is new, what to
/// do about its changelog.
pub fn print_single_crate_update(
    crate_name: &str,
    original: &[Package],
    updated: &[Package],
    verbose: bool,
) -> (res: SingleCrateReport)
    ensures
        string_views(res.lines@) == single_crate_lines(
            crate_name@,
            package_views(original@),
            package_views(updated@),
        ),
        res.changelog@ == single_crate_plan(
            crate_name@,
            package_views(original@),
            package_views(updated@),
            verbose,
        ),
{
    let name = crate_name.to_owned();
    let mut lines: Vec<String> = Vec::new();
    let mut l = String::from_str(crate_name);
    let changelog = match (find_by_name(original, &name), find_by_name(updated, &name)) {
        (Some(o), Some(u)) => {
            let op = &original[o];
            let up = &updated[u];
            assert(package_views(original@)[o as int] == op@);
            assert(package_views(updated@)[u as int] == up@);
            if op.version != up.version {
                l.append(": ");
                l.append(op.version.as_str());
                l.append(" → ");
                l.append(up.version.as_str());
                print_changelog_diff_for_crate_verbose(op, up, verbose, crate_name)
            } else {
                l.append(": no version change (");
                l.append(op.version.as_str());
                l.append(").");
                ChangelogDiffPlan::Nothing
            }
        },
        (None, Some(u)) => {
            let up = &updated[u];
            assert(package_views(updated@)[u as int] == up@);
            l.append(": newly added at version ");
            l.append(up.version.as_str());
            print_changelog_diff_for_crate_verbose(up, up, verbose, crate_name)
        },
        (Some(o), None) => {
            let op = &original[o];
            assert(package_views(original@)[o as int] == op@);
            l.append(": removed (was at version ");
            l.append(op.version.as_str());
            l.append(")");
            ChangelogDiffPlan::Nothing
        },
        (None, None) => {
            l.append(": not found in either lockfile");
            ChangelogDiffPlan::Nothing
        },
    };
    lines.push(l);
    assert(string_views(lines@) == seq![l@]);
    SingleCrateReport { lines, changelog }
}

// ---------------------------------------------------------------------------
// Laws
// ---------------------------------------------------------------------------

proof fn lemma_first_containing_from(ls: Seq<Seq<char>>, v: Seq<char>, k: int)
    requires
        0 <= k,
    ensures
        first_containing_from(ls, v, k) matches Some(i) ==> k <= i < ls.len() && contains_seq(
            ls[i],
            v,
        ) && forall|j: int| k <= j < i ==> !contains_seq(#[trigger] ls[j], v),
        first_containing_from(ls, v, k) is None ==> forall|j: int|
            k <= j < ls.len() ==> !contains_seq(#[trigger] ls[j], v),
    decreases ls.len() - k,
{
    if k < ls.len() && !contains_seq(ls[k], v) {
        lemma_first_containing_from(ls, v, k + 1);
    }
}

proof fn lemma_first_break_from(ls: Seq<Seq<char>>, v: Seq<char>, k: int)
    requires
        0 <= k,
    ensures
        first_break_from(ls, v, k) matches Some(i) ==> k <= i < ls.len() && is_entry_break(
            ls[i],
            v,
        ),
        first_break_from(ls, v, k) matches Some(i) ==> forall|j: int|
            k <= j < i ==> !is_entry_break(#[trigger] ls[j], v),
        first_break_from(ls, v, k) is None ==> forall|j: int|
            k <= j < ls.len() ==> !is_entry_break(#[trigger] ls[j], v),
    decreases ls.len() - k,
{
    if k < ls.len() && !is_entry_break(ls[k], v) {
        lemma_first_break_from(ls, v, k + 1);
    }
}

/// An entry shows at most ten lines of the changelog, taken in one piece.
/// Where some line mentions the version, the entry begins with the first
/// such line, and none of its other lines is a heading that does not
/// mention the version; otherwise it is the beginning of the changelog.
pub proof fn law_changelog_excerpt_shape(ls: Seq<Seq<char>>, v: Seq<char>)
    ensures
        changelog_excerpt(ls, v).len() <= entry_line_limit(),
        exists|k: int|
            0 <= k <= ls.len() && k + changelog_excerpt(ls, v).len() <= ls.len()
                && changelog_excerpt(ls, v) == #[trigger] ls.subrange(
                k,
                k + changelog_excerpt(ls, v).len(),
            ),
        (exists|i: int| 0 <= i < ls.len() && contains_seq(ls[i], v)) ==> {
            let ex = changelog_excerpt(ls, v);
            &&& ex.len() > 0
            &&& contains_seq(ex[0], v)
            &&& forall|j: int| 1 <= j < ex.len() ==> !is_entry_break(#[trigger] ex[j], v)
        },
        (forall|i: int| 0 <= i < ls.len() ==> !contains_seq(#[trigger] ls[i], v))
            ==> changelog_excerpt(ls, v) == ls.take(
            if ls.len() <= entry_line_limit() {
                ls.len() as int
            } else {
                entry_line_limit()
            },
        ),
{
    lemma_first_containing_from(ls, v, 0);
    match first_containing_from(ls, v, 0) {
        None => {
            if ls.len() <= entry_line_limit() {
                assert(ls.subrange(0, ls.len() as int) == ls);
                assert(ls.take(ls.len() as int) == ls);
            }
            let n = changelog_excerpt(ls, v).len();
            assert(changelog_excerpt(ls, v) == ls.subrange(0, 0 + n as int));
        },
        Some(k) => {
            lemma_first_break_from(ls, v, k + 1);
            let ex = changelog_excerpt(ls, v);
            assert(ex == ls.subrange(k, k + ex.len()));
            assert forall|j: int| 1 <= j < ex.len() implies !is_entry_break(#[trigger] ex[j], v) by {
                assert(ex[j] == ls[k + j]);
            }
        },
    }
}

/// Where some line mentions the version, the entry is exactly the lines
/// from the first such line `k` up to, not including, the first later line
/// that begins with `#` and does not mention the version, at most ten
/// lines: every line in between is shown, whatever it holds.
pub proof fn law_changelog_excerpt_extent(ls: Seq<Seq<char>>, v: Seq<char>, k: int)
    requires
        0 <= k < ls.len(),
        contains_seq(ls[k], v),
        forall|j: int| 0 <= j < k ==> !contains_seq(#[trigger] ls[j], v),
    ensures
        ({
            let ex = changelog_excerpt(ls, v);
            &&& 1 <= ex.len() <= 10
            &&& k + ex.len() <= ls.len()
            &&& ex == ls.subrange(k, k + ex.len())
            &&& forall|j: int|
                k < j < k + ex.len() ==> contains_seq(#[trigger] ls[j], v) || !starts_with_seq(
                    ls[j],
                    "#"@,
                )
            &&& (ex.len() < 10 && k + ex.len() < ls.len()) ==> !contains_seq(
                ls[k + ex.len()],
                v,
            ) && starts_with_seq(ls[k + ex.len()], "#"@)
        }),
{
    lemma_first_containing_from(ls, v, 0);
    if first_containing_from(ls, v, 0) != Some(k) {
        let k2 = first_containing_from(ls, v, 0)->0;
        assert(!contains_seq(ls[k2], v) || k2 == k);
    }
    assert(first_containing_from(ls, v, 0) == Some(k));
    lemma_first_break_from(ls, v, k + 1);
    let ex = changelog_excerpt(ls, v);
    assert(ex == ls.subrange(k, k + ex.len()));
    assert forall|j: int| k < j < k + ex.len() implies contains_seq(#[trigger] ls[j], v)
        || !starts_with_seq(ls[j], "#"@) by {
        assert(!is_entry_break(ls[j], v));
    }
}

/// The section shown runs from the first heading of the version to just
/// before the next version heading: no line from two after the heading up
/// to the line after the last one shown is a version heading, and, unless
/// the section ends with the changelog or at a hundred lines, the line
/// after the last one shown is followed by a version heading.
pub proof fn law_changelog_section_extent(heading: Seq<bool>, next_header: Seq<bool>)
    requires
        heading.len() == next_header.len(),
    ensures
        section_bounds(heading, next_header) matches Some((k, e)) ==> {
            &&& heading[k]
            &&& forall|j: int| 0 <= j < k ==> !#[trigger] heading[j]
            &&& k < e <= heading.len()
            &&& e - k <= 100
            &&& forall|m: int| k + 2 <= m <= e && m < next_header.len() ==> !#[trigger] next_header[m]
            &&& (e < heading.len() && e < k + 100) ==> e + 1 < next_header.len() && next_header[e + 1]
        },
{
    lemma_first_true_from(heading, 0);
    if let Some(k) = first_true_from(heading, 0) {
        lemma_first_true_from(next_header, k + 2);
    }
}

/// Every changelog link looked for pairs a raw URL and a link of the same
/// branch: position 0 is the branch `main`, position 1 the branch `master`,
/// both under the cleaned repository URL.
pub proof fn law_changelog_link_branches(c: VersionChangeView)
    ensures
        changelog_link_item(c) matches ChangelogLinkItemView::Probe { name, raw_urls, blob_urls }
            ==> {
            let u = normalized_repo_url(c.repository->0);
            &&& c.repository is Some && contains_seq(c.repository->0, "github.com"@)
            &&& name == c.name
            &&& raw_urls.len() == 2 && blob_urls.len() == 2
            &&& raw_urls[0] == raw_changelog_url(u, "main"@)
            &&& blob_urls[0] == u + "/blob/"@ + "main"@ + "/CHANGELOG.md"@
            &&& raw_urls[1] == raw_changelog_url(u, "master"@)
            &&& blob_urls[1] == u + "/blob/"@ + "master"@ + "/CHANGELOG.md"@
        },
        (c.repository matches Some(r) && contains_seq(r, "github.com"@))
            ==> changelog_link_item(c) is Probe,
{
}

/// The list of changelog links has one item per changed crate, in order:
/// the changelog to look for where the crate is on GitHub, otherwise the
/// line saying why not.
pub proof fn law_changelog_links_one_per_change(orig: Seq<PackageView>, upd: Seq<PackageView>)
    ensures
        ({
            let cs = version_changes(orig, upd);
            let items = changelog_links_report(orig, upd);
            &&& items.len() == cs.len() + 1
            &&& items[0] == ChangelogLinkItemView::Line(
                "\nGuessed changelog links for updated crates:"@,
            )
            &&& forall|i: int|
                0 <= i < cs.len() ==> match (#[trigger] cs[i]).repository {
                    None => items[i + 1] == ChangelogLinkItemView::Line(
                        "- "@ + cs[i].name + ": <no repository specified>"@,
                    ),
                    Some(r) => if contains_seq(r, "github.com"@) {
                        items[i + 1] matches ChangelogLinkItemView::Probe { name, .. } && name
                            == cs[i].name
                    } else {
                        items[i + 1] == ChangelogLinkItemView::Line(
                            "- "@ + cs[i].name + ": <no GitHub repository>"@,
                        )
                    },
                }
        }),
{
}

/// The list of changelog entries has one item per changed crate, in order:
/// where the crate is on GitHub, the changelog of its new version to fetch
/// from the cleaned repository URL, on `master` then `main`; otherwise the
/// line saying why not.
pub proof fn law_changelog_entries_one_per_change(orig: Seq<PackageView>, upd: Seq<PackageView>)
    ensures
        ({
            let cs = version_changes(orig, upd);
            let items = changelog_entries_report(orig, upd);
            &&& items.len() == cs.len() + 1
            &&& items[0] == ChangelogEntryItemView::Line(
                "\nExtracted changelog entries for updated crates:"@,
            )
            &&& forall|i: int|
                0 <= i < cs.len() ==> match (#[trigger] cs[i]).repository {
                    None => items[i + 1] == ChangelogEntryItemView::Line(
                        "- "@ + cs[i].name + ": <no repository specified>"@,
                    ),
                    Some(r) => if contains_seq(r, "github.com"@) {
                        items[i + 1] matches ChangelogEntryItemView::Fetch(f) && f.name == cs[i].name
                            && f.version == cs[i].new_version && f.repo_url == normalized_repo_url(r)
                            && f.raw_urls == seq![
                            raw_changelog_url(normalized_repo_url(r), "master"@),
                            raw_changelog_url(normalized_repo_url(r), "main"@),
                        ]
                    } else {
                        items[i + 1] == ChangelogEntryItemView::Line(
                            "- "@ + cs[i].name + ": <no GitHub repository>"@,
                        )
                    },
                }
        }),
{
    let cs = version_changes(orig, upd);
    let items = changelog_entries_report(orig, upd);
    assert forall|i: int| 0 <= i < cs.len() implies match (#[trigger] cs[i]).repository {
        None => items[i + 1] == ChangelogEntryItemView::Line(
            "- "@ + cs[i].name + ": <no repository specified>"@,
        ),
        Some(r) => if contains_seq(r, "github.com"@) {
            items[i + 1] matches ChangelogEntryItemView::Fetch(f) && f.name == cs[i].name
                && f.version == cs[i].new_version && f.repo_url == normalized_repo_url(r)
                && f.raw_urls == seq![
                raw_changelog_url(normalized_repo_url(r), "master"@),
                raw_changelog_url(normalized_repo_url(r), "main"@),
            ]
        } else {
            items[i + 1] == ChangelogEntryItemView::Line(
                "- "@ + cs[i].name + ": <no GitHub repository>"@,
            )
        },
    } by {
        if let Some(r) = cs[i].repository {
            let u = normalized_repo_url(r);
            assert(fetch_branches().map_values(|b: Seq<char>| raw_changelog_url(u, b)) =~= seq![
                raw_changelog_url(u, "master"@),
                raw_changelog_url(u, "main"@),
            ]);
        }
    }
}

/// An entry shows its heading line and one indented line per line of the
/// excerpt; the section shown of a changelog likewise.
pub proof fn law_entry_and_section_lines(name: Seq<char>, text: Seq<char>, v: Seq<char>)
    ensures
        ({
            let ex = changelog_excerpt(lines_seq(text), v);
            let r = changelog_entry_report(name, text, v);
            &&& r.len() == ex.len() + 1
            &&& r[0] == "- "@ + name + ":"@
            &&& forall|i: int| 0 <= i < ex.len() ==> r[i + 1] == "    "@ + #[trigger] ex[i]
        }),
        ({
            let ls = lines_seq(text);
            let heading = ls.map_values(|l: Seq<char>| regex_is_match(section_heading_pattern(v), l));
            let next = ls.map_values(|l: Seq<char>| starts_version_section(l));
            let r = changelog_diff_report(name, text, v);
            &&& r[0] == "Changelog diff for "@ + name + ":"@
            &&& section_bounds(heading, next) matches Some((k, e)) ==> r.len() == e - k + 1
                && forall|i: int| 0 <= i < e - k ==> r[i + 1] == "    "@ + #[trigger] ls[k + i]
            &&& section_bounds(heading, next) is None ==> r == seq![
                "Changelog diff for "@ + name + ":"@,
                "    (Could not find changelog section for version "@ + v + ")"@,
            ]
        }),
{
    let ls = lines_seq(text);
    let heading = ls.map_values(|l: Seq<char>| regex_is_match(section_heading_pattern(v), l));
    let next = ls.map_values(|l: Seq<char>| starts_version_section(l));
    law_changelog_section_extent(heading, next);
    let r = changelog_diff_report(name, text, v);
    assert(heading.len() == ls.len() && next.len() == ls.len());
    lemma_first_true_from(heading, 0);
    if let Some((k, e)) = section_bounds(heading, next) {
        let k0 = first_true_from(heading, 0)->0;
        lemma_first_true_from(next, k0 + 2);
        assert(k == k0);
        assert(0 <= k < e <= ls.len());
        let body = ls.subrange(k, e).map_values(|l: Seq<char>| indented(l));
        assert(r == seq!["Changelog diff for "@ + name + ":"@] + body);
        assert forall|i: int| 0 <= i < e - k implies r[i + 1] == "    "@ + #[trigger] ls[k + i] by {
            assert(r[i + 1] == body[i]);
            assert(ls.subrange(k, e)[i] == ls[k + i]);
        }
    }
}

/// The section shown of a changelog is at most a hundred lines, taken in
/// one piece, and it begins with the first heading looked for.
pub proof fn law_changelog_section_shape(heading: Seq<bool>, next_header: Seq<bool>)
    requires
        heading.len() == next_header.len(),
    ensures
        section_bounds(heading, next_header) matches Some((k, e)) ==> {
            &&& 0 <= k < e <= heading.len()
            &&& e - k <= section_line_limit()
            &&& heading[k]
            &&& forall|j: int| 0 <= j < k ==> !#[trigger] heading[j]
        },
        section_bounds(heading, next_header) is None <==> forall|j: int|
            0 <= j < heading.len() ==> !#[trigger] heading[j],
{
    lemma_first_true_from(heading, 0);
    match first_true_from(heading, 0) {
        Some(k) => {
            lemma_first_true_from(next_header, k + 2);
        },
        None => {},
    }
}

proof fn lemma_first_true_from(fs: Seq<bool>, k: int)
    requires
        0 <= k,
    ensures
        first_true_from(fs, k) matches Some(i) ==> k <= i < fs.len() && fs[i] && forall|j: int|
            k <= j < i ==> !#[trigger] fs[j],
        first_true_from(fs, k) is None ==> forall|j: int| k <= j < fs.len() ==> !#[trigger] fs[j],
    decreases fs.len() - k,
{
    if 0 <= k < fs.len() && !fs[k] {
        lemma_first_true_from(fs, k + 1);
    }
}

/// A normalized repository URL never holds `/tree/`.
pub proof fn law_normalized_url_has_no_tree_part(repo: Seq<char>)
    ensures
        !contains_seq(normalized_repo_url(repo), "/tree/"@),
{
    let t = trim_end_matches_seq(trim_end_matches_seq(repo, ".git"@), "/"@);
    let tree = "/tree/"@;
    lemma_first_occurrence_from(t, tree, 0);
    lemma_first_occurrence_from(t, "/blob/"@, 0);
    let r = normalized_repo_url(repo);
    lemma_first_occurrence_from(r, tree, 0);
    if contains_seq(r, tree) {
        let i = first_occurrence(r, tree)->0;
        assert(occurs_at(r, tree, i));
        let c: int = match first_occurrence(t, tree) {
            Some(c) => c,
            None => match first_occurrence(t, "/blob/"@) {
                Some(c) => c,
                None => t.len() as int,
            },
        };
        assert(c <= t.len());
        assert(r == t.take(c));
        assert(t.subrange(i, i + tree.len()) == r.subrange(i, i + tree.len()));
        assert(occurs_at(t, tree, i));
        assert(tree.len() == 6) by {
            reveal_strlit("/tree/");
        }
        match first_occurrence(t, tree) {
            Some(c1) => {
                assert(i < c1);
                assert(!occurs_at(t, tree, i));
            },
            None => {
                assert(!occurs_at(t, tree, i));
            },
        }
    }
}

} // verus!
