use cargo_whats_new::changelog::{
    changelog_blob_url_of, changelog_diff_lines, changelog_entry_lines, changelog_excerpt_of,
    changelog_link_outcome, changelog_section_bounds, next_lookup_action, next_probe_step, normalize_repo_url,
    print_changelog_diff_for_crate_verbose, print_changelog_entries, print_changelog_links,
    print_single_crate_update, raw_changelog_url_of, release_notes_fallback_line,
    ChangelogDiffPlan, ChangelogEntryItem, ChangelogLinkItem, LookupAction, ProbeStep,
};
use cargo_whats_new::package::Package;
use cargo_whats_new::text::{chars_of, lines, string_of};

fn pkg(name: &str, version: &str, repo: Option<&str>) -> Package {
    Package::new(
        name.to_string(),
        version.to_string(),
        Some("registry+https://github.com/rust-lang/crates.io-index".to_string()),
        repo.map(|s| s.to_string()),
        format!("/src/{}/Cargo.toml", name),
    )
}

#[test]
fn repository_urls_are_normalized() {
    let n = |s: &str| string_of(&normalize_repo_url(s));
    assert_eq!(n("https://github.com/serde-rs/serde.git"), "https://github.com/serde-rs/serde");
    assert_eq!(n("https://github.com/serde-rs/serde/"), "https://github.com/serde-rs/serde");
    assert_eq!(n("https://github.com/a/b/tree/master/crates/c"), "https://github.com/a/b");
    assert_eq!(n("https://github.com/a/b/blob/main/README.md"), "https://github.com/a/b");
    assert_eq!(n("https://github.com/a/b.git/"), "https://github.com/a/b.git");
}

#[test]
fn changelog_urls() {
    let u = chars_of("https://github.com/serde-rs/serde");
    assert_eq!(
        raw_changelog_url_of(&u, "main"),
        "https://raw.githubusercontent.com/serde-rs/serde/main/CHANGELOG.md"
    );
    assert_eq!(
        changelog_blob_url_of(&u, "master"),
        "https://github.com/serde-rs/serde/blob/master/CHANGELOG.md"
    );
}

#[test]
fn probe_steps_take_the_first_success() {
    assert!(matches!(next_probe_step(2, &[]), ProbeStep::Fetch(0)));
    assert!(matches!(next_probe_step(2, &[false]), ProbeStep::Fetch(1)));
    assert!(matches!(next_probe_step(2, &[false, true]), ProbeStep::Found(1)));
    assert!(matches!(next_probe_step(2, &[true]), ProbeStep::Found(0)));
    assert!(matches!(next_probe_step(2, &[false, false]), ProbeStep::Exhausted));
    assert!(matches!(next_probe_step(0, &[]), ProbeStep::Exhausted));
}

fn before() -> Vec<Package> {
    vec![
        pkg("serde", "1.0.100", Some("https://github.com/serde-rs/serde")),
        pkg("libc", "0.2.100", Some("https://gitlab.example.org/libc")),
        pkg("quiet", "1.0.0", None),
        pkg("same", "1.0.0", Some("https://github.com/x/same")),
    ]
}

fn after() -> Vec<Package> {
    vec![
        pkg("serde", "1.0.200", Some("https://github.com/serde-rs/serde.git")),
        pkg("libc", "0.2.150", Some("https://gitlab.example.org/libc")),
        pkg("quiet", "1.1.0", None),
        pkg("same", "1.0.0", Some("https://github.com/x/same")),
    ]
}

#[test]
fn changelog_link_items() {
    assert!(print_changelog_links(&before(), &after(), false).is_empty());
    let items = print_changelog_links(&before(), &after(), true);
    assert_eq!(items.len(), 4);
    match &items[0] {
        ChangelogLinkItem::Line(l) => assert_eq!(l, "\nGuessed changelog links for updated crates:"),
        _ => panic!("heading expected"),
    }
    match &items[1] {
        ChangelogLinkItem::Probe(p) => {
            assert_eq!(p.name, "serde");
            assert_eq!(
                p.raw_urls,
                vec![
                    "https://raw.githubusercontent.com/serde-rs/serde/main/CHANGELOG.md",
                    "https://raw.githubusercontent.com/serde-rs/serde/master/CHANGELOG.md",
                ]
            );
            assert_eq!(
                changelog_link_outcome(p, Some(1)),
                "- serde: https://github.com/serde-rs/serde/blob/master/CHANGELOG.md"
            );
            assert_eq!(
                changelog_link_outcome(p, None),
                "- serde: <could not find CHANGELOG.md on main or master>"
            );
        },
        _ => panic!("probe expected"),
    }
    match &items[2] {
        ChangelogLinkItem::Line(l) => assert_eq!(l, "- libc: <no GitHub repository>"),
        _ => panic!("line expected"),
    }
    match &items[3] {
        ChangelogLinkItem::Line(l) => assert_eq!(l, "- quiet: <no repository specified>"),
        _ => panic!("line expected"),
    }
}

#[test]
fn changelog_entry_items() {
    let items = print_changelog_entries(&before(), &after(), true);
    assert_eq!(items.len(), 4);
    match &items[1] {
        ChangelogEntryItem::Fetch(f) => {
            assert_eq!(f.name, "serde");
            assert_eq!(f.version, "1.0.200");
            assert_eq!(f.repo_url, "https://github.com/serde-rs/serde");
            assert_eq!(
                f.raw_urls,
                vec![
                    "https://raw.githubusercontent.com/serde-rs/serde/master/CHANGELOG.md",
                    "https://raw.githubusercontent.com/serde-rs/serde/main/CHANGELOG.md",
                ]
            );
        },
        _ => panic!("fetch expected"),
    }
    assert!(print_changelog_entries(&before(), &after(), false).is_empty());
}

const CHANGELOG: &str = "# Changelog\n\n## [1.0.200] - 2024\n- fix a\n- fix b\n## 1.0.199\n- older\n";

#[test]
fn entry_shows_the_section_of_the_version() {
    let lines = changelog_entry_lines("serde", CHANGELOG, "1.0.200");
    assert_eq!(lines, vec!["- serde:", "    ## [1.0.200] - 2024", "    - fix a", "    - fix b"]);
}

#[test]
fn entry_shows_the_start_where_the_version_is_missing() {
    let text: String = (1..=15).map(|i| format!("line {}\n", i)).collect();
    let lines = changelog_entry_lines("x", &text, "9.9.9");
    assert_eq!(lines.len(), 11);
    assert_eq!(lines[1], "    line 1");
    assert_eq!(lines[10], "    line 10");
}

#[test]
fn entry_stops_after_ten_lines() {
    let mut text = String::from("## 2.0.0\n");
    for i in 0..20 {
        text.push_str(&format!("- change {}\n", i));
    }
    let ls = lines(&chars_of(&text));
    let ex = changelog_excerpt_of(&ls, &chars_of("2.0.0"));
    assert_eq!(ex.len(), 10);
    assert_eq!(string_of(&ex[0]), "## 2.0.0");
}

#[test]
fn section_bounds_from_flags() {
    // heading at 1; line 3 starts another section, so the section stops
    // before line 2, the line right before it.
    let heading = [false, true, false, false, false];
    let next = [false, false, false, true, false];
    assert_eq!(changelog_section_bounds(&heading, &next), Some((1, 2)));
    // a section start right after the heading does not stop it
    let next2 = [false, false, true, false, false];
    assert_eq!(changelog_section_bounds(&heading, &next2), Some((1, 5)));
    assert_eq!(changelog_section_bounds(&[false, false], &[true, true]), None);
}

#[test]
fn diff_shows_the_section_found_by_pattern() {
    let text = "# Changelog\n\n## [v1.0.0]\n- first\n- second\n  ## 0.9.0\n- old\n";
    let lines = changelog_diff_lines("demo", text, "1.0.0").unwrap();
    // the line right before the next section heading is not shown
    assert_eq!(lines, vec!["Changelog diff for demo:", "    ## [v1.0.0]", "    - first"]);
}

#[test]
fn diff_escapes_the_version() {
    // an unescaped `.` would let `1x0x0` match version 1.0.0
    let text = "## 1x0x0\n- wrong\n";
    let lines = changelog_diff_lines("demo", text, "1.0.0").unwrap();
    assert_eq!(
        lines,
        vec!["Changelog diff for demo:", "    (Could not find changelog section for version 1.0.0)"]
    );
}

#[test]
fn fallback_lines() {
    assert_eq!(
        release_notes_fallback_line("serde", &Some("notes".to_string())),
        "- serde (from GitHub releases):\nnotes"
    );
    assert_eq!(
        release_notes_fallback_line("serde", &None),
        "- serde: <could not fetch or parse changelog>"
    );
}

#[test]
fn single_crate_reports() {
    let orig = before();
    let upd = after();
    let r = print_single_crate_update("serde", &orig, &upd, true);
    assert_eq!(r.lines, vec!["serde: 1.0.100 → 1.0.200"]);
    assert!(matches!(r.changelog, ChangelogDiffPlan::Fetch(_)));
    let r = print_single_crate_update("serde", &orig, &upd, false);
    assert!(matches!(r.changelog, ChangelogDiffPlan::Nothing));
    let r = print_single_crate_update("same", &orig, &upd, true);
    assert_eq!(r.lines, vec!["same: no version change (1.0.0)."]);
    assert!(matches!(r.changelog, ChangelogDiffPlan::Nothing));
    let added = vec![pkg("new", "0.1.0", None)];
    let r = print_single_crate_update("new", &orig, &added, true);
    assert_eq!(r.lines, vec!["new: newly added at version 0.1.0"]);
    match r.changelog {
        ChangelogDiffPlan::Line(l) => assert_eq!(l, "    <no repository specified>"),
        _ => panic!("line expected"),
    }
    let r = print_single_crate_update("libc", &orig, &[], true);
    assert_eq!(r.lines, vec!["libc: removed (was at version 0.2.100)"]);
    let r = print_single_crate_update("none", &orig, &upd, true);
    assert_eq!(r.lines, vec!["none: not found in either lockfile"]);
}

#[test]
fn diff_plan_for_non_github() {
    let p = pkg("libc", "0.2.150", Some("https://gitlab.example.org/libc"));
    match print_changelog_diff_for_crate_verbose(&p, &p, true, "libc") {
        ChangelogDiffPlan::Line(l) => assert_eq!(l, "    <no GitHub repository>"),
        _ => panic!("line expected"),
    }
}

#[test]
fn lookup_steps_in_order() {
    assert!(matches!(next_lookup_action(2, &[], Some(2), &[], None), LookupAction::FetchChangelog(0)));
    assert!(matches!(next_lookup_action(2, &[false, true], Some(2), &[], None), LookupAction::ShowChangelog(1)));
    assert!(matches!(next_lookup_action(2, &[false, false], Some(2), &[], None), LookupAction::FetchReleasePage(0)));
    assert!(matches!(next_lookup_action(2, &[false, false], None, &[], None), LookupAction::GiveUp));
    // no release page was served: give up without asking the API
    assert!(matches!(next_lookup_action(2, &[false, false], Some(2), &[false, false], None), LookupAction::GiveUp));
    assert!(matches!(next_lookup_action(2, &[false, false], Some(2), &[false, true], None), LookupAction::ReadReleasePage(1)));
    assert!(matches!(next_lookup_action(2, &[false, false], Some(2), &[true], Some(true)), LookupAction::ShowReleaseNotes));
    assert!(matches!(next_lookup_action(2, &[false, false], Some(2), &[true], Some(false)), LookupAction::QueryApi));
}
