use cargo_whats_new::package::Package;
use cargo_whats_new::report::{
    diff_package_versions, new_crates, package_list_lines, print_crate_repositories,
    print_github_compare_links, print_minimal_updated_crates, report_updated_crates,
    source_version_changes_of, updated_crate_changes,
};

fn pkg(name: &str, version: &str, source: Option<&str>, repo: Option<&str>) -> Package {
    Package::new(
        name.to_string(),
        version.to_string(),
        source.map(|s| s.to_string()),
        repo.map(|s| s.to_string()),
        format!("/src/{}/Cargo.toml", name),
    )
}

const REG: &str = "registry+https://github.com/rust-lang/crates.io-index";

fn before() -> Vec<Package> {
    vec![
        pkg("app", "0.1.0", None, None),
        pkg("serde", "1.0.100", Some(REG), Some("https://github.com/serde-rs/serde")),
        pkg("syn", "1.0.109", Some(REG), Some("https://github.com/dtolnay/syn.git")),
        pkg("syn", "2.0.10", Some(REG), Some("https://github.com/dtolnay/syn.git")),
        pkg("libc", "0.2.100", Some(REG), Some("https://gitlab.example.org/libc")),
        pkg("old", "1.0.0", Some(REG), None),
    ]
}

fn after() -> Vec<Package> {
    vec![
        pkg("app", "0.1.0", None, None),
        pkg("serde", "1.0.200", Some(REG), Some("https://github.com/serde-rs/serde")),
        pkg("syn", "1.0.109", Some(REG), Some("https://github.com/dtolnay/syn.git")),
        pkg("syn", "2.0.60", Some(REG), Some("https://github.com/dtolnay/syn.git")),
        pkg("libc", "0.2.150", Some(REG), Some("https://gitlab.example.org/libc")),
        pkg("fresh", "0.3.0", Some(REG), None),
        pkg("fresh", "0.3.0", Some(REG), None),
    ]
}

#[test]
fn minimal_report_lists_changed_crates() {
    let lines = print_minimal_updated_crates(&before(), &after());
    assert_eq!(
        lines,
        vec![
            "Updated dependencies:",
            "- serde (1.0.100 → 1.0.200)",
            "- syn (2.0.10 → 2.0.60)",
            "- libc (0.2.100 → 0.2.150)",
        ]
    );
}

#[test]
fn minimal_report_when_nothing_changed() {
    let ps = vec![pkg("a", "1.0.0", Some(REG), None), pkg("b", "2.0.0", Some(REG), None)];
    assert_eq!(print_minimal_updated_crates(&ps, &ps), vec!["All dependencies are up to date."]);
    assert_eq!(print_minimal_updated_crates(&[], &[]), vec!["All dependencies are up to date."]);
}

#[test]
fn changes_take_the_version_that_went_away() {
    let cs = updated_crate_changes(&before(), &after());
    let names: Vec<(&str, &str, &str)> = cs
        .iter()
        .map(|c| (c.name.as_str(), c.old_version.as_str(), c.new_version.as_str()))
        .collect();
    assert_eq!(
        names,
        vec![
            ("serde", "1.0.100", "1.0.200"),
            ("syn", "2.0.10", "2.0.60"),
            ("libc", "0.2.100", "0.2.150"),
        ]
    );
}

#[test]
fn diff_by_name_and_source() {
    assert!(diff_package_versions(&before(), &after(), false).is_empty());
    let lines = diff_package_versions(&before(), &after(), true);
    assert_eq!(
        lines,
        vec![
            "\nDependency changes (old → new):",
            "- serde (1.0.100 → 1.0.200)",
            "- syn (2.0.10 → 2.0.60)",
            "- libc (0.2.100 → 0.2.150)",
        ]
    );
}

#[test]
fn diff_reports_each_key_once_with_last_versions() {
    let orig = vec![
        pkg("a", "1.0.0", Some(REG), None),
        pkg("a", "1.1.0", Some(REG), None),
        pkg("a", "1.0.0", Some("git+https://example.org/a"), None),
    ];
    let upd = vec![
        pkg("a", "1.2.0", Some(REG), None),
        pkg("a", "1.0.0", Some("git+https://example.org/a"), None),
    ];
    let cs = source_version_changes_of(&orig, &upd);
    assert_eq!(cs.len(), 1);
    assert_eq!(cs[0].name, "a");
    assert_eq!(cs[0].source.as_deref(), Some(REG));
    assert_eq!(cs[0].old_version, "1.1.0");
    assert_eq!(cs[0].new_version, "1.2.0");
}

#[test]
fn diff_of_a_graph_with_itself_is_empty() {
    let ps = before();
    assert!(source_version_changes_of(&ps, &ps).is_empty());
    assert!(new_crates(&ps, &ps).is_empty());
}

#[test]
fn new_and_updated_crates_report() {
    assert!(report_updated_crates(&before(), &after(), false).is_empty());
    let lines = report_updated_crates(&before(), &after(), true);
    assert_eq!(
        lines,
        vec![
            "\nNew crates added after update:",
            "- fresh",
            "\nCrates updated:",
            "- serde (1.0.100 → 1.0.200)",
            "- syn (2.0.10 → 2.0.60)",
            "- libc (0.2.100 → 0.2.150)",
        ]
    );
    let same = vec![pkg("a", "1.0.0", Some(REG), None), pkg("a", "1.0.0", None, None)];
    assert!(report_updated_crates(&same, &same, true).is_empty());
    // two versions of one crate: a graph compared with itself changes nothing
    let twice = before();
    assert!(report_updated_crates(&twice, &twice, true).is_empty());
    assert_eq!(print_minimal_updated_crates(&twice, &twice), vec!["All dependencies are up to date."]);
    let foo = vec![pkg("foo", "1.0.0", Some(REG), None), pkg("foo", "2.0.0", Some(REG), None)];
    assert_eq!(print_minimal_updated_crates(&foo, &foo), vec!["All dependencies are up to date."]);
}

#[test]
fn new_crates_are_listed_once() {
    assert_eq!(new_crates(&before(), &after()), vec!["fresh"]);
    assert_eq!(new_crates(&after(), &before()), vec!["old"]);
}

#[test]
fn repositories_of_updated_packages() {
    assert!(print_crate_repositories(&after(), false).is_empty());
    let lines = print_crate_repositories(&after()[..2], true);
    assert_eq!(
        lines,
        vec![
            "\nCrate repositories (after update):",
            "- app: <no repository specified>",
            "- serde: https://github.com/serde-rs/serde",
        ]
    );
}

#[test]
fn compare_links_for_github_repositories() {
    assert!(print_github_compare_links(&before(), &after(), false).is_empty());
    let lines = print_github_compare_links(&before(), &after(), true);
    assert_eq!(
        lines,
        vec![
            "\nGitHub compare links for updated crates:",
            "- serde: https://github.com/serde-rs/serde/compare/v1.0.100...v1.0.200",
            "- syn: https://github.com/dtolnay/syn/compare/v2.0.10...v2.0.60",
        ]
    );
}

#[test]
fn package_listing() {
    let lines = package_list_lines("\nPackages (original):", &before()[..2]);
    assert_eq!(
        lines,
        vec![
            "\nPackages (original):",
            "- app 0.1.0 (/src/app/Cargo.toml)",
            "- serde 1.0.100 (/src/serde/Cargo.toml)",
        ]
    );
}

#[test]
fn short_and_verbose_reports_agree_on_changes() {
    let short = print_minimal_updated_crates(&before(), &after());
    let long = report_updated_crates(&before(), &after(), true);
    let n = short.len() - 1;
    assert_eq!(&long[long.len() - n..], &short[1..]);
    assert_eq!(long[long.len() - n - 1], "\nCrates updated:");
}

#[test]
fn a_version_added_beside_an_old_one() {
    // the old version stays, a new one is added: reported against the first
    let orig = vec![pkg("foo", "1.0.0", Some(REG), None)];
    let upd = vec![pkg("foo", "1.0.0", Some(REG), None), pkg("foo", "2.0.0", Some(REG), None)];
    assert_eq!(print_minimal_updated_crates(&orig, &upd), vec!["Updated dependencies:", "- foo (1.0.0 → 2.0.0)"]);
    // both versions bumped: new versions paired in order with the ones gone
    let orig = vec![pkg("foo", "1.0.0", Some(REG), None), pkg("foo", "2.0.0", Some(REG), None)];
    let upd = vec![pkg("foo", "1.0.1", Some(REG), None), pkg("foo", "2.0.1", Some(REG), None)];
    assert_eq!(
        print_minimal_updated_crates(&orig, &upd),
        vec!["Updated dependencies:", "- foo (1.0.0 → 1.0.1)", "- foo (2.0.0 → 2.0.1)"]
    );
}
