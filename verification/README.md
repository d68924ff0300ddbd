# cargo-whats-new

A Cargo subcommand that previews which dependencies `cargo update` would
change, without touching the real project: it copies the manifest, lock file
and sources to a temporary directory, runs `cargo update` there and compares
the two dependency graphs.

```
cargo whats-new                 # which dependencies would be updated
cargo whats-new --verbose       # with repositories, compare links and changelogs
cargo whats-new <crate>         # one crate, with its changelog section under --verbose
```

## Layout

- `src/` is the verified library (Verus):
  - `text.rs`: searching, trimming, splitting and joining text, each stated
    over `Seq<char>` as the corresponding `str` method behaves;
  - `package.rs`: the packages of a dependency graph as plain values;
  - `report.rs`: the comparisons of the two graphs and the lines printed for
    them, with the laws that they obey;
  - `changelog.rs`: where changelogs are looked for, which of their lines are
    shown, and the step-by-step decisions between network requests;
  - `release_notes.rs`: what is taken from a GitHub release page or an API
    answer;
  - `bindings.rs`: the trusted calls into `regex`, `html_escape`,
    `serde_json` and `String::push`.
- `app/` runs the program: arguments, the temporary workspace, `cargo`,
  and the HTTP requests.
- `tests/` exercises the library on concrete values.
