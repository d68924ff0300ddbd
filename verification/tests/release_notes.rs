use cargo_whats_new::release_notes::{
    choose_meaningful_block, extract_fallback_article_content, extract_first_meaningful_block,
    extract_markdown_body_blocks, github_release_api_url_of, html_to_plain_text,
    release_notes_from_api_response, release_notes_from_tag_page, try_fetch_github_release_notes,
    ReleaseNotesPlan, TagPageOutcome,
};

#[test]
fn markdown_blocks_are_cut_at_the_first_closing_div() {
    let html = "<p>x</p><div class=\"markdown-body my-3\"><p>one</p></div> mid \
                <div class=\"markdown-body\">two</div><div class=\"markdown-body\">open";
    let blocks = extract_markdown_body_blocks(html);
    assert_eq!(
        blocks,
        vec![
            "<div class=\"markdown-body my-3\"><p>one</p></div>",
            "<div class=\"markdown-body\">two</div>",
        ]
    );
    assert!(extract_markdown_body_blocks("no blocks here").is_empty());
}

#[test]
fn plain_text_of_html() {
    let p = html_to_plain_text("  <p>Fixed &amp; improved<br>things</p>\n").unwrap();
    assert_eq!(p, "Fixed & improved\nthings");
    assert_eq!(html_to_plain_text("a <> b").unwrap(), "a <> b");
}

#[test]
fn choosing_a_block() {
    let v = |xs: &[&str]| xs.iter().map(|s| s.to_string()).collect::<Vec<String>>();
    let plains = v(&["short", "Release 1.2.3 fixes many things", "1.2.3"]);
    assert_eq!(
        choose_meaningful_block(&plains, "1.2.3"),
        Some("Release 1.2.3 fixes many things".to_string())
    );
    let plains = v(&["aaa", "bbbbb", "ccccc"]);
    assert_eq!(choose_meaningful_block(&plains, "9.9"), Some("bbbbb".to_string()));
    assert_eq!(choose_meaningful_block(&[], "9.9"), None);
    // byte length counts: "ééé" is six bytes, longer than "abcde"
    let plains = v(&["abcde", "ééé"]);
    assert_eq!(choose_meaningful_block(&plains, "9.9"), Some("ééé".to_string()));
}

#[test]
fn meaningful_block_of_a_page() {
    let blocks = vec![
        "<div class=\"markdown-body\"><p>Intro</p></div>".to_string(),
        "<div class=\"markdown-body\"><h2>v2.0.0</h2><p>Big &lt;release&gt; notes</p></div>".to_string(),
    ];
    assert_eq!(
        extract_first_meaningful_block(&blocks, "2.0.0"),
        Some("v2.0.0Big <release> notes".to_string())
    );
}

#[test]
fn article_content() {
    let html = "<html><article class=\"x\"><p>Line one</p><br>   <br><p>Line two</p></article></html>";
    assert_eq!(extract_fallback_article_content(html), Some("Line one\nLine two".to_string()));
    assert_eq!(extract_fallback_article_content("<article>   </article>"), None);
    assert_eq!(extract_fallback_article_content("<p>none</p>"), None);
    assert_eq!(extract_fallback_article_content("<article>open"), None);
}

#[test]
fn release_note_search_plan() {
    match try_fetch_github_release_notes("https://github.com/serde-rs/serde.git", "1.0.200") {
        ReleaseNotesPlan::FetchTagPage(f) => {
            assert_eq!(f.owner, "serde-rs");
            assert_eq!(f.repo, "serde");
            assert_eq!(
                f.urls,
                vec![
                    "https://github.com/serde-rs/serde/releases/tag/1.0.200",
                    "https://github.com/serde-rs/serde/releases/tag/v1.0.200",
                ]
            );
        },
        ReleaseNotesPlan::Unavailable => panic!("a plan was expected"),
    }
    assert!(matches!(
        try_fetch_github_release_notes("https://gitlab.com/a/b", "1.0.0"),
        ReleaseNotesPlan::Unavailable
    ));
    assert!(matches!(
        try_fetch_github_release_notes("https://github.com/a", "1.0.0"),
        ReleaseNotesPlan::Unavailable
    ));
}

#[test]
fn notes_from_a_tag_page() {
    let html = "<div class=\"markdown-body\"><p>What changed in 3.1.4 today</p></div>";
    match release_notes_from_tag_page(html, "3.1.4") {
        TagPageOutcome::Notes(n) => assert_eq!(n, "What changed in 3.1.4 today"),
        TagPageOutcome::AskApi => panic!("notes expected"),
    }
    let html = "<html><body>nothing</body></html>";
    assert!(matches!(release_notes_from_tag_page(html, "3.1.4"), TagPageOutcome::AskApi));
}

#[test]
fn api_address_and_answer() {
    assert_eq!(
        github_release_api_url_of("serde-rs", "serde", "v1.0.0"),
        "https://api.github.com/repos/serde-rs/serde/releases/tags/v1.0.0"
    );
    assert_eq!(
        release_notes_from_api_response("{\"body\": \"  notes\\n\", \"id\": 3}"),
        Some("notes".to_string())
    );
    assert_eq!(release_notes_from_api_response("{\"body\": \"   \"}"), None);
    assert_eq!(release_notes_from_api_response("{\"body\": null}"), None);
    assert_eq!(release_notes_from_api_response("not json"), None);
    assert_eq!(release_notes_from_api_response("{\"name\": \"x\"}"), None);
}

#[test]
fn markdown_blocks_do_not_overlap() {
    // the second marker sits inside the first block; the search goes on after it
    let html = "<div class=\"markdown-body\">a<div class=\"markdown-body\">b</div>c</div>\
                <div class=\"markdown-body\">d</div>";
    let blocks = extract_markdown_body_blocks(html);
    assert_eq!(
        blocks,
        vec![
            "<div class=\"markdown-body\">a<div class=\"markdown-body\">b</div>",
            "<div class=\"markdown-body\">d</div>",
        ]
    );
}
