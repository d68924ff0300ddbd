//! The release notes of a version, looked for on the GitHub release page of
//! its tag and, failing that, through the GitHub API: which pages to ask
//! for, and what is taken from the answers.
use vstd::prelude::*;
use vstd::utf8::encode_utf8;
use crate::bindings::{
    compile_pattern, decode_entities, html_entities_decoded, json_is_valid, json_string_field,
    json_string_member, parse_json, pattern_replace_all, regex_compiles, regex_replace_all,
    CompiledPattern,
};
use crate::package::{opt_view, string_views};
use crate::text::{
    chars_of, contains, contains_seq, copy_range, find, find_from, first_occurrence,
    first_occurrence_from, join, join_seq, lemma_first_occurrence_from, lemma_first_occurrence_is,
    lines, lines_seq, replace, starts_with_seq,
    replace_seq, split_on, split_seq, string_of, trim, trim_end_matches, trim_end_matches_seq,
    trim_seq, views, occurs_at, ends_with_seq, is_whitespace_char,
    law_trim_leaves_no_surrounding_whitespace, law_trim_is_idempotent,
};

verus! {

// ---------------------------------------------------------------------------
// Blocks of a release page
// ---------------------------------------------------------------------------

/// The start of a rendered Markdown block on a GitHub page.
pub open spec fn markdown_marker() -> Seq<char> {
    "<div class=\"markdown-body"@
}

/// The Markdown blocks of `h` from position `k` on: each runs from a marker
/// to the first `</div>` after it, and the search goes on after that
/// `</div>`; it stops at a marker with no `</div>` after it.
pub open spec fn markdown_blocks_from(h: Seq<char>, k: int) -> Seq<Seq<char>>
    decreases h.len() + 1 - k,
{
    if k < 0 {
        seq![]
    } else {
        match first_occurrence_from(h, markdown_marker(), k) {
            None => seq![],
            Some(s) => match first_occurrence_from(h, "</div>"@, s) {
                None => seq![],
                Some(e) => {
                    proof {
                        lemma_first_occurrence_from(h, markdown_marker(), k);
                        lemma_first_occurrence_from(h, "</div>"@, s);
                        reveal_strlit("</div>");
                    }
                    seq![h.subrange(s, e + 6)] + markdown_blocks_from(h, e + 6)
                },
            },
        }
    }
}

/// The rendered Markdown blocks of the page `html`, in order.
pub fn extract_markdown_body_blocks(html: &str) -> (res: Vec<String>)
    ensures
        string_views(res@) == markdown_blocks_from(html@, 0),
{
    let h = chars_of(html);
    let marker = chars_of("<div class=\"markdown-body");
    let close = chars_of("</div>");
    proof {
        reveal_strlit("</div>");
    }
    assert(close@.len() == 6);
    let mut blocks: Vec<String> = Vec::new();
    let mut offset: usize = 0;
    loop
        invariant_except_break
            h@ == html@,
            marker@ == markdown_marker(),
            close@ == "</div>"@,
            close@.len() == 6,
            offset <= h@.len(),
            markdown_blocks_from(h@, 0) == string_views(blocks@) + markdown_blocks_from(
                h@,
                offset as int,
            ),
        ensures
            markdown_blocks_from(h@, 0) == string_views(blocks@),
        decreases h@.len() - offset,
    {
        match find_from(&h, &marker, offset) {
            None => {
                assert(markdown_blocks_from(h@, offset as int) == Seq::<Seq<char>>::empty());
                assert(string_views(blocks@) + Seq::<Seq<char>>::empty() == string_views(blocks@));
                break;
            },
            Some(s) => {
                proof {
                    lemma_first_occurrence_from(h@, marker@, offset as int);
                }
                match find_from(&h, &close, s) {
                    None => {
                        assert(markdown_blocks_from(h@, offset as int) == Seq::<Seq<char>>::empty());
                        assert(string_views(blocks@) + Seq::<Seq<char>>::empty() == string_views(
                            blocks@,
                        ));
                        break;
                    },
                    Some(e) => {
                        proof {
                            lemma_first_occurrence_from(h@, close@, s as int);
                        }
                        assert(e + 6 <= h.len());
                        let block = copy_range(&h, s, e + 6);
                        let b = string_of(&block);
                        let ghost prev = blocks@;
                        blocks.push(b);
                        assert(string_views(blocks@) == string_views(prev).push(b@));
                        offset = e + 6;
                    },
                }
            },
        }
    }
    blocks
}

// ---------------------------------------------------------------------------
// Plain text
// ---------------------------------------------------------------------------

/// The pattern of an HTML tag: `<[^>]+>`.
pub open spec fn tag_pattern() -> Seq<char> {
    "<[^>]+>"@
}

/// The plain text of an HTML fragment: `<br>` made a line break, tags
/// removed, entities decoded, surrounding white space trimmed.
pub open spec fn plain_text(html: Seq<char>) -> Seq<char> {
    trim_seq(
        html_entities_decoded(
            regex_replace_all(tag_pattern(), replace_seq(html, "<br>"@, "\n"@), ""@),
        ),
    )
}

/// The plain text of `html`, with the tag pattern already compiled.
fn plain_text_with(html: &str, tags: &CompiledPattern) -> (res: String)
    requires
        tags.pattern() == tag_pattern(),
    ensures
        res@ == plain_text(html@),
{
    let h = chars_of(html);
    let br = chars_of("<br>");
    let nl = chars_of("\n");
    proof {
        reveal_strlit("<br>");
    }
    let with_breaks = string_of(&replace(&h, &br, &nl));
    let untagged = pattern_replace_all(tags, with_breaks.as_str(), "");
    let decoded = decode_entities(untagged.as_str());
    let dc = chars_of(decoded.as_str());
    string_of(&trim(&dc))
}

/// The compiled tag pattern; `None` where it does not compile.
pub fn compile_tag_pattern() -> (res: Option<CompiledPattern>)
    ensures
        res is Some <==> regex_compiles(tag_pattern()),
        res matches Some(c) ==> c.pattern() == tag_pattern(),
{
    compile_pattern("<[^>]+>")
}

/// The plain text of the HTML fragment `html`; `None` where the tag pattern
/// does not compile.
pub fn html_to_plain_text(html: &str) -> (res: Option<String>)
    ensures
        res is None <==> !regex_compiles(tag_pattern()),
        res matches Some(p) ==> p@ == plain_text(html@) && trim_seq(p@) == p@,
{
    proof {
        law_plain_text_is_trimmed(html@);
    }
    match compile_tag_pattern() {
        Some(tags) => Some(plain_text_with(html, &tags)),
        None => None,
    }
}

// ---------------------------------------------------------------------------
// Choosing a block
// ---------------------------------------------------------------------------

/// The length in bytes of `s` written in UTF-8, as `str::len` reports it.
pub open spec fn byte_len(s: Seq<char>) -> usize {
    encode_utf8(s).len() as usize
}

/// A block that mentions the version and has more than twenty bytes.
pub open spec fn is_meaningful(p: Seq<char>, version: Seq<char>) -> bool {
    contains_seq(p, version) && byte_len(p) > 20
}

/// The position of the first meaningful text at or after `k`.
pub open spec fn first_meaningful_from(ps: Seq<Seq<char>>, version: Seq<char>, k: int) -> Option<int>
    decreases ps.len() - k,
{
    if k < 0 || k >= ps.len() {
        None
    } else if is_meaningful(ps[k], version) {
        Some(k)
    } else {
        first_meaningful_from(ps, version, k + 1)
    }
}

/// The position of the first of the longest texts of a non-empty `ps`.
pub open spec fn first_longest(ps: Seq<Seq<char>>) -> int
    decreases ps.len(),
{
    if ps.len() <= 1 {
        0
    } else {
        let m = first_longest(ps.drop_last());
        if byte_len(ps.last()) > byte_len(ps[m]) {
            ps.len() - 1
        } else {
            m
        }
    }
}

/// The text chosen among the plain texts of the blocks: the first that is
/// meaningful, or else the first of the longest, or nothing if there are no
/// blocks.
pub open spec fn chosen_block(ps: Seq<Seq<char>>, version: Seq<char>) -> Option<Seq<char>> {
    match first_meaningful_from(ps, version, 0) {
        Some(i) => Some(ps[i]),
        None => if ps.len() == 0 {
            None
        } else {
            Some(ps[first_longest(ps)])
        },
    }
}

proof fn lemma_first_longest(ps: Seq<Seq<char>>)
    requires
        ps.len() > 0,
    ensures
        0 <= first_longest(ps) < ps.len(),
        forall|j: int|
            0 <= j < ps.len() ==> byte_len(#[trigger] ps[j]) <= byte_len(ps[first_longest(ps)]),
        forall|j: int|
            0 <= j < first_longest(ps) ==> byte_len(#[trigger] ps[j]) < byte_len(
                ps[first_longest(ps)],
            ),
    decreases ps.len(),
{
    if ps.len() > 1 {
        let pre = ps.drop_last();
        lemma_first_longest(pre);
        assert forall|j: int| 0 <= j < pre.len() implies pre[j] == ps[j] by {}
    }
}

/// The text chosen among the plain texts `plains` of the blocks of a
/// release page, for `version`.
pub fn choose_meaningful_block(plains: &[String], version: &str) -> (res: Option<String>)
    ensures
        opt_view(res) == chosen_block(string_views(plains@), version@),
{
    let ghost ps = string_views(plains@);
    let v = chars_of(version);
    let mut best: Option<usize> = None;
    let mut best_len: usize = 0;
    let mut i: usize = 0;
    while i < plains.len()
        invariant
            i <= plains.len(),
            ps == string_views(plains@),
            v@ == version@,
            first_meaningful_from(ps, version@, 0) == first_meaningful_from(ps, version@, i as int),
            match best {
                Some(b) => b < i && b as int == first_longest(ps.take(i as int)) && best_len
                    == byte_len(ps[b as int]),
                None => i == 0,
            },
        decreases plains.len() - i,
    {
        let pc = chars_of(plains[i].as_str());
        let len = plains[i].as_str().len();
        assert(ps[i as int] == plains@[i as int]@);
        if contains(&pc, &v) && len > 20 {
            return Some(plains[i].clone());
        }
        let ghost pre = ps.take(i as int);
        assert(ps.take(i + 1).drop_last() == pre);
        assert(ps.take(i + 1).last() == ps[i as int]);
        match best {
            None => {
                best = Some(i);
                best_len = len;
            },
            Some(b) => {
                assert(pre[b as int] == ps[b as int]);
                assert(ps.take(i + 1)[b as int] == ps[b as int]);
                if len > best_len {
                    best = Some(i);
                    best_len = len;
                }
            },
        }
        i = i + 1;
    }
    match best {
        None => None,
        Some(b) => {
            assert(ps.take(plains.len() as int) == ps);
            Some(plains[b].clone())
        },
    }
}

/// The text of the blocks of a release page that best holds the notes of
/// `version`: the plain text of the first block that mentions it and has
/// more than twenty bytes, or else of the first longest block. `None` where
/// there are no blocks, or where the tag pattern does not compile.
#[verifier::rlimit(40)]
pub fn extract_first_meaningful_block(blocks: &[String], version: &str) -> (res: Option<String>)
    ensures
        regex_compiles(tag_pattern()) ==> opt_view(res) == chosen_block(
            string_views(blocks@).map_values(|b: Seq<char>| plain_text(b)),
            version@,
        ),
        !regex_compiles(tag_pattern()) ==> res is None,
{
    let tags = match compile_tag_pattern() {
        Some(t) => t,
        None => return None,
    };
    let ghost target = string_views(blocks@).map_values(|b: Seq<char>| plain_text(b));
    let mut plains: Vec<String> = Vec::new();
    let mut i: usize = 0;
    while i < blocks.len()
        invariant
            i <= blocks.len(),
            tags.pattern() == tag_pattern(),
            target == string_views(blocks@).map_values(|b: Seq<char>| plain_text(b)),
            string_views(plains@) == target.take(i as int),
        decreases blocks.len() - i,
    {
        let p = plain_text_with(blocks[i].as_str(), &tags);
        let ghost prev = plains@;
        plains.push(p);
        assert(string_views(plains@) == string_views(prev).push(p@));
        assert(target.take(i + 1) == target.take(i as int).push(target[i as int]));
        i = i + 1;
    }
    assert(target.take(blocks.len() as int) == target);
    choose_meaningful_block(&plains, version)
}

// ---------------------------------------------------------------------------
// The article of a release page
// ---------------------------------------------------------------------------

/// The lines that hold more than white space.
pub open spec fn non_blank_lines(ls: Seq<Seq<char>>) -> Seq<Seq<char>>
    decreases ls.len(),
{
    if ls.len() == 0 {
        seq![]
    } else {
        let prev = non_blank_lines(ls.drop_last());
        if trim_seq(ls.last()).len() > 0 {
            prev.push(ls.last())
        } else {
            prev
        }
    }
}

/// The text of the first `<article ...>...</article>` element of `html`:
/// its plain text without blank lines; nothing where there is no such
/// element or it holds only white space.
pub open spec fn article_content(html: Seq<char>) -> Option<Seq<char>> {
    match first_occurrence(html, "<article"@) {
        None => None,
        Some(s) => match first_occurrence_from(html, "</article>"@, s) {
            None => None,
            Some(e) => {
                let ls = non_blank_lines(lines_seq(plain_text(html.subrange(s, e + 10))));
                if ls.len() > 0 {
                    Some(join_seq(ls, "\n"@))
                } else {
                    None
                }
            },
        },
    }
}

/// The lines of `ls` that hold more than white space.
fn keep_non_blank(ls: &[Vec<char>]) -> (res: Vec<Vec<char>>)
    ensures
        views(res@) == non_blank_lines(views(ls@)),
{
    let ghost lv = views(ls@);
    let mut out: Vec<Vec<char>> = Vec::new();
    let mut i: usize = 0;
    while i < ls.len()
        invariant
            i <= ls.len(),
            lv == views(ls@),
            views(out@) == non_blank_lines(lv.take(i as int)),
        decreases ls.len() - i,
    {
        assert(lv.take(i + 1).drop_last() == lv.take(i as int));
        assert(lv.take(i + 1).last() == ls@[i as int]@);
        let t = trim(&ls[i]);
        if t.len() > 0 {
            let l = ls[i].clone();
            let ghost prev = out@;
            out.push(l);
            assert(views(out@) == views(prev).push(l@));
        }
        i = i + 1;
    }
    assert(lv.take(ls.len() as int) == lv);
    out
}

/// The text of the first article element of the page `html`. `None` where
/// there is none, where it holds only white space, or where the tag pattern
/// does not compile.
pub fn extract_fallback_article_content(html: &str) -> (res: Option<String>)
    ensures
        regex_compiles(tag_pattern()) ==> opt_view(res) == article_content(html@),
        !regex_compiles(tag_pattern()) ==> res is None,
{
    let h = chars_of(html);
    let open = chars_of("<article");
    let close = chars_of("</article>");
    proof {
        reveal_strlit("</article>");
    }
    assert(close@.len() == 10);
    let s = match find(&h, &open) {
        Some(s) => s,
        None => return None,
    };
    let e = match find_from(&h, &close, s) {
        Some(e) => e,
        None => return None,
    };
    proof {
        lemma_first_occurrence_from(h@, close@, s as int);
    }
    assert(e + 10 <= h.len());
    let block = string_of(&copy_range(&h, s, e + 10));
    let plain = match html_to_plain_text(block.as_str()) {
        Some(p) => p,
        None => return None,
    };
    let pc = chars_of(plain.as_str());
    let ls = keep_non_blank(&lines(&pc));
    if ls.len() > 0 {
        let nl = chars_of("\n");
        Some(string_of(&join(&ls, &nl)))
    } else {
        None
    }
}

// ---------------------------------------------------------------------------
// Looking for the release notes
// ---------------------------------------------------------------------------

/// The release page of the tag `tag` of `owner/repo`.
pub open spec fn release_tag_url(owner: Seq<char>, repo: Seq<char>, tag: Seq<char>) -> Seq<char> {
    "https://github.com/"@ + owner + "/"@ + repo + "/releases/tag/"@ + tag
}

/// The release pages to try for `version`: its tag as it is, then with a
/// `v` before it.
pub open spec fn release_tag_urls(owner: Seq<char>, repo: Seq<char>, version: Seq<char>) -> Seq<
    Seq<char>,
> {
    seq![release_tag_url(owner, repo, version), release_tag_url(owner, repo, "v"@ + version)]
}

/// The release pages of a GitHub repository to fetch, in order.
pub struct TagPageFetch {
    pub owner: String,
    pub repo: String,
    pub version: String,
    pub urls: Vec<String>,
}

/// What the search for release notes starts with: nothing to do, or the
/// release pages to fetch.
pub enum ReleaseNotesPlan {
    Unavailable,
    FetchTagPage(TagPageFetch),
}

/// The owner and name of the GitHub repository at `repo_url`: the fourth and
/// fifth pieces between slashes of the URL without trailing `.git`; nothing
/// where it is not on GitHub or has fewer pieces.
pub open spec fn github_owner_repo(repo_url: Seq<char>) -> Option<(Seq<char>, Seq<char>)> {
    if !contains_seq(repo_url, "github.com"@) {
        None
    } else {
        let parts = split_seq(trim_end_matches_seq(repo_url, ".git"@), '/');
        if parts.len() < 5 {
            None
        } else {
            Some((parts[3], parts[4]))
        }
    }
}

/// The URL of a release page.
fn release_tag_url_of(owner: &String, repo: &String, tag: &String) -> (res: String)
    ensures
        res@ == release_tag_url(owner@, repo@, tag@),
{
    let mut s = String::from_str("https://github.com/");
    s.append(owner.as_str());
    s.append("/");
    s.append(repo.as_str());
    s.append("/releases/tag/");
    s.append(tag.as_str());
    s
}

/// How the search for the release notes of `version` of the repository at
/// `repo_url` starts: with the release pages of its tag, where the URL names
/// a GitHub repository.
pub fn try_fetch_github_release_notes(repo_url: &str, version: &str) -> (res: ReleaseNotesPlan)
    ensures
        match res {
            ReleaseNotesPlan::Unavailable => github_owner_repo(repo_url@) is None,
            ReleaseNotesPlan::FetchTagPage(f) => github_owner_repo(repo_url@) == Some(
                (f.owner@, f.repo@),
            ) && f.version@ == version@ && string_views(f.urls@) == release_tag_urls(
                f.owner@,
                f.repo@,
                version@,
            ),
        },
{
    let rc = chars_of(repo_url);
    let github = chars_of("github.com");
    if !contains(&rc, &github) {
        return ReleaseNotesPlan::Unavailable;
    }
    let git = chars_of(".git");
    let parts = split_on(&trim_end_matches(&rc, &git), '/');
    if parts.len() < 5 {
        return ReleaseNotesPlan::Unavailable;
    }
    let owner = string_of(&parts[3]);
    let repo = string_of(&parts[4]);
    let v = version.to_owned();
    let mut vv = String::from_str("v");
    vv.append(version);
    let mut urls: Vec<String> = Vec::new();
    urls.push(release_tag_url_of(&owner, &repo, &v));
    urls.push(release_tag_url_of(&owner, &repo, &vv));
    assert(string_views(urls@) =~= release_tag_urls(owner@, repo@, version@));
    ReleaseNotesPlan::FetchTagPage(TagPageFetch { owner, repo, version: v, urls })
}

/// What a release page gave: the release notes, or that the GitHub API is
/// to be asked.
pub enum TagPageOutcome {
    Notes(String),
    AskApi,
}

/// The notes that the release page `html` holds for `version`: the chosen
/// Markdown block, or else the article; nothing where neither has text.
pub open spec fn tag_page_notes(html: Seq<char>, version: Seq<char>) -> Option<Seq<char>> {
    match chosen_block(
        markdown_blocks_from(html, 0).map_values(|b: Seq<char>| plain_text(b)),
        version,
    ) {
        Some(n) => Some(n),
        None => article_content(html),
    }
}

/// The release notes of `version` on its release page `html`, or that the
/// GitHub API is to be asked. Where the tag pattern does not compile, the
/// API is asked.
pub fn release_notes_from_tag_page(html: &str, version: &str) -> (res: TagPageOutcome)
    ensures
        regex_compiles(tag_pattern()) ==> match res {
            TagPageOutcome::Notes(n) => tag_page_notes(html@, version@) == Some(n@),
            TagPageOutcome::AskApi => tag_page_notes(html@, version@) is None,
        },
        !regex_compiles(tag_pattern()) ==> res is AskApi,
{
    let blocks = extract_markdown_body_blocks(html);
    if let Some(plain) = extract_first_meaningful_block(&blocks, version) {
        return TagPageOutcome::Notes(plain);
    }
    if let Some(article) = extract_fallback_article_content(html) {
        return TagPageOutcome::Notes(article);
    }
    TagPageOutcome::AskApi
}

/// The GitHub API address of the release of tag `version` of `owner/repo`.
pub open spec fn github_release_api_url(owner: Seq<char>, repo: Seq<char>, version: Seq<char>) -> Seq<
    char,
> {
    "https://api.github.com/repos/"@ + owner + "/"@ + repo + "/releases/tags/"@ + version
}

/// The GitHub API address of the release of tag `version` of `owner/repo`.
pub fn github_release_api_url_of(owner: &str, repo: &str, version: &str) -> (res: String)
    ensures
        res@ == github_release_api_url(owner@, repo@, version@),
{
    let mut s = String::from_str("https://api.github.com/repos/");
    s.append(owner);
    s.append("/");
    s.append(repo);
    s.append("/releases/tags/");
    s.append(version);
    s
}

/// The release notes in an answer of the GitHub API: the `body` string of
/// the JSON document, trimmed, where it is not empty.
pub open spec fn api_release_notes(text: Seq<char>) -> Option<Seq<char>> {
    if !json_is_valid(text) {
        None
    } else {
        match json_string_member(text, "body"@) {
            Some(b) => if trim_seq(b).len() > 0 {
                Some(trim_seq(b))
            } else {
                None
            },
            None => None,
        }
    }
}

/// The release notes in the answer `text` of the GitHub API.
pub fn release_notes_from_api_response(text: &str) -> (res: Option<String>)
    ensures
        opt_view(res) == api_release_notes(text@),
{
    let doc = match parse_json(text) {
        Some(d) => d,
        None => return None,
    };
    match json_string_field(&doc, "body") {
        Some(body) => {
            let bc = chars_of(body.as_str());
            let t = trim(&bc);
            if t.len() > 0 {
                Some(string_of(&t))
            } else {
                None
            }
        },
        None => None,
    }
}

// ---------------------------------------------------------------------------
// Laws
// ---------------------------------------------------------------------------

/// Where the Markdown blocks of `h` from position `k` on start.
pub open spec fn markdown_block_starts_from(h: Seq<char>, k: int) -> Seq<int>
    decreases h.len() + 1 - k,
{
    if k < 0 {
        seq![]
    } else {
        match first_occurrence_from(h, markdown_marker(), k) {
            None => seq![],
            Some(s) => match first_occurrence_from(h, "</div>"@, s) {
                None => seq![],
                Some(e) => {
                    proof {
                        lemma_first_occurrence_from(h, markdown_marker(), k);
                        lemma_first_occurrence_from(h, "</div>"@, s);
                        reveal_strlit("</div>");
                    }
                    seq![s] + markdown_block_starts_from(h, e + 6)
                },
            },
        }
    }
}

/// Where block `i` of a list of blocks at `starts` ends (`k` for the first
/// one's predecessor).
pub open spec fn previous_block_end(starts: Seq<int>, bs: Seq<Seq<char>>, k: int, i: int) -> int {
    if i == 0 {
        k
    } else {
        starts[i - 1] + bs[i - 1].len()
    }
}

/// Block `b` stands in `h` at `st`, where the first Markdown marker at or
/// after `from` is: it begins with the marker and ends with `</div>`, its
/// only `</div>`.
#[verifier::opaque]
pub open spec fn block_at(h: Seq<char>, from: int, st: int, b: Seq<char>) -> bool {
    &&& first_occurrence_from(h, markdown_marker(), from) == Some(st)
    &&& from <= st
    &&& st + b.len() <= h.len()
    &&& h.subrange(st, st + b.len()) == b
    &&& starts_with_seq(b, markdown_marker())
    &&& ends_with_seq(b, "</div>"@)
    &&& first_occurrence(b, "</div>"@) == Some(b.len() - 6)
}

/// The shape of the blocks taken from `h` from position `k` on: each is
/// placed by `block_at`, searching from the end of the one before it.
pub open spec fn blocks_well_placed(h: Seq<char>, k: int, starts: Seq<int>, bs: Seq<Seq<char>>) -> bool {
    &&& starts.len() == bs.len()
    &&& forall|i: int|
        0 <= i < bs.len() ==> block_at(
            h,
            previous_block_end(starts, bs, k, i),
            starts[i],
            #[trigger] bs[i],
        )
}

proof fn lemma_marker_chars()
    ensures
        markdown_marker().len() == 25,
        markdown_marker()[1] == 'd',
        forall|d: int| 1 <= d < 25 ==> markdown_marker()[d] != '<',
{
    reveal_strlit("<div class=\"markdown-body");
    assert(markdown_marker() =~= seq![
        '<', 'd', 'i', 'v', ' ', 'c', 'l', 'a', 's', 's', '=', '"', 'm', 'a', 'r', 'k', 'd', 'o',
        'w', 'n', '-', 'b', 'o', 'd', 'y',
    ]);
}

/// One block: taken at the first marker at or after `k`, it ends at the
/// first `</div>` after the marker, which lies past the whole marker.
#[verifier::spinoff_prover]
proof fn lemma_one_block(h: Seq<char>, k: int, s: int, e: int)
    requires
        0 <= k <= s <= e,
        first_occurrence_from(h, markdown_marker(), k) == Some(s),
        first_occurrence_from(h, "</div>"@, s) == Some(e),
    ensures
        e + 6 <= h.len(),
        block_at(h, k, s, h.subrange(s, e + 6)),
{
    reveal(block_at);
    lemma_first_occurrence_from(h, markdown_marker(), k);
    let close = "</div>"@;
    let m = markdown_marker();
    reveal_strlit("</div>");
    assert(close =~= seq!['<', '/', 'd', 'i', 'v', '>']);
    lemma_marker_chars();
    lemma_first_occurrence_from(h, close, s);
    let b = h.subrange(s, e + 6);
    assert(e >= s + 25) by {
        if e < s + 25 {
            let d = e - s;
            assert(h[e] == h.subrange(e, e + 6)[0]);
            assert(h[s + d] == h.subrange(s, s + 25)[d]);
            if d == 0 {
                assert(h[s + 1] == h.subrange(e, e + 6)[1]);
                assert(h[s + 1] == h.subrange(s, s + 25)[1]);
            }
        }
    }
    assert(b.subrange(0, 25) == h.subrange(s, s + 25));
    assert(b.subrange(b.len() - 6, b.len() as int) == h.subrange(e, e + 6));
    assert forall|j: int| 0 <= j < e - s implies !occurs_at(b, close, j) by {
        if occurs_at(b, close, j) {
            assert(h.subrange(s + j, s + j + 6) == b.subrange(j, j + 6));
            assert(occurs_at(h, close, s + j));
        }
    }
    assert(occurs_at(b, close, e - s));
    lemma_first_occurrence_is(b, close, 0, e - s);
    assert(b.len() - 6 == e - s);
}

#[verifier::spinoff_prover]
proof fn lemma_markdown_blocks_from(h: Seq<char>, k: int)
    requires
        0 <= k,
    ensures
        blocks_well_placed(h, k, markdown_block_starts_from(h, k), markdown_blocks_from(h, k)),
    decreases h.len() + 1 - k,
{
    reveal_strlit("</div>");
    let close = "</div>"@;
    lemma_first_occurrence_from(h, markdown_marker(), k);
    match first_occurrence_from(h, markdown_marker(), k) {
        None => {},
        Some(s) => {
            lemma_first_occurrence_from(h, close, s);
            match first_occurrence_from(h, close, s) {
                None => {},
                Some(e) => {
                    lemma_one_block(h, k, s, e);
                    lemma_markdown_blocks_from(h, e + 6);
                    let b = h.subrange(s, e + 6);
                    let rest = markdown_blocks_from(h, e + 6);
                    let rest_starts = markdown_block_starts_from(h, e + 6);
                    let bs = markdown_blocks_from(h, k);
                    let starts = markdown_block_starts_from(h, k);
                    assert(bs == seq![b] + rest);
                    assert(starts == seq![s] + rest_starts);
                    assert forall|i: int| 0 <= i < bs.len() implies block_at(
                        h,
                        previous_block_end(starts, bs, k, i),
                        starts[i],
                        #[trigger] bs[i],
                    ) by {
                        if i == 0 {
                            assert(bs[0] == b);
                            assert(starts[0] == s);
                        } else {
                            assert(bs[i] == rest[i - 1]);
                            assert(starts[i] == rest_starts[i - 1]);
                            if i > 1 {
                                assert(bs[i - 1] == rest[i - 2]);
                                assert(starts[i - 1] == rest_starts[i - 2]);
                            } else {
                                assert(bs[0] == b);
                                assert(starts[0] == s);
                            }
                            assert(previous_block_end(starts, bs, k, i) == previous_block_end(
                                rest_starts,
                                rest,
                                e + 6,
                                i - 1,
                            ));
                            assert(block_at(
                                h,
                                previous_block_end(rest_starts, rest, e + 6, i - 1),
                                rest_starts[i - 1],
                                rest[i - 1],
                            ));
                        }
                    }
                },
            }
        },
    }
}

/// The blocks taken from a page, in order: each is taken at the first
/// Markdown marker after the end of the one before it, so the blocks stand
/// in the page in increasing order, without overlap; each begins with the
/// marker, stands in the page as it is, and ends with `</div>`, its only
/// `</div>`.
#[verifier::spinoff_prover]
pub proof fn law_markdown_blocks_shape(h: Seq<char>)
    ensures
        ({
            let bs = markdown_blocks_from(h, 0);
            let starts = markdown_block_starts_from(h, 0);
            &&& starts.len() == bs.len()
            &&& forall|i: int|
                0 <= i < bs.len() ==> {
                    let b = #[trigger] bs[i];
                    let from = previous_block_end(starts, bs, 0, i);
                    &&& first_occurrence_from(h, markdown_marker(), from) == Some(starts[i])
                    &&& from <= starts[i]
                    &&& starts[i] + b.len() <= h.len()
                    &&& h.subrange(starts[i], starts[i] + b.len()) == b
                    &&& starts_with_seq(b, markdown_marker())
                    &&& ends_with_seq(b, "</div>"@)
                    &&& first_occurrence(b, "</div>"@) == Some(b.len() - 6)
                }
        }),
{
    lemma_markdown_blocks_from(h, 0);
    reveal(block_at);
}

proof fn lemma_first_meaningful_from(ps: Seq<Seq<char>>, version: Seq<char>, k: int)
    requires
        0 <= k,
    ensures
        first_meaningful_from(ps, version, k) matches Some(i) ==> k <= i < ps.len()
            && is_meaningful(ps[i], version),
        first_meaningful_from(ps, version, k) is None ==> forall|j: int|
            k <= j < ps.len() ==> !is_meaningful(#[trigger] ps[j], version),
    decreases ps.len() - k,
{
    if k < ps.len() && !is_meaningful(ps[k], version) {
        lemma_first_meaningful_from(ps, version, k + 1);
    }
}

/// The chosen text is meaningful where some text is; otherwise it is one of
/// the longest. Nothing is chosen only where there is nothing to choose
/// from.
pub proof fn law_chosen_block(ps: Seq<Seq<char>>, version: Seq<char>)
    ensures
        chosen_block(ps, version) is None <==> ps.len() == 0,
        chosen_block(ps, version) matches Some(c) ==> ps.contains(c),
        (exists|i: int| 0 <= i < ps.len() && is_meaningful(ps[i], version)) ==> (chosen_block(
            ps,
            version,
        ) matches Some(c) && is_meaningful(c, version)),
        (forall|i: int| 0 <= i < ps.len() ==> !is_meaningful(#[trigger] ps[i], version)) ==> (
        chosen_block(ps, version) matches Some(c) ==> forall|j: int|
            0 <= j < ps.len() ==> byte_len(#[trigger] ps[j]) <= byte_len(c)),
{
    lemma_first_meaningful_from(ps, version, 0);
    if ps.len() > 0 {
        lemma_first_longest(ps);
    }
    match first_meaningful_from(ps, version, 0) {
        Some(i) => {
            assert(ps[i] == chosen_block(ps, version)->0);
        },
        None => {
            if ps.len() > 0 {
                assert(ps[first_longest(ps)] == chosen_block(ps, version)->0);
            }
        },
    }
}

/// Plain text neither begins nor ends with white space, so trimming it
/// changes nothing.
pub proof fn law_plain_text_is_trimmed(html: Seq<char>)
    ensures
        plain_text(html).len() > 0 ==> !is_whitespace_char(plain_text(html)[0])
            && !is_whitespace_char(plain_text(html).last()),
        trim_seq(plain_text(html)) == plain_text(html),
{
    law_trim_is_idempotent(
        html_entities_decoded(
            regex_replace_all(tag_pattern(), replace_seq(html, "<br>"@, "\n"@), ""@),
        ),
    );
    law_trim_leaves_no_surrounding_whitespace(
        html_entities_decoded(
            regex_replace_all(tag_pattern(), replace_seq(html, "<br>"@, "\n"@), ""@),
        ),
    );
}

/// Release notes taken from an API answer are never empty and neither
/// begin nor end with white space.
pub proof fn law_api_notes_trimmed(text: Seq<char>)
    ensures
        api_release_notes(text) matches Some(n) ==> n.len() > 0 && !is_whitespace_char(n[0])
            && !is_whitespace_char(n.last()),
{
    if let Some(b) = json_string_member(text, "body"@) {
        law_trim_leaves_no_surrounding_whitespace(b);
    }
}

} // verus!
