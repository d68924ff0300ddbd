//! The calls into code that is not verified here: a std function that vstd
//! leaves without a specification, and the outside crates `regex`,
//! `html_escape` and `serde_json`.
use vstd::prelude::*;

verus! {

/// `String::push`: appends one character to the string.
#[verifier::external_body]
pub(crate) fn push_char(s: &mut String, c: char)
    ensures
        final(s)@ == old(s)@.push(c),
{
    s.push(c);
}

// ---------------------------------------------------------------------------
// regex
// ---------------------------------------------------------------------------

#[verifier::external_type_specification]
#[verifier::external_body]
pub struct ExRegex(regex::Regex);

/// Whether `regex::Regex::new` accepts `pattern`.
pub uninterp spec fn regex_compiles(pattern: Seq<char>) -> bool;

/// What `regex::Regex::is_match` answers, for the regex compiled from
/// `pattern`, on `text`.
pub uninterp spec fn regex_is_match(pattern: Seq<char>, text: Seq<char>) -> bool;

/// What `regex::Regex::replace_all` gives, for the regex compiled from
/// `pattern`, on `text` with the replacement `rep`.
pub uninterp spec fn regex_replace_all(pattern: Seq<char>, text: Seq<char>, rep: Seq<char>) -> Seq<
    char,
>;

/// A compiled regular expression together with the pattern it came from.
pub struct CompiledPattern {
    source: String,
    re: regex::Regex,
}

impl CompiledPattern {
    /// The pattern this regex was compiled from.
    pub closed spec fn pattern(&self) -> Seq<char> {
        self.source@
    }
}

/// `regex::Regex::new`: compiles `pattern`; `None` where the crate reports
/// an error. The contract claims only that success depends on the pattern
/// alone, and keeps the pattern beside the compiled regex.
#[verifier::external_body]
pub(crate) fn compile_pattern(pattern: &str) -> (res: Option<CompiledPattern>)
    ensures
        res is Some <==> regex_compiles(pattern@),
        res matches Some(c) ==> c.pattern() == pattern@,
{
    match regex::Regex::new(pattern) {
        Ok(re) => Some(CompiledPattern { source: pattern.to_string(), re }),
        Err(_) => None,
    }
}

/// `regex::Regex::is_match`: whether the compiled pattern matches somewhere
/// in `text`; the answer is named, not stated.
#[verifier::external_body]
pub(crate) fn pattern_is_match(c: &CompiledPattern, text: &str) -> (res: bool)
    ensures
        res == regex_is_match(c.pattern(), text@),
{
    c.re.is_match(text)
}

/// `regex::Regex::replace_all`: every match of the compiled pattern in
/// `text` replaced by `rep`; the result is named, not stated.
#[verifier::external_body]
pub(crate) fn pattern_replace_all(c: &CompiledPattern, text: &str, rep: &str) -> (res: String)
    ensures
        res@ == regex_replace_all(c.pattern(), text@, rep@),
{
    c.re.replace_all(text, rep).into_owned()
}

/// The characters that `regex::escape` puts a backslash before
/// (`regex_syntax::is_meta_character`).
pub open spec fn is_regex_meta_char(c: char) -> bool {
    c == '\\' || c == '.' || c == '+' || c == '*' || c == '?' || c == '(' || c == ')' || c == '|'
        || c == '[' || c == ']' || c == '{' || c == '}' || c == '^' || c == '$' || c == '#' || c
        == '&' || c == '-' || c == '~'
}

/// `text` with a backslash before every meta character, as `regex::escape`
/// writes it.
pub open spec fn regex_escaped(text: Seq<char>) -> Seq<char>
    decreases text.len(),
{
    if text.len() == 0 {
        seq![]
    } else {
        let c = text.last();
        regex_escaped(text.drop_last()) + if is_regex_meta_char(c) {
            seq!['\\', c]
        } else {
            seq![c]
        }
    }
}

/// `regex::escape`: the contract states the whole result, character by
/// character, as the crate's source writes it.
#[verifier::external_body]
pub(crate) fn escape_pattern(text: &str) -> (res: String)
    ensures
        res@ == regex_escaped(text@),
{
    regex::escape(text)
}

// ---------------------------------------------------------------------------
// html_escape
// ---------------------------------------------------------------------------

/// What `html_escape::decode_html_entities` gives for `text`.
pub uninterp spec fn html_entities_decoded(text: Seq<char>) -> Seq<char>;

/// `html_escape::decode_html_entities`: `text` with its HTML entities
/// decoded; the result is named, not stated.
#[verifier::external_body]
pub(crate) fn decode_entities(text: &str) -> (res: String)
    ensures
        res@ == html_entities_decoded(text@),
{
    html_escape::decode_html_entities(text).into_owned()
}

// ---------------------------------------------------------------------------
// serde_json
// ---------------------------------------------------------------------------

#[verifier::external_type_specification]
#[verifier::external_body]
pub struct ExJsonValue(serde_json::Value);

/// Whether `serde_json::from_str::<serde_json::Value>` accepts `text`.
pub uninterp spec fn json_is_valid(text: Seq<char>) -> bool;

/// The string held under `key` in the JSON object that `text` holds, where
/// there is one (what `Value::get` followed by `Value::as_str` gives).
pub uninterp spec fn json_string_member(text: Seq<char>, key: Seq<char>) -> Option<Seq<char>>;

/// A parsed JSON document together with the text it came from.
pub struct JsonDocument {
    source: String,
    value: serde_json::Value,
}

impl JsonDocument {
    /// The text this document was parsed from.
    pub closed spec fn text(&self) -> Seq<char> {
        self.source@
    }
}

/// `serde_json::from_str::<serde_json::Value>`: parses `text`; `None` where
/// the crate reports an error.
#[verifier::external_body]
pub(crate) fn parse_json(text: &str) -> (res: Option<JsonDocument>)
    ensures
        res is Some <==> json_is_valid(text@),
        res matches Some(d) ==> d.text() == text@,
{
    match serde_json::from_str::<serde_json::Value>(text) {
        Ok(value) => Some(JsonDocument { source: text.to_string(), value }),
        Err(_) => None,
    }
}

/// `serde_json::Value::get` with a string key, then `Value::as_str`: the
/// string member `key` of the document, if it has one.
#[verifier::external_body]
pub(crate) fn json_string_field(d: &JsonDocument, key: &str) -> (res: Option<String>)
    ensures
        match res {
            Some(s) => json_string_member(d.text(), key@) == Some(s@),
            None => json_string_member(d.text(), key@) is None,
        },
{
    match d.value.get(key) {
        Some(v) => match v.as_str() {
            Some(s) => Some(s.to_string()),
            None => None,
        },
        None => None,
    }
}

} // verus!
