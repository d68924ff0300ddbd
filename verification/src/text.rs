//! Character-level text operations, each stated over `Seq<char>`.
use vstd::prelude::*;
use crate::bindings::push_char;
use vstd::slice::{slice_subrange, slice_to_vec};

verus! {

/// The characters of `s`, in order.
pub fn chars_of(s: &str) -> (res: Vec<char>)
    ensures
        res@ == s@,
{
    let mut res: Vec<char> = Vec::new();
    broadcast use vstd::string::group_string_axioms;
    for c in it: s.chars()
        invariant
            it.seq() == s@,
            res@ == it.seq().take(it.index()),
    {
        res.push(c);
    }
    assert(res@ == s@.take(s@.len() as int));
    res
}

/// A string holding exactly the characters `cs`.
pub fn string_of(cs: &[char]) -> (res: String)
    ensures
        res@ == cs@,
{
    let mut res = String::new();
    let mut i: usize = 0;
    while i < cs.len()
        invariant
            i <= cs.len(),
            res@ == cs@.subrange(0, i as int),
        decreases cs.len() - i,
    {
        push_char(&mut res, cs[i]);
        assert(cs@.subrange(0, i + 1) == cs@.subrange(0, i as int).push(cs@[i as int]));
        i = i + 1;
    }
    assert(cs@.subrange(0, cs.len() as int) == cs@);
    res
}


// ---------------------------------------------------------------------------
// Searching
// ---------------------------------------------------------------------------

/// `p` occurs in `s` starting at position `i`.
pub open spec fn occurs_at(s: Seq<char>, p: Seq<char>, i: int) -> bool {
    0 <= i && i + p.len() <= s.len() && s.subrange(i, i + p.len()) == p
}

/// The first position at or after `k` where `p` occurs in `s`.
pub open spec fn first_occurrence_from(s: Seq<char>, p: Seq<char>, k: int) -> Option<int>
    decreases s.len() + 1 - k,
{
    if k < 0 || k + p.len() > s.len() {
        None
    } else if occurs_at(s, p, k) {
        Some(k)
    } else {
        first_occurrence_from(s, p, k + 1)
    }
}

/// The first position where `p` occurs in `s` (what `str::find` answers).
pub open spec fn first_occurrence(s: Seq<char>, p: Seq<char>) -> Option<int> {
    first_occurrence_from(s, p, 0)
}

/// `p` occurs somewhere in `s`.
pub open spec fn contains_seq(s: Seq<char>, p: Seq<char>) -> bool {
    first_occurrence(s, p) is Some
}

/// `s` begins with `p`.
pub open spec fn starts_with_seq(s: Seq<char>, p: Seq<char>) -> bool {
    p.len() <= s.len() && s.subrange(0, p.len() as int) == p
}

/// `s` ends with `p`.
pub open spec fn ends_with_seq(s: Seq<char>, p: Seq<char>) -> bool {
    p.len() <= s.len() && s.subrange(s.len() - p.len(), s.len() as int) == p
}

/// What `first_occurrence_from` answers: the first match at or after `k`.
pub proof fn lemma_first_occurrence_from(s: Seq<char>, p: Seq<char>, k: int)
    requires
        0 <= k,
    ensures
        first_occurrence_from(s, p, k) matches Some(i) ==> {
            &&& k <= i
            &&& occurs_at(s, p, i)
            &&& forall|j: int| k <= j < i ==> !occurs_at(s, p, j)
        },
        first_occurrence_from(s, p, k) is None ==> forall|j: int| k <= j ==> !occurs_at(s, p, j),
    decreases s.len() + 1 - k,
{
    if k + p.len() > s.len() {
    } else if occurs_at(s, p, k) {
    } else {
        lemma_first_occurrence_from(s, p, k + 1);
    }
}

/// A match at `i` with none between `k` and `i` is the first one at or
/// after `k`.
pub proof fn lemma_first_occurrence_is(s: Seq<char>, p: Seq<char>, k: int, i: int)
    requires
        0 <= k <= i,
        occurs_at(s, p, i),
        forall|j: int| k <= j < i ==> !occurs_at(s, p, j),
    ensures
        first_occurrence_from(s, p, k) == Some(i),
    decreases i - k,
{
    if k < i {
        assert(!occurs_at(s, p, k));
        lemma_first_occurrence_is(s, p, k + 1, i);
    }
}

/// Whether `p` occurs in `s` at position `i`.
pub fn matches_at(s: &[char], p: &[char], i: usize) -> (res: bool)
    ensures
        res == occurs_at(s@, p@, i as int),
{
    if i > s.len() || p.len() > s.len() - i {
        return false;
    }
    let mut j: usize = 0;
    while j < p.len()
        invariant
            i + p.len() <= s.len(),
            j <= p.len(),
            forall|m: int| 0 <= m < j ==> s@[i + m] == p@[m],
        decreases p.len() - j,
    {
        if s[i + j] != p[j] {
            assert(s@.subrange(i as int, i + p.len())[j as int] != p@[j as int]);
            return false;
        }
        j = j + 1;
    }
    assert(s@.subrange(i as int, i + p.len()) =~= p@);
    true
}

/// The first position at or after `start` where `p` occurs in `s`.
pub fn find_from(s: &[char], p: &[char], start: usize) -> (res: Option<usize>)
    ensures
        match res {
            Some(i) => i + p@.len() <= s@.len() && first_occurrence_from(s@, p@, start as int)
                == Some(i as int),
            None => first_occurrence_from(s@, p@, start as int) is None,
        },
{
    let mut i = start;
    while i <= s.len() && p.len() <= s.len() - i
        invariant
            start <= i,
            first_occurrence_from(s@, p@, start as int) == first_occurrence_from(s@, p@, i as int),
        decreases s.len() + 1 - i,
    {
        if matches_at(s, p, i) {
            return Some(i);
        }
        if i == s.len() {
            assert(first_occurrence_from(s@, p@, i + 1) is None);
            return None;
        }
        i = i + 1;
    }
    None
}

/// The first position where `p` occurs in `s`.
pub fn find(s: &[char], p: &[char]) -> (res: Option<usize>)
    ensures
        match res {
            Some(i) => i + p@.len() <= s@.len() && first_occurrence(s@, p@) == Some(i as int),
            None => first_occurrence(s@, p@) is None,
        },
{
    find_from(s, p, 0)
}

/// Whether `p` occurs in `s`.
pub fn contains(s: &[char], p: &[char]) -> (res: bool)
    ensures
        res == contains_seq(s@, p@),
{
    find(s, p).is_some()
}

/// Whether `s` begins with `p`.
pub fn starts_with(s: &[char], p: &[char]) -> (res: bool)
    ensures
        res == starts_with_seq(s@, p@),
{
    matches_at(s, p, 0)
}

/// Whether `s` ends with `p`.
pub fn ends_with(s: &[char], p: &[char]) -> (res: bool)
    ensures
        res == ends_with_seq(s@, p@),
{
    if p.len() > s.len() {
        false
    } else {
        matches_at(s, p, s.len() - p.len())
    }
}

/// A copy of `s[from..to]`.
pub fn copy_range(s: &[char], from: usize, to: usize) -> (res: Vec<char>)
    requires
        from <= to <= s@.len(),
    ensures
        res@ == s@.subrange(from as int, to as int),
{
    slice_to_vec(slice_subrange(s, from, to))
}

// ---------------------------------------------------------------------------
// Trimming
// ---------------------------------------------------------------------------

/// `s` with every trailing copy of `p` removed, as `str::trim_end_matches`
/// does with a non-empty pattern.
pub open spec fn trim_end_matches_seq(s: Seq<char>, p: Seq<char>) -> Seq<char>
    decreases s.len(),
{
    if p.len() > 0 && ends_with_seq(s, p) {
        trim_end_matches_seq(s.subrange(0, s.len() - p.len()), p)
    } else {
        s
    }
}

/// The result of `trim_end_matches_seq` is a prefix of `s` that does not end
/// with the pattern.
pub proof fn lemma_trim_end_matches(s: Seq<char>, p: Seq<char>)
    requires
        p.len() > 0,
    ensures
        !ends_with_seq(trim_end_matches_seq(s, p), p),
        trim_end_matches_seq(s, p).len() <= s.len(),
        trim_end_matches_seq(s, p) == s.subrange(0, trim_end_matches_seq(s, p).len() as int),
    decreases s.len(),
{
    if ends_with_seq(s, p) {
        let t = s.subrange(0, s.len() - p.len());
        lemma_trim_end_matches(t, p);
        let r = trim_end_matches_seq(t, p);
        assert(s.subrange(0, r.len() as int) == t.subrange(0, r.len() as int));
    } else {
        assert(s.subrange(0, s.len() as int) == s);
    }
}

/// `s` with every trailing copy of the non-empty pattern `p` removed.
pub fn trim_end_matches(s: &[char], p: &[char]) -> (res: Vec<char>)
    ensures
        res@ == trim_end_matches_seq(s@, p@),
{
    let mut end = s.len();
    assert(s@.subrange(0, end as int) == s@);
    while p.len() > 0 && p.len() <= end && matches_at(s, p, end - p.len())
        invariant
            end <= s.len(),
            trim_end_matches_seq(s@.subrange(0, end as int), p@) == trim_end_matches_seq(s@, p@),
        decreases end,
    {
        let ghost t = s@.subrange(0, end as int);
        assert(t.subrange(t.len() - p@.len(), t.len() as int)
            == s@.subrange(end - p@.len(), end as int));
        assert(t.subrange(0, t.len() - p@.len()) == s@.subrange(0, end - p@.len()));
        end = end - p.len();
    }
    proof {
        let t = s@.subrange(0, end as int);
        if p@.len() > 0 && p@.len() <= end {
            assert(t.subrange(t.len() - p@.len(), t.len() as int)
                == s@.subrange(end - p@.len(), end as int));
        }
    }
    copy_range(s, 0, end)
}

/// The characters that `char::is_whitespace` accepts: those with the Unicode
/// `White_Space` property.
pub open spec fn is_whitespace_char(c: char) -> bool {
    ||| ('\u{9}' <= c && c <= '\u{d}')
    ||| c == ' '
    ||| c == '\u{85}'
    ||| c == '\u{a0}'
    ||| c == '\u{1680}'
    ||| ('\u{2000}' <= c && c <= '\u{200a}')
    ||| c == '\u{2028}'
    ||| c == '\u{2029}'
    ||| c == '\u{202f}'
    ||| c == '\u{205f}'
    ||| c == '\u{3000}'
}

/// Whether `c` is white space in the sense of `char::is_whitespace`.
pub fn is_whitespace(c: char) -> (res: bool)
    ensures
        res == is_whitespace_char(c),
{
    ('\u{9}' <= c && c <= '\u{d}') || c == ' ' || c == '\u{85}' || c == '\u{a0}' || c
        == '\u{1680}' || ('\u{2000}' <= c && c <= '\u{200a}') || c == '\u{2028}' || c
        == '\u{2029}' || c == '\u{202f}' || c == '\u{205f}' || c == '\u{3000}'
}

/// `s` without its leading white space (`str::trim_start`).
pub open spec fn trim_start_seq(s: Seq<char>) -> Seq<char>
    decreases s.len(),
{
    if s.len() > 0 && is_whitespace_char(s[0]) {
        trim_start_seq(s.drop_first())
    } else {
        s
    }
}

/// `s` without its trailing white space (`str::trim_end`).
pub open spec fn trim_end_seq(s: Seq<char>) -> Seq<char>
    decreases s.len(),
{
    if s.len() > 0 && is_whitespace_char(s.last()) {
        trim_end_seq(s.drop_last())
    } else {
        s
    }
}

/// `s` without leading and trailing white space (`str::trim`).
pub open spec fn trim_seq(s: Seq<char>) -> Seq<char> {
    trim_end_seq(trim_start_seq(s))
}

/// Where the text after the leading white space of `s` starts.
fn trim_start_index(s: &[char], from: usize, to: usize) -> (res: usize)
    requires
        from <= to <= s@.len(),
    ensures
        from <= res <= to,
        trim_start_seq(s@.subrange(from as int, to as int)) == s@.subrange(res as int, to as int),
{
    let mut i = from;
    while i < to && is_whitespace(s[i])
        invariant
            from <= i <= to <= s@.len(),
            trim_start_seq(s@.subrange(from as int, to as int)) == trim_start_seq(
                s@.subrange(i as int, to as int),
            ),
        decreases to - i,
    {
        assert(s@.subrange(i as int, to as int).drop_first() == s@.subrange(i + 1, to as int));
        i = i + 1;
    }
    i
}

/// Where the text before the trailing white space of `s[from..to]` ends.
fn trim_end_index(s: &[char], from: usize, to: usize) -> (res: usize)
    requires
        from <= to <= s@.len(),
    ensures
        from <= res <= to,
        trim_end_seq(s@.subrange(from as int, to as int)) == s@.subrange(from as int, res as int),
{
    let mut j = to;
    while from < j && is_whitespace(s[j - 1])
        invariant
            from <= j <= to <= s@.len(),
            trim_end_seq(s@.subrange(from as int, to as int)) == trim_end_seq(
                s@.subrange(from as int, j as int),
            ),
        decreases j,
    {
        assert(s@.subrange(from as int, j as int).drop_last() == s@.subrange(
            from as int,
            j - 1,
        ));
        j = j - 1;
    }
    j
}

/// `s` without its leading white space.
pub fn trim_start(s: &[char]) -> (res: Vec<char>)
    ensures
        res@ == trim_start_seq(s@),
{
    assert(s@.subrange(0, s@.len() as int) == s@);
    let i = trim_start_index(s, 0, s.len());
    copy_range(s, i, s.len())
}

/// `s` without leading and trailing white space.
pub fn trim(s: &[char]) -> (res: Vec<char>)
    ensures
        res@ == trim_seq(s@),
{
    assert(s@.subrange(0, s@.len() as int) == s@);
    let i = trim_start_index(s, 0, s.len());
    let j = trim_end_index(s, i, s.len());
    copy_range(s, i, j)
}

// ---------------------------------------------------------------------------
// Splitting, replacing, joining
// ---------------------------------------------------------------------------

/// The views of a vector of character vectors.
pub open spec fn views(v: Seq<Vec<char>>) -> Seq<Seq<char>> {
    v.map_values(|x: Vec<char>| x@)
}

/// `l` without one trailing carriage return.
pub open spec fn strip_cr(l: Seq<char>) -> Seq<char> {
    if l.len() > 0 && l.last() == '\r' {
        l.drop_last()
    } else {
        l
    }
}

/// The lines of `s[k..]` as `str::lines` yields them: split at each `\n`, a
/// `\r` right before that `\n` dropped, and no empty line after a final `\n`.
pub open spec fn lines_from(s: Seq<char>, k: int) -> Seq<Seq<char>>
    decreases s.len() - k,
{
    if k < 0 || k >= s.len() {
        seq![]
    } else {
        match first_occurrence_from(s, seq!['\n'], k) {
            None => seq![s.subrange(k, s.len() as int)],
            Some(i) => {
                proof {
                    lemma_first_occurrence_from(s, seq!['\n'], k);
                }
                seq![strip_cr(s.subrange(k, i))] + lines_from(s, i + 1)
            },
        }
    }
}

/// The lines of `s` (`str::lines`).
pub open spec fn lines_seq(s: Seq<char>) -> Seq<Seq<char>> {
    lines_from(s, 0)
}

/// The lines of `s`, as `str::lines` yields them.
pub fn lines(s: &[char]) -> (res: Vec<Vec<char>>)
    ensures
        views(res@) == lines_seq(s@),
{
    let nl = ['\n'];
    let mut out: Vec<Vec<char>> = Vec::new();
    let mut start: usize = 0;
    assert(nl@ == seq!['\n']);
    while start < s.len()
        invariant
            nl@ == seq!['\n'],
            start <= s.len(),
            lines_seq(s@) == views(out@) + lines_from(s@, start as int),
        decreases s.len() - start,
    {
        proof {
            lemma_first_occurrence_from(s@, nl@, start as int);
        }
        match find_from(s, &nl, start) {
            Some(i) => {
                let mut line = copy_range(s, start, i);
                if line.len() > 0 && line[line.len() - 1] == '\r' {
                    line.pop();
                }
                assert(line@ == strip_cr(s@.subrange(start as int, i as int)));
                let ghost prev = out@;
                out.push(line);
                assert(views(out@) == views(prev) + seq![strip_cr(s@.subrange(start as int, i as int))]);
                start = i + 1;
            },
            None => {
                let line = copy_range(s, start, s.len());
                let ghost prev = out@;
                out.push(line);
                assert(views(out@) == views(prev) + seq![s@.subrange(start as int, s@.len() as int)]);
                assert(lines_from(s@, s@.len() as int) == Seq::<Seq<char>>::empty());
                start = s.len();
            },
        }
    }
    assert(lines_from(s@, start as int) == Seq::<Seq<char>>::empty());
    assert(views(out@) + Seq::<Seq<char>>::empty() == views(out@));
    out
}

/// The pieces of `s[k..]` between occurrences of `sep` (`str::split` on a
/// character).
pub open spec fn split_from(s: Seq<char>, sep: char, k: int) -> Seq<Seq<char>>
    decreases s.len() + 1 - k,
{
    if k < 0 || k > s.len() {
        seq![]
    } else {
        match first_occurrence_from(s, seq![sep], k) {
            None => seq![s.subrange(k, s.len() as int)],
            Some(i) => {
                proof {
                    lemma_first_occurrence_from(s, seq![sep], k);
                }
                seq![s.subrange(k, i)] + split_from(s, sep, i + 1)
            },
        }
    }
}

/// The pieces of `s` between occurrences of `sep`.
pub open spec fn split_seq(s: Seq<char>, sep: char) -> Seq<Seq<char>> {
    split_from(s, sep, 0)
}

/// The pieces of `s` between occurrences of `sep`, as `str::split` yields them.
pub fn split_on(s: &[char], sep: char) -> (res: Vec<Vec<char>>)
    ensures
        views(res@) == split_seq(s@, sep),
{
    let pat = [sep];
    let mut out: Vec<Vec<char>> = Vec::new();
    let mut start: usize = 0;
    assert(pat@ == seq![sep]);
    loop
        invariant_except_break
            pat@ == seq![sep],
            start <= s.len(),
            split_seq(s@, sep) == views(out@) + split_from(s@, sep, start as int),
        ensures
            split_seq(s@, sep) == views(out@),
        decreases s.len() - start,
    {
        proof {
            lemma_first_occurrence_from(s@, pat@, start as int);
        }
        match find_from(s, &pat, start) {
            Some(i) => {
                let piece = copy_range(s, start, i);
                let ghost prev = out@;
                out.push(piece);
                assert(views(out@) == views(prev) + seq![s@.subrange(start as int, i as int)]);
                start = i + 1;
            },
            None => {
                let piece = copy_range(s, start, s.len());
                let ghost prev = out@;
                out.push(piece);
                assert(views(out@) == views(prev) + seq![s@.subrange(start as int, s@.len() as int)]);
                break;
            },
        }
    }
    out
}

/// `s[k..]` with every occurrence of `from`, taken left to right without
/// overlap, replaced by `to` (`str::replace`).
pub open spec fn replace_from(s: Seq<char>, from: Seq<char>, to: Seq<char>, k: int) -> Seq<char>
    decreases s.len() + 1 - k,
{
    if k < 0 || k > s.len() {
        seq![]
    } else if from.len() == 0 {
        // An empty pattern matches at every character boundary.
        if k == s.len() {
            to
        } else {
            to + seq![s[k]] + replace_from(s, from, to, k + 1)
        }
    } else {
        match first_occurrence_from(s, from, k) {
            None => s.subrange(k, s.len() as int),
            Some(i) => {
                proof {
                    lemma_first_occurrence_from(s, from, k);
                }
                s.subrange(k, i) + to + replace_from(s, from, to, i + from.len())
            },
        }
    }
}

/// `s` with every occurrence of `from` replaced by `to`.
pub open spec fn replace_seq(s: Seq<char>, from: Seq<char>, to: Seq<char>) -> Seq<char> {
    replace_from(s, from, to, 0)
}

/// `s` with every occurrence of the non-empty `from` replaced by `to`.
pub fn replace(s: &[char], from: &[char], to: &[char]) -> (res: Vec<char>)
    requires
        from@.len() > 0,
    ensures
        res@ == replace_seq(s@, from@, to@),
{
    let mut out: Vec<char> = Vec::new();
    let mut start: usize = 0;
    loop
        invariant_except_break
            from@.len() > 0,
            start <= s.len(),
            replace_seq(s@, from@, to@) == out@ + replace_from(s@, from@, to@, start as int),
        ensures
            replace_seq(s@, from@, to@) == out@,
        decreases s.len() - start,
    {
        proof {
            lemma_first_occurrence_from(s@, from@, start as int);
        }
        match find_from(s, from, start) {
            Some(i) => {
                let mut piece = copy_range(s, start, i);
                out.append(&mut piece);
                let mut rep = slice_to_vec(to);
                out.append(&mut rep);
                start = i + from.len();
            },
            None => {
                let mut piece = copy_range(s, start, s.len());
                out.append(&mut piece);
                break;
            },
        }
    }
    out
}

/// The pieces `ls` joined by `sep` (`[T]::join`).
pub open spec fn join_seq(ls: Seq<Seq<char>>, sep: Seq<char>) -> Seq<char>
    decreases ls.len(),
{
    if ls.len() == 0 {
        seq![]
    } else if ls.len() == 1 {
        ls[0]
    } else {
        join_seq(ls.drop_last(), sep) + sep + ls.last()
    }
}

/// The pieces `ls` joined by `sep`.
pub fn join(ls: &[Vec<char>], sep: &[char]) -> (res: Vec<char>)
    ensures
        res@ == join_seq(views(ls@), sep@),
{
    let mut out: Vec<char> = Vec::new();
    let mut i: usize = 0;
    while i < ls.len()
        invariant
            i <= ls.len(),
            out@ == join_seq(views(ls@).take(i as int), sep@),
        decreases ls.len() - i,
    {
        assert(views(ls@).take(i + 1).drop_last() == views(ls@).take(i as int));
        if i > 0 {
            let mut s = slice_to_vec(sep);
            out.append(&mut s);
        }
        let mut piece = ls[i].clone();
        out.append(&mut piece);
        i = i + 1;
    }
    assert(views(ls@).take(ls.len() as int) == views(ls@));
    out
}

// ---------------------------------------------------------------------------
// Laws
// ---------------------------------------------------------------------------

proof fn lemma_lines_from_no_newline(s: Seq<char>, k: int)
    requires
        0 <= k,
    ensures
        forall|i: int|
            0 <= i < lines_from(s, k).len() ==> !(#[trigger] lines_from(s, k)[i]).contains('\n'),
    decreases s.len() - k,
{
    if k < s.len() {
        let nl = seq!['\n'];
        lemma_first_occurrence_from(s, nl, k);
        match first_occurrence_from(s, nl, k) {
            None => {
                let l = s.subrange(k, s.len() as int);
                assert forall|m: int| 0 <= m < l.len() implies l[m] != '\n' by {
                    assert(s.subrange(k + m, k + m + 1) =~= seq![l[m]]);
                    assert(!occurs_at(s, nl, k + m));
                }
                assert(lines_from(s, k) == seq![l]);
            },
            Some(j) => {
                lemma_lines_from_no_newline(s, j + 1);
                let l = s.subrange(k, j);
                assert forall|m: int| 0 <= m < l.len() implies l[m] != '\n' by {
                    assert(s.subrange(k + m, k + m + 1) =~= seq![l[m]]);
                    assert(!occurs_at(s, nl, k + m));
                }
                let sl = strip_cr(l);
                assert forall|m: int| 0 <= m < sl.len() implies sl[m] != '\n' by {
                    assert(sl[m] == l[m]);
                }
                let rest = lines_from(s, j + 1);
                assert(lines_from(s, k) == seq![sl] + rest);
                assert forall|i: int|
                    0 <= i < lines_from(s, k).len() implies !(#[trigger] lines_from(
                    s,
                    k,
                )[i]).contains('\n') by {
                    if i == 0 {
                        assert(lines_from(s, k)[0] == sl);
                    } else {
                        assert(lines_from(s, k)[i] == rest[i - 1]);
                    }
                }
            },
        }
    }
}

/// No line that `lines` yields holds a line break.
pub proof fn law_lines_hold_no_newline(s: Seq<char>)
    ensures
        forall|i: int| 0 <= i < lines_seq(s).len() ==> !(#[trigger] lines_seq(s)[i]).contains('\n'),
{
    lemma_lines_from_no_newline(s, 0);
}

proof fn lemma_trim_start_shape(s: Seq<char>)
    ensures
        trim_start_seq(s).len() > 0 ==> !is_whitespace_char(trim_start_seq(s)[0]),
        trim_start_seq(s).len() <= s.len(),
        trim_start_seq(s) == s.subrange(s.len() - trim_start_seq(s).len(), s.len() as int),
    decreases s.len(),
{
    if s.len() > 0 && is_whitespace_char(s[0]) {
        lemma_trim_start_shape(s.drop_first());
        let t = trim_start_seq(s.drop_first());
        assert(s.drop_first().subrange(s.drop_first().len() - t.len(), s.drop_first().len() as int)
            == s.subrange(s.len() - t.len(), s.len() as int));
    } else {
        assert(s.subrange(0, s.len() as int) == s);
    }
}

proof fn lemma_trim_end_shape(s: Seq<char>)
    ensures
        trim_end_seq(s).len() > 0 ==> !is_whitespace_char(trim_end_seq(s).last()),
        trim_end_seq(s) == s.subrange(0, trim_end_seq(s).len() as int),
        trim_end_seq(s).len() <= s.len(),
    decreases s.len(),
{
    if s.len() > 0 && is_whitespace_char(s.last()) {
        lemma_trim_end_shape(s.drop_last());
        let t = trim_end_seq(s.drop_last());
        assert(s.drop_last().subrange(0, t.len() as int) == s.subrange(0, t.len() as int));
    } else {
        assert(s.subrange(0, s.len() as int) == s);
    }
}

/// Trimmed text neither begins nor ends with white space.
pub proof fn law_trim_leaves_no_surrounding_whitespace(s: Seq<char>)
    ensures
        trim_seq(s).len() > 0 ==> !is_whitespace_char(trim_seq(s)[0]) && !is_whitespace_char(
            trim_seq(s).last(),
        ),
{
    let t = trim_start_seq(s);
    lemma_trim_start_shape(s);
    lemma_trim_end_shape(t);
    if trim_seq(s).len() > 0 {
        assert(trim_seq(s)[0] == t[0]);
    }
}

/// Trimming trimmed text changes nothing.
pub proof fn law_trim_is_idempotent(s: Seq<char>)
    ensures
        trim_seq(trim_seq(s)) == trim_seq(s),
{
    let t = trim_seq(s);
    law_trim_leaves_no_surrounding_whitespace(s);
    if t.len() > 0 {
        assert(trim_start_seq(t) == t);
        assert(trim_end_seq(t) == t);
    } else {
        assert(trim_start_seq(t) == t);
        assert(trim_end_seq(t) == t);
    }
}

/// After `trim_end_matches` with a non-empty pattern, the text no longer
/// ends with it, and it is what remains of the text with some trailing
/// copies of the pattern removed.
pub proof fn law_trim_end_matches_removes_suffix(s: Seq<char>, p: Seq<char>)
    requires
        p.len() > 0,
    ensures
        !ends_with_seq(trim_end_matches_seq(s, p), p),
        starts_with_seq(s, trim_end_matches_seq(s, p)),
{
    lemma_trim_end_matches(s, p);
}

} // verus!
