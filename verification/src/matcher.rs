//! The preview's matcher — **one** implementation of "where does this query occur in this
//! text", for every text the preview searches (the preview buffer, table-cell labels, and
//! the source of collapsed disclosures).
//!
//! Every range is in **bytes** into the `&str` it was found in: that is the index space a
//! cell label's attributes want, and the caller that needs buffer characters converts once,
//! where it holds the map.
//!
//! A regular expression is run by GRegex, the same engine the editor pane uses, so that one
//! pattern means one thing in both panes. The engine itself is outside this crate: this
//! module decides the pattern it is handed ([`editor_pattern`], [`RegexQuery`]) and what
//! is kept of the positions it reports ([`regex_ranges`]).

use vstd::prelude::*;
use crate::options::FindOptions;
use crate::unicode::{byte_len, byte_offset, chars_of, char_is_alphanumeric, is_alphanumeric, len_utf8, lemma_byte_offset_monotone, lowercase_first, to_lowercase_first};

verus! {

broadcast use vstd::string::group_string_axioms;

/// One match, in bytes into the text it was found in.
#[derive(Clone, Copy, PartialEq, Eq, Debug, Structural)]
pub struct Range {
    pub start: usize,
    pub end: usize,
}

/// The pattern handed to the editor's engine, and compiled for the preview, for `query`
/// under `opts`: a whole-word regular expression is wrapped in a **non-capturing group**
/// between word boundaries, so an alternation is bounded as a whole; every other query
/// passes through unchanged.
pub open spec fn editor_pattern_spec(query: Seq<char>, opts: FindOptions) -> Seq<char> {
    if opts.regex && opts.whole_word && query.len() > 0 {
        "\\b(?:"@ + query + ")\\b"@
    } else {
        query
    }
}

/// The pattern to hand the editor's engine for `query` under `opts` — one spelling for
/// both panes, so they cannot wrap a query differently.
pub fn editor_pattern(query: &str, opts: FindOptions) -> (r: String)
    ensures
        r@ == editor_pattern_spec(query@, opts),
{
    if opts.regex && opts.whole_word && !query.is_empty() {
        let mut out = String::from_str("\\b(?:");
        out.append(query);
        out.append(")\\b");
        out
    } else {
        String::from_str(query)
    }
}

/// Whether the editor's engine should apply its own whole-word bounding: only for a
/// literal, because its wrapper for a regular expression is ungrouped.
pub fn engine_applies_word_boundaries(opts: FindOptions) -> (r: bool)
    ensures
        r == (opts.whole_word && !opts.regex),
{
    opts.whole_word && !opts.regex
}

/// `c` case-folded when `folding`: its simple lowercase mapping, one character for one,
/// so a folded match has the query's length.
pub open spec fn fold_spec(c: char, folding: bool) -> char {
    if folding { lowercase_first(c) } else { c }
}

/// Case-fold `c` when `folding`.
pub fn fold(c: char, folding: bool) -> (r: char)
    ensures
        r == fold_spec(c, folding),
{
    if folding { to_lowercase_first(c) } else { c }
}

/// Whether `c` is part of a word for whole-word matching: alphanumeric, or `_`.
pub open spec fn is_word_char_spec(c: char) -> bool {
    is_alphanumeric(c) || c == '_'
}

/// Whether `c` is part of a word for whole-word matching.
pub fn is_word_char(c: char) -> (r: bool)
    ensures
        r == is_word_char_spec(c),
{
    char_is_alphanumeric(c) || c == '_'
}

/// Whether characters `[start, end)` of `hay` are bounded by non-word characters, the ends
/// of the text counting as boundaries.
pub open spec fn whole_word_spec(hay: Seq<char>, start: int, end: int) -> bool {
    &&& (start == 0 || !is_word_char_spec(hay[start - 1]))
    &&& (end == hay.len() || !is_word_char_spec(hay[end]))
}

/// Whether the match over characters `[start, end)` of `hay` is a whole word.
pub fn is_whole_word(hay: &[char], start: usize, end: usize) -> (r: bool)
    requires
        start <= end <= hay@.len(),
    ensures
        r == whole_word_spec(hay@, start as int, end as int),
{
    let before_ok = start == 0 || !is_word_char(hay[start - 1]);
    let after_ok = end == hay.len() || !is_word_char(hay[end]);
    before_ok && after_ok
}

/// Whether the (already folded) `needle` occurs at character `i` of `hay`, comparing each
/// haystack character folded.
pub open spec fn occurs_at(hay: Seq<char>, needle: Seq<char>, folding: bool, i: int) -> bool {
    &&& 0 <= i
    &&& i + needle.len() <= hay.len()
    &&& forall|k: int| 0 <= k < needle.len() ==> fold_spec(#[trigger] hay[i + k], folding) == needle[k]
}

/// Whether a literal match is accepted at character `i`: the needle occurs there and, under
/// whole word, is bounded on both sides.
pub open spec fn accepted_at(hay: Seq<char>, needle: Seq<char>, folding: bool, whole_word: bool, i: int) -> bool {
    occurs_at(hay, needle, folding, i) && (!whole_word || whole_word_spec(hay, i, i + needle.len()))
}

/// The leftmost-first, non-overlapping scan from character `i`: the start of every accepted
/// match, where the scan resumes just past a match it accepts and one character on
/// otherwise. An empty needle matches nothing.
pub open spec fn scan_from(hay: Seq<char>, needle: Seq<char>, folding: bool, whole_word: bool, i: int) -> Seq<int>
    decreases hay.len() - i,
{
    if needle.len() == 0 || i < 0 || i + needle.len() > hay.len() {
        Seq::empty()
    } else if accepted_at(hay, needle, folding, whole_word, i) {
        seq![i] + scan_from(hay, needle, folding, whole_word, i + needle.len())
    } else {
        scan_from(hay, needle, folding, whole_word, i + 1)
    }
}

/// The byte range of the match of `n` characters starting at character `p` of `hay`.
pub open spec fn byte_range(hay: Seq<char>, p: int, n: int) -> Range {
    Range { start: byte_offset(hay, p) as usize, end: byte_offset(hay, p + n) as usize }
}

/// Every match of the literal `needle` in `hay`, as byte ranges.
pub open spec fn literal_ranges_spec(hay: Seq<char>, needle: Seq<char>, case_sensitive: bool, whole_word: bool) -> Seq<Range> {
    scan_from(hay, needle, !case_sensitive, whole_word, 0).map_values(
        |p: int| byte_range(hay, p, needle.len() as int),
    )
}

/// The literal scan: every non-overlapping match of the folded `needle` in `hay`, as
/// ascending byte ranges.
pub fn literal_ranges(hay: &str, needle: &[char], case_sensitive: bool, whole_word: bool) -> (out: Vec<Range>)
    requires
        byte_len(hay@) <= usize::MAX,
    ensures
        out@ == literal_ranges_spec(hay@, needle@, case_sensitive, whole_word),
{
    let ghost h = hay@;
    let ghost nd = needle@;
    let folding = !case_sensitive;
    let mut out: Vec<Range> = Vec::new();
    let n = needle.len();
    if n == 0 {
        proof {
            assert(scan_from(h, nd, folding, whole_word, 0) =~= Seq::<int>::empty());
            assert(literal_ranges_spec(h, nd, case_sensitive, whole_word) =~= Seq::<Range>::empty());
        }
        return out;
    }
    let chars = chars_of(hay);
    let len = chars.len();
    // The byte offset of every character, and of the end of the text.
    let mut bytes: Vec<usize> = Vec::new();
    let mut acc: usize = 0;
    let mut j: usize = 0;
    while j < len
        invariant
            chars@ == h,
            len == h.len(),
            j <= len,
            bytes@.len() == j,
            acc == byte_offset(h, j as int),
            byte_len(h) <= usize::MAX,
            forall|k: int| 0 <= k < j ==> bytes@[k] == byte_offset(h, k),
        decreases len - j,
    {
        proof {
            lemma_byte_offset_monotone(h, j as int + 1, h.len() as int);
        }
        bytes.push(acc);
        acc = acc + len_utf8(chars[j]);
        j += 1;
    }
    bytes.push(acc);
    let ghost mut found: Seq<int> = Seq::empty();
    let mut i: usize = 0;
    while i <= len && n <= len - i
        invariant
            chars@ == h,
            needle@ == nd,
            n == nd.len(),
            n > 0,
            len == h.len(),
            i <= len,
            bytes@.len() == len + 1,
            byte_len(h) <= usize::MAX,
            forall|k: int| 0 <= k <= len ==> bytes@[k] == byte_offset(h, k),
            found + scan_from(h, nd, folding, whole_word, i as int) == scan_from(h, nd, folding, whole_word, 0),
            out@ == found.map_values(|p: int| byte_range(h, p, n as int)),
        decreases len - i,
    {
        let mut k: usize = 0;
        let mut matched = true;
        while k < n
            invariant
                chars@ == h,
                needle@ == nd,
                n == nd.len(),
                i + n <= len,
                len == h.len(),
                k <= n,
                matched == (forall|t: int| 0 <= t < k ==> fold_spec(#[trigger] h[i + t], folding) == nd[t]),
            decreases n - k,
        {
            if fold(chars[i + k], folding) != needle[k] {
                matched = false;
            }
            k += 1;
        }
        proof {
            assert(matched == occurs_at(h, nd, folding, i as int));
        }
        if matched && (!whole_word || is_whole_word(&chars, i, i + n)) {
            proof {
                lemma_byte_offset_monotone(h, (i + n) as int, len as int);
                assert(found.push(i as int) + scan_from(h, nd, folding, whole_word, (i + n) as int)
                    =~= found + scan_from(h, nd, folding, whole_word, i as int));
                assert(found.push(i as int).map_values(|p: int| byte_range(h, p, n as int))
                    =~= found.map_values(|p: int| byte_range(h, p, n as int)).push(byte_range(h, i as int, n as int)));
                found = found.push(i as int);
            }
            out.push(Range { start: bytes[i], end: bytes[i + n] });
            i += n;
        } else {
            i += 1;
        }
    }
    proof {
        assert(scan_from(h, nd, folding, whole_word, i as int) =~= Seq::<int>::empty());
        assert(found =~= scan_from(h, nd, folding, whole_word, 0));
    }
    out
}


/// Every position the leftmost-first scan reports is an accepted match.
pub proof fn lemma_scan_reports_matches(hay: Seq<char>, needle: Seq<char>, folding: bool, whole_word: bool, i: int)
    ensures
        forall|j: int| 0 <= j < scan_from(hay, needle, folding, whole_word, i).len() ==>
            i <= #[trigger] scan_from(hay, needle, folding, whole_word, i)[j]
                && accepted_at(hay, needle, folding, whole_word, scan_from(hay, needle, folding, whole_word, i)[j]),
    decreases hay.len() - i,
{
    let s = scan_from(hay, needle, folding, whole_word, i);
    if needle.len() == 0 || i < 0 || i + needle.len() > hay.len() {
        assert(s.len() == 0);
    } else if accepted_at(hay, needle, folding, whole_word, i) {
        let rest = scan_from(hay, needle, folding, whole_word, i + needle.len());
        lemma_scan_reports_matches(hay, needle, folding, whole_word, i + needle.len());
        assert(s == seq![i] + rest);
        assert forall|j: int| 0 <= j < s.len() implies i <= #[trigger] s[j]
            && accepted_at(hay, needle, folding, whole_word, s[j]) by {
            if j > 0 {
                assert(s[j] == rest[j - 1]);
            }
        }
    } else {
        let rest = scan_from(hay, needle, folding, whole_word, i + 1);
        lemma_scan_reports_matches(hay, needle, folding, whole_word, i + 1);
        assert(s == rest);
        assert forall|j: int| 0 <= j < s.len() implies i <= #[trigger] s[j]
            && accepted_at(hay, needle, folding, whole_word, s[j]) by {
            assert(s[j] == rest[j]);
        }
    }
}

/// The reported matches are in text order and do not overlap: each starts at or after the
/// end of the one before it.
pub proof fn lemma_scan_is_ordered_and_disjoint(hay: Seq<char>, needle: Seq<char>, folding: bool, whole_word: bool, i: int)
    ensures
        forall|j: int| 0 < j < scan_from(hay, needle, folding, whole_word, i).len() ==>
            scan_from(hay, needle, folding, whole_word, i)[j - 1] + needle.len()
                <= #[trigger] scan_from(hay, needle, folding, whole_word, i)[j],
    decreases hay.len() - i,
{
    let s = scan_from(hay, needle, folding, whole_word, i);
    if needle.len() == 0 || i < 0 || i + needle.len() > hay.len() {
        assert(s.len() == 0);
    } else if accepted_at(hay, needle, folding, whole_word, i) {
        let rest = scan_from(hay, needle, folding, whole_word, i + needle.len());
        lemma_scan_is_ordered_and_disjoint(hay, needle, folding, whole_word, i + needle.len());
        lemma_scan_reports_matches(hay, needle, folding, whole_word, i + needle.len());
        assert(s == seq![i] + rest);
        assert forall|j: int| 0 < j < s.len() implies s[j - 1] + needle.len() <= #[trigger] s[j] by {
            assert(s[j] == rest[j - 1]);
            if j > 1 {
                assert(s[j - 1] == rest[j - 2]);
            } else {
                assert(i + needle.len() <= rest[0]);
            }
        }
    } else {
        let rest = scan_from(hay, needle, folding, whole_word, i + 1);
        lemma_scan_is_ordered_and_disjoint(hay, needle, folding, whole_word, i + 1);
        assert(s == rest);
        assert forall|j: int| 0 < j < s.len() implies s[j - 1] + needle.len() <= #[trigger] s[j] by {
            assert(s[j] == rest[j]);
            assert(s[j - 1] == rest[j - 1]);
        }
    }
}

/// No accepted match is skipped: a match position from `i` on that the scan does not report
/// overlaps the reported match before it.
pub proof fn lemma_scan_misses_nothing(hay: Seq<char>, needle: Seq<char>, folding: bool, whole_word: bool, i: int, q: int)
    requires
        0 <= i <= q,
        needle.len() > 0,
        accepted_at(hay, needle, folding, whole_word, q),
    ensures
        scan_from(hay, needle, folding, whole_word, i).contains(q) || exists|j: int|
            0 <= j < scan_from(hay, needle, folding, whole_word, i).len()
                && #[trigger] scan_from(hay, needle, folding, whole_word, i)[j] < q
                < scan_from(hay, needle, folding, whole_word, i)[j] + needle.len(),
    decreases hay.len() - i,
{
    let n = needle.len() as int;
    if accepted_at(hay, needle, folding, whole_word, i) {
        let rest = scan_from(hay, needle, folding, whole_word, i + n);
        let all = seq![i] + rest;
        assert(scan_from(hay, needle, folding, whole_word, i) == all);
        if q == i {
            assert(all[0] == q);
        } else if q < i + n {
            assert(all[0] < q < all[0] + n);
        } else {
            lemma_scan_misses_nothing(hay, needle, folding, whole_word, i + n, q);
            if rest.contains(q) {
                let j = choose|j: int| 0 <= j < rest.len() && rest[j] == q;
                assert(all[j + 1] == q);
            } else {
                let j = choose|j: int| 0 <= j < rest.len() && #[trigger] rest[j] < q < rest[j] + n;
                assert(all[j + 1] == rest[j]);
            }
        }
    } else {
        assert(q != i);
        lemma_scan_misses_nothing(hay, needle, folding, whole_word, i + 1, q);
    }
}

/// **Whole word means bounded by non-word characters on both sides.** Every match a
/// whole-word literal search reports is an occurrence of the (folded) query whose
/// neighbouring characters — the one just before it and the one just after it, where they
/// exist — are both outside the word characters: the alphanumerics and `_`, the same set on
/// either side. So the `note` in `my_note` or in `notes` is never reported. Stated for each
/// reported match `k`.
pub proof fn lemma_whole_word_matches_are_bounded(hay: Seq<char>, needle: Seq<char>, case_sensitive: bool, k: int)
    requires
        0 <= k < literal_ranges_spec(hay, needle, case_sensitive, true).len(),
    ensures
        exists|p: int| #![trigger byte_offset(hay, p)] {
            &&& 0 <= p
            &&& p + needle.len() <= hay.len()
            &&& literal_ranges_spec(hay, needle, case_sensitive, true)[k] == Range {
                start: byte_offset(hay, p) as usize,
                end: byte_offset(hay, p + needle.len()) as usize,
            }
            &&& forall|i: int| 0 <= i < needle.len() ==> fold_spec(#[trigger] hay[p + i], !case_sensitive) == needle[i]
            &&& (p == 0 || !(is_alphanumeric(hay[p - 1]) || hay[p - 1] == '_'))
            &&& (p + needle.len() == hay.len()
                || !(is_alphanumeric(hay[p + needle.len()]) || hay[p + needle.len()] == '_'))
        },
{
    let folding = !case_sensitive;
    let sc = scan_from(hay, needle, folding, true, 0);
    lemma_scan_reports_matches(hay, needle, folding, true, 0);
    let lr = literal_ranges_spec(hay, needle, case_sensitive, true);
    let p = sc[k];
    assert(accepted_at(hay, needle, folding, true, p));
    assert(lr[k] == byte_range(hay, p, needle.len() as int));
    assert(whole_word_spec(hay, p, p + needle.len()));
    assert(byte_offset(hay, p) == byte_offset(hay, p));
}

/// **No whole word is missed.** An occurrence of the (folded) query bounded on both sides by
/// non-word characters (or the ends of the text) is reported, unless it overlaps a match
/// reported before it. `folding` is whether the search ignores case.
pub proof fn lemma_whole_word_occurrences_are_found(hay: Seq<char>, needle: Seq<char>, folding: bool, q: int)
    requires
        needle.len() > 0,
        0 <= q,
        q + needle.len() <= hay.len(),
        forall|i: int| 0 <= i < needle.len() ==> fold_spec(#[trigger] hay[q + i], folding) == needle[i],
        q == 0 || !(is_alphanumeric(hay[q - 1]) || hay[q - 1] == '_'),
        q + needle.len() == hay.len() || !(is_alphanumeric(hay[q + needle.len()]) || hay[q + needle.len()] == '_'),
    ensures
        scan_from(hay, needle, folding, true, 0).contains(q) || exists|j: int|
            0 <= j < scan_from(hay, needle, folding, true, 0).len()
                && #[trigger] scan_from(hay, needle, folding, true, 0)[j] < q
                < scan_from(hay, needle, folding, true, 0)[j] + needle.len(),
{
    assert(accepted_at(hay, needle, folding, true, q));
    lemma_scan_misses_nothing(hay, needle, folding, true, 0, q);
}

/// **Every advancing engine match is kept.** However the engine reports its matches, a
/// non-empty match is in the result when every match it reported up to and including it
/// starts past the start of the one before — in particular one that starts exactly where
/// the previous match ended.
pub proof fn lemma_advancing_regex_matches_are_kept(raw: Seq<(i32, i32)>, k: int)
    requires
        0 <= k < raw.len(),
        forall|j: int| 0 <= j <= k ==> 0 <= (#[trigger] raw[j]).0,
        forall|j: int| 0 < j <= k ==> raw[j - 1].0 < (#[trigger] raw[j]).0,
        raw[k].0 < raw[k].1,
    ensures
        regex_ranges_spec(raw, 0).contains(Range { start: raw[k].0 as usize, end: raw[k].1 as usize }),
{
    lemma_advancing_kept_from(raw, k, 0);
}

proof fn lemma_advancing_kept_from(raw: Seq<(i32, i32)>, k: int, floor: int)
    requires
        0 <= k < raw.len(),
        floor <= raw[0].0,
        forall|j: int| 0 <= j <= k ==> 0 <= (#[trigger] raw[j]).0,
        forall|j: int| 0 < j <= k ==> raw[j - 1].0 < (#[trigger] raw[j]).0,
        raw[k].0 < raw[k].1,
    ensures
        regex_ranges_spec(raw, floor).contains(Range { start: raw[k].0 as usize, end: raw[k].1 as usize }),
    decreases k,
{
    let all = regex_ranges_spec(raw, floor);
    let s = clamp0(raw[0].0);
    let e = clamp0(raw[0].1);
    assert(raw[0].0 >= 0);
    let rest = regex_ranges_spec(raw.drop_first(), s + 1);
    let x = Range { start: raw[k].0 as usize, end: raw[k].1 as usize };
    if k == 0 {
        assert(all == seq![Range { start: s as usize, end: e as usize }] + rest);
        assert(all[0] == x);
    } else {
        let d = raw.drop_first();
        assert forall|j: int| 0 <= j <= k - 1 implies 0 <= (#[trigger] d[j]).0 by {
            assert(d[j] == raw[j + 1]);
        }
        assert forall|j: int| 0 < j <= k - 1 implies d[j - 1].0 < (#[trigger] d[j]).0 by {
            assert(d[j] == raw[j + 1]);
            assert(d[j - 1] == raw[j]);
        }
        assert(d[0] == raw[1]);
        assert(d[k - 1] == raw[k]);
        lemma_advancing_kept_from(d, k - 1, s + 1);
        let i = choose|i: int| 0 <= i < rest.len() && rest[i] == x;
        if e > s {
            assert(all == seq![Range { start: s as usize, end: e as usize }] + rest);
            assert(all[i + 1] == x);
        } else {
            assert(all == rest);
        }
    }
}

/// What a regular expression is compiled to: the pattern (see [`editor_pattern`]) and
/// whether matching ignores case. It is always compiled multi-line, so `^` and `$` mean
/// the ends of a line.
pub struct RegexQuery {
    pub pattern: String,
    pub caseless: bool,
}

/// A compiled query, ready to be run against any number of texts.
pub enum Matcher {
    /// An empty query: matches nothing in every mode, including regex, where an empty
    /// pattern would otherwise match at every position.
    Never,
    /// A literal substring, with the query's characters already case-folded when the
    /// search is case-insensitive.
    Literal { needle: Vec<char>, case_sensitive: bool, whole_word: bool },
    /// A regular expression, for the engine to compile and run.
    Regex(RegexQuery),
}

/// The query's characters, each case-folded when `folding`.
pub open spec fn needle_spec(query: Seq<char>, folding: bool) -> Seq<char> {
    query.map_values(|c: char| fold_spec(c, folding))
}

impl Matcher {
    /// Compile `query` under `opts`: an empty query is [`Matcher::Never`] (the state of
    /// the bar before anything is typed, not a mistake), a literal folds its characters
    /// once, and a regular expression is wrapped by [`editor_pattern`] and carries the
    /// case option as a compile flag.
    pub fn compile(query: &str, opts: FindOptions) -> (m: Matcher)
        ensures
            query@.len() == 0 ==> m is Never,
            query@.len() > 0 && !opts.regex ==> (m matches Matcher::Literal { needle, case_sensitive, whole_word }
                && needle@ == needle_spec(query@, !opts.case_sensitive)
                && case_sensitive == opts.case_sensitive && whole_word == opts.whole_word),
            query@.len() > 0 && opts.regex ==> (m matches Matcher::Regex(q)
                && q.pattern@ == editor_pattern_spec(query@, opts) && q.caseless == !opts.case_sensitive),
    {
        if query.is_empty() {
            return Matcher::Never;
        }
        if !opts.regex {
            let folding = !opts.case_sensitive;
            let chars = chars_of(query);
            let mut needle: Vec<char> = Vec::new();
            let mut i: usize = 0;
            while i < chars.len()
                invariant
                    i <= chars@.len(),
                    chars@ == query@,
                    needle@ == needle_spec(query@.take(i as int), folding),
                decreases chars@.len() - i,
            {
                proof {
                    assert(needle_spec(query@.take(i as int + 1), folding)
                        =~= needle_spec(query@.take(i as int), folding).push(fold_spec(query@[i as int], folding)));
                }
                needle.push(fold(chars[i], folding));
                i += 1;
            }
            proof {
                assert(query@.take(i as int) =~= query@);
            }
            return Matcher::Literal { needle, case_sensitive: opts.case_sensitive, whole_word: opts.whole_word };
        }
        Matcher::Regex(RegexQuery { pattern: editor_pattern(query, opts), caseless: !opts.case_sensitive })
    }

    /// Every match of this query in `hay`, as ascending byte ranges. For a regular
    /// expression, `engine` is what the engine reported for `hay`, in order; it is ignored
    /// otherwise.
    pub open spec fn ranges_spec(&self, hay: Seq<char>, engine: Seq<(i32, i32)>) -> Seq<Range> {
        match self {
            Matcher::Never => Seq::empty(),
            Matcher::Literal { needle, case_sensitive, whole_word } =>
                literal_ranges_spec(hay, needle@, *case_sensitive, *whole_word),
            Matcher::Regex(_) => regex_ranges_spec(engine, 0),
        }
    }

    /// Every non-overlapping match of this query in `hay`, left to right.
    pub fn ranges(&self, hay: &str, engine: &[(i32, i32)]) -> (out: Vec<Range>)
        requires
            byte_len(hay@) <= usize::MAX,
        ensures
            out@ == self.ranges_spec(hay@, engine@),
    {
        match self {
            Matcher::Never => Vec::new(),
            Matcher::Literal { needle, case_sensitive, whole_word } =>
                literal_ranges(hay, needle.as_slice(), *case_sensitive, *whole_word),
            Matcher::Regex(_) => regex_ranges(engine),
        }
    }

    /// The compiled query once the regular-expression engine has had its say on its
    /// pattern: `refusal` is `None` when the engine compiled it, else the engine's message,
    /// if it gave one. **A pattern that does not compile is an error, never a matcher that
    /// finds nothing**; a literal or an empty query cannot fail.
    pub fn checked(self, refusal: Option<Option<String>>) -> (r: Result<Matcher, PatternError>)
        ensures
            (self is Regex && refusal is Some) <==> r is Err,
            r matches Ok(m) ==> m == self,
            self is Regex ==> match refusal {
                Some(Some(msg)) => r matches Err(e) && e.message@ == msg@,
                Some(None) => r matches Err(e) && e.message@ == "the pattern could not be compiled"@,
                None => r == Ok::<Matcher, PatternError>(self),
            },
    {
        match (&self, refusal) {
            (Matcher::Regex(_), Some(message)) => Err(PatternError::from_engine(message)),
            _ => Ok(self),
        }
    }

    /// How many times this query occurs in `hay` — the same walk as [`Matcher::ranges`].
    pub fn count(&self, hay: &str, engine: &[(i32, i32)]) -> (n: usize)
        requires
            byte_len(hay@) <= usize::MAX,
        ensures
            n == self.ranges_spec(hay@, engine@).len(),
    {
        self.ranges(hay, engine).len()
    }
}

/// Why a query could not be compiled. Only a regular expression can fail.
#[derive(Clone, Debug, PartialEq, Eq)]
pub struct PatternError {
    /// The engine's own message, naming the offending construct and its position.
    pub message: String,
}

impl PatternError {
    /// The error for a pattern the engine refused: its own message when it gave one, and a
    /// fixed sentence when it refused without one.
    pub fn from_engine(message: Option<String>) -> (e: PatternError)
        ensures
            message matches Some(m) ==> e.message@ == m@,
            message is None ==> e.message@ == "the pattern could not be compiled"@,
    {
        match message {
            Some(m) => PatternError { message: m },
            None => PatternError { message: String::from_str("the pattern could not be compiled") },
        }
    }
}

/// `x` clamped at zero.
pub open spec fn clamp0(x: i32) -> int {
    if x < 0 { 0 } else { x as int }
}

/// What is kept of the engine's successive matches `raw`, each a `(start, end)` byte pair:
/// the walk stops at the first match that does not start strictly after the previous
/// match's start (`floor` is one past it), and a zero-length match is not a match — there
/// is nothing to highlight and nowhere to go.
pub open spec fn regex_ranges_spec(raw: Seq<(i32, i32)>, floor: int) -> Seq<Range>
    decreases raw.len(),
{
    if raw.len() == 0 {
        Seq::empty()
    } else {
        let s = clamp0(raw[0].0);
        let e = clamp0(raw[0].1);
        if s < floor {
            Seq::empty()
        } else {
            let rest = regex_ranges_spec(raw.drop_first(), s + 1);
            if e > s {
                seq![Range { start: s as usize, end: e as usize }] + rest
            } else {
                rest
            }
        }
    }
}

/// The regular-expression scan's bookkeeping over what the engine reported: zero-length
/// matches are dropped (the editor's engine drops them too), and a walk that stops
/// advancing is cut off rather than followed.
pub fn regex_ranges(raw: &[(i32, i32)]) -> (out: Vec<Range>)
    ensures
        out@ == regex_ranges_spec(raw@, 0),
{
    let mut out: Vec<Range> = Vec::new();
    let mut floor: usize = 0;
    let mut i: usize = 0;
    proof {
        assert(raw@.skip(0) =~= raw@);
        assert(out@ + regex_ranges_spec(raw@, 0) =~= regex_ranges_spec(raw@, 0));
    }
    while i < raw.len()
        invariant
            i <= raw@.len(),
            floor <= i32::MAX as usize + 1,
            out@ + regex_ranges_spec(raw@.skip(i as int), floor as int) == regex_ranges_spec(raw@, 0),
        decreases raw@.len() - i,
    {
        let (rs, re) = raw[i];
        let s: usize = if rs < 0 { 0 } else { rs as usize };
        let e: usize = if re < 0 { 0 } else { re as usize };
        proof {
            assert(raw@.skip(i as int).drop_first() =~= raw@.skip(i as int + 1));
            assert(raw@.skip(i as int)[0] == raw@[i as int]);
        }
        if s < floor {
            proof {
                assert(out@ + Seq::<Range>::empty() =~= out@);
            }
            return out;
        }
        let ghost before = out@;
        if e > s {
            out.push(Range { start: s, end: e });
            proof {
                assert(before.push(Range { start: s, end: e }) + regex_ranges_spec(raw@.skip(i as int + 1), s as int + 1)
                    =~= before + (seq![Range { start: s, end: e }] + regex_ranges_spec(raw@.skip(i as int + 1), s as int + 1)));
            }
        }
        floor = s + 1;
        i += 1;
    }
    proof {
        assert(raw@.skip(i as int) =~= Seq::<(i32, i32)>::empty());
        assert(out@ + Seq::<Range>::empty() =~= out@);
    }
    out
}

} // verus!
