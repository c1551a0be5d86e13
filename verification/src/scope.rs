//! **Search in selection**: the captured bound, and the decisions that can be made about
//! it without a display.
//!
//! The editor holds its passage as a pair of text marks (outside this crate); the preview
//! holds a character range plus the render it was taken from. When the render changes the
//! bound no longer resolves, and the holder drops it rather than reinterpreting it.

use vstd::prelude::*;

verus! {

/// Which render a preview scope was taken from: the view's construction serial and its
/// render generation. The generation alone restarts at 0 on every fresh view, so both are
/// needed to tell two renders apart.
#[derive(Clone, Copy, PartialEq, Eq, Debug, Structural)]
pub struct RenderKey {
    pub view_serial: u64,
    pub generation: u64,
}

/// A captured preview scope: a character range `[start, end)` in the preview buffer, and
/// the render it indexes.
#[derive(Clone, Copy, PartialEq, Eq, Debug, Structural)]
pub struct PreviewScope {
    pub key: RenderKey,
    pub start: i32,
    pub end: i32,
}

impl PreviewScope {
    /// Whether this scope still describes `key`'s render. A bare equality: a range taken
    /// from another render selects text the reader never chose.
    pub fn resolves_against(self, key: RenderKey) -> (r: bool)
        ensures
            r == (self.key == key),
    {
        self.key == key
    }

    /// Whether a hit at buffer character offset `at` falls inside this scope — half-open
    /// at the end, like a selection.
    pub fn contains(self, at: i32) -> (r: bool)
        ensures
            r == (self.start <= at && at < self.end),
    {
        at >= self.start && at < self.end
    }
}

/// The captured passage, in whichever pane it was captured.
#[derive(Clone, Copy, PartialEq, Eq, Debug, Structural)]
pub enum FindScope {
    /// The editor's passage `[start, end)` as captured. The caller holds it as a pair of
    /// text marks — left gravity at the start, right at the end — so that it tracks edits
    /// made inside it, and resolves them afresh for every search.
    Editor { start: i32, end: i32 },
    /// The preview's passage, against the render it was taken from.
    Preview(PreviewScope),
}

impl FindScope {
    /// The preview bound, if this scope is the preview's and still describes `key`'s
    /// render.
    pub fn preview_bounds(&self, key: RenderKey) -> (r: Option<PreviewScope>)
        ensures
            r == match *self {
                FindScope::Preview(sc) => if sc.key == key { Some(sc) } else { None },
                FindScope::Editor { .. } => None,
            },
    {
        match self {
            FindScope::Preview(sc) => if sc.resolves_against(key) { Some(*sc) } else { None },
            FindScope::Editor { .. } => None,
        }
    }
}

/// This tab's preview scope for the render `key`, **re-derived when it no longer
/// resolves**: a preview passage taken from another render is dropped (`release` is
/// `true`, and the caller turns the toggle off) and the search covers the whole preview.
/// Returns the bound to apply, if any, and whether the captured passage is released.
pub fn preview_scope_for(scope: Option<FindScope>, key: RenderKey) -> (r: (Option<PreviewScope>, bool))
    ensures
        r == match scope {
            Some(FindScope::Preview(sc)) => if sc.key == key { (Some(sc), false) } else { (None, true) },
            _ => (None, false),
        },
{
    match scope {
        None => (None, false),
        Some(sc) => {
            let is_preview = match sc {
                FindScope::Preview(_) => true,
                FindScope::Editor { .. } => false,
            };
            let bounds = sc.preview_bounds(key);
            if is_preview && bounds.is_none() {
                (None, true)
            } else {
                (bounds, false)
            }
        },
    }
}

/// Whether a `[match_start, match_end)` match lies inside the editor scope `[lo, hi)`.
/// Both ends decide it: a match that starts inside and runs past the end is outside.
pub fn editor_match_is_inside(match_start: i32, match_end: i32, lo: i32, hi: i32) -> (r: bool)
    ensures
        r == (lo <= match_start && match_end <= hi),
{
    match_start >= lo && match_end <= hi
}

/// The 1-based entry a step lands on, given the `current` entry (0 for "none") of
/// `total`, or `None` when there are no entries. `current` is first clamped into
/// `0..=total`; stepping wraps at both ends.
pub open spec fn step_spec(current: int, total: int, backward: bool) -> Option<int> {
    if total <= 0 {
        None
    } else {
        let c = if current < 0 { 0 } else if current > total { total } else { current };
        Some(
            if backward {
                if c <= 1 { total } else { c - 1 }
            } else {
                if c == total { 1 } else { c + 1 }
            },
        )
    }
}

/// Which entry of a scoped match list the reader steps to, 1-based over `total`.
pub fn step(current: i32, total: i32, backward: bool) -> (r: Option<i32>)
    ensures
        r matches Some(n) ==> step_spec(current as int, total as int, backward) == Some(n as int),
        r is None <==> step_spec(current as int, total as int, backward) is None,
{
    if total <= 0 {
        return None;
    }
    let c: i32 = if current < 0 { 0 } else if current > total { total } else { current };
    if backward {
        Some(if c <= 1 { total } else { c - 1 })
    } else {
        assert(c % total == if c == total { 0 } else { c }) by (nonlinear_arith)
            requires
                0 <= c <= total,
                total > 0,
        {
            if c == total {
                assert(c % total == 0);
            }
        }
        Some(c % total + 1)
    }
}

/// Every step lands on an entry: `1..=total`.
pub proof fn lemma_step_in_range(current: int, total: int, backward: bool)
    requires
        total > 0,
    ensures
        step_spec(current, total, backward) matches Some(n) && 1 <= n <= total,
{
}

/// Stepping forward and then back returns to the entry the reader was on, for every
/// entry of a non-empty list.
pub proof fn lemma_step_back_undoes_step(current: int, total: int)
    requires
        1 <= current <= total,
    ensures
        step_spec(step_spec(current, total, false)->0, total, true) == Some(current),
        step_spec(step_spec(current, total, true)->0, total, false) == Some(current),
{
}

/// The entry a Next/Prev lands on when the reader's place was re-found by position:
/// `current` is their 1-based entry if their match is still in the list (`present`), else
/// the number of entries before where it was. From a match still there a step is an
/// ordinary [`step_spec`]. From one that is gone, "next" is the first entry at or after
/// where it was and "previous" the last entry before it — each wrapping when there is none.
pub open spec fn resume_step_spec(current: int, present: bool, total: int, backward: bool) -> Option<int> {
    if total <= 0 {
        None
    } else if backward && !present {
        Some(if current >= 1 { current } else { total })
    } else {
        step_spec(current, total, backward)
    }
}

/// [`resume_step_spec`], computed.
pub fn resume_step(current: i32, present: bool, total: i32, backward: bool) -> (r: Option<i32>)
    requires
        0 <= current <= total,
    ensures
        r matches Some(n) ==> resume_step_spec(current as int, present, total as int, backward) == Some(n as int)
            && 1 <= n <= total,
        r is None <==> total <= 0,
{
    if total <= 0 {
        return None;
    }
    if backward && !present {
        return Some(if current >= 1 { current } else { total });
    }
    proof {
        lemma_step_in_range(current as int, total as int, backward);
    }
    step(current, total, backward)
}

/// How many of `matches`' starts lie strictly before `at`.
pub open spec fn count_before(matches: Seq<(i32, i32)>, at: int) -> nat
    decreases matches.len(),
{
    if matches.len() == 0 {
        0
    } else {
        count_before(matches.drop_last(), at) + if (matches.last().0 as int) < at { 1nat } else { 0nat }
    }
}

/// The first index whose start is `at`, if any.
pub open spec fn first_start_at(matches: Seq<(i32, i32)>, at: int) -> Option<int>
    decreases matches.len(),
{
    if matches.len() == 0 {
        None
    } else if matches[0].0 as int == at {
        Some(0)
    } else {
        match first_start_at(matches.drop_first(), at) {
            Some(i) => Some(i + 1),
            None => None,
        }
    }
}

/// Where in a scoped match list the reader is, 1-based: the match starting at `at` if
/// there is one, otherwise the number of matches before `at`, so that "next" is the first
/// match at or after it.
pub open spec fn ordinal_at_spec(matches: Seq<(i32, i32)>, at: int) -> int {
    match first_start_at(matches, at) {
        Some(i) => i + 1,
        None => count_before(matches, at) as int,
    }
}

proof fn lemma_first_start_at_bounds(matches: Seq<(i32, i32)>, at: int)
    ensures
        first_start_at(matches, at) matches Some(i) ==> 0 <= i < matches.len() && matches[i].0 == at
            && forall|k: int| 0 <= k < i ==> matches[k].0 != at,
        first_start_at(matches, at) is None ==> forall|k: int| 0 <= k < matches.len() ==> matches[k].0 != at,
    decreases matches.len(),
{
    if matches.len() > 0 {
        lemma_first_start_at_bounds(matches.drop_first(), at);
        if matches[0].0 as int != at {
            assert forall|k: int| 0 < k < matches.len() implies matches[k] == matches.drop_first()[k - 1] by {}
        }
    }
}

proof fn lemma_count_before_le(matches: Seq<(i32, i32)>, at: int)
    ensures
        count_before(matches, at) <= matches.len(),
    decreases matches.len(),
{
    if matches.len() > 0 {
        lemma_count_before_le(matches.drop_last(), at);
    }
}

/// Where in a scoped match list the reader currently is, 1-based, or 0 for "nowhere".
pub fn ordinal_at(matches: &[(i32, i32)], at: i32) -> (r: i32)
    requires
        matches@.len() < i32::MAX,
    ensures
        r as int == ordinal_at_spec(matches@, at as int),
        0 <= r <= matches@.len(),
{
    let n = matches.len();
    let mut i: usize = 0;
    while i < n
        invariant
            n == matches@.len(),
            n < i32::MAX,
            i <= n,
            forall|k: int| 0 <= k < i ==> matches@[k].0 != at,
        decreases n - i,
    {
        if matches[i].0 == at {
            proof {
                lemma_first_start_at_bounds(matches@, at as int);
                lemma_first_start_at_unique(matches@, at as int, i as int);
            }
            return (i + 1) as i32;
        }
        i += 1;
    }
    proof {
        lemma_first_start_at_bounds(matches@, at as int);
        lemma_first_start_at_none(matches@, at as int);
    }
    let mut before: i32 = 0;
    let mut j: usize = 0;
    while j < n
        invariant
            n == matches@.len(),
            n < i32::MAX,
            j <= n,
            before as int == count_before(matches@.take(j as int), at as int),
        decreases n - j,
    {
        proof {
            assert(matches@.take(j as int + 1).drop_last() =~= matches@.take(j as int));
            lemma_count_before_le(matches@.take(j as int), at as int);
        }
        if matches[j].0 < at {
            before += 1;
        }
        j += 1;
    }
    proof {
        assert(matches@.take(n as int) =~= matches@);
        lemma_count_before_le(matches@, at as int);
    }
    before
}

proof fn lemma_first_start_at_unique(matches: Seq<(i32, i32)>, at: int, i: int)
    requires
        0 <= i < matches.len(),
        matches[i].0 == at,
        forall|k: int| 0 <= k < i ==> matches[k].0 != at,
    ensures
        first_start_at(matches, at) == Some(i),
    decreases matches.len(),
{
    if i > 0 {
        assert forall|k: int| 0 <= k < i - 1 implies matches.drop_first()[k].0 != at by {
            assert(matches.drop_first()[k] == matches[k + 1]);
        }
        lemma_first_start_at_unique(matches.drop_first(), at, i - 1);
    }
}

proof fn lemma_first_start_at_none(matches: Seq<(i32, i32)>, at: int)
    requires
        forall|k: int| 0 <= k < matches.len() ==> matches[k].0 != at,
    ensures
        first_start_at(matches, at) is None,
    decreases matches.len(),
{
    if matches.len() > 0 {
        assert forall|k: int| 0 <= k < matches.len() - 1 implies matches.drop_first()[k].0 != at by {
            assert(matches.drop_first()[k] == matches[k + 1]);
        }
        lemma_first_start_at_none(matches.drop_first(), at);
    }
}


/// The editor matches inside the passage `[lo, hi)`, given the engine's successive answers
/// to "the next match from `it`" — each asked from the end of the previous answer, the
/// first from `lo`. The engine wraps past the last match, so the walk stops at the first
/// answer that wrapped, starts at or past `hi`, lies behind where it was asked from, or is
/// empty; a match that runs past `hi` is not in the passage.
pub open spec fn scoped_matches_spec(answers: Seq<(i32, i32, bool)>, it: int, lo: int, hi: int) -> Seq<(i32, i32)>
    decreases answers.len(),
{
    if answers.len() == 0 {
        Seq::empty()
    } else {
        let (start, end, wrapped) = answers[0];
        if wrapped || start >= hi || start < it || end <= start {
            Seq::empty()
        } else {
            let rest = scoped_matches_spec(answers.drop_first(), end as int, lo, hi);
            if lo <= start && end <= hi { seq![(start, end)] + rest } else { rest }
        }
    }
}

/// Whether the engine's answer `(start, end, wrapped)` to "the next match from `it`" ends
/// the walk over the passage ending at `hi`. The engine wraps past the last match rather
/// than answering nothing, so a walk that does not stop here never ends: the answer wrapped,
/// starts at or past the bound, lies behind where it was asked from, or is empty.
pub fn ends_walk(answer: (i32, i32, bool), it: i32, hi: i32) -> (r: bool)
    ensures
        r == (answer.2 || answer.0 >= hi || answer.0 < it || answer.1 <= answer.0),
{
    let (start, end, wrapped) = answer;
    wrapped || start >= hi || start < it || end <= start
}

/// Every editor match inside the captured passage, ascending, or `None` when no passage is
/// captured (`bounds` is `[lo, hi)`). The engine has no bounded region, so the bound is
/// this crate's to enforce on stepping, counting and replacing alike. `answers` are the
/// engine's successive answers to "the next match from here", each asked from the end of
/// the previous one and the first from `lo`; the caller stops asking at the answer
/// [`ends_walk`] names, and anything after it is ignored.
pub fn scoped_editor_matches(bounds: Option<(i32, i32)>, answers: &[(i32, i32, bool)]) -> (out: Option<Vec<(i32, i32)>>)
    ensures
        bounds is None ==> out is None,
        bounds matches Some((lo, hi)) ==> (out matches Some(v)
            && v@ == scoped_matches_spec(answers@, lo as int, lo as int, hi as int)),
{
    let (lo, hi) = bounds?;
    let mut out: Vec<(i32, i32)> = Vec::new();
    let mut it: i32 = lo;
    let mut i: usize = 0;
    proof {
        assert(answers@.skip(0) =~= answers@);
        assert(out@ + scoped_matches_spec(answers@, lo as int, lo as int, hi as int)
            =~= scoped_matches_spec(answers@, lo as int, lo as int, hi as int));
    }
    while i < answers.len()
        invariant
            bounds == Some((lo, hi)),
            i <= answers@.len(),
            out@ + scoped_matches_spec(answers@.skip(i as int), it as int, lo as int, hi as int)
                == scoped_matches_spec(answers@, lo as int, lo as int, hi as int),
        decreases answers@.len() - i,
    {
        let (start, end, wrapped) = answers[i];
        proof {
            assert(answers@.skip(i as int)[0] == answers@[i as int]);
            assert(answers@.skip(i as int).drop_first() =~= answers@.skip(i as int + 1));
        }
        if ends_walk(answers[i], it, hi) {
            proof {
                assert(out@ + Seq::<(i32, i32)>::empty() =~= out@);
            }
            return Some(out);
        }
        let ghost before = out@;
        if editor_match_is_inside(start, end, lo, hi) {
            out.push((start, end));
            proof {
                assert(before.push((start, end)) + scoped_matches_spec(answers@.skip(i as int + 1), end as int, lo as int, hi as int)
                    =~= before + (seq![(start, end)] + scoped_matches_spec(answers@.skip(i as int + 1), end as int, lo as int, hi as int)));
            }
        }
        it = end;
        i += 1;
    }
    proof {
        assert(answers@.skip(i as int) =~= Seq::<(i32, i32, bool)>::empty());
        assert(out@ + Seq::<(i32, i32)>::empty() =~= out@);
    }
    Some(out)
}

/// **Every answer the walk reaches that lies inside the passage is kept.** The walk over the
/// engine's answers stops only at one that wrapped, starts at or past the passage's end,
/// starts strictly before where it was asked from (the first from the passage's start, each
/// later one from the end of the one before), or is empty; every answer before that which
/// lies inside `[lo, hi)` is in the result — one starting exactly where it was asked from
/// included.
pub proof fn lemma_walked_answers_inside_the_passage_are_kept(answers: Seq<(i32, i32, bool)>, lo: int, hi: int, k: int)
    requires
        0 <= k < answers.len(),
        forall|j: int| 0 <= j <= k ==> {
            &&& !(#[trigger] answers[j]).2
            &&& answers[j].0 < hi
            &&& answers[j].0 < answers[j].1
            &&& answers[j].0 >= if j == 0 { lo } else { answers[j - 1].1 as int }
        },
        lo <= answers[k].0,
        answers[k].1 <= hi,
    ensures
        scoped_matches_spec(answers, lo, lo, hi).contains((answers[k].0, answers[k].1)),
{
    lemma_walked_answers_kept_from(answers, lo, lo, hi, k);
}

proof fn lemma_walked_answers_kept_from(answers: Seq<(i32, i32, bool)>, it: int, lo: int, hi: int, k: int)
    requires
        0 <= k < answers.len(),
        forall|j: int| 0 <= j <= k ==> {
            &&& !(#[trigger] answers[j]).2
            &&& answers[j].0 < hi
            &&& answers[j].0 < answers[j].1
            &&& answers[j].0 >= if j == 0 { it } else { answers[j - 1].1 as int }
        },
        lo <= answers[k].0,
        answers[k].1 <= hi,
    ensures
        scoped_matches_spec(answers, it, lo, hi).contains((answers[k].0, answers[k].1)),
    decreases k,
{
    let all = scoped_matches_spec(answers, it, lo, hi);
    let (start, end, wrapped) = answers[0];
    assert(!answers[0].2 && answers[0].0 < hi && answers[0].0 < answers[0].1 && answers[0].0 >= it);
    let d = answers.drop_first();
    let rest = scoped_matches_spec(d, end as int, lo, hi);
    let x = (answers[k].0, answers[k].1);
    if k == 0 {
        assert(all == seq![(start, end)] + rest);
        assert(all[0] == x);
    } else {
        assert forall|j: int| 0 <= j <= k - 1 implies {
            &&& !(#[trigger] d[j]).2
            &&& d[j].0 < hi
            &&& d[j].0 < d[j].1
            &&& d[j].0 >= if j == 0 { end as int } else { d[j - 1].1 as int }
        } by {
            assert(d[j] == answers[j + 1]);
            if j > 0 {
                assert(d[j - 1] == answers[j]);
            }
        }
        assert(d[k - 1] == answers[k]);
        lemma_walked_answers_kept_from(d, end as int, lo, hi, k - 1);
        let i = choose|i: int| 0 <= i < rest.len() && rest[i] == x;
        if lo <= start && end <= hi {
            assert(all == seq![(start, end)] + rest);
            assert(all[i + 1] == x);
        } else {
            assert(all == rest);
        }
    }
}

/// Every enumerated match lies inside the passage, and they ascend without overlapping.
pub proof fn lemma_scoped_matches_inside_and_ascending(answers: Seq<(i32, i32, bool)>, it: int, lo: int, hi: int)
    ensures
        forall|k: int| 0 <= k < scoped_matches_spec(answers, it, lo, hi).len() ==> {
            let m = #[trigger] scoped_matches_spec(answers, it, lo, hi)[k];
            lo <= m.0 && m.0 < m.1 && m.1 <= hi && it <= m.0
        },
        forall|k: int| 0 < k < scoped_matches_spec(answers, it, lo, hi).len() ==>
            scoped_matches_spec(answers, it, lo, hi)[k - 1].1 <= (#[trigger] scoped_matches_spec(answers, it, lo, hi)[k]).0,
    decreases answers.len(),
{
    if answers.len() > 0 {
        let (start, end, wrapped) = answers[0];
        if !(wrapped || start >= hi || start < it || end <= start) {
            let rest = scoped_matches_spec(answers.drop_first(), end as int, lo, hi);
            lemma_scoped_matches_inside_and_ascending(answers.drop_first(), end as int, lo, hi);
            let all = scoped_matches_spec(answers, it, lo, hi);
            if lo <= start && end <= hi {
                assert(all == seq![(start, end)] + rest);
                assert forall|k: int| 0 <= k < all.len() implies {
                    let m = #[trigger] all[k];
                    lo <= m.0 && m.0 < m.1 && m.1 <= hi && it <= m.0
                } by {
                    if k > 0 {
                        assert(all[k] == rest[k - 1]);
                    }
                }
                assert forall|k: int| 0 < k < all.len() implies all[k - 1].1 <= (#[trigger] all[k]).0 by {
                    assert(all[k] == rest[k - 1]);
                    if k > 1 {
                        assert(all[k - 1] == rest[k - 2]);
                    }
                }
            } else {
                assert(all == rest);
            }
        }
    }
}

/// Where a step inside the captured passage lands: the 1-based entry of `matches` that
/// stepping from the reader's position `at` reaches, with that match's range, or `None`
/// when the passage holds no match.
pub open spec fn scoped_step_spec(matches: Seq<(i32, i32)>, at: int, backward: bool) -> Option<(int, i32, i32)> {
    let current = ordinal_at_spec(matches, at);
    let present = 1 <= current <= matches.len() && matches[current - 1].0 == at;
    match resume_step_spec(current, present, matches.len() as int, backward) {
        None => None,
        Some(n) => Some((n, matches[n - 1].0, matches[n - 1].1)),
    }
}

/// Step within the captured passage. The reader's place is found by POSITION — `at` is the
/// start of the selection, or the caret — because the list is re-enumerated on every press
/// and an edit inside the passage moves every match after it; from a place that is no
/// match, "next" is the first match at or after it and "previous" the last one before it. Returns the entry stepped to
/// and the range to select, or `None` when there is nothing to land on (no current match,
/// and a count of zero).
pub fn scoped_editor_step(matches: &[(i32, i32)], at: i32, backward: bool) -> (r: Option<(i32, i32, i32)>)
    requires
        matches@.len() < i32::MAX,
    ensures
        r is None <==> matches@.len() == 0,
        r matches Some((n, s, e)) ==> scoped_step_spec(matches@, at as int, backward) == Some((n as int, s, e))
            && 1 <= n <= matches@.len(),
{
    let total = matches.len() as i32;
    let current = ordinal_at(matches, at);
    let present = current >= 1 && matches[(current - 1) as usize].0 == at;
    match resume_step(current, present, total, backward) {
        None => None,
        Some(next) => {
            let (start, end) = matches[(next - 1) as usize];
            Some((next, start, end))
        },
    }
}

proof fn lemma_count_before_partition(matches: Seq<(i32, i32)>, at: int)
    requires
        forall|i: int, j: int| 0 <= i <= j < matches.len() ==> matches[i].0 <= matches[j].0,
    ensures
        count_before(matches, at) <= matches.len(),
        forall|k: int| 0 <= k < count_before(matches, at) ==> (#[trigger] matches[k]).0 < at,
        forall|k: int| count_before(matches, at) <= k < matches.len() ==> (#[trigger] matches[k]).0 >= at,
    decreases matches.len(),
{
    if matches.len() > 0 {
        let d = matches.drop_last();
        lemma_count_before_partition(d, at);
        assert forall|k: int| 0 <= k < d.len() implies d[k] == matches[k] by {}
        if (matches.last().0 as int) < at {
            assert forall|k: int| 0 <= k < matches.len() implies (#[trigger] matches[k]).0 < at by {
                assert(matches[k].0 <= matches[matches.len() - 1].0);
            }
        }
    }
}

/// **A step from between matches resumes around the reader.** With the caret (or a
/// selection's start) at `at` where no match of the ascending passage list starts, Next
/// selects the first match after it and Previous the last match before it.
pub proof fn lemma_scoped_step_resumes_around_the_caret(matches: Seq<(i32, i32)>, at: int)
    requires
        forall|i: int, j: int| 0 <= i <= j < matches.len() ==> matches[i].0 <= matches[j].0,
        forall|k: int| 0 <= k < matches.len() ==> (#[trigger] matches[k]).0 != at,
    ensures
        (exists|k: int| 0 <= k < matches.len() && (#[trigger] matches[k]).0 > at) ==> ({
            let n = (scoped_step_spec(matches, at, false)->0).0;
            &&& scoped_step_spec(matches, at, false) is Some
            &&& matches[n - 1].0 > at
            &&& forall|k: int| 0 <= k < n - 1 ==> (#[trigger] matches[k]).0 < at
        }),
        (exists|k: int| 0 <= k < matches.len() && (#[trigger] matches[k]).0 < at) ==> ({
            let n = (scoped_step_spec(matches, at, true)->0).0;
            &&& scoped_step_spec(matches, at, true) is Some
            &&& matches[n - 1].0 < at
            &&& forall|k: int| n - 1 < k < matches.len() ==> (#[trigger] matches[k]).0 > at
        }),
{
    lemma_count_before_partition(matches, at);
    lemma_first_start_at_none(matches, at);
    let c = count_before(matches, at) as int;
    assert(ordinal_at_spec(matches, at) == c);
    if c >= 1 {
        assert(matches[c - 1].0 != at);
    }
    if exists|k: int| 0 <= k < matches.len() && (#[trigger] matches[k]).0 > at {
        let k = choose|k: int| 0 <= k < matches.len() && (#[trigger] matches[k]).0 > at;
        assert(k >= c);
        assert(step_spec(c, matches.len() as int, false) == Some(c + 1));
    }
    if exists|k: int| 0 <= k < matches.len() && (#[trigger] matches[k]).0 < at {
        let k = choose|k: int| 0 <= k < matches.len() && (#[trigger] matches[k]).0 < at;
        assert(k < c);
    }
}

/// How Next/Prev proceeds in the editor.
#[derive(Clone, Copy, PartialEq, Eq, Debug, Structural)]
pub enum FindNext {
    /// A passage is captured: step through its own matches ([`scoped_editor_step`]), since
    /// the engine's stepping knows nothing of the bound and would walk out of it.
    Scoped,
    /// Ask the engine for the next (or previous) match from this buffer offset.
    SearchFrom(i32),
}

/// Advance to the next or previous match in the editor. Unconfined, the engine is asked
/// from the correct end of the selection — forward from its END, so the match the reader
/// is on is stepped past rather than found again, backward from its START — or from the
/// caret when nothing is selected.
pub fn do_find_next(scoped: bool, selection: Option<(i32, i32)>, caret: i32, backward: bool) -> (r: FindNext)
    ensures
        r == if scoped {
            FindNext::Scoped
        } else {
            match selection {
                Some((start, end)) => FindNext::SearchFrom(if backward { start } else { end }),
                None => FindNext::SearchFrom(caret),
            }
        },
{
    if scoped {
        return FindNext::Scoped;
    }
    match selection {
        Some((start, end)) => FindNext::SearchFrom(if backward { start } else { end }),
        None => FindNext::SearchFrom(caret),
    }
}

/// Whether Replace edits the current selection: only when the selection is exactly the
/// match the engine finds from its start, and — with a passage captured — lies inside it.
/// Otherwise Replace steps to a match instead of editing one the reader was not shown.
pub open spec fn replaces_selection_spec(
    selection: Option<(i32, i32)>,
    found_from_selection: Option<(i32, i32)>,
    scope: Option<(i32, i32)>,
) -> bool {
    match selection {
        None => false,
        Some((s, e)) => {
            &&& found_from_selection == Some((s, e))
            &&& match scope {
                None => true,
                Some((lo, hi)) => lo <= s && e <= hi,
            }
        },
    }
}

/// Replace **the match the reader is looking at**: decide whether Replace edits the
/// selection (`true`, then steps on) or only steps to the next match (`false`), given the
/// selection, the match the engine finds from the selection's start, and the captured
/// passage. Nothing current, or something current that is not a match, steps instead of
/// editing text the reader was not shown.
pub fn replace_current_match(
    selection: Option<(i32, i32)>,
    found_from_selection: Option<(i32, i32)>,
    scope: Option<(i32, i32)>,
) -> (r: bool)
    ensures
        r == replaces_selection_spec(selection, found_from_selection, scope),
{
    let Some((s, e)) = selection else { return false };
    let on_a_match = match found_from_selection {
        Some((ms, me)) => ms == s && me == e,
        None => false,
    };
    let in_scope = match scope {
        None => true,
        Some((lo, hi)) => editor_match_is_inside(s, e, lo, hi),
    };
    on_a_match && in_scope
}

/// The order a scoped Replace All edits its matches in: last first, so that every offset
/// still to be used lies before the edit just made and stays valid.
pub fn replacement_order(matches: &[(i32, i32)]) -> (out: Vec<(i32, i32)>)
    ensures
        out@ == matches@.reverse(),
{
    let mut out: Vec<(i32, i32)> = Vec::new();
    let mut i: usize = matches.len();
    while i > 0
        invariant
            i <= matches@.len(),
            out@ == matches@.skip(i as int).reverse(),
        decreases i,
    {
        i -= 1;
        proof {
            assert(matches@.skip(i as int).reverse() =~= matches@.skip(i as int + 1).reverse().push(matches@[i as int]));
        }
        out.push(matches[i]);
    }
    proof {
        assert(matches@.skip(0) =~= matches@);
    }
    out
}

} // verus!
