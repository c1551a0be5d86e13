//! The preview's **hit list**: every occurrence of the query in what the preview shows —
//! body text, table cells, and the source of collapsed disclosures — in document order,
//! with the navigation over it and the cache that keeps it.
//!
//! A cursor in this list is held by the **position** it landed on, not by its ordinal: the
//! list is rebuilt beneath the reader by a live re-render or a fold splice, and an ordinal
//! into a rebuilt list names a different hit.

use vstd::prelude::*;
use crate::matcher::Range;
use crate::options::FindOptions;
use crate::readout::FindCursor;
use crate::scope::{resume_step, resume_step_spec, step_spec, PreviewScope};

verus! {

broadcast use vstd::string::group_string_axioms;

/// One occurrence of the query in the preview.
#[derive(Clone, Copy, PartialEq, Eq, Debug, Structural)]
pub enum PreviewHit {
    /// A body-text match, in buffer character offsets.
    Body { start: i32, end: i32 },
    /// A table-cell match: the table's buffer offset, the cell it is in (an identity for
    /// the cell's label), and the match's byte range in the cell's text.
    Cell { anchor_off: i32, cell: u64, byte_start: u32, byte_end: u32 },
    /// A match inside a collapsed disclosure, which this render did not draw: the block's
    /// summary line, where a search resuming inside it starts once it is expanded, and
    /// the block's fold key.
    Hidden { summary_off: i32, resume_off: i32, key: u64 },
}

/// Where a hit sits in document order, as a buffer character offset.
pub open spec fn position_spec(hit: PreviewHit) -> int {
    match hit {
        PreviewHit::Body { start, .. } => start as int,
        PreviewHit::Cell { anchor_off, .. } => anchor_off as int,
        PreviewHit::Hidden { summary_off, .. } => summary_off as int,
    }
}

/// Where a hit sits in document order — the one place the three kinds are reduced to a
/// common coordinate.
pub fn preview_hit_position(hit: &PreviewHit) -> (p: i32)
    ensures
        p as int == position_spec(*hit),
{
    match hit {
        PreviewHit::Body { start, .. } => *start,
        PreviewHit::Cell { anchor_off, .. } => *anchor_off,
        PreviewHit::Hidden { summary_off, .. } => *summary_off,
    }
}

/// How many of `hits` sit strictly before `at`.
pub open spec fn count_before(hits: Seq<PreviewHit>, at: int) -> nat
    decreases hits.len(),
{
    if hits.len() == 0 {
        0
    } else {
        count_before(hits.drop_last(), at) + if position_spec(hits.last()) < at { 1nat } else { 0nat }
    }
}

/// Where the cursor `(ordinal, at)` sits in `hits`, as a 1-based current ordinal: the
/// ordinal itself while it still names a hit at `at`; otherwise the hit at `at` just after
/// every hit before it, if there is one there; otherwise the count of hits before `at`, so
/// that "next" is the first hit at or after where the cursor was.
pub open spec fn resume_ordinal_spec(hits: Seq<PreviewHit>, ordinal: int, at: int) -> int {
    if 1 <= ordinal <= hits.len() && position_spec(hits[ordinal - 1]) == at {
        ordinal
    } else {
        let before = count_before(hits, at) as int;
        if before < hits.len() && position_spec(hits[before]) == at {
            before + 1
        } else {
            before
        }
    }
}

proof fn lemma_count_before_le(hits: Seq<PreviewHit>, at: int)
    ensures
        count_before(hits, at) <= hits.len(),
    decreases hits.len(),
{
    if hits.len() > 0 {
        lemma_count_before_le(hits.drop_last(), at);
    }
}

/// **A hit that is still there keeps its ordinal.** When the cursor's ordinal still names a
/// hit at the cursor's position, that ordinal is where the reader is — even when several
/// hits share the position, as every match in one table shares the table's offset — so Next
/// lands on the following hit and Previous on the one before it, each wrapping at the ends.
pub proof fn lemma_a_hit_still_there_keeps_its_ordinal(hits: Seq<PreviewHit>, ordinal: i32, at: i32)
    requires
        1 <= ordinal <= hits.len(),
        position_spec(hits[ordinal - 1]) == at,
    ensures
        resume_ordinal_spec(hits, ordinal as int, at as int) == ordinal,
        preview_step_spec(FindCursor::Preview { ordinal, at }, hits, false)
            == Some(if ordinal == hits.len() { 1 } else { ordinal + 1 }),
        preview_step_spec(FindCursor::Preview { ordinal, at }, hits, true)
            == Some(if ordinal == 1 { hits.len() as int } else { ordinal - 1 }),
{
}

/// In a list in document order, the hits before `at` are exactly the first
/// `count_before(hits, at)` of them.
proof fn lemma_count_before_partition(hits: Seq<PreviewHit>, at: int)
    requires
        forall|i: int, j: int| 0 <= i <= j < hits.len() ==> position_spec(hits[i]) <= position_spec(hits[j]),
    ensures
        count_before(hits, at) <= hits.len(),
        forall|k: int| 0 <= k < count_before(hits, at) ==> position_spec(#[trigger] hits[k]) < at,
        forall|k: int| count_before(hits, at) <= k < hits.len() ==> position_spec(#[trigger] hits[k]) >= at,
    decreases hits.len(),
{
    if hits.len() > 0 {
        let d = hits.drop_last();
        lemma_count_before_partition(d, at);
        assert forall|k: int| 0 <= k < d.len() implies d[k] == hits[k] by {}
        if position_spec(hits.last()) < at {
            assert forall|k: int| 0 <= k < hits.len() implies position_spec(#[trigger] hits[k]) < at by {
                assert(position_spec(hits[k]) <= position_spec(hits[hits.len() - 1]));
            }
        }
    }
}

/// **Find Next resumes where the reader was.** When the hit the cursor landed on is gone
/// from a rebuilt list (kept in document order), Next lands on the first hit after where it
/// was and Previous on the last hit before it — not on whatever its old ordinal now names.
pub proof fn lemma_step_resumes_around_a_vanished_hit(hits: Seq<PreviewHit>, ordinal: i32, at: i32)
    requires
        forall|i: int, j: int| 0 <= i <= j < hits.len() ==> position_spec(hits[i]) <= position_spec(hits[j]),
        forall|k: int| 0 <= k < hits.len() ==> position_spec(#[trigger] hits[k]) != at,
    ensures
        (exists|k: int| 0 <= k < hits.len() && position_spec(#[trigger] hits[k]) > at) ==> ({
            let n = preview_step_spec(FindCursor::Preview { ordinal, at }, hits, false)->0;
            &&& preview_step_spec(FindCursor::Preview { ordinal, at }, hits, false) is Some
            &&& position_spec(hits[n - 1]) > at
            &&& forall|k: int| 0 <= k < n - 1 ==> position_spec(#[trigger] hits[k]) < at
        }),
        (exists|k: int| 0 <= k < hits.len() && position_spec(#[trigger] hits[k]) < at) ==> ({
            let n = preview_step_spec(FindCursor::Preview { ordinal, at }, hits, true)->0;
            &&& preview_step_spec(FindCursor::Preview { ordinal, at }, hits, true) is Some
            &&& position_spec(hits[n - 1]) < at
            &&& forall|k: int| n - 1 < k < hits.len() ==> position_spec(#[trigger] hits[k]) > at
        }),
{
    lemma_count_before_partition(hits, at as int);
    let c = count_before(hits, at as int) as int;
    if 1 <= ordinal <= hits.len() {
        assert(position_spec(hits[ordinal - 1]) != at);
    }
    if c < hits.len() {
        assert(position_spec(hits[c]) != at);
    }
    assert(resume_ordinal_spec(hits, ordinal as int, at as int) == c);
    if c >= 1 {
        assert(position_spec(hits[c - 1]) != at);
    }
    if exists|k: int| 0 <= k < hits.len() && position_spec(#[trigger] hits[k]) > at {
        let k = choose|k: int| 0 <= k < hits.len() && position_spec(#[trigger] hits[k]) > at;
        assert(k >= c);
        assert(c < hits.len());
        assert(step_spec(c, hits.len() as int, false) == Some(c + 1));
    }
    if exists|k: int| 0 <= k < hits.len() && position_spec(#[trigger] hits[k]) < at {
        let k = choose|k: int| 0 <= k < hits.len() && position_spec(#[trigger] hits[k]) < at;
        assert(k < c);
    }
}

/// Where the cursor sits in `hits`, re-found by the position it landed on.
pub fn resume_ordinal(hits: &[PreviewHit], ordinal: i32, at: i32) -> (r: i32)
    requires
        hits@.len() < i32::MAX,
    ensures
        r as int == resume_ordinal_spec(hits@, ordinal as int, at as int),
        0 <= r <= hits@.len(),
{
    if ordinal >= 1 && ((ordinal - 1) as usize) < hits.len()
        && preview_hit_position(&hits[(ordinal - 1) as usize]) == at {
        return ordinal;
    }
    let n = hits.len();
    let mut before: usize = 0;
    let mut j: usize = 0;
    while j < n
        invariant
            n == hits@.len(),
            j <= n,
            before as int == count_before(hits@.take(j as int), at as int),
        decreases n - j,
    {
        proof {
            assert(hits@.take(j as int + 1).drop_last() =~= hits@.take(j as int));
            lemma_count_before_le(hits@.take(j as int), at as int);
        }
        if preview_hit_position(&hits[j]) < at {
            before += 1;
        }
        j += 1;
    }
    proof {
        assert(hits@.take(n as int) =~= hits@);
        lemma_count_before_le(hits@, at as int);
    }
    if before < n && preview_hit_position(&hits[before]) == at {
        (before + 1) as i32
    } else {
        before as i32
    }
}

/// The 1-based hit a Next/Prev step lands on from `cursor`, or `None` when there are no
/// hits. A cursor left in the editor's list (or none) reads as "nowhere" here, so a step
/// lands on the first or last hit rather than on a position in a list it never indexed.
pub open spec fn preview_step_spec(cursor: FindCursor, hits: Seq<PreviewHit>, backward: bool) -> Option<int> {
    match cursor {
        FindCursor::Preview { ordinal, at } => {
            let current = resume_ordinal_spec(hits, ordinal as int, at as int);
            let present = 1 <= current <= hits.len() && position_spec(hits[current - 1]) == at;
            resume_step_spec(current, present, hits.len() as int, backward)
        },
        _ => resume_step_spec(0, true, hits.len() as int, backward),
    }
}

/// Step from the cursor to the next or previous hit, wrapping.
fn step_from_cursor(cursor: FindCursor, hits: &[PreviewHit], backward: bool) -> (r: Option<i32>)
    requires
        hits@.len() < i32::MAX,
    ensures
        r matches Some(n) ==> preview_step_spec(cursor, hits@, backward) == Some(n as int) && 1 <= n <= hits@.len(),
        r is None <==> hits@.len() == 0,
{
    let total = hits.len() as i32;
    match cursor {
        FindCursor::Preview { ordinal, at } => {
            let current = resume_ordinal(hits, ordinal, at);
            let present = current >= 1 && preview_hit_position(&hits[(current - 1) as usize]) == at;
            resume_step(current, present, total, backward)
        },
        _ => resume_step(0, true, total, backward),
    }
}

/// The index of the first hit at or after `min_off`, if any.
fn first_hit_at_or_after(hits: &[PreviewHit], min_off: i32) -> (r: Option<usize>)
    ensures
        r matches Some(i) ==> i < hits@.len() && position_spec(hits@[i as int]) >= min_off
            && forall|k: int| 0 <= k < i ==> position_spec(#[trigger] hits@[k]) < min_off,
        r is None ==> forall|k: int| 0 <= k < hits@.len() ==> position_spec(#[trigger] hits@[k]) < min_off,
{
    let mut i: usize = 0;
    while i < hits.len()
        invariant
            i <= hits@.len(),
            forall|k: int| 0 <= k < i ==> position_spec(#[trigger] hits@[k]) < min_off,
        decreases hits@.len() - i,
    {
        if preview_hit_position(&hits[i]) >= min_off {
            return Some(i);
        }
        i += 1;
    }
    None
}

/// What landing on a hit means.
#[derive(Clone, Copy, PartialEq, Eq, Debug, Structural)]
pub enum Landing {
    /// The hit is inside a collapsed block: nothing is marked; the block is expanded and
    /// the search resumes inside it, at or after `resume_off`.
    Reveal { summary_off: i32, resume_off: i32, key: u64 },
    /// The hit is on the page: it becomes the current match, and the counter reads
    /// `current` of `total`.
    Arrive { cursor: FindCursor, current: i32, total: i32 },
}

/// What landing on `hits[idx]` (0-based) means: a hidden hit redirects into its block; any
/// other hit becomes the current one, counted `idx + 1` of the list's length.
pub open spec fn landing_spec(hits: Seq<PreviewHit>, idx: int) -> Landing {
    match hits[idx] {
        PreviewHit::Hidden { summary_off, resume_off, key } => Landing::Reveal { summary_off, resume_off, key },
        hit => Landing::Arrive {
            cursor: FindCursor::Preview { ordinal: (idx + 1) as i32, at: position_spec(hit) as i32 },
            current: (idx + 1) as i32,
            total: hits.len() as i32,
        },
    }
}

/// Land on `hits[idx]` (0-based). A hidden hit is a redirection, not an arrival.
pub fn land_on_hit(hits: &[PreviewHit], idx: usize) -> (l: Landing)
    requires
        idx < hits@.len(),
        hits@.len() < i32::MAX,
    ensures
        l == landing_spec(hits@, idx as int),
{
    match hits[idx] {
        PreviewHit::Hidden { summary_off, resume_off, key } => Landing::Reveal { summary_off, resume_off, key },
        hit => {
            let next = (idx + 1) as i32;
            Landing::Arrive {
                cursor: FindCursor::Preview { ordinal: next, at: preview_hit_position(&hit) },
                current: next,
                total: hits.len() as i32,
            }
        },
    }
}

/// Where the preview scrolls to bring a hit into view.
#[derive(Clone, Copy, PartialEq, Eq, Debug, Structural)]
pub enum ScrollTarget {
    /// A buffer character offset.
    Buffer(i32),
    /// A table cell's own row: the table's buffer offset and the cell.
    Cell { anchor_off: i32, cell: u64 },
}

/// Scroll the preview so `hit` is in view: a body hit to its own offset; a cell hit to its
/// cell's row, so a match deep in a tall table lands in view rather than stopping at the
/// table's top; a hidden hit to its block's summary line, the nearest thing to the match
/// this render has, so the reader watches the block they are about to be taken into.
pub fn scroll_to_preview_hit(hit: &PreviewHit) -> (t: ScrollTarget)
    ensures
        t == match *hit {
            PreviewHit::Body { start, .. } => ScrollTarget::Buffer(start),
            PreviewHit::Cell { anchor_off, cell, .. } => ScrollTarget::Cell { anchor_off, cell },
            PreviewHit::Hidden { summary_off, .. } => ScrollTarget::Buffer(summary_off),
        },
{
    match *hit {
        PreviewHit::Body { start, .. } => ScrollTarget::Buffer(start),
        PreviewHit::Cell { anchor_off, cell, .. } => ScrollTarget::Cell { anchor_off, cell },
        PreviewHit::Hidden { summary_off, .. } => ScrollTarget::Buffer(summary_off),
    }
}

/// What a Next/Prev press in the preview does.
#[derive(Clone, Copy, PartialEq, Eq, Debug, Structural)]
pub enum PreviewStep {
    /// The query is empty: nothing happens.
    Idle,
    /// Nothing matches: no current match, and the counter reads no matches.
    NoMatches,
    /// Land on the hit stepped to.
    Land(Landing),
}

/// Step to the next or previous preview hit from `cursor`, wrapping: the cursor is re-found
/// in this list by the position it landed on, and a cursor into the editor's list (or
/// none) steps to the first or last hit.
pub fn preview_find_step(query: &str, cursor: FindCursor, hits: &[PreviewHit], backward: bool) -> (r: PreviewStep)
    requires
        hits@.len() < i32::MAX,
    ensures
        query@.len() == 0 ==> r == PreviewStep::Idle,
        query@.len() > 0 && hits@.len() == 0 ==> r == PreviewStep::NoMatches,
        query@.len() > 0 && hits@.len() > 0 ==> r == PreviewStep::Land(
            landing_spec(hits@, preview_step_spec(cursor, hits@, backward)->0 - 1),
        ),
{
    if query.is_empty() {
        return PreviewStep::Idle;
    }
    match step_from_cursor(cursor, hits, backward) {
        None => PreviewStep::NoMatches,
        Some(next) => PreviewStep::Land(land_on_hit(hits, (next - 1) as usize)),
    }
}

/// After a collapsed block was expanded for find, land on the first hit at or after
/// `min_off` — the block's summary line, which the expansion does not move. `None` when
/// there is no such hit: the current hit and the counter then stay where they are rather
/// than jumping back to the document's first match.
pub fn select_preview_hit_at_or_after(hits: &[PreviewHit], min_off: i32) -> (r: Option<Landing>)
    requires
        hits@.len() < i32::MAX,
    ensures
        r matches Some(l) ==> exists|i: int| 0 <= i < hits@.len() && l == landing_spec(hits@, i)
            && position_spec(hits@[i]) >= min_off
            && forall|k: int| 0 <= k < i ==> position_spec(#[trigger] hits@[k]) < min_off,
        r is None <==> forall|k: int| 0 <= k < hits@.len() ==> position_spec(#[trigger] hits@[k]) < min_off,
{
    match first_hit_at_or_after(hits, min_off) {
        None => None,
        Some(i) => {
            let l = land_on_hit(hits, i);
            proof {
                assert(position_spec(hits@[i as int]) >= min_off);
            }
            Some(l)
        },
    }
}

/// The hits inside `scope`, order kept; every hit when there is no scope.
pub open spec fn confined_spec(hits: Seq<PreviewHit>, scope: Option<PreviewScope>) -> Seq<PreviewHit>
    decreases hits.len(),
{
    match scope {
        None => hits,
        Some(sc) => if hits.len() == 0 {
            hits
        } else {
            let before = confined_spec(hits.drop_last(), scope);
            let p = position_spec(hits.last());
            if sc.start <= p && p < sc.end { before.push(hits.last()) } else { before }
        },
    }
}

/// The hits a search confined to `scope` sees: the scope is applied to the cached list
/// rather than being part of its key.
pub fn confine(hits: &[PreviewHit], scope: Option<PreviewScope>) -> (out: Vec<PreviewHit>)
    ensures
        out@ == confined_spec(hits@, scope),
{
    let mut out: Vec<PreviewHit> = Vec::new();
    let mut i: usize = 0;
    while i < hits.len()
        invariant
            i <= hits@.len(),
            scope is None ==> out@ == hits@.take(i as int),
            scope is Some ==> out@ == confined_spec(hits@.take(i as int), scope),
        decreases hits@.len() - i,
    {
        proof {
            assert(hits@.take(i as int + 1).drop_last() =~= hits@.take(i as int));
            assert(hits@.take(i as int + 1) =~= hits@.take(i as int).push(hits@[i as int]));
        }
        let keep = match scope {
            None => true,
            Some(sc) => sc.contains(preview_hit_position(&hits[i])),
        };
        if keep {
            out.push(hits[i]);
        }
        i += 1;
    }
    proof {
        assert(hits@.take(i as int) =~= hits@);
    }
    out
}

/// Every confined hit lies inside the scope, and a hit inside the scope is kept.
pub proof fn lemma_confined_hits_are_inside(hits: Seq<PreviewHit>, sc: PreviewScope)
    ensures
        forall|k: int| 0 <= k < confined_spec(hits, Some(sc)).len() ==>
            sc.start <= position_spec(#[trigger] confined_spec(hits, Some(sc))[k]) < sc.end,
        forall|k: int| 0 <= k < hits.len() && sc.start <= position_spec(#[trigger] hits[k]) < sc.end
            ==> confined_spec(hits, Some(sc)).contains(hits[k]),
    decreases hits.len(),
{
    if hits.len() > 0 {
        let d = hits.drop_last();
        lemma_confined_hits_are_inside(d, sc);
        let c = confined_spec(d, Some(sc));
        let cc = confined_spec(hits, Some(sc));
        assert forall|k: int| 0 <= k < cc.len() implies sc.start <= position_spec(#[trigger] cc[k]) < sc.end by {
            if k < c.len() {
                assert(cc[k] == c[k]);
            }
        }
        assert forall|k: int| 0 <= k < hits.len() && sc.start <= position_spec(#[trigger] hits[k]) < sc.end
            implies cc.contains(hits[k]) by {
            if k < hits.len() - 1 {
                assert(d[k] == hits[k]);
                let j = choose|j: int| 0 <= j < c.len() && c[j] == d[k];
                assert(cc[j] == hits[k]);
            } else {
                assert(cc[cc.len() - 1] == hits[k]);
            }
        }
    }
}

/// A hit with its sort key: its position in the document, then a sequence number that is
/// 0 for body text and counts up across cell and hidden hits.
pub open spec fn key_le(a: (i32, u64), b: (i32, u64)) -> bool {
    a.0 < b.0 || (a.0 == b.0 && a.1 <= b.1)
}

/// `x` placed after every entry of `s` whose key is at or before its own — the step of a
/// stable insertion sort.
pub open spec fn insert_spec(s: Seq<((i32, u64), PreviewHit)>, x: ((i32, u64), PreviewHit)) -> Seq<((i32, u64), PreviewHit)>
    decreases s.len(),
{
    if s.len() == 0 {
        seq![x]
    } else if key_le(s.last().0, x.0) {
        s.push(x)
    } else {
        insert_spec(s.drop_last(), x).push(s.last())
    }
}

/// `s` stably sorted by key.
pub open spec fn sort_spec(s: Seq<((i32, u64), PreviewHit)>) -> Seq<((i32, u64), PreviewHit)>
    decreases s.len(),
{
    if s.len() == 0 {
        s
    } else {
        insert_spec(sort_spec(s.drop_last()), s.last())
    }
}

/// Whether `s` is in key order.
pub open spec fn sorted(s: Seq<((i32, u64), PreviewHit)>) -> bool {
    forall|i: int, j: int| 0 <= i < j < s.len() ==> key_le(s[i].0, s[j].0)
}

proof fn lemma_insert_sorted(s: Seq<((i32, u64), PreviewHit)>, x: ((i32, u64), PreviewHit))
    requires
        sorted(s),
    ensures
        sorted(insert_spec(s, x)),
        insert_spec(s, x).len() == s.len() + 1,
        insert_spec(s, x).to_multiset() == s.to_multiset().insert(x),
        forall|k: int| 0 <= k < insert_spec(s, x).len() ==>
            (#[trigger] insert_spec(s, x)[k] == x || s.contains(insert_spec(s, x)[k])),
    decreases s.len(),
{
    broadcast use vstd::seq_lib::group_seq_properties;
    if s.len() == 0 {
        assert(seq![x] =~= Seq::<((i32, u64), PreviewHit)>::empty().push(x));
    } else if key_le(s.last().0, x.0) {
        let r = s.push(x);
        assert forall|i: int, j: int| 0 <= i < j < r.len() implies key_le(r[i].0, r[j].0) by {
            if j == r.len() - 1 && i < s.len() - 1 {
                assert(key_le(s[i].0, s[s.len() - 1].0));
            }
        }
        assert forall|k: int| 0 <= k < r.len() implies (#[trigger] r[k] == x || s.contains(r[k])) by {
            if k < s.len() {
                assert(s[k] == r[k]);
            }
        }
    } else {
        let d = s.drop_last();
        assert(sorted(d));
        lemma_insert_sorted(d, x);
        let i = insert_spec(d, x);
        let r = i.push(s.last());
        assert(s =~= d.push(s.last()));
        assert forall|a: int, b: int| 0 <= a < b < r.len() implies key_le(r[a].0, r[b].0) by {
            if b == r.len() - 1 {
                if r[a] == x {
                } else {
                    assert(i[a] == r[a]);
                    let k = choose|k: int| 0 <= k < d.len() && d[k] == i[a];
                    assert(key_le(s[k].0, s[s.len() - 1].0));
                }
            }
        }
        assert forall|k: int| 0 <= k < r.len() implies (#[trigger] r[k] == x || s.contains(r[k])) by {
            if k < i.len() {
                assert(r[k] == i[k]);
                if i[k] != x {
                    let m = choose|m: int| 0 <= m < d.len() && d[m] == i[k];
                    assert(s[m] == i[k]);
                }
            } else {
                assert(s[s.len() - 1] == r[k]);
            }
        }
        assert(r.to_multiset() == i.to_multiset().insert(s.last()));
        assert(s.to_multiset() == d.to_multiset().insert(s.last()));
    }
}

/// The sort puts its input in key order and loses and invents nothing.
pub proof fn lemma_sort_is_ordered_permutation(s: Seq<((i32, u64), PreviewHit)>)
    ensures
        sorted(sort_spec(s)),
        sort_spec(s).to_multiset() == s.to_multiset(),
        sort_spec(s).len() == s.len(),
    decreases s.len(),
{
    broadcast use vstd::seq_lib::group_seq_properties;
    if s.len() > 0 {
        lemma_sort_is_ordered_permutation(s.drop_last());
        lemma_insert_sorted(sort_spec(s.drop_last()), s.last());
        assert(s =~= s.drop_last().push(s.last()));
    }
}

/// Insert `x` into `v` after every entry whose key is at or before its own.
fn insert_stable(v: &mut Vec<((i32, u64), PreviewHit)>, x: ((i32, u64), PreviewHit))
    ensures
        final(v)@ == insert_spec(old(v)@, x),
{
    let mut i: usize = v.len();
    proof {
        assert(v@.take(i as int) =~= v@);
        assert(insert_spec(v@, x) + v@.skip(i as int) =~= insert_spec(v@, x));
    }
    // Walk back over every entry whose key is after x's.
    while i > 0 && !(v[i - 1].0.0 < x.0.0 || (v[i - 1].0.0 == x.0.0 && v[i - 1].0.1 <= x.0.1))
        invariant
            v@ == old(v)@,
            i <= v@.len(),
            insert_spec(v@, x) == insert_spec(v@.take(i as int), x) + v@.skip(i as int),
        decreases i,
    {
        proof {
            let t = v@.take(i as int);
            assert(t.drop_last() =~= v@.take(i as int - 1));
            assert(t.last() == v@[i as int - 1]);
            assert(insert_spec(t, x) == insert_spec(t.drop_last(), x).push(t.last()));
            assert(insert_spec(v@.take(i as int - 1), x).push(v@[i as int - 1]) + v@.skip(i as int)
                =~= insert_spec(v@.take(i as int - 1), x) + v@.skip(i as int - 1));
        }
        i -= 1;
    }
    proof {
        let t = v@.take(i as int);
        if i > 0 {
            assert(t.last() == v@[i as int - 1]);
            assert(insert_spec(t, x) == t.push(x));
        } else {
            assert(t =~= Seq::<((i32, u64), PreviewHit)>::empty());
            assert(insert_spec(t, x) == seq![x]);
        }
        assert(t.push(x) + v@.skip(i as int) =~= v@.insert(i as int, x));
    }
    v.insert(i, x);
}

/// The keyed entries of the three hit sources, in the order they are gathered: body hits
/// (sequence 0) in their own order, then every cell match in cell order, then `count`
/// hidden hits per collapsed block — cells and hidden hits numbered 1, 2, ... across both.
pub open spec fn gathered_spec(
    body: Seq<(i32, i32, bool)>,
    cells: Seq<(i32, u64, Seq<Range>)>,
    hidden: Seq<(i32, i32, u64, usize)>,
) -> Seq<((i32, u64), PreviewHit)> {
    body_keyed(body) + cells_keyed(cells, 1) + hidden_keyed(hidden, 1 + cell_count(cells))
}

/// The body hits, keyed at sequence 0: every body match except one that lands on a
/// collapsed block's own preview text, which its hidden hit already counts.
pub open spec fn body_keyed(body: Seq<(i32, i32, bool)>) -> Seq<((i32, u64), PreviewHit)>
    decreases body.len(),
{
    if body.len() == 0 {
        Seq::empty()
    } else {
        let b = body.last();
        let rest = body_keyed(body.drop_last());
        if b.2 { rest } else { rest.push(((b.0, 0u64), PreviewHit::Body { start: b.0, end: b.1 })) }
    }
}

/// How many matches the cells hold between them.
pub open spec fn cell_count(cells: Seq<(i32, u64, Seq<Range>)>) -> nat
    decreases cells.len(),
{
    if cells.len() == 0 { 0 } else { cell_count(cells.drop_last()) + cells.last().2.len() }
}

/// The matches of one cell, numbered from `seq`.
pub open spec fn one_cell_keyed(anchor_off: i32, cell: u64, ranges: Seq<Range>, seq: nat) -> Seq<((i32, u64), PreviewHit)> {
    Seq::new(ranges.len(), |k: int| ((anchor_off, (seq + k) as u64), PreviewHit::Cell {
        anchor_off,
        cell,
        byte_start: ranges[k].start as u32,
        byte_end: ranges[k].end as u32,
    }))
}

/// Every cell match, in cell order, numbered from `seq`.
pub open spec fn cells_keyed(cells: Seq<(i32, u64, Seq<Range>)>, seq: nat) -> Seq<((i32, u64), PreviewHit)>
    decreases cells.len(),
{
    if cells.len() == 0 {
        Seq::empty()
    } else {
        let c = cells.last();
        cells_keyed(cells.drop_last(), seq) + one_cell_keyed(c.0, c.1, c.2, seq + cell_count(cells.drop_last()))
    }
}

/// How many hidden hits the blocks hold between them.
pub open spec fn hidden_count(hidden: Seq<(i32, i32, u64, usize)>) -> nat
    decreases hidden.len(),
{
    if hidden.len() == 0 { 0 } else { hidden_count(hidden.drop_last()) + hidden.last().3 as nat }
}

/// The hidden hits of every collapsed block, `count` per block at its summary line,
/// numbered from `seq`.
pub open spec fn hidden_keyed(hidden: Seq<(i32, i32, u64, usize)>, seq: nat) -> Seq<((i32, u64), PreviewHit)>
    decreases hidden.len(),
{
    if hidden.len() == 0 {
        Seq::empty()
    } else {
        let h = hidden.last();
        let from = seq + hidden_count(hidden.drop_last());
        hidden_keyed(hidden.drop_last(), seq) + Seq::new(h.3 as nat, |k: int| ((h.0, (from + k) as u64),
            PreviewHit::Hidden { summary_off: h.0, resume_off: h.1, key: h.2 }))
    }
}

/// The document-ordered hit list: the gathered entries stably sorted by key, keys dropped.
pub open spec fn ordered_hits_spec(
    body: Seq<(i32, i32, bool)>,
    cells: Seq<(i32, u64, Seq<Range>)>,
    hidden: Seq<(i32, i32, u64, usize)>,
) -> Seq<PreviewHit> {
    sort_spec(gathered_spec(body, cells, hidden)).map_values(|e: ((i32, u64), PreviewHit)| e.1)
}

/// The view of the cell input: each cell's anchor offset, identity and match ranges.
pub open spec fn cells_view(cells: Seq<(i32, u64, Vec<Range>)>) -> Seq<(i32, u64, Seq<Range>)> {
    cells.map_values(|c: (i32, u64, Vec<Range>)| (c.0, c.1, c.2@))
}

/// Build the unified, document-ordered hit list from the three texts the preview searches
/// with one matcher: `body` (buffer character ranges, ascending, each flagged when it
/// lands on a collapsed block's preview text — that occurrence is counted once, by the
/// block's hidden hit), `cells` (each table cell's anchor offset, identity and byte
/// matches, in document order), and `hidden` (each collapsed block's summary offset,
/// resume offset, fold key and match count). Sorted by offset and then by a stable
/// sequence, so a table's cell hits land between the body text before and after it.
pub fn build_preview_hits(body: &[(i32, i32, bool)], cells: &[(i32, u64, Vec<Range>)], hidden: &[(i32, i32, u64, usize)]) -> (out: Vec<PreviewHit>)
    requires
        cell_count(cells_view(cells@)) + hidden_count(hidden@) < u64::MAX,
    ensures
        out@ == ordered_hits_spec(body@, cells_view(cells@), hidden@),
{
    let ghost cv = cells_view(cells@);
    let mut sorted_v: Vec<((i32, u64), PreviewHit)> = Vec::new();
    let ghost mut gathered: Seq<((i32, u64), PreviewHit)> = Seq::empty();
    // Body hits.
    let mut i: usize = 0;
    while i < body.len()
        invariant
            i <= body@.len(),
            gathered == body_keyed(body@.take(i as int)),
            sorted_v@ == sort_spec(gathered),
        decreases body@.len() - i,
    {
        let (start, end, in_block_preview) = body[i];
        proof {
            assert(body@.take(i as int + 1).drop_last() =~= body@.take(i as int));
            assert(body@.take(i as int + 1).last() == body@[i as int]);
        }
        if !in_block_preview {
            let x = ((start, 0u64), PreviewHit::Body { start, end });
            proof {
                assert(body_keyed(body@.take(i as int + 1)) == gathered.push(x));
                assert(gathered.push(x).drop_last() =~= gathered);
            }
            insert_stable(&mut sorted_v, x);
            proof {
                gathered = gathered.push(x);
            }
        }
        i += 1;
    }
    proof {
        assert(body@.take(i as int) =~= body@);
        assert(cells_keyed(cv.take(0), 1) =~= Seq::<((i32, u64), PreviewHit)>::empty());
        assert(gathered + cells_keyed(cv.take(0), 1) =~= gathered);
    }
    let ghost body_part = gathered;
    // Cell hits.
    let mut seq: u64 = 1;
    let mut c: usize = 0;
    while c < cells.len()
        invariant
            cv == cells_view(cells@),
            c <= cells@.len(),
            cell_count(cv) + hidden_count(hidden@) < u64::MAX,
            seq == 1 + cell_count(cv.take(c as int)),
            gathered == body_part + cells_keyed(cv.take(c as int), 1),
            sorted_v@ == sort_spec(gathered),
        decreases cells@.len() - c,
    {
        let anchor_off = cells[c].0;
        let cell = cells[c].1;
        let ranges = &cells[c].2;
        proof {
            lemma_cell_count_prefix_le(cv, c as int + 1);
            assert(cv.take(c as int + 1).drop_last() =~= cv.take(c as int));
            assert(cv.take(c as int + 1).last() == cv[c as int]);
            assert(cv[c as int] == (anchor_off, cell, ranges@));
            assert(cell_count(cv.take(c as int + 1)) == cell_count(cv.take(c as int)) + ranges@.len());
        }
        let ghost cell_start = gathered;
        let mut k: usize = 0;
        while k < ranges.len()
            invariant
                c < cells@.len(),
                cv == cells_view(cells@),
                cv[c as int] == (anchor_off, cell, ranges@),
                k <= ranges@.len(),
                seq == 1 + cell_count(cv.take(c as int)) + k,
                1 + cell_count(cv.take(c as int + 1)) <= u64::MAX,
                cell_count(cv.take(c as int + 1)) == cell_count(cv.take(c as int)) + ranges@.len(),
                gathered == cell_start + one_cell_keyed(anchor_off, cell, ranges@, 1 + cell_count(cv.take(c as int))).take(k as int),
                sorted_v@ == sort_spec(gathered),
            decreases ranges@.len() - k,
        {
            let Range { start: bs, end: be } = ranges[k];
            let x = ((anchor_off, seq), PreviewHit::Cell {
                anchor_off,
                cell,
                byte_start: #[verifier::truncate] (bs as u32),
                byte_end: #[verifier::truncate] (be as u32),
            });
            proof {
                let one = one_cell_keyed(anchor_off, cell, ranges@, 1 + cell_count(cv.take(c as int)));
                assert(one.take(k as int + 1) =~= one.take(k as int).push(one[k as int]));
                assert(one[k as int] == x);
                assert(cell_start + one.take(k as int + 1) =~= gathered.push(x));
                assert(gathered.push(x).drop_last() =~= gathered);
            }
            insert_stable(&mut sorted_v, x);
            proof {
                gathered = gathered.push(x);
            }
            seq = seq + 1;
            k += 1;
        }
        proof {
            let one = one_cell_keyed(anchor_off, cell, ranges@, 1 + cell_count(cv.take(c as int)));
            assert(one.take(k as int) =~= one);
            assert(cells_keyed(cv.take(c as int + 1), 1) == cells_keyed(cv.take(c as int), 1) + one);
            assert(body_part + cells_keyed(cv.take(c as int + 1), 1) =~= gathered);
        }
        c += 1;
    }
    proof {
        assert(cv.take(c as int) =~= cv);
        assert(hidden_keyed(hidden@.take(0), seq as nat) =~= Seq::<((i32, u64), PreviewHit)>::empty());
        assert(gathered + hidden_keyed(hidden@.take(0), seq as nat) =~= gathered);
    }
    let ghost cells_part = gathered;
    let ghost seq0 = seq as nat;
    // Hidden hits.
    let mut h: usize = 0;
    while h < hidden.len()
        invariant
            h <= hidden@.len(),
            seq0 == 1 + cell_count(cv),
            cell_count(cv) + hidden_count(hidden@) < u64::MAX,
            seq == seq0 + hidden_count(hidden@.take(h as int)),
            gathered == cells_part + hidden_keyed(hidden@.take(h as int), seq0),
            sorted_v@ == sort_spec(gathered),
        decreases hidden@.len() - h,
    {
        let (summary_off, resume_off, key, count) = hidden[h];
        proof {
            lemma_hidden_count_prefix_le(hidden@, h as int + 1);
            assert(hidden@.take(h as int + 1).drop_last() =~= hidden@.take(h as int));
            assert(hidden@.take(h as int + 1).last() == hidden@[h as int]);
            assert(hidden_count(hidden@.take(h as int + 1)) == hidden_count(hidden@.take(h as int)) + count);
        }
        let ghost block_start = gathered;
        let ghost from = seq as nat;
        let mut k: usize = 0;
        while k < count
            invariant
                k <= count,
                seq == from + k,
                from + count <= u64::MAX,
                gathered == block_start + Seq::new(k as nat, |t: int| ((summary_off, (from + t) as u64),
                    PreviewHit::Hidden { summary_off, resume_off, key })),
                sorted_v@ == sort_spec(gathered),
            decreases count - k,
        {
            let x = ((summary_off, seq), PreviewHit::Hidden { summary_off, resume_off, key });
            proof {
                assert(block_start + Seq::new((k + 1) as nat, |t: int| ((summary_off, (from + t) as u64),
                    PreviewHit::Hidden { summary_off, resume_off, key })) =~= gathered.push(x));
                assert(gathered.push(x).drop_last() =~= gathered);
            }
            insert_stable(&mut sorted_v, x);
            proof {
                gathered = gathered.push(x);
            }
            seq = seq + 1;
            k += 1;
        }
        proof {
            assert(hidden_keyed(hidden@.take(h as int + 1), seq0) =~= hidden_keyed(hidden@.take(h as int), seq0)
                + Seq::new(count as nat, |t: int| ((summary_off, (from + t) as u64),
                    PreviewHit::Hidden { summary_off, resume_off, key })));
            assert(cells_part + hidden_keyed(hidden@.take(h as int + 1), seq0) =~= gathered);
        }
        h += 1;
    }
    proof {
        assert(hidden@.take(h as int) =~= hidden@);
        assert(gathered == gathered_spec(body@, cv, hidden@));
    }
    // Keys dropped.
    let mut out: Vec<PreviewHit> = Vec::new();
    let mut j: usize = 0;
    while j < sorted_v.len()
        invariant
            j <= sorted_v@.len(),
            out@ == sorted_v@.take(j as int).map_values(|e: ((i32, u64), PreviewHit)| e.1),
        decreases sorted_v@.len() - j,
    {
        proof {
            assert(sorted_v@.take(j as int + 1).map_values(|e: ((i32, u64), PreviewHit)| e.1)
                =~= out@.push(sorted_v@[j as int].1));
        }
        out.push(sorted_v[j].1);
        j += 1;
    }
    proof {
        assert(sorted_v@.take(j as int) =~= sorted_v@);
    }
    out
}

proof fn lemma_cell_count_prefix_le(cv: Seq<(i32, u64, Seq<Range>)>, i: int)
    requires
        0 <= i <= cv.len(),
    ensures
        cell_count(cv.take(i)) <= cell_count(cv),
    decreases cv.len() - i,
{
    if i < cv.len() {
        lemma_cell_count_prefix_le(cv, i + 1);
        assert(cv.take(i + 1).drop_last() =~= cv.take(i));
    } else {
        assert(cv.take(i) =~= cv);
    }
}

proof fn lemma_hidden_count_prefix_le(hv: Seq<(i32, i32, u64, usize)>, i: int)
    requires
        0 <= i <= hv.len(),
    ensures
        hidden_count(hv.take(i)) <= hidden_count(hv),
    decreases hv.len() - i,
{
    if i < hv.len() {
        lemma_hidden_count_prefix_le(hv, i + 1);
        assert(hv.take(i + 1).drop_last() =~= hv.take(i));
    } else {
        assert(hv.take(i) =~= hv);
    }
}

} // verus!
