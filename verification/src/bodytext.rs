//! The preview buffer's text, made searchable by the matcher, and the map back from a
//! match to the buffer offsets that name it.
//!
//! The buffer's slice yields U+FFFC for every anchored child (a table, an image), so its
//! character offsets are the buffer's. Those placeholders must not be matchable, so they
//! are dropped — which puts the haystack out of step with the buffer, and the rest of this
//! module undoes that. Anchors are rare, so what is recorded is where they were, and the
//! shift at any point is how many of them lie at or before it.

use vstd::prelude::*;
use crate::matcher::Range;
use crate::unicode::{byte_len, byte_offset, chars_of, len_utf8, lemma_byte_offset_monotone, string_from_chars};

verus! {

broadcast use vstd::string::group_string_axioms;

/// The character the buffer's slice yields for each anchored child: U+FFFC, OBJECT
/// REPLACEMENT CHARACTER.
pub open spec fn anchor_char() -> char {
    '\u{FFFC}'
}

/// The searchable text of `slice` (every anchor removed), and for each anchor removed the
/// index, in characters of that text, that it sat immediately before.
pub open spec fn extract_spec(slice: Seq<char>) -> (Seq<char>, Seq<usize>)
    decreases slice.len(),
{
    if slice.len() == 0 {
        (Seq::empty(), Seq::empty())
    } else {
        let (text, anchors) = extract_spec(slice.drop_last());
        if slice.last() == anchor_char() {
            (text, anchors.push(text.len() as usize))
        } else {
            (text.push(slice.last()), anchors)
        }
    }
}

/// How many of `anchors` are at or before `i`.
pub open spec fn count_at_or_before(anchors: Seq<usize>, i: int) -> nat
    decreases anchors.len(),
{
    if anchors.len() == 0 {
        0
    } else {
        count_at_or_before(anchors.drop_last(), i) + if anchors.last() as int <= i { 1nat } else { 0nat }
    }
}

/// The index of the first character of `text`, from character `k` on, whose byte offset is
/// at or past `byte` — the character index `byte` names — or the text's length when there is
/// none.
pub open spec fn char_index_from(text: Seq<char>, byte: int, k: int) -> int
    decreases text.len() - k,
{
    if k < 0 || k >= text.len() || byte_offset(text, k) >= byte {
        k
    } else {
        char_index_from(text, byte, k + 1)
    }
}

/// The character index of byte offset `byte` in `text`.
pub open spec fn char_index(text: Seq<char>, byte: int) -> int {
    char_index_from(text, byte, 0)
}

/// A preview buffer's searchable text, plus what is needed to name a match in the buffer's
/// own coordinates.
pub struct BodyText {
    text: String,
    chars: Vec<char>,
    anchors_before: Vec<usize>,
}

impl BodyText {
    /// The haystack, as characters.
    pub closed spec fn text_view(&self) -> Seq<char> {
        self.chars@
    }

    /// For each dropped anchor, the character index of the haystack it sat before.
    pub closed spec fn anchors(&self) -> Seq<usize> {
        self.anchors_before@
    }

    /// What every `BodyText` holds: the haystack string and its characters agree, the anchor
    /// positions ascend and index the haystack, and the buffer's length fits a `usize`.
    pub closed spec fn wf(&self) -> bool {
        &&& self.text@ == self.chars@
        &&& forall|a: int, b: int| 0 <= a <= b < self.anchors_before@.len()
            ==> self.anchors_before@[a] <= self.anchors_before@[b]
        &&& forall|a: int| 0 <= a < self.anchors_before@.len() ==> self.anchors_before@[a] <= self.chars@.len()
        &&& self.chars@.len() + self.anchors_before@.len() <= usize::MAX
    }

    /// How many buffer positions at or before haystack character `i` the extraction removed.
    pub open spec fn shift_spec(&self, i: int) -> nat {
        count_at_or_before(self.anchors(), i)
    }

    /// The buffer range a single byte range of the haystack names, or `None` when it covers
    /// no character. The end takes the shift at the range's LAST character, so an anchor
    /// just after a match is not swallowed by it, while one inside it is spanned.
    pub open spec fn buffer_range_of(&self, r: Range) -> Option<(i32, i32)> {
        match self.buffer_span_of(r) {
            Some((bs, be)) => Some((bs as i32, be as i32)),
            None => None,
        }
    }

    /// The buffer positions a single byte range of the haystack names, as integers: the
    /// character range it covers, each end moved past the anchors removed before it.
    pub open spec fn buffer_span_of(&self, r: Range) -> Option<(int, int)> {
        let cs = char_index(self.text_view(), r.start as int);
        let ce = char_index(self.text_view(), r.end as int);
        if ce <= cs {
            None
        } else {
            Some((cs + self.shift_spec(cs), ce + self.shift_spec(ce - 1)))
        }
    }

    /// The buffer ranges of `ranges`, in order, each range resolved on its own.
    pub open spec fn buffer_ranges_spec(&self, ranges: Seq<Range>) -> Seq<(i32, i32)>
        decreases ranges.len(),
    {
        if ranges.len() == 0 {
            Seq::empty()
        } else {
            let before = self.buffer_ranges_spec(ranges.drop_last());
            match self.buffer_range_of(ranges.last()) {
                Some(r) => before.push(r),
                None => before,
            }
        }
    }

    /// Extract the searchable text from a buffer `slice` taken with hidden characters
    /// included, so that its characters correspond one-for-one with the buffer's offsets.
    pub fn extract(slice: &str) -> (b: BodyText)
        ensures
            b.wf(),
            b.text_view() == extract_spec(slice@).0,
            b.anchors() == extract_spec(slice@).1,
    {
        let all = chars_of(slice);
        let mut chars: Vec<char> = Vec::new();
        let mut anchors_before: Vec<usize> = Vec::new();
        let mut i: usize = 0;
        while i < all.len()
            invariant
                all@ == slice@,
                i <= all@.len(),
                chars@ == extract_spec(slice@.take(i as int)).0,
                anchors_before@ == extract_spec(slice@.take(i as int)).1,
                chars@.len() + anchors_before@.len() == i,
                forall|a: int, b: int| 0 <= a <= b < anchors_before@.len() ==> anchors_before@[a] <= anchors_before@[b],
                forall|a: int| 0 <= a < anchors_before@.len() ==> anchors_before@[a] <= chars@.len(),
            decreases all@.len() - i,
        {
            proof {
                assert(slice@.take(i as int + 1).drop_last() =~= slice@.take(i as int));
                assert(slice@.take(i as int + 1).last() == slice@[i as int]);
            }
            let ch = all[i];
            if ch == '\u{FFFC}' {
                anchors_before.push(chars.len());
            } else {
                chars.push(ch);
            }
            i += 1;
        }
        proof {
            assert(slice@.take(i as int) =~= slice@);
        }
        let text = string_from_chars(chars.as_slice());
        BodyText { text, chars, anchors_before }
    }

    /// The haystack. Every byte range handed to [`BodyText::to_buffer_ranges`] must index
    /// this string.
    pub fn text(&self) -> (t: &str)
        requires
            self.wf(),
        ensures
            t@ == self.text_view(),
    {
        self.text.as_str()
    }

    /// How many buffer positions at or before haystack character `i` the extraction removed.
    pub fn shift(&self, i: usize) -> (n: usize)
        requires
            self.wf(),
        ensures
            n == self.shift_spec(i as int),
    {
        let a = &self.anchors_before;
        let mut lo: usize = 0;
        let mut hi: usize = a.len();
        while lo < hi
            invariant
                self.wf(),
                a@ == self.anchors(),
                lo <= hi <= a@.len(),
                forall|k: int| 0 <= k < lo ==> a@[k] <= i,
                forall|k: int| hi <= k < a@.len() ==> a@[k] > i,
            decreases hi - lo,
        {
            let mid = lo + (hi - lo) / 2;
            if a[mid] <= i {
                lo = mid + 1;
            } else {
                hi = mid;
            }
        }
        proof {
            lemma_partition_point_counts(a@, i as int, lo as int);
        }
        lo
    }

    /// A walk over the haystack from its first character.
    pub fn walk(&self) -> (w: Walk)
        requires
            self.wf(),
            byte_len(self.text_view()) <= usize::MAX,
        ensures
            w.wf(),
            w.text_spec() == self.text_view(),
            w.at_spec() == 0,
    {
        let ghost t = self.text_view();
        let len = self.chars.len();
        // The byte offset of every character of the text.
        let mut offsets: Vec<usize> = Vec::new();
        let mut acc: usize = 0;
        let mut j: usize = 0;
        while j < len
            invariant
                self.chars@ == t,
                len == t.len(),
                j <= len,
                offsets@.len() == j,
                acc == byte_offset(t, j as int),
                byte_len(t) <= usize::MAX,
                forall|k: int| 0 <= k < j ==> offsets@[k] == byte_offset(t, k),
            decreases len - j,
        {
            proof {
                lemma_byte_offset_monotone(t, j as int + 1, t.len() as int);
            }
            offsets.push(acc);
            acc = acc + len_utf8(self.chars[j]);
            j += 1;
        }
        Walk { offsets, at: 0, text: Ghost(t) }
    }

    /// Translate ascending, non-overlapping byte ranges of [`BodyText::text`] into buffer
    /// character ranges, in one forward walk over the text. A range covering no character
    /// resolves to nothing.
    pub fn to_buffer_ranges(&self, ranges: &[Range]) -> (out: Vec<(i32, i32)>)
        requires
            self.wf(),
            byte_len(self.text_view()) <= usize::MAX,
            forall|j: int| 0 <= j < ranges@.len() ==> ranges@[j].start <= ranges@[j].end,
            forall|j: int| 0 < j < ranges@.len() ==> ranges@[j - 1].end <= ranges@[j].start,
        ensures
            out@ == self.buffer_ranges_spec(ranges@),
    {
        let ghost t = self.text_view();
        let mut walk = self.walk();
        let mut out: Vec<(i32, i32)> = Vec::new();
        let mut r: usize = 0;
        proof {
            assert(ranges@.take(0) =~= Seq::<Range>::empty());
        }
        while r < ranges.len()
            invariant
                self.wf(),
                t == self.text_view(),
                walk.wf(),
                walk.text_spec() == t,
                r <= ranges@.len(),
                r > 0 ==> walk.at_spec() == char_index(t, ranges@[r - 1].end as int),
                r == 0 ==> walk.at_spec() == 0,
                forall|q: int| 0 <= q < ranges@.len() ==> ranges@[q].start <= ranges@[q].end,
                forall|q: int| 0 < q < ranges@.len() ==> ranges@[q - 1].end <= ranges@[q].start,
                out@ == self.buffer_ranges_spec(ranges@.take(r as int)),
            decreases ranges@.len() - r,
        {
            let Range { start, end } = ranges[r];
            proof {
                if r > 0 {
                    lemma_char_index_monotone(t, ranges@[r - 1].end as int, start as int);
                }
            }
            let cs = walk.char_index_of(start);
            proof {
                lemma_char_index_monotone(t, start as int, end as int);
            }
            let ce = walk.char_index_of(end);
            proof {
                assert(ranges@.take(r as int + 1).drop_last() =~= ranges@.take(r as int));
                assert(ranges@.take(r as int + 1).last() == ranges@[r as int]);
                lemma_char_index_bounds(t, start as int);
                lemma_char_index_bounds(t, end as int);
            }
            proof {
                lemma_count_at_or_before_le(self.anchors(), cs as int);
                lemma_count_at_or_before_le(self.anchors(), ce as int - 1);
            }
            if ce > cs {
                let bs = cs + self.shift(cs);
                let be = ce + self.shift(ce - 1);
                out.push((#[verifier::truncate] (bs as i32), #[verifier::truncate] (be as i32)));
            }
            r += 1;
        }
        proof {
            assert(ranges@.take(r as int) =~= ranges@);
        }
        out
    }
}

/// The resolution of a batch of ranges is the resolution of all but the last, followed by
/// that of the last resolved alone — so a batch resolves the same as one range at a time.
pub proof fn lemma_batch_resolves_as_singles(b: &BodyText, ranges: Seq<Range>, r: Range)
    ensures
        b.buffer_ranges_spec(ranges.push(r)) == b.buffer_ranges_spec(ranges) + b.buffer_ranges_spec(seq![r]),
{
    assert(ranges.push(r).drop_last() =~= ranges);
    assert(seq![r].drop_last() =~= Seq::<Range>::empty());
    assert(seq![r].last() == r);
    assert(b.buffer_ranges_spec(Seq::<Range>::empty()) == Seq::<(i32, i32)>::empty());
    let single = b.buffer_ranges_spec(seq![r]);
    match b.buffer_range_of(r) {
        Some(x) => {
            assert(single =~= seq![x]);
            assert(b.buffer_ranges_spec(ranges).push(x) =~= b.buffer_ranges_spec(ranges) + seq![x]);
        },
        None => {
            assert(single =~= Seq::<(i32, i32)>::empty());
            assert(b.buffer_ranges_spec(ranges) =~= b.buffer_ranges_spec(ranges) + single);
        },
    }
}

/// The characters of `s` that are not anchors, in order.
pub open spec fn without_anchors(s: Seq<char>) -> Seq<char>
    decreases s.len(),
{
    if s.len() == 0 {
        s
    } else if s.last() == anchor_char() {
        without_anchors(s.drop_last())
    } else {
        without_anchors(s.drop_last()).push(s.last())
    }
}

proof fn lemma_without_anchors_concat(a: Seq<char>, b: Seq<char>)
    ensures
        without_anchors(a + b) == without_anchors(a) + without_anchors(b),
    decreases b.len(),
{
    if b.len() == 0 {
        assert(a + b =~= a);
        assert(without_anchors(a) + without_anchors(b) =~= without_anchors(a));
    } else {
        lemma_without_anchors_concat(a, b.drop_last());
        assert((a + b).drop_last() =~= a + b.drop_last());
        assert((a + b).last() == b.last());
        if b.last() != anchor_char() {
            assert(without_anchors(a) + without_anchors(b.drop_last()).push(b.last())
                =~= (without_anchors(a) + without_anchors(b.drop_last())).push(b.last()));
        }
    }
}

/// The extraction's text is the slice without its anchors; it has one character per
/// non-anchor of the slice and one recorded anchor per anchor, each recorded at or before
/// the text's end, in order.
proof fn lemma_extract_shape(slice: Seq<char>)
    ensures
        extract_spec(slice).0 == without_anchors(slice),
        extract_spec(slice).0.len() + extract_spec(slice).1.len() == slice.len(),
        forall|k: int| 0 <= k < extract_spec(slice).1.len() ==> extract_spec(slice).1[k] <= extract_spec(slice).0.len(),
        !extract_spec(slice).0.contains(anchor_char()),
    decreases slice.len(),
{
    if slice.len() > 0 {
        lemma_extract_shape(slice.drop_last());
        let (t, a) = extract_spec(slice.drop_last());
        if slice.last() != anchor_char() {
            assert forall|k: int| 0 <= k < t.push(slice.last()).len() implies t.push(slice.last())[k] != anchor_char() by {
                if k < t.len() {
                    assert(!t.contains(anchor_char()));
                    if t[k] == anchor_char() {
                        assert(t.contains(t[k]));
                    }
                }
            }
        }
    }
}

/// Where character `i` of the extracted text sits in the slice: after it and every anchor
/// recorded at or before it.
pub open spec fn slice_position(anchors: Seq<usize>, i: int) -> int {
    i + count_at_or_before(anchors, i)
}

proof fn lemma_positions(slice: Seq<char>, i: int)
    requires
        0 <= i < extract_spec(slice).0.len(),
        slice.len() <= usize::MAX,
    ensures
        ({
            let (t, a) = extract_spec(slice);
            let p = slice_position(a, i);
            &&& i <= p < slice.len()
            &&& slice[p] == t[i]
            &&& without_anchors(slice.take(p)) == t.take(i)
        }),
    decreases slice.len(),
{
    let s = slice.drop_last();
    let (t, a) = extract_spec(s);
    lemma_extract_shape(s);
    lemma_extract_shape(slice);
    if slice.last() == anchor_char() {
        lemma_positions(s, i);
        let a2 = a.push(t.len() as usize);
        assert(extract_spec(slice) == (t, a2));
        assert(i < t.len());
        assert(a2.drop_last() =~= a);
        assert(a2.last() as int == t.len());
        assert(count_at_or_before(a2, i) == count_at_or_before(a, i));
        let p = slice_position(a, i);
        assert(slice.take(p) =~= s.take(p));
    } else if i < t.len() {
        lemma_positions(s, i);
        let p = slice_position(a, i);
        assert(slice.take(p) =~= s.take(p));
    } else {
        assert(i == t.len());
        lemma_partition_point_counts(a, i, a.len() as int);
        assert(slice.take(s.len() as int) =~= s);
        assert(t.push(slice.last()).take(i) =~= t);
    }
}

/// **A match resolves to the buffer text that spells it.** The buffer range a haystack
/// range resolves to begins and ends on real characters — never on an anchor — and its
/// characters, anchors removed, are exactly the matched characters of the haystack.
pub proof fn lemma_buffer_range_spells_the_match(slice: Seq<char>, b: &BodyText, r: Range)
    requires
        b.wf(),
        b.text_view() == extract_spec(slice).0,
        b.anchors() == extract_spec(slice).1,
    ensures
        b.buffer_span_of(r) matches Some((s, e)) ==> {
            let t = b.text_view();
            let cs = char_index(t, r.start as int);
            let ce = char_index(t, r.end as int);
            &&& 0 <= s < e <= slice.len()
            &&& slice[s] != anchor_char()
            &&& slice[e - 1] != anchor_char()
            &&& without_anchors(slice.subrange(s, e)) == t.subrange(cs, ce)
        },
        b.buffer_span_of(r) is None <==> b.buffer_range_of(r) is None,
        b.buffer_span_of(r) matches Some((s, e)) ==> b.buffer_range_of(r) == Some((s as i32, e as i32)),
{
    let t = b.text_view();
    let a = b.anchors();
    let cs = char_index(t, r.start as int);
    let ce = char_index(t, r.end as int);
    lemma_char_index_bounds(t, r.start as int);
    lemma_char_index_bounds(t, r.end as int);
    lemma_extract_shape(slice);
    assert(slice.len() <= usize::MAX);
    if cs < ce {
        lemma_positions(slice, cs);
        lemma_positions(slice, ce - 1);
        let ps = slice_position(a, cs);
        let pe = slice_position(a, ce - 1);
        if cs < ce - 1 {
            lemma_count_at_or_before_mono(a, cs, ce - 1);
        }
        assert(t.contains(t[cs]));
        assert(t.contains(t[ce - 1]));
        // The prefix up to the last matched character, split at the first one.
        let whole = slice.take(pe + 1);
        assert(whole =~= slice.take(ps) + slice.subrange(ps, pe + 1));
        lemma_without_anchors_concat(slice.take(ps), slice.subrange(ps, pe + 1));
        assert(slice.take(pe + 1) =~= slice.take(pe).push(slice[pe]));
        assert(slice.take(pe + 1).drop_last() =~= slice.take(pe));
        assert(without_anchors(whole) =~= t.take(ce - 1).push(t[ce - 1]));
        assert(t.take(ce - 1).push(t[ce - 1]) =~= t.take(ce));
        let mid = without_anchors(slice.subrange(ps, pe + 1));
        assert(t.take(ce) == t.take(cs) + mid);
        assert(mid =~= t.subrange(cs, ce)) by {
            assert forall|k: int| 0 <= k < mid.len() implies mid[k] == t.subrange(cs, ce)[k] by {
                assert((t.take(cs) + mid)[cs + k] == t.take(ce)[cs + k]);
            }
        }
    }
}

proof fn lemma_count_at_or_before_mono(a: Seq<usize>, i: int, j: int)
    requires
        i <= j,
    ensures
        count_at_or_before(a, i) <= count_at_or_before(a, j),
    decreases a.len(),
{
    if a.len() > 0 {
        lemma_count_at_or_before_mono(a.drop_last(), i, j);
    }
}

/// With no anchors in the slice, the haystack is the slice itself and no offset shifts.
pub proof fn lemma_no_anchor_is_identity(slice: Seq<char>)
    requires
        !slice.contains(anchor_char()),
    ensures
        extract_spec(slice).0 == slice,
        extract_spec(slice).1.len() == 0,
    decreases slice.len(),
{
    if slice.len() > 0 {
        assert(!slice.drop_last().contains(anchor_char())) by {
            if slice.drop_last().contains(anchor_char()) {
                let k = choose|k: int| 0 <= k < slice.drop_last().len() && slice.drop_last()[k] == anchor_char();
                assert(slice[k] == anchor_char());
            }
        }
        lemma_no_anchor_is_identity(slice.drop_last());
        assert(slice[slice.len() - 1] != anchor_char());
        assert(slice.drop_last().push(slice.last()) =~= slice);
    }
}

/// With no anchors, every shift is zero.
pub proof fn lemma_no_anchor_no_shift(anchors: Seq<usize>, i: int)
    requires
        anchors.len() == 0,
    ensures
        count_at_or_before(anchors, i) == 0,
{
}

proof fn lemma_count_at_or_before_le(a: Seq<usize>, i: int)
    ensures
        count_at_or_before(a, i) <= a.len(),
    decreases a.len(),
{
    if a.len() > 0 {
        lemma_count_at_or_before_le(a.drop_last(), i);
    }
}

proof fn lemma_partition_point_counts(a: Seq<usize>, i: int, p: int)
    requires
        0 <= p <= a.len(),
        forall|k: int| 0 <= k < p ==> a[k] <= i,
        forall|k: int| p <= k < a.len() ==> a[k] > i,
    ensures
        count_at_or_before(a, i) == p,
    decreases a.len(),
{
    if a.len() > 0 {
        if p == a.len() {
            lemma_partition_point_counts(a.drop_last(), i, p - 1);
        } else {
            lemma_partition_point_counts(a.drop_last(), i, p);
        }
    }
}

proof fn lemma_char_index_from_bounds(t: Seq<char>, byte: int, k: int)
    requires
        0 <= k <= t.len(),
    ensures
        k <= char_index_from(t, byte, k) <= t.len(),
        forall|m: int| k <= m < char_index_from(t, byte, k) ==> byte_offset(t, m) < byte,
        char_index_from(t, byte, k) < t.len() ==> byte_offset(t, char_index_from(t, byte, k)) >= byte,
    decreases t.len() - k,
{
    if k < t.len() && byte_offset(t, k) < byte {
        lemma_char_index_from_bounds(t, byte, k + 1);
    }
}

proof fn lemma_char_index_bounds(t: Seq<char>, byte: int)
    ensures
        0 <= char_index(t, byte) <= t.len(),
{
    lemma_char_index_from_bounds(t, byte, 0);
}

/// Resuming the search for a later byte from where an earlier one stopped gives the same
/// index as searching from the start.
proof fn lemma_char_index_resume(t: Seq<char>, byte: int, k: int)
    requires
        0 <= k <= t.len(),
        forall|m: int| 0 <= m < k ==> byte_offset(t, m) < byte,
    ensures
        char_index_from(t, byte, k) == char_index(t, byte),
    decreases k,
{
    if k > 0 {
        lemma_char_index_resume(t, byte, k - 1);
    }
}

proof fn lemma_char_index_monotone(t: Seq<char>, b1: int, b2: int)
    requires
        b1 <= b2,
    ensures
        char_index(t, b1) <= char_index(t, b2),
        forall|m: int| 0 <= m < char_index(t, b1) ==> byte_offset(t, m) < b2,
{
    lemma_char_index_from_bounds(t, b1, 0);
    lemma_char_index_from_bounds(t, b2, 0);
    let c1 = char_index(t, b1);
    let c2 = char_index(t, b2);
    if c2 < c1 {
        assert(byte_offset(t, c2) < b1);
    }
}

/// The single forward walk every range endpoint of [`BodyText::to_buffer_ranges`] is
/// resolved through: the byte offset of each character of the text, and the character
/// index reached so far. The walk never goes back.
pub struct Walk {
    offsets: Vec<usize>,
    at: usize,
    text: Ghost<Seq<char>>,
}

impl Walk {
    /// The text walked over.
    pub closed spec fn text_spec(&self) -> Seq<char> {
        self.text@
    }

    /// The character index the walk has reached.
    pub closed spec fn at_spec(&self) -> int {
        self.at as int
    }

    /// The walk knows every character's byte offset, and stands inside the text.
    pub closed spec fn wf(&self) -> bool {
        &&& self.offsets@.len() == self.text@.len()
        &&& forall|k: int| 0 <= k < self.text@.len() ==> self.offsets@[k] == byte_offset(self.text@, k)
        &&& self.at <= self.text@.len()
    }

    /// The character index of `byte`, resuming from where the walk stands: it moves past
    /// every character that starts before `byte`. Called with non-decreasing bytes this is
    /// `byte`'s character index; a byte behind the walk answers the index already reached.
    pub fn char_index_of(&mut self, byte: usize) -> (idx: usize)
        requires
            old(self).wf(),
        ensures
            final(self).text_spec() == old(self).text_spec(),
            final(self).wf(),
            idx as int == final(self).at_spec(),
            idx as int == char_index_from(old(self).text_spec(), byte as int, old(self).at_spec()),
            (forall|m: int| 0 <= m < old(self).at_spec() ==> byte_offset(old(self).text_spec(), m) < byte)
                ==> idx as int == char_index(old(self).text_spec(), byte as int),
    {
        let ghost t = self.text@;
        let ghost start = self.at as int;
        proof {
            if forall|m: int| 0 <= m < start ==> byte_offset(t, m) < byte {
                lemma_char_index_resume(t, byte as int, start);
            }
        }
        while self.at < self.offsets.len() && self.offsets[self.at] < byte
            invariant
                self.wf(),
                self.text@ == t,
                start <= self.at,
                char_index_from(t, byte as int, self.at as int) == char_index_from(t, byte as int, start),
            decreases t.len() - self.at,
        {
            self.at += 1;
        }
        self.at
    }
}

} // verus!
