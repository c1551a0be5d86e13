//! The find bar's **per-field history** — what the reader searched for and what they
//! replaced it with, most recent first.
//!
//! A term enters when it is *committed* (Enter, Next/Prev, Replace, Replace All), never per
//! keystroke; that rule lives with the callers. Re-committing a known term moves it to the
//! front rather than adding a second copy, and the list is capped, dropping the oldest.

use vstd::prelude::*;
use crate::unicode::{chars_of, string_from_chars};

verus! {

broadcast use vstd::string::group_string_axioms;

/// How many entries a field's history keeps.
pub const HISTORY_CAP: usize = 12;

/// How many characters of an entry its drop-down row shows.
pub const HISTORY_LABEL_CHARS: usize = 48;

/// `h` with every entry equal to `e` removed, order kept.
pub open spec fn without(h: Seq<Seq<char>>, e: Seq<char>) -> Seq<Seq<char>>
    decreases h.len(),
{
    if h.len() == 0 {
        h
    } else if h.last() == e {
        without(h.drop_last(), e)
    } else {
        without(h.drop_last(), e).push(h.last())
    }
}

/// The first `n` entries of `h`, or all of them when there are fewer.
pub open spec fn capped(h: Seq<Seq<char>>, n: nat) -> Seq<Seq<char>> {
    if h.len() > n { h.take(n as int) } else { h }
}

/// A history after `e` is committed: unchanged for an empty entry; otherwise `e` first, then
/// every other entry in its old order, capped at [`HISTORY_CAP`].
pub open spec fn record_spec(h: Seq<Seq<char>>, e: Seq<char>) -> Seq<Seq<char>> {
    if e.len() == 0 {
        h
    } else {
        capped(seq![e] + without(h, e), HISTORY_CAP as nat)
    }
}

/// A persisted list repaired by re-recording it from the oldest entry to the newest, so the
/// order the file claims survives.
pub open spec fn sanitised_spec(h: Seq<Seq<char>>) -> Seq<Seq<char>>
    decreases h.len(),
{
    if h.len() == 0 {
        h
    } else {
        record_spec(sanitised_spec(h.drop_first()), h[0])
    }
}

/// What `record` maintains: no empty entry, no entry twice, at most [`HISTORY_CAP`].
pub open spec fn well_formed(h: Seq<Seq<char>>) -> bool {
    &&& h.len() <= HISTORY_CAP
    &&& forall|i: int| 0 <= i < h.len() ==> (#[trigger] h[i]).len() > 0
    &&& forall|i: int, j: int| 0 <= i < j < h.len() ==> h[i] != h[j]
}

/// The characters of each string.
pub open spec fn views(v: Seq<String>) -> Seq<Seq<char>> {
    v.map_values(|s: String| s@)
}

/// One field's committed entries, most recent first.
#[derive(Clone, Debug, PartialEq, Eq)]
pub struct FindHistory {
    entries: Vec<String>,
}

impl View for FindHistory {
    type V = Seq<Seq<char>>;

    closed spec fn view(&self) -> Seq<Seq<char>> {
        views(self.entries@)
    }
}

impl Default for FindHistory {
    fn default() -> (h: Self)
        ensures
            h@ == Seq::<Seq<char>>::empty(),
    {
        let h = FindHistory { entries: Vec::new() };
        proof {
            assert(h@ =~= Seq::<Seq<char>>::empty());
        }
        h
    }
}

impl FindHistory {
    /// A history holding `entries` exactly as given — what a session file hands back,
    /// before [`FindHistory::sanitised`] repairs it.
    pub fn from_entries(entries: Vec<String>) -> (h: Self)
        ensures
            h@ == views(entries@),
    {
        FindHistory { entries }
    }

    /// Record a committed `entry`, moving it to the front if it is already known. An empty
    /// entry is not recorded.
    pub fn record(&mut self, entry: &str)
        ensures
            final(self)@ == record_spec(old(self)@, entry@),
    {
        if entry.is_empty() {
            return;
        }
        let ghost h = self@;
        let e = String::from_str(entry);
        let mut kept: Vec<String> = Vec::new();
        kept.push(e.clone());
        let mut i: usize = 0;
        proof {
            assert(h.take(0) =~= Seq::<Seq<char>>::empty());
            assert(views(kept@) =~= seq![entry@] + without(h.take(0), entry@));
        }
        while i < self.entries.len()
            invariant
                h == views(self.entries@),
                e@ == entry@,
                i <= self.entries@.len(),
                views(kept@) == seq![entry@] + without(h.take(i as int), entry@),
            decreases self.entries@.len() - i,
        {
            proof {
                assert(h.take(i as int + 1).drop_last() =~= h.take(i as int));
                assert(h.take(i as int + 1).last() == self.entries@[i as int]@);
            }
            if self.entries[i] != e {
                let c = self.entries[i].clone();
                let ghost before = kept@;
                kept.push(c);
                proof {
                    assert(views(kept@) =~= views(before).push(c@));
                }
            }
            i += 1;
        }
        proof {
            assert(h.take(i as int) =~= h);
        }
        let ghost full = kept@;
        if kept.len() > HISTORY_CAP {
            kept.truncate(HISTORY_CAP);
            proof {
                assert(views(kept@) =~= views(full).take(HISTORY_CAP as int));
            }
        }
        self.entries = kept;
    }

    /// The entries, most recent first.
    pub fn entries(&self) -> (r: &[String])
        ensures
            views(r@) == self@,
    {
        self.entries.as_slice()
    }

    /// Whether there is anything to offer.
    pub fn is_empty(&self) -> (r: bool)
        ensures
            r == (self@.len() == 0),
    {
        self.entries.len() == 0
    }

    /// Repair a history read from a session file: re-record it from the oldest entry to the
    /// newest, which drops empty entries and duplicates and applies the cap while keeping
    /// the order the file claims.
    pub fn sanitised(self) -> (out: Self)
        ensures
            out@ == sanitised_spec(self@),
    {
        let ghost h = self@;
        let mut out = FindHistory::default();
        let mut i: usize = self.entries.len();
        proof {
            assert(h.skip(i as int) =~= Seq::<Seq<char>>::empty());
        }
        while i > 0
            invariant
                h == views(self.entries@),
                i <= self.entries@.len(),
                out@ == sanitised_spec(h.skip(i as int)),
            decreases i,
        {
            i -= 1;
            proof {
                assert(h.skip(i as int).drop_first() =~= h.skip(i as int + 1));
                assert(h.skip(i as int)[0] == self.entries@[i as int]@);
            }
            out.record(self.entries[i].as_str());
        }
        proof {
            assert(h.skip(0) =~= h);
        }
        out
    }
}

proof fn lemma_without_contains(h: Seq<Seq<char>>, e: Seq<char>, x: Seq<char>)
    ensures
        without(h, e).contains(x) <==> (h.contains(x) && x != e),
    decreases h.len(),
{
    if h.len() > 0 {
        lemma_without_contains(h.drop_last(), e, x);
        let w = without(h.drop_last(), e);
        assert(h =~= h.drop_last().push(h.last()));
        if h.contains(x) && x != e && !h.drop_last().contains(x) {
            let k = choose|k: int| 0 <= k < h.len() && h[k] == x;
            if k < h.len() - 1 {
                assert(h.drop_last()[k] == x);
            }
        }
        if h.drop_last().contains(x) {
            let k = choose|k: int| 0 <= k < h.drop_last().len() && h.drop_last()[k] == x;
            assert(h[k] == x);
        }
        if h.last() != e {
            let wp = w.push(h.last());
            if wp.contains(x) && x != h.last() {
                let k = choose|k: int| 0 <= k < wp.len() && wp[k] == x;
                assert(w[k] == x);
            }
            if w.contains(x) {
                let k = choose|k: int| 0 <= k < w.len() && w[k] == x;
                assert(wp[k] == x);
            }
            if x == h.last() {
                assert(wp[wp.len() - 1] == x);
            }
        }
    }
}

proof fn lemma_without_distinct(h: Seq<Seq<char>>, e: Seq<char>)
    requires
        forall|i: int, j: int| 0 <= i < j < h.len() ==> h[i] != h[j],
    ensures
        forall|i: int, j: int| 0 <= i < j < without(h, e).len() ==> without(h, e)[i] != without(h, e)[j],
        forall|i: int| 0 <= i < without(h, e).len() ==> #[trigger] without(h, e)[i] != e,
        forall|i: int| 0 <= i < without(h, e).len() ==> h.contains(#[trigger] without(h, e)[i]),
        without(h, e).len() <= h.len(),
    decreases h.len(),
{
    if h.len() > 0 {
        let d = h.drop_last();
        lemma_without_distinct(d, e);
        let w = without(d, e);
        assert forall|i: int| 0 <= i < w.len() implies h.contains(#[trigger] w[i]) by {
            let k = choose|k: int| 0 <= k < d.len() && d[k] == w[i];
            assert(h[k] == w[i]);
        }
        if h.last() != e {
            let wp = w.push(h.last());
            assert forall|i: int| 0 <= i < w.len() implies #[trigger] w[i] != h.last() by {
                let k = choose|k: int| 0 <= k < d.len() && d[k] == w[i];
                assert(h[k] == w[i]);
            }
            assert forall|i: int, j: int| 0 <= i < j < wp.len() implies wp[i] != wp[j] by {
                if j == wp.len() - 1 {
                    assert(wp[i] == w[i]);
                }
            }
            assert forall|i: int| 0 <= i < wp.len() implies h.contains(#[trigger] wp[i]) by {
                if i == wp.len() - 1 {
                    assert(h[h.len() - 1] == wp[i]);
                } else {
                    assert(wp[i] == w[i]);
                }
            }
        }
    }
}

proof fn lemma_without_absent(h: Seq<Seq<char>>, e: Seq<char>)
    requires
        !h.contains(e),
    ensures
        without(h, e) == h,
    decreases h.len(),
{
    if h.len() > 0 {
        assert(!h.drop_last().contains(e)) by {
            if h.drop_last().contains(e) {
                let k = choose|k: int| 0 <= k < h.drop_last().len() && h.drop_last()[k] == e;
                assert(h[k] == e);
            }
        }
        lemma_without_absent(h.drop_last(), e);
        assert(h[h.len() - 1] != e);
        assert(h.drop_last().push(h.last()) =~= h);
    }
}

proof fn lemma_without_nonempty(h: Seq<Seq<char>>, e: Seq<char>)
    requires
        forall|i: int| 0 <= i < h.len() ==> (#[trigger] h[i]).len() > 0,
    ensures
        forall|i: int| 0 <= i < without(h, e).len() ==> (#[trigger] without(h, e)[i]).len() > 0,
    decreases h.len(),
{
    if h.len() > 0 {
        lemma_without_nonempty(h.drop_last(), e);
        let w = without(h.drop_last(), e);
        if h.last() != e {
            assert forall|i: int| 0 <= i < w.push(h.last()).len() implies (#[trigger] w.push(h.last())[i]).len() > 0 by {
                if i < w.len() {
                    assert(w.push(h.last())[i] == w[i]);
                } else {
                    assert(h[h.len() - 1].len() > 0);
                }
            }
        }
    }
}

proof fn lemma_without_from_h(h: Seq<Seq<char>>, e: Seq<char>, i: int)
    requires
        0 <= i < without(h, e).len(),
    ensures
        exists|a: int| 0 <= a < h.len() && h[a] == without(h, e)[i],
        without(h, e)[i] != e,
    decreases h.len(),
{
    let d = h.drop_last();
    let w = without(d, e);
    lemma_without_len_le(d, e);
    if h.last() == e {
        lemma_without_from_h(d, e, i);
        let a = choose|a: int| 0 <= a < d.len() && d[a] == w[i];
        assert(h[a] == d[a]);
    } else if i < w.len() {
        lemma_without_from_h(d, e, i);
        let a = choose|a: int| 0 <= a < d.len() && d[a] == w[i];
        assert(h[a] == d[a]);
        assert(without(h, e)[i] == w[i]);
    } else {
        assert(without(h, e)[i] == h[h.len() - 1]);
    }
}

proof fn lemma_without_keeps_order(h: Seq<Seq<char>>, e: Seq<char>, i: int, j: int)
    requires
        0 <= i < j < without(h, e).len(),
    ensures
        exists|a: int, b: int| 0 <= a < b < h.len() && h[a] == without(h, e)[i] && h[b] == without(h, e)[j],
    decreases h.len(),
{
    let d = h.drop_last();
    let w = without(d, e);
    lemma_without_len_le(d, e);
    if h.last() == e {
        lemma_without_keeps_order(d, e, i, j);
        let (a, b) = choose|a: int, b: int| 0 <= a < b < d.len() && d[a] == w[i] && d[b] == w[j];
        assert(h[a] == d[a] && h[b] == d[b]);
    } else if j < w.len() {
        lemma_without_keeps_order(d, e, i, j);
        let (a, b) = choose|a: int, b: int| 0 <= a < b < d.len() && d[a] == w[i] && d[b] == w[j];
        assert(h[a] == d[a] && h[b] == d[b]);
        assert(without(h, e)[i] == w[i] && without(h, e)[j] == w[j]);
    } else {
        lemma_without_from_h(d, e, i);
        let a = choose|a: int| 0 <= a < d.len() && d[a] == w[i];
        assert(h[a] == d[a]);
        assert(without(h, e)[i] == w[i]);
        assert(without(h, e)[j] == h[h.len() - 1]);
    }
}

/// **A committed term goes to the front.** After recording a non-empty `e`, `e` is first;
/// every later entry is an old entry other than `e`; the cap holds; and while the old
/// history is under the cap, no other entry is lost. (The order of the others is
/// [`lemma_record_keeps_the_others_in_order`].)
pub proof fn lemma_record_moves_to_front_keeping_the_rest_in_order(h: Seq<Seq<char>>, e: Seq<char>)
    requires
        e.len() > 0,
    ensures
        record_spec(h, e).len() > 0,
        record_spec(h, e)[0] == e,
        record_spec(h, e).len() <= HISTORY_CAP,
        forall|i: int| 1 <= i < record_spec(h, e).len() ==> {
            &&& (#[trigger] record_spec(h, e)[i]) != e
            &&& h.contains(record_spec(h, e)[i])
        },
        h.len() < HISTORY_CAP ==> forall|x: Seq<char>| #[trigger] h.contains(x) && x != e ==> record_spec(h, e).contains(x),
{
    let w = without(h, e);
    let full = seq![e] + w;
    let r = record_spec(h, e);
    assert(r[0] == full[0]);
    assert forall|i: int| 1 <= i < r.len() implies {
        &&& (#[trigger] r[i]) != e
        &&& h.contains(r[i])
    } by {
        assert(r[i] == full[i]);
        assert(full[i] == w[i - 1]);
        lemma_without_from_h(h, e, i - 1);
        let a = choose|a: int| 0 <= a < h.len() && h[a] == w[i - 1];
        assert(h[a] == r[i]);
    }
    if h.len() < HISTORY_CAP {
        lemma_without_len_le(h, e);
        assert(r == full);
        assert forall|x: Seq<char>| #[trigger] h.contains(x) && x != e implies r.contains(x) by {
            lemma_without_contains(h, e, x);
            let k = choose|k: int| 0 <= k < w.len() && w[k] == x;
            assert(r[k + 1] == x);
        }
    }
}

/// **Every other term keeps its place in line.** Any two entries after the front of the
/// history recorded with `e` come in the order they had before, so the history stays most
/// recent first: committing a known term moves it alone, not the terms around it.
pub proof fn lemma_record_keeps_the_others_in_order(h: Seq<Seq<char>>, e: Seq<char>, i: int, j: int)
    requires
        e.len() > 0,
        1 <= i < j < record_spec(h, e).len(),
    ensures
        exists|a: int, b: int| #![trigger h[a], h[b]]
            0 <= a < b < h.len() && h[a] == record_spec(h, e)[i] && h[b] == record_spec(h, e)[j],
{
    let w = without(h, e);
    let full = seq![e] + w;
    let r = record_spec(h, e);
    assert(r[i] == full[i] && r[j] == full[j]);
    assert(full[i] == w[i - 1] && full[j] == w[j - 1]);
    lemma_without_keeps_order(h, e, i - 1, j - 1);
    let (a, b) = choose|a: int, b: int| 0 <= a < b < h.len() && h[a] == w[i - 1] && h[b] == w[j - 1];
    assert(h[a] == r[i] && h[b] == r[j]);
}

/// Committing a term keeps the history well formed: the term is first, nothing is
/// duplicated or empty, and the cap holds.
pub proof fn lemma_record_keeps_well_formed(h: Seq<Seq<char>>, e: Seq<char>)
    requires
        well_formed(h),
    ensures
        well_formed(record_spec(h, e)),
        e.len() > 0 ==> record_spec(h, e)[0] == e,
{
    if e.len() > 0 {
        lemma_without_distinct(h, e);
        lemma_without_nonempty(h, e);
        let full = seq![e] + without(h, e);
        let r = record_spec(h, e);
        assert forall|i: int| 0 <= i < r.len() implies (#[trigger] r[i]).len() > 0 by {
            assert(r[i] == full[i]);
            if i > 0 {
                assert(full[i] == without(h, e)[i - 1]);
            }
        }
        assert forall|i: int, j: int| 0 <= i < j < r.len() implies r[i] != r[j] by {
            assert(r[i] == full[i]);
            assert(r[j] == full[j]);
            assert(full[j] == without(h, e)[j - 1]);
            if i > 0 {
                assert(full[i] == without(h, e)[i - 1]);
            }
        }
    }
}

/// Committing the same term twice in a row is the same as committing it once.
pub proof fn lemma_record_twice_is_once(h: Seq<Seq<char>>, e: Seq<char>)
    requires
        well_formed(h),
    ensures
        record_spec(record_spec(h, e), e) == record_spec(h, e),
{
    if e.len() > 0 {
        lemma_record_keeps_well_formed(h, e);
        let r = record_spec(h, e);
        assert(r.drop_first() =~= without(r, e)) by {
            // `e` is first in `r` and appears nowhere else.
            lemma_without_absent(r.drop_first(), e);
            assert(!r.drop_first().contains(e)) by {
                if r.drop_first().contains(e) {
                    let k = choose|k: int| 0 <= k < r.drop_first().len() && r.drop_first()[k] == e;
                    assert(r[k + 1] == e);
                }
            }
            lemma_without_of_front(r, e);
        }
        assert(seq![e] + r.drop_first() =~= r);
    }
}

proof fn lemma_without_of_front(r: Seq<Seq<char>>, e: Seq<char>)
    requires
        r.len() > 0,
        r[0] == e,
        without(r.drop_first(), e) == r.drop_first(),
    ensures
        without(r, e) == r.drop_first(),
    decreases r.len(),
{
    if r.len() == 1 {
        assert(r.drop_last() =~= Seq::<Seq<char>>::empty());
        assert(r.drop_first() =~= Seq::<Seq<char>>::empty());
    } else {
        let d = r.drop_last();
        assert(d.drop_first() =~= r.drop_first().drop_last());
        assert(r.drop_first().last() == r.last());
        // without(r.drop_first()) unfolds over its last element, which is r.last().
        if r.last() == e {
            // `e` would then be the last of r.drop_first(), which `without` would remove.
            assert(without(r.drop_first(), e) == without(r.drop_first().drop_last(), e));
            lemma_without_len_le(r.drop_first().drop_last(), e);
            assert(false);
        }
        assert(without(r.drop_first(), e) == without(r.drop_first().drop_last(), e).push(r.last()));
        assert(without(d.drop_first(), e) == d.drop_first()) by {
            assert(without(r.drop_first(), e).drop_last() =~= without(r.drop_first().drop_last(), e));
            assert(r.drop_first().drop_last() =~= d.drop_first());
        }
        lemma_without_of_front(d, e);
        assert(d.drop_first().push(r.last()) =~= r.drop_first());
    }
}

proof fn lemma_without_len_le(h: Seq<Seq<char>>, e: Seq<char>)
    ensures
        without(h, e).len() <= h.len(),
    decreases h.len(),
{
    if h.len() > 0 {
        lemma_without_len_le(h.drop_last(), e);
    }
}

/// Repair leaves a well-formed list exactly as it is.
pub proof fn lemma_sanitised_keeps_a_good_list(h: Seq<Seq<char>>)
    requires
        well_formed(h),
    ensures
        sanitised_spec(h) == h,
    decreases h.len(),
{
    if h.len() > 0 {
        let rest = h.drop_first();
        assert(well_formed(rest)) by {
            assert forall|i: int| 0 <= i < rest.len() implies (#[trigger] rest[i]).len() > 0 by {
                assert(rest[i] == h[i + 1]);
            }
            assert forall|i: int, j: int| 0 <= i < j < rest.len() implies rest[i] != rest[j] by {
                assert(rest[i] == h[i + 1]);
                assert(rest[j] == h[j + 1]);
            }
        }
        lemma_sanitised_keeps_a_good_list(rest);
        assert(!rest.contains(h[0])) by {
            if rest.contains(h[0]) {
                let k = choose|k: int| 0 <= k < rest.len() && rest[k] == h[0];
                assert(h[k + 1] == h[0]);
            }
        }
        lemma_without_absent(rest, h[0]);
        assert(seq![h[0]] + rest =~= h);
    }
}

/// Repair always yields a well-formed list.
pub proof fn lemma_sanitised_is_well_formed(h: Seq<Seq<char>>)
    ensures
        well_formed(sanitised_spec(h)),
    decreases h.len(),
{
    if h.len() > 0 {
        lemma_sanitised_is_well_formed(h.drop_first());
        lemma_record_keeps_well_formed(sanitised_spec(h.drop_first()), h[0]);
    }
}

/// Whether `c` has Unicode's `White_Space` property (what `char::is_whitespace` answers):
/// tab through carriage return, space, next line, no-break space, ogham space mark, the
/// spaces from en quad to hair space, the line and paragraph separators, narrow no-break
/// space, medium mathematical space and ideographic space.
pub open spec fn white_space(c: char) -> bool {
    let u = c as u32;
    ||| 0x9 <= u <= 0xD
    ||| u == 0x20
    ||| u == 0x85
    ||| u == 0xA0
    ||| u == 0x1680
    ||| 0x2000 <= u <= 0x200A
    ||| u == 0x2028
    ||| u == 0x2029
    ||| u == 0x202F
    ||| u == 0x205F
    ||| u == 0x3000
}

/// Whether `c` is white space in Unicode's sense.
pub fn is_whitespace(c: char) -> (r: bool)
    ensures
        r == white_space(c),
{
    let u = c as u32;
    (0x9 <= u && u <= 0xD) || u == 0x20 || u == 0x85 || u == 0xA0 || u == 0x1680
        || (0x2000 <= u && u <= 0x200A) || u == 0x2028 || u == 0x2029 || u == 0x202F
        || u == 0x205F || u == 0x3000
}

/// The label of a drop-down row: the entry's first [`HISTORY_LABEL_CHARS`] characters,
/// each white-space character (a line break or a tab among them) shown as a space, followed
/// by `…` when the entry is longer.
pub open spec fn row_label_spec(entry: Seq<char>) -> Seq<char> {
    let shown = entry.take(if entry.len() > HISTORY_LABEL_CHARS { HISTORY_LABEL_CHARS as int } else { entry.len() as int });
    let flat = shown.map_values(|c: char| if white_space(c) { ' ' } else { c });
    if entry.len() > HISTORY_LABEL_CHARS { flat.push('\u{2026}') } else { flat }
}

/// The label for a drop-down row: the entry, shortened if it is long, with whitespace made
/// single-line. The stored entry itself is unchanged — it is what gets searched for.
pub fn row_label(entry: &str) -> (r: String)
    ensures
        r@ == row_label_spec(entry@),
{
    let chars = chars_of(entry);
    let limit: usize = if chars.len() > HISTORY_LABEL_CHARS { HISTORY_LABEL_CHARS } else { chars.len() };
    let mut shown: Vec<char> = Vec::new();
    let mut i: usize = 0;
    while i < limit
        invariant
            chars@ == entry@,
            limit <= chars@.len(),
            i <= limit,
            shown@ == entry@.take(i as int).map_values(|c: char| if white_space(c) { ' ' } else { c }),
        decreases limit - i,
    {
        let c = chars[i];
        let shown_c = if is_whitespace(c) { ' ' } else { c };
        proof {
            assert(entry@.take(i as int + 1).map_values(|c: char| if white_space(c) { ' ' } else { c })
                =~= entry@.take(i as int).map_values(|c: char| if white_space(c) { ' ' } else { c }).push(shown_c));
        }
        shown.push(shown_c);
        i += 1;
    }
    if chars.len() > HISTORY_LABEL_CHARS {
        shown.push('\u{2026}');
    }
    string_from_chars(shown.as_slice())
}

} // verus!
