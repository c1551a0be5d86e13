//! The find bar's **cursor** and **readout**: which occurrence list the current match
//! indexes, what the editor engine's raw counts mean, and the text the counter shows.
//!
//! The editor engine answers `-1` while it is still scanning, and its position query has a
//! second non-position, `0`. Both are decoded here, at the boundary, so no sentinel travels:
//! everything downstream works with a real number or with nothing.

use vstd::prelude::*;
use crate::unicode::{decimal_spec, push_decimal, push_str, string_from_chars};
use crate::scope::replacement_order;
use crate::matcher::PatternError;

verus! {

broadcast use vstd::string::group_string_axioms;

/// Where the find cursor points — which occurrence list its index belongs to. The editor's
/// list and the preview's unified body-and-cell list are numbered independently, with no
/// conversion between them.
#[derive(Clone, Copy, PartialEq, Eq, Debug, Structural)]
pub enum FindCursor {
    /// No current match.
    NoMatch,
    /// 1-based index into the editor engine's occurrence list.
    Editor(i32),
    /// A hit in the preview's list: its 1-based ordinal, and the buffer position it landed
    /// on. The position is the identity; the ordinal is only what the reader is shown.
    Preview { ordinal: i32, at: i32 },
}

impl Default for FindCursor {
    fn default() -> (c: Self)
        ensures
            c == FindCursor::NoMatch,
    {
        FindCursor::NoMatch
    }
}

impl FindCursor {
    /// The 1-based editor-list index, or 0 when the cursor indexes the preview's list or
    /// nothing: the preview's numbering has no meaning in the editor's list.
    pub fn editor_index(self) -> (n: i32)
        ensures
            n == match self {
                FindCursor::Editor(k) => k,
                _ => 0,
            },
    {
        match self {
            FindCursor::Editor(n) => n,
            FindCursor::NoMatch | FindCursor::Preview { .. } => 0,
        }
    }
}

/// The editor engine's "still scanning" answer.
pub const SCANNING: i32 = -1;

/// The position query's "these bounds delimit no occurrence" answer.
pub const NOT_AN_OCCURRENCE: i32 = 0;

/// Decode a raw occurrence count: any negative is "still scanning", not a count.
pub fn decode_occurrence_total(raw: i32) -> (r: Option<i32>)
    ensures
        r == if raw <= SCANNING { None } else { Some(raw) },
{
    if raw <= SCANNING { None } else { Some(raw) }
}

/// Decode a raw occurrence position: "still scanning" and "not an occurrence" are both not
/// positions.
pub fn decode_occurrence_index(raw: i32) -> (r: Option<i32>)
    ensures
        r == if raw <= SCANNING || raw == NOT_AN_OCCURRENCE { None } else { Some(raw) },
{
    if raw <= SCANNING || raw == NOT_AN_OCCURRENCE { None } else { Some(raw) }
}

/// The cursor for a match the editor engine has just landed on: not knowing which
/// occurrence it is leaves the cursor claiming nothing.
pub fn editor_cursor_for(index: Option<i32>) -> (c: FindCursor)
    ensures
        c == match index {
            Some(n) => FindCursor::Editor(n),
            None => FindCursor::NoMatch,
        },
{
    match index {
        Some(n) => FindCursor::Editor(n),
        None => FindCursor::NoMatch,
    }
}

/// A decoded position is a real 1-based position, so the cursor it yields never reads as
/// "no current match" and never as an index below 1.
pub proof fn lemma_decoded_positions_are_positions(raw: i32)
    ensures
        editor_cursor_for_spec(if raw <= SCANNING || raw == NOT_AN_OCCURRENCE { None } else { Some(raw) })
            matches FindCursor::Editor(n) ==> n >= 1,
{
}

/// The cursor [`editor_cursor_for`] returns, as a function.
pub open spec fn editor_cursor_for_spec(index: Option<i32>) -> FindCursor {
    match index {
        Some(n) => FindCursor::Editor(n),
        None => FindCursor::NoMatch,
    }
}

/// What the counter shows for a count: "No matches", "N of M" when a match is current,
/// else "M matches".
pub open spec fn match_label_spec(current: int, total: int) -> Seq<char> {
    if total == 0 {
        "No matches"@
    } else if current > 0 {
        decimal_spec(current as nat) + " of "@ + decimal_spec(total as nat)
    } else {
        decimal_spec(total as nat) + " matches"@
    }
}

/// The counter's text for `current` of `total`. `total` is a real count.
pub fn match_label(current: i32, total: i32) -> (s: String)
    requires
        total >= 0,
    ensures
        s@ == match_label_spec(current as int, total as int),
{
    if total == 0 {
        return String::from_str("No matches");
    }
    let mut out: Vec<char> = Vec::new();
    if current > 0 {
        push_decimal(&mut out, current as u64);
        push_str(&mut out, " of ");
        push_decimal(&mut out, total as u64);
    } else {
        push_decimal(&mut out, total as u64);
        push_str(&mut out, " matches");
    }
    proof {
        assert(Seq::<char>::empty() + decimal_spec(current as nat) =~= decimal_spec(current as nat));
        assert(Seq::<char>::empty() + decimal_spec(total as nat) =~= decimal_spec(total as nat));
    }
    string_from_chars(out.as_slice())
}

/// The counter while the editor engine is still scanning: neither a number nor "No
/// matches".
pub const SCANNING_LABEL: &'static str = "…";

/// The counter for a regular expression that does not compile.
pub const INVALID_PATTERN_LABEL: &'static str = "Invalid pattern";

/// The state the counter is in.
#[derive(Clone, Debug, PartialEq, Eq)]
pub enum Readout {
    /// The pattern does not compile; `message` is the engine's diagnostic, given to the
    /// counter's description rather than its text.
    Invalid { message: String },
    /// The editor engine is still scanning.
    Scanning,
    /// A real count, and the 1-based current match or 0.
    Count { current: i32, total: i32 },
}

/// The editor pane's counter from its engine: the engine's own compile failure first, then
/// "still scanning", then the count.
pub fn editor_readout(regex_error: Option<String>, raw_count: i32, current: i32) -> (r: Readout)
    ensures
        regex_error matches Some(m) ==> r == (Readout::Invalid { message: m }),
        regex_error is None && raw_count <= SCANNING ==> r == Readout::Scanning,
        regex_error is None && raw_count > SCANNING ==> r == (Readout::Count { current, total: raw_count }),
{
    match regex_error {
        Some(message) => Readout::Invalid { message },
        None => match decode_occurrence_total(raw_count) {
            None => Readout::Scanning,
            Some(total) => Readout::Count { current, total },
        },
    }
}

/// The editor pane's counter while a passage is captured: the engine's compile failure,
/// else the count over the passage's own matches — never the whole buffer's total against
/// a position in the passage.
pub fn scoped_readout(regex_error: Option<String>, scoped_total: usize, current: i32) -> (r: Readout)
    requires
        scoped_total <= i32::MAX,
    ensures
        regex_error matches Some(m) ==> r == (Readout::Invalid { message: m }),
        regex_error is None ==> r == (Readout::Count { current, total: scoped_total as i32 }),
{
    match regex_error {
        Some(message) => Readout::Invalid { message },
        None => Readout::Count { current, total: scoped_total as i32 },
    }
}

/// Refresh the editor pane's readout, honouring the captured passage: with a passage
/// (`scoped_total` is how many of its matches there are) the count is over the passage —
/// never the whole buffer's total against a position inside it — and otherwise the
/// engine's own count. A pattern that does not compile reads as such either way.
pub fn update_editor_readout(scoped_total: Option<usize>, regex_error: Option<String>, raw_count: i32, current: i32) -> (r: Readout)
    requires
        scoped_total matches Some(n) ==> n <= i32::MAX,
    ensures
        regex_error matches Some(m) ==> r == (Readout::Invalid { message: m }),
        regex_error is None ==> r == match scoped_total {
            Some(n) => Readout::Count { current, total: n as i32 },
            None => if raw_count <= SCANNING { Readout::Scanning } else { Readout::Count { current, total: raw_count } },
        },
{
    match scoped_total {
        Some(n) => scoped_readout(regex_error, n, current),
        None => editor_readout(regex_error, raw_count, current),
    }
}

/// Re-run the preview search from scratch: the step cursor is dropped, and the readout is
/// the count over the (confined) hit list — or, for a pattern that does not compile, the
/// invalid-pattern state, and nothing stays highlighted, because nothing is known to match.
/// `outcome` is the hit list's length, or the compile failure.
pub fn resync_preview_find(outcome: Result<usize, PatternError>) -> (r: (FindCursor, Readout))
    requires
        outcome matches Ok(n) ==> n <= i32::MAX,
    ensures
        r.0 == FindCursor::NoMatch,
        r.1 == match outcome {
            Ok(n) => Readout::Count { current: 0, total: n as i32 },
            Err(e) => Readout::Invalid { message: e.message },
        },
{
    let readout = match outcome {
        Ok(n) => Readout::Count { current: 0, total: n as i32 },
        Err(e) => Readout::Invalid { message: e.message },
    };
    (FindCursor::NoMatch, readout)
}

/// What Replace All does.
#[derive(Debug)]
pub enum ReplaceAll {
    /// Replace these matches of the captured passage, in this order: last first, so every
    /// offset still to be used lies before the edit just made and stays valid.
    InPassage(Vec<(i32, i32)>),
    /// Replace across the whole buffer. `counted` is how many matches there were
    /// beforehand — afterwards there is nothing left to count — or `None` while the engine
    /// was still scanning.
    WholeBuffer { counted: Option<u32> },
}

/// Plan Replace All: over the passage's own matches when one is captured (`scoped`), else
/// across the buffer, counted first from the engine's raw count.
pub fn replace_all_matches(scoped: Option<&[(i32, i32)]>, raw_count: i32) -> (r: ReplaceAll)
    ensures
        scoped matches Some(m) ==> (r matches ReplaceAll::InPassage(v) && v@ == m@.reverse()),
        scoped is None ==> (r matches ReplaceAll::WholeBuffer { counted } && counted == if raw_count <= SCANNING {
            None
        } else {
            Some(raw_count as u32)
        }),
{
    match scoped {
        Some(m) => ReplaceAll::InPassage(replacement_order(m)),
        None => ReplaceAll::WholeBuffer {
            counted: match decode_occurrence_total(raw_count) {
                Some(n) => Some(n as u32),
                None => None,
            },
        },
    }
}

impl ReplaceAll {
    /// How many replacements the plan makes when every edit succeeds: every passage
    /// match, or the buffer's count taken beforehand (none while the engine was scanning).
    pub open spec fn replaced_spec(&self) -> Option<u32> {
        match self {
            ReplaceAll::InPassage(v) => Some(v@.len() as u32),
            ReplaceAll::WholeBuffer { counted } => *counted,
        }
    }

    /// How many were replaced once every edit succeeded.
    pub fn replaced(&self) -> (n: Option<u32>)
        requires
            self matches ReplaceAll::InPassage(v) ==> v@.len() <= u32::MAX,
        ensures
            n == self.replaced_spec(),
    {
        match self {
            ReplaceAll::InPassage(v) => Some(v.len() as u32),
            ReplaceAll::WholeBuffer { counted } => *counted,
        }
    }
}

/// Where Replace All leaves the find bar.
#[derive(Debug)]
pub enum ReplaceAllOutcome {
    /// Every edit was made: there is no current match any more — the list the cursor
    /// indexed has just been rewritten — and the status line reports how many were made.
    Done { cursor: FindCursor, notice: String },
    /// An edit failed — with a regular expression, a replacement naming a group the pattern
    /// does not have — and the counter says so, with the engine's message. Nothing else
    /// changes.
    Failed(Readout),
}

/// Finish Replace All for `plan`, given the engine's failure on one of its edits, if any.
pub fn finish_replace_all(plan: &ReplaceAll, failure: Option<PatternError>) -> (r: ReplaceAllOutcome)
    requires
        plan matches ReplaceAll::InPassage(v) ==> v@.len() <= u32::MAX,
    ensures
        failure matches Some(e) ==> r == ReplaceAllOutcome::Failed(Readout::Invalid { message: e.message }),
        failure is None ==> (r matches ReplaceAllOutcome::Done { cursor, notice }
            && cursor == FindCursor::NoMatch
            && notice@ == replacement_notice_spec(plan.replaced_spec())),
{
    match failure {
        Some(e) => ReplaceAllOutcome::Failed(Readout::Invalid { message: e.message }),
        None => ReplaceAllOutcome::Done { cursor: FindCursor::NoMatch, notice: replacement_notice(plan.replaced()) },
    }
}

/// The counter's text for a readout.
pub open spec fn readout_text_spec(r: Readout) -> Seq<char> {
    match r {
        Readout::Invalid { .. } => INVALID_PATTERN_LABEL@,
        Readout::Scanning => SCANNING_LABEL@,
        Readout::Count { current, total } => match_label_spec(current as int, total as int),
    }
}

impl Readout {
    /// The counter's text.
    pub fn text(&self) -> (s: String)
        requires
            self matches Readout::Count { total, .. } ==> total >= 0,
        ensures
            s@ == readout_text_spec(*self),
    {
        match self {
            Readout::Invalid { .. } => String::from_str(INVALID_PATTERN_LABEL),
            Readout::Scanning => String::from_str(SCANNING_LABEL),
            Readout::Count { current, total } => match_label(*current, *total),
        }
    }

    /// The counter's accessible description: the diagnostic for a pattern that does not
    /// compile, and nothing otherwise.
    pub fn description(&self) -> (d: Option<String>)
        ensures
            self matches Readout::Invalid { message } ==> d == Some(*message),
            !(self is Invalid) ==> d is None,
    {
        match self {
            Readout::Invalid { message } => Some(message.clone()),
            _ => None,
        }
    }
}

/// What the status line reports after Replace All: how many replacements were made — not
/// how many matches are left, which after a Replace All is usually none and would read as
/// "nothing happened" — or a bare "Replacements made" when the engine was still scanning
/// and could not say how many there were.
pub open spec fn replacement_notice_spec(replaced: Option<u32>) -> Seq<char> {
    match replaced {
        Some(n) => decimal_spec(n as nat) + if n == 1 { " replacement made"@ } else { " replacements made"@ },
        None => "Replacements made"@,
    }
}

/// The status line's notice after Replace All. It goes to the footer rather than the find
/// bar's counter, which the engine repaints with its own count once it has re-scanned the
/// edited buffer.
pub fn replacement_notice(replaced: Option<u32>) -> (s: String)
    ensures
        s@ == replacement_notice_spec(replaced),
{
    match replaced {
        Some(n) => {
            let mut out: Vec<char> = Vec::new();
            push_decimal(&mut out, n as u64);
            if n == 1 {
                push_str(&mut out, " replacement made");
            } else {
                push_str(&mut out, " replacements made");
            }
            proof {
                assert(Seq::<char>::empty() + decimal_spec(n as nat) =~= decimal_spec(n as nat));
            }
            string_from_chars(out.as_slice())
        },
        None => String::from_str("Replacements made"),
    }
}

/// Where a find operation acts: the editor (edit or split mode), the preview view (pure
/// preview mode), or nowhere, when in preview mode the view did not resolve — never the
/// hidden editor.
#[derive(Clone, Copy, PartialEq, Eq, Debug)]
pub enum FindTarget<V> {
    Editor,
    Preview(V),
    PreviewUnresolved,
}

/// Resolve the find target for the window's current mode.
pub fn find_target<V>(in_preview_mode: bool, view: Option<V>) -> (t: FindTarget<V>)
    ensures
        !in_preview_mode ==> t is Editor,
        in_preview_mode ==> match view {
            Some(v) => t == FindTarget::Preview(v),
            None => t is PreviewUnresolved,
        },
{
    if !in_preview_mode {
        return FindTarget::Editor;
    }
    match view {
        Some(v) => FindTarget::Preview(v),
        None => FindTarget::PreviewUnresolved,
    }
}

} // verus!
