//! The find bar's **match options** — what counts as a match, independent of which pane
//! is being searched.
//!
//! Three options in one value rather than three loose booleans: the editor's engine and the
//! preview's matcher both consume them, the hit cache keys on them, and the session persists
//! them. "Search in selection" is deliberately not here — it bounds *where* matching is
//! applied and holds a reference into a buffer, so it is neither a match option nor
//! persistable.

use vstd::prelude::*;

verus! {

/// How the query text is interpreted. The default is a case-insensitive literal substring —
/// the behaviour the bar had before any option existed.
#[derive(Clone, Copy, PartialEq, Eq, Debug, Hash, Structural)]
pub struct FindOptions {
    /// `Note` does not match `note`.
    pub case_sensitive: bool,
    /// `note` does not match `notebook`: the match must be bounded by non-word characters
    /// (or the ends of the text) on both sides.
    pub whole_word: bool,
    /// The query is a regular expression rather than a literal.
    pub regex: bool,
}

impl FindOptions {
    /// The option set with nothing ticked.
    pub open spec fn plain() -> FindOptions {
        FindOptions { case_sensitive: false, whole_word: false, regex: false }
    }
}

impl Default for FindOptions {
    fn default() -> (r: Self)
        ensures
            r == FindOptions::plain(),
    {
        FindOptions { case_sensitive: false, whole_word: false, regex: false }
    }
}

/// One option field, named so that a table can say which boolean each `win.` action
/// drives without the call sites knowing which one.
#[derive(Clone, Copy, PartialEq, Eq, Debug, Structural)]
pub enum Accessor {
    CaseSensitive,
    WholeWord,
    Regex,
}

impl Accessor {
    /// The field this accessor names, read from `opts`.
    pub open spec fn field(self, opts: FindOptions) -> bool {
        match self {
            Accessor::CaseSensitive => opts.case_sensitive,
            Accessor::WholeWord => opts.whole_word,
            Accessor::Regex => opts.regex,
        }
    }

    /// `opts` with this accessor's field set to `value` and the other two unchanged.
    pub open spec fn with(self, opts: FindOptions, value: bool) -> FindOptions {
        match self {
            Accessor::CaseSensitive => FindOptions { case_sensitive: value, ..opts },
            Accessor::WholeWord => FindOptions { whole_word: value, ..opts },
            Accessor::Regex => FindOptions { regex: value, ..opts },
        }
    }

    /// Read this accessor's field.
    pub fn get(self, opts: &FindOptions) -> (r: bool)
        ensures
            r == self.field(*opts),
    {
        match self {
            Accessor::CaseSensitive => opts.case_sensitive,
            Accessor::WholeWord => opts.whole_word,
            Accessor::Regex => opts.regex,
        }
    }

    /// Write this accessor's field, and only it.
    pub fn set(self, opts: &mut FindOptions, value: bool)
        ensures
            *final(opts) == self.with(*old(opts), value),
    {
        match self {
            Accessor::CaseSensitive => opts.case_sensitive = value,
            Accessor::WholeWord => opts.whole_word = value,
            Accessor::Regex => opts.regex = value,
        }
    }
}

/// The `win.` action names of the three options, in table order.
pub open spec fn action_names() -> Seq<Seq<char>> {
    seq!["find-match-case"@, "find-whole-word"@, "find-regex"@]
}

impl FindOptions {
    /// The name of the `win.` action carrying each option, and the field it drives. One
    /// table that every surface reads — the find-bar toggle, the Edit menu item and the
    /// session field — so no surface can invent its own spelling.
    pub fn actions() -> (r: [(&'static str, Accessor); 3])
        ensures
            r@[0].0@ == action_names()[0] && r@[0].1 == Accessor::CaseSensitive,
            r@[1].0@ == action_names()[1] && r@[1].1 == Accessor::WholeWord,
            r@[2].0@ == action_names()[2] && r@[2].1 == Accessor::Regex,
    {
        [
            ("find-match-case", Accessor::CaseSensitive),
            ("find-whole-word", Accessor::WholeWord),
            ("find-regex", Accessor::Regex),
        ]
    }
}

/// What a write through an accessor reads back, and that it moves no other field: after
/// setting one field, each accessor reads the written value for its own field and the old
/// value for every other.
pub proof fn lemma_accessor_reaches_only_its_field(a: Accessor, b: Accessor, opts: FindOptions, value: bool)
    ensures
        b.field(a.with(opts, value)) == if a == b { value } else { b.field(opts) },
{
}

/// The three action names are pairwise distinct, so no two toggles are one control.
pub proof fn lemma_action_names_distinct()
    ensures
        forall|i: int, j: int| 0 <= i < 3 && 0 <= j < 3 && i != j ==> action_names()[i] != action_names()[j],
{
    reveal_strlit("find-match-case");
    reveal_strlit("find-whole-word");
    reveal_strlit("find-regex");
    let n = action_names();
    assert(n[0][5] != n[1][5]);
    assert(n[0].len() != n[2].len());
    assert(n[1].len() != n[2].len());
}

} // verus!
