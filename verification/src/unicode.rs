//! Characters and their UTF-8 encoding: the few facts about `char` and `str` the matcher
//! and the body-text map rest on.
//!
//! Every range this crate hands out indexes a `&str` in **bytes**, while the text itself is
//! reasoned about as a sequence of characters; [`byte_offset`] is the bridge between the two
//! coordinate systems.

use vstd::prelude::*;

verus! {

broadcast use vstd::string::group_string_axioms;

/// How many bytes `c` takes in UTF-8.
pub open spec fn utf8_width(c: char) -> nat {
    if (c as u32) <= 0x7F {
        1
    } else if (c as u32) <= 0x7FF {
        2
    } else if (c as u32) <= 0xFFFF {
        3
    } else {
        4
    }
}

/// The byte offset of character `i` of `s`: the UTF-8 length of the first `i` characters.
pub open spec fn byte_offset(s: Seq<char>, i: int) -> nat
    decreases i,
{
    if i <= 0 || s.len() == 0 {
        0
    } else if i > s.len() {
        byte_offset(s, s.len() as int)
    } else {
        byte_offset(s, i - 1) + utf8_width(s[i - 1])
    }
}

/// The UTF-8 length of the whole of `s`.
pub open spec fn byte_len(s: Seq<char>) -> nat {
    byte_offset(s, s.len() as int)
}

/// Byte offsets grow with the character index.
pub proof fn lemma_byte_offset_monotone(s: Seq<char>, i: int, j: int)
    requires
        0 <= i <= j <= s.len(),
    ensures
        byte_offset(s, i) <= byte_offset(s, j),
        i < j ==> byte_offset(s, i) < byte_offset(s, j),
    decreases j - i,
{
    if i < j {
        lemma_byte_offset_monotone(s, i, j - 1);
    }
}

/// The byte offset of a position depends only on the characters before it.
pub proof fn lemma_byte_offset_prefix(s: Seq<char>, t: Seq<char>, i: int)
    requires
        0 <= i <= s.len(),
        0 <= i <= t.len(),
        s.take(i) == t.take(i),
    ensures
        byte_offset(s, i) == byte_offset(t, i),
    decreases i,
{
    if i > 0 {
        assert(s[i - 1] == s.take(i)[i - 1]);
        assert(t[i - 1] == t.take(i)[i - 1]);
        assert(s.take(i - 1) =~= s.take(i).take(i - 1));
        assert(t.take(i - 1) =~= t.take(i).take(i - 1));
        lemma_byte_offset_prefix(s, t, i - 1);
    }
}

/// A character's width is the length of its UTF-8 encoding.
pub proof fn lemma_width_is_encoded_len(c: char)
    ensures
        vstd::utf8::encode_scalar(c as u32).len() == utf8_width(c),
{
    vstd::utf8::char_is_scalar(c);
}

proof fn lemma_byte_offset_first(s: Seq<char>, i: int)
    requires
        1 <= i <= s.len(),
    ensures
        byte_offset(s, i) == utf8_width(s[0]) + byte_offset(s.drop_first(), i - 1),
    decreases i,
{
    let d = s.drop_first();
    if i > 1 {
        lemma_byte_offset_first(s, i - 1);
        assert(d[i - 2] == s[i - 1]);
        assert(byte_offset(d, i - 1) == byte_offset(d, i - 2) + utf8_width(d[i - 2]));
        assert(byte_offset(s, i) == byte_offset(s, i - 1) + utf8_width(s[i - 1]));
    } else {
        assert(byte_offset(s, 1) == byte_offset(s, 0) + utf8_width(s[0]));
        assert(byte_offset(d, 0) == 0);
    }
}

/// The UTF-8 length [`byte_len`] computes is the length of the string's actual encoding —
/// what `str::len` returns.
pub proof fn lemma_byte_len_is_encoded_len(s: Seq<char>)
    ensures
        byte_len(s) == vstd::utf8::encode_utf8(s).len(),
    decreases s.len(),
{
    if s.len() > 0 {
        lemma_byte_offset_first(s, s.len() as int);
        lemma_byte_len_is_encoded_len(s.drop_first());
        lemma_width_is_encoded_len(s[0]);
    }
}

/// `char::len_utf8`: how many bytes `c` takes in UTF-8.
pub fn len_utf8(c: char) -> (n: usize)
    ensures
        n == utf8_width(c),
{
    let u = c as u32;
    if u <= 0x7F {
        1
    } else if u <= 0x7FF {
        2
    } else if u <= 0xFFFF {
        3
    } else {
        4
    }
}

/// The characters of `s`, in order.
pub fn chars_of(s: &str) -> (v: Vec<char>)
    ensures
        v@ == s@,
{
    let mut v: Vec<char> = Vec::new();
    for c in iter: s.chars()
        invariant
            iter.seq() == s@,
            v@ == iter.seq().take(iter.index() as int),
    {
        proof {
            assert(iter.seq().take(iter.index() as int + 1) =~= v@.push(c));
        }
        v.push(c);
    }
    proof {
        assert(s@.take(s@.len() as int) =~= s@);
    }
    v
}

/// The first character of `char::to_lowercase(c)`: Unicode's simple lowercase mapping of
/// `c`, or `c` itself when it has none.
pub uninterp spec fn lowercase_first(c: char) -> char;

/// `char::is_alphanumeric(c)`: whether `c` is alphabetic or numeric in Unicode's sense.
pub uninterp spec fn is_alphanumeric(c: char) -> bool;

/// Calls `char::to_lowercase` and keeps the first character of the mapping, which the
/// standard library documents as always present (a character with no lowercase form maps
/// to itself). Claims the named result, and the ASCII part of the mapping: `A`..`Z` map to
/// `a`..`z` and every other ASCII character to itself. Nothing is stated of the mapping
/// outside ASCII beyond its name.
#[verifier::external_body]
pub(crate) fn to_lowercase_first(c: char) -> (r: char)
    ensures
        r == lowercase_first(c),
        'A' <= c <= 'Z' ==> r as u32 == c as u32 + 32,
        (c as u32) < 128 && !('A' <= c <= 'Z') ==> r == c,
{
    c.to_lowercase().next().unwrap_or(c)
}

/// Calls `char::is_alphanumeric`. Claims the named result, and its ASCII part: the ASCII
/// letters and digits are alphanumeric and no other ASCII character is. Nothing is stated
/// of characters outside ASCII beyond the name.
#[verifier::external_body]
pub(crate) fn char_is_alphanumeric(c: char) -> (r: bool)
    ensures
        r == is_alphanumeric(c),
        (c as u32) < 128 ==> (r <==> ('a' <= c <= 'z' || 'A' <= c <= 'Z' || '0' <= c <= '9')),
{
    c.is_alphanumeric()
}

/// Calls `String::push`, which appends `c` (as its UTF-8 encoding) to the end of `s`; the
/// string's characters are then the old ones followed by `c`.
#[verifier::external_body]
fn push_char(s: &mut String, c: char)
    ensures
        final(s)@ == old(s)@.push(c),
{
    s.push(c);
}

/// A `String` holding exactly `chars`, in order.
pub fn string_from_chars(chars: &[char]) -> (s: String)
    ensures
        s@ == chars@,
{
    let mut s = String::new();
    let mut i: usize = 0;
    while i < chars.len()
        invariant
            i <= chars@.len(),
            s@ == chars@.take(i as int),
        decreases chars@.len() - i,
    {
        push_char(&mut s, chars[i]);
        proof {
            assert(chars@.take(i as int + 1) =~= chars@.take(i as int).push(chars@[i as int]));
        }
        i += 1;
    }
    proof {
        assert(chars@.take(i as int) =~= chars@);
    }
    s
}


/// The ASCII digit for `d`.
pub open spec fn digit_char(d: nat) -> char {
    if d == 0 { '0' } else if d == 1 { '1' } else if d == 2 { '2' } else if d == 3 { '3' }
    else if d == 4 { '4' } else if d == 5 { '5' } else if d == 6 { '6' } else if d == 7 { '7' }
    else if d == 8 { '8' } else { '9' }
}

/// `n` written in decimal, without leading zeros.
pub open spec fn decimal_spec(n: nat) -> Seq<char>
    decreases n,
{
    if n < 10 {
        seq![digit_char(n)]
    } else {
        decimal_spec(n / 10).push(digit_char(n % 10))
    }
}

/// Append `n` in decimal to `out`.
pub fn push_decimal(out: &mut Vec<char>, n: u64)
    ensures
        final(out)@ == old(out)@ + decimal_spec(n as nat),
    decreases n,
{
    if n >= 10 {
        push_decimal(out, n / 10);
    }
    let d = n % 10;
    let c = if d == 0 { '0' } else if d == 1 { '1' } else if d == 2 { '2' } else if d == 3 { '3' }
        else if d == 4 { '4' } else if d == 5 { '5' } else if d == 6 { '6' } else if d == 7 { '7' }
        else if d == 8 { '8' } else { '9' };
    let ghost before = out@;
    out.push(c);
    proof {
        if n >= 10 {
            assert(before + seq![c] =~= before.push(c));
        } else {
            assert(n % 10 == n);
        }
        assert(out@ =~= old(out)@ + decimal_spec(n as nat));
    }
}

/// Append the characters of `s` to `out`.
pub fn push_str(out: &mut Vec<char>, s: &str)
    ensures
        final(out)@ == old(out)@ + s@,
{
    let chars = chars_of(s);
    let mut i: usize = 0;
    while i < chars.len()
        invariant
            chars@ == s@,
            i <= chars@.len(),
            out@ == old(out)@ + s@.take(i as int),
        decreases chars@.len() - i,
    {
        proof {
            assert(s@.take(i as int + 1) =~= s@.take(i as int).push(s@[i as int]));
        }
        out.push(chars[i]);
        i += 1;
    }
    proof {
        assert(s@.take(i as int) =~= s@);
    }
}

} // verus!
