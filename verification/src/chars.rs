//! Character classes and basic whitespace normalization shared by every
//! cleaning stage: Unicode whitespace, ASCII digits and word characters,
//! trimming and duplicate-space collapsing over sequences of characters.

use vstd::prelude::*;

verus! {

/// Unicode white-space characters: the set matched by `char::is_whitespace`.
pub open spec fn is_space_char(c: char) -> bool {
    let u = c as u32;
    (0x09 <= u && u <= 0x0d) || u == 0x20 || u == 0x85 || u == 0xa0 || u == 0x1680 || (0x2000
        <= u && u <= 0x200a) || u == 0x2028 || u == 0x2029 || u == 0x202f || u == 0x205f || u
        == 0x3000
}

/// ASCII decimal digit.
pub open spec fn is_digit_char(c: char) -> bool {
    0x30 <= (c as u32) && (c as u32) <= 0x39
}

/// Numeric value of an ASCII digit.
pub open spec fn digit_val(c: char) -> int {
    (c as u32) - 0x30
}

/// A character that can stand inside a word: an ASCII letter, digit or
/// underscore, or any character beyond ASCII, so that a bracket group
/// holding a title in any script counts as text and not as empty. The finer
/// Unicode word classes are not told apart: a group holding only non-ASCII
/// punctuation or symbols is also kept.
pub open spec fn is_word_char(c: char) -> bool {
    let u = c as u32;
    (0x41 <= u && u <= 0x5a) || (0x61 <= u && u <= 0x7a) || (0x30 <= u && u <= 0x39) || u == 0x5f
        || u > 0x7f
}

/// Any ASCII character.
pub open spec fn is_ascii_char(c: char) -> bool {
    (c as u32) <= 0x7f
}

/// Case-insensitive comparison of `c` against an upper-case ASCII letter.
pub open spec fn eq_ci(c: char, upper: char) -> bool {
    c == upper || (c as u32) == (upper as u32) + 0x20
}

pub(crate) fn exec_is_space(c: char) -> (r: bool)
    ensures
        r == is_space_char(c),
{
    let u = c as u32;
    (0x09 <= u && u <= 0x0d) || u == 0x20 || u == 0x85 || u == 0xa0 || u == 0x1680 || (0x2000
        <= u && u <= 0x200a) || u == 0x2028 || u == 0x2029 || u == 0x202f || u == 0x205f || u
        == 0x3000
}

pub(crate) fn exec_is_digit(c: char) -> (r: bool)
    ensures
        r == is_digit_char(c),
{
    let u = c as u32;
    0x30 <= u && u <= 0x39
}

pub(crate) fn exec_is_word(c: char) -> (r: bool)
    ensures
        r == is_word_char(c),
{
    let u = c as u32;
    (0x41 <= u && u <= 0x5a) || (0x61 <= u && u <= 0x7a) || (0x30 <= u && u <= 0x39) || u == 0x5f
        || u > 0x7f
}

pub(crate) fn exec_is_ascii(c: char) -> (r: bool)
    ensures
        r == is_ascii_char(c),
{
    (c as u32) <= 0x7f
}

pub(crate) fn exec_eq_ci(c: char, upper: char) -> (r: bool)
    ensures
        r == eq_ci(c, upper),
{
    c == upper || (c as u32) == (upper as u32) + 0x20
}

/// The characters of a string, in order.
pub(crate) fn chars_of(s: &str) -> (r: Vec<char>)
    ensures
        r@ == s@,
{
    let n = s.unicode_len();
    let mut r: Vec<char> = Vec::new();
    let mut i: usize = 0;
    while i < n
        invariant
            n == s@.len(),
            i <= n,
            r@ == s@.subrange(0, i as int),
        decreases n - i,
    {
        r.push(s.get_char(i));
        i += 1;
    }
    assert(r@ =~= s@);
    r
}

/// A string holding exactly the given characters.
/// Relies on `String`'s `FromIterator` impl: collecting chars concatenates
/// them in order.
#[verifier::external_body]
pub(crate) fn string_of(v: &Vec<char>) -> (r: String)
    ensures
        r@ == v@,
{
    v.iter().collect()
}

/// The string with leading white-space removed.
pub open spec fn spec_trim_start(s: Seq<char>) -> Seq<char>
    decreases s.len(),
{
    if s.len() > 0 && is_space_char(s[0]) {
        spec_trim_start(s.drop_first())
    } else {
        s
    }
}

/// The string with trailing white-space removed.
pub open spec fn spec_trim_end(s: Seq<char>) -> Seq<char>
    decreases s.len(),
{
    if s.len() > 0 && is_space_char(s.last()) {
        spec_trim_end(s.drop_last())
    } else {
        s
    }
}

/// The string with leading and trailing white-space removed, as `str::trim`
/// leaves it.
pub open spec fn spec_trim(s: Seq<char>) -> Seq<char> {
    spec_trim_end(spec_trim_start(s))
}

proof fn lemma_trim_start_subrange(s: Seq<char>, lo: int)
    requires
        0 <= lo <= s.len(),
        forall|k: int| 0 <= k < lo ==> is_space_char(s[k]),
    ensures
        spec_trim_start(s) == spec_trim_start(s.subrange(lo, s.len() as int)),
    decreases lo,
{
    if lo > 0 {
        assert(s.subrange(0, s.len() as int) =~= s);
        assert(is_space_char(s[0]));
        assert(s.drop_first() =~= s.subrange(1, s.len() as int));
        let t = s.subrange(1, s.len() as int);
        assert(t.subrange(lo - 1, t.len() as int) =~= s.subrange(lo, s.len() as int));
        lemma_trim_start_subrange(t, lo - 1);
    } else {
        assert(s.subrange(0, s.len() as int) =~= s);
    }
}

proof fn lemma_trim_end_subrange(s: Seq<char>, hi: int)
    requires
        0 <= hi <= s.len(),
        forall|k: int| hi <= k < s.len() ==> is_space_char(s[k]),
    ensures
        spec_trim_end(s) == spec_trim_end(s.subrange(0, hi)),
    decreases s.len() - hi,
{
    if hi < s.len() {
        assert(is_space_char(s.last()));
        assert(s.drop_last() =~= s.subrange(0, s.len() - 1));
        let t = s.subrange(0, s.len() - 1);
        assert(t.subrange(0, hi) =~= s.subrange(0, hi));
        lemma_trim_end_subrange(t, hi);
    } else {
        assert(s.subrange(0, s.len() as int) =~= s);
    }
}

/// Characters of `v` with leading and trailing white-space removed.
pub(crate) fn trim_chars(v: &Vec<char>) -> (r: Vec<char>)
    ensures
        r@ == spec_trim(v@),
{
    let n = v.len();
    let mut lo: usize = 0;
    while lo < n && exec_is_space(v[lo])
        invariant
            lo <= n,
            n == v@.len(),
            forall|k: int| 0 <= k < lo ==> is_space_char(v@[k]),
        decreases n - lo,
    {
        lo += 1;
    }
    proof {
        lemma_trim_start_subrange(v@, lo as int);
    }
    let ghost t = v@.subrange(lo as int, n as int);
    proof {
        if t.len() > 0 {
            assert(!is_space_char(t[0]));
        }
        assert(spec_trim_start(t) == t);
        assert(spec_trim_start(v@) == t);
    }
    let mut hi: usize = n;
    while hi > lo && exec_is_space(v[hi - 1])
        invariant
            lo <= hi <= n,
            n == v@.len(),
            forall|k: int| hi <= k < n ==> is_space_char(v@[k]),
        decreases hi,
    {
        hi -= 1;
    }
    proof {
        assert(t.subrange(hi - lo, t.len() as int) =~= v@.subrange(hi as int, n as int));
        lemma_trim_end_subrange(t, hi - lo);
        let u = t.subrange(0, hi - lo);
        if u.len() > 0 {
            assert(u.last() == v@[hi - 1]);
            assert(!is_space_char(u.last()));
        }
        assert(spec_trim_end(u) == u);
        assert(spec_trim(v@) == u);
    }
    let mut r: Vec<char> = Vec::new();
    let mut i: usize = lo;
    while i < hi
        invariant
            lo <= i <= hi <= n,
            n == v@.len(),
            r@ == v@.subrange(lo as int, i as int),
        decreases hi - i,
    {
        r.push(v[i]);
        assert(r@ =~= v@.subrange(lo as int, i + 1));
        i += 1;
    }
    proof {
        assert(r@ =~= v@.subrange(lo as int, hi as int));
        assert(v@.subrange(lo as int, hi as int) =~= t.subrange(0, hi - lo));
    }
    r
}

/// Runs of white-space collapsed to a single space: of each maximal run only
/// its last character is kept, written as a plain space.
pub open spec fn spec_collapse_from(s: Seq<char>, i: int) -> Seq<char>
    decreases s.len() - i when 0 <= i <= s.len()
{
    if i >= s.len() {
        Seq::<char>::empty()
    } else if is_space_char(s[i]) && i + 1 < s.len() && is_space_char(s[i + 1]) {
        spec_collapse_from(s, i + 1)
    } else if is_space_char(s[i]) {
        seq![' '] + spec_collapse_from(s, i + 1)
    } else {
        seq![s[i]] + spec_collapse_from(s, i + 1)
    }
}

/// White-space runs replaced by single spaces, then both ends trimmed.
pub open spec fn spec_collapse_trim(s: Seq<char>) -> Seq<char> {
    spec_trim(spec_collapse_from(s, 0))
}

/// Characters of `v` with every white-space run collapsed to one space.
pub(crate) fn collapse_chars(v: &Vec<char>) -> (r: Vec<char>)
    ensures
        r@ == spec_collapse_from(v@, 0),
{
    let n = v.len();
    let mut r: Vec<char> = Vec::new();
    let mut i: usize = 0;
    while i < n
        invariant
            i <= n,
            n == v@.len(),
            spec_collapse_from(v@, 0) == r@ + spec_collapse_from(v@, i as int),
        decreases n - i,
    {
        let c = v[i];
        if exec_is_space(c) && i + 1 < n && exec_is_space(v[i + 1]) {
            // a later space of the same run will stand for it
        } else if exec_is_space(c) {
            r.push(' ');
        } else {
            r.push(c);
        }
        i += 1;
    }
    assert(spec_collapse_from(v@, n as int) =~= Seq::<char>::empty());
    assert(r@ =~= r@ + Seq::<char>::empty());
    r
}

} // verus!
