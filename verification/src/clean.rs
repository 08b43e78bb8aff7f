//! The fixed text-cleaning stages: year removal, duplicate-space collapsing,
//! empty-bracket and square-bracket removal, episode-range removal and
//! file-extension stripping. Each stage scans for its pattern left to right,
//! replaces every non-overlapping match with a single space, and leaves
//! everything else unchanged.

use vstd::prelude::*;

use crate::chars::{
    chars_of, collapse_chars, digit_val, exec_is_digit, exec_is_space, exec_is_word, is_digit_char,
    is_space_char, is_word_char, spec_collapse_trim, spec_trim, string_of, trim_chars,
};

verus! {

// ---------------------------------------------------------------------------
// Year removal
// ---------------------------------------------------------------------------
/// Four consecutive decimal digits start at `i`.
pub open spec fn year_window_at(s: Seq<char>, i: int) -> bool {
    &&& 0 <= i
    &&& i + 4 <= s.len()
    &&& is_digit_char(s[i])
    &&& is_digit_char(s[i + 1])
    &&& is_digit_char(s[i + 2])
    &&& is_digit_char(s[i + 3])
}

/// The number written by the four digits starting at `i`.
pub open spec fn window_value(s: Seq<char>, i: int) -> int {
    1000 * digit_val(s[i]) + 100 * digit_val(s[i + 1]) + 10 * digit_val(s[i + 2]) + digit_val(
        s[i + 3],
    )
}

/// A plausible production year: 1928 through 2030.
pub open spec fn in_year_range(v: int) -> bool {
    1928 <= v <= 2030
}

/// Every non-overlapping four-digit group whose value is a plausible year,
/// replaced by a space; a four-digit group outside the range is kept, and
/// scanning resumes after it.
pub open spec fn spec_years_from(s: Seq<char>, i: int) -> Seq<char>
    decreases s.len() - i when 0 <= i <= s.len()
{
    if i >= s.len() {
        Seq::<char>::empty()
    } else if year_window_at(s, i) {
        (if in_year_range(window_value(s, i)) {
            seq![' ']
        } else {
            s.subrange(i, i + 4)
        }) + spec_years_from(s, i + 4)
    } else {
        seq![s[i]] + spec_years_from(s, i + 1)
    }
}

/// Year removal as a whole: years struck out, white-space runs collapsed,
/// ends trimmed.
pub open spec fn spec_remove_years(s: Seq<char>) -> Seq<char> {
    spec_collapse_trim(spec_years_from(s, 0))
}

pub(crate) fn years_chars(v: &Vec<char>) -> (r: Vec<char>)
    ensures
        r@ == spec_years_from(v@, 0),
{
    let n = v.len();
    let mut r: Vec<char> = Vec::new();
    let mut i: usize = 0;
    while i < n
        invariant
            i <= n,
            n == v@.len(),
            spec_years_from(v@, 0) == r@ + spec_years_from(v@, i as int),
        decreases n - i,
    {
        if n - i >= 4 && exec_is_digit(v[i]) && exec_is_digit(v[i + 1]) && exec_is_digit(
            v[i + 2],
        ) && exec_is_digit(v[i + 3]) {
            let val: u32 = 1000 * ((v[i] as u32) - 0x30) + 100 * ((v[i + 1] as u32) - 0x30) + 10
                * ((v[i + 2] as u32) - 0x30) + ((v[i + 3] as u32) - 0x30);
            assert(val == window_value(v@, i as int));
            if 1928 <= val && val <= 2030 {
                r.push(' ');
            } else {
                let ghost r0 = r@;
                r.push(v[i]);
                r.push(v[i + 1]);
                r.push(v[i + 2]);
                r.push(v[i + 3]);
                assert(r@ =~= r0 + v@.subrange(i as int, i + 4));
            }
            i += 4;
        } else {
            r.push(v[i]);
            i += 1;
        }
    }
    assert(spec_years_from(v@, n as int) =~= Seq::<char>::empty());
    assert(r@ =~= r@ + Seq::<char>::empty());
    r
}

/// Removes every four-digit number between 1928 and 2030 from the string,
/// collapses the white space that is left and trims the ends.
pub fn string_remove_years(input: &str) -> (r: Result<String, ()>)
    ensures
        r is Ok,
        r->Ok_0@ == spec_remove_years(input@),
{
    let v = chars_of(input);
    let y = years_chars(&v);
    let c = collapse_chars(&y);
    let t = trim_chars(&c);
    Ok(string_of(&t))
}

// ---------------------------------------------------------------------------
// Duplicate-space collapsing
// ---------------------------------------------------------------------------
/// Collapses every run of white space to a single space and trims the ends.
pub fn string_remove_duplicate_spaces(input: &str) -> (r: Result<String, ()>)
    ensures
        r is Ok,
        r->Ok_0@ == spec_collapse_trim(input@),
{
    let v = chars_of(input);
    let c = collapse_chars(&v);
    let t = trim_chars(&c);
    Ok(string_of(&t))
}

// ---------------------------------------------------------------------------
// Empty-bracket removal
// ---------------------------------------------------------------------------
/// A character that can open an empty bracket pair.
pub open spec fn is_opener(c: char) -> bool {
    c == '[' || c == '(' || c == '{'
}

/// The closing bracket belonging to an opener.
pub open spec fn closer_for(c: char) -> char {
    if c == '[' {
        ']'
    } else if c == '(' {
        ')'
    } else {
        '}'
    }
}

/// The first position at or after `i` holding a non-white-space character,
/// or the length of the string if there is none.
pub open spec fn first_nonspace(s: Seq<char>, i: int) -> int
    decreases s.len() - i when 0 <= i <= s.len()
{
    if i >= s.len() {
        s.len() as int
    } else if !is_space_char(s[i]) {
        i
    } else {
        first_nonspace(s, i + 1)
    }
}

pub(crate) proof fn lemma_first_nonspace(s: Seq<char>, i: int)
    requires
        0 <= i <= s.len(),
    ensures
        i <= first_nonspace(s, i) <= s.len(),
        forall|k: int| i <= k < first_nonspace(s, i) ==> is_space_char(s[k]),
        first_nonspace(s, i) < s.len() ==> !is_space_char(s[first_nonspace(s, i)]),
    decreases s.len() - i,
{
    if i < s.len() && is_space_char(s[i]) {
        lemma_first_nonspace(s, i + 1);
    }
}

pub(crate) fn find_nonspace(v: &Vec<char>, i: usize) -> (r: usize)
    requires
        i <= v@.len(),
    ensures
        r == first_nonspace(v@, i as int),
        i <= r <= v@.len(),
    decreases v@.len() - i,
{
    if i == v.len() {
        i
    } else if !exec_is_space(v[i]) {
        i
    } else {
        find_nonspace(v, i + 1)
    }
}

/// An empty bracket pair starts at `i`: one of `[`, `(`, `{`, white space
/// only, and then its own closing bracket. A mismatched pair such as `( ]`
/// is no pair and stays.
pub open spec fn eb_match_at(s: Seq<char>, i: int) -> bool {
    &&& 0 <= i < s.len()
    &&& is_opener(s[i])
    &&& first_nonspace(s, i + 1) < s.len()
    &&& s[first_nonspace(s, i + 1)] == closer_for(s[i])
}

/// Every empty bracket pair replaced by a single space.
pub open spec fn spec_eb_from(s: Seq<char>, i: int) -> Seq<char>
    decreases s.len() - i when 0 <= i <= s.len() via spec_eb_from_decreases
{
    if i >= s.len() {
        Seq::<char>::empty()
    } else if eb_match_at(s, i) {
        seq![' '] + spec_eb_from(s, first_nonspace(s, i + 1) + 1)
    } else {
        seq![s[i]] + spec_eb_from(s, i + 1)
    }
}

#[via_fn]
proof fn spec_eb_from_decreases(s: Seq<char>, i: int) {
    if i < s.len() && eb_match_at(s, i) {
        lemma_first_nonspace(s, i + 1);
    }
}

pub open spec fn spec_remove_empty_brackets(s: Seq<char>) -> Seq<char> {
    spec_eb_from(s, 0)
}

pub(crate) fn eb_chars(v: &Vec<char>) -> (r: Vec<char>)
    ensures
        r@ == spec_eb_from(v@, 0),
{
    let n = v.len();
    let mut r: Vec<char> = Vec::new();
    let mut i: usize = 0;
    while i < n
        invariant
            i <= n,
            n == v@.len(),
            spec_eb_from(v@, 0) == r@ + spec_eb_from(v@, i as int),
        decreases n - i,
    {
        let c = v[i];
        let mut matched = false;
        if c == '[' || c == '(' || c == '{' {
            let close = if c == '[' {
                ']'
            } else if c == '(' {
                ')'
            } else {
                '}'
            };
            let j = find_nonspace(v, i + 1);
            if j < n && v[j] == close {
                assert(eb_match_at(v@, i as int));
                r.push(' ');
                i = j + 1;
                matched = true;
            }
        }
        if !matched {
            assert(!eb_match_at(v@, i as int));
            r.push(v[i]);
            i += 1;
        }
    }
    assert(spec_eb_from(v@, n as int) =~= Seq::<char>::empty());
    assert(r@ =~= r@ + Seq::<char>::empty());
    r
}

/// Removes bracket pairs that hold only white space, such as `[ ]` or `( )`.
pub fn string_remove_empty_brackets(input: &str) -> (r: Result<String, ()>)
    ensures
        r is Ok,
        r->Ok_0@ == spec_remove_empty_brackets(input@),
{
    let v = chars_of(input);
    let e = eb_chars(&v);
    Ok(string_of(&e))
}

// ---------------------------------------------------------------------------
// Square-bracket removal
// ---------------------------------------------------------------------------
/// The first position at or after `i` holding a word character or `]`,
/// or the length of the string if there is none.
pub open spec fn first_word_or_close(s: Seq<char>, i: int) -> int
    decreases s.len() - i when 0 <= i <= s.len()
{
    if i >= s.len() {
        s.len() as int
    } else if is_word_char(s[i]) || s[i] == ']' {
        i
    } else {
        first_word_or_close(s, i + 1)
    }
}

proof fn lemma_first_word_or_close(s: Seq<char>, i: int)
    requires
        0 <= i <= s.len(),
    ensures
        i <= first_word_or_close(s, i) <= s.len(),
    decreases s.len() - i,
{
    if i < s.len() && !(is_word_char(s[i]) || s[i] == ']') {
        lemma_first_word_or_close(s, i + 1);
    }
}

fn find_word_or_close(v: &Vec<char>, i: usize) -> (r: usize)
    requires
        i <= v@.len(),
    ensures
        r == first_word_or_close(v@, i as int),
        i <= r <= v@.len(),
    decreases v@.len() - i,
{
    if i == v.len() {
        i
    } else if exec_is_word(v[i]) || v[i] == ']' {
        i
    } else {
        find_word_or_close(v, i + 1)
    }
}

/// A square-bracket group with no word character inside starts at `i`.
pub open spec fn sq_match_at(s: Seq<char>, i: int) -> bool {
    &&& 0 <= i < s.len()
    &&& s[i] == '['
    &&& first_word_or_close(s, i + 1) < s.len()
    &&& s[first_word_or_close(s, i + 1)] == ']'
}

/// Every square-bracket group holding only non-word characters replaced by a
/// single space.
pub open spec fn spec_sq_from(s: Seq<char>, i: int) -> Seq<char>
    decreases s.len() - i when 0 <= i <= s.len() via spec_sq_from_decreases
{
    if i >= s.len() {
        Seq::<char>::empty()
    } else if sq_match_at(s, i) {
        seq![' '] + spec_sq_from(s, first_word_or_close(s, i + 1) + 1)
    } else {
        seq![s[i]] + spec_sq_from(s, i + 1)
    }
}

#[via_fn]
proof fn spec_sq_from_decreases(s: Seq<char>, i: int) {
    if i < s.len() && sq_match_at(s, i) {
        lemma_first_word_or_close(s, i + 1);
    }
}

pub open spec fn spec_remove_square_brackets(s: Seq<char>) -> Seq<char> {
    spec_sq_from(s, 0)
}

pub(crate) fn sq_chars(v: &Vec<char>) -> (r: Vec<char>)
    ensures
        r@ == spec_sq_from(v@, 0),
{
    let n = v.len();
    let mut r: Vec<char> = Vec::new();
    let mut i: usize = 0;
    while i < n
        invariant
            i <= n,
            n == v@.len(),
            spec_sq_from(v@, 0) == r@ + spec_sq_from(v@, i as int),
        decreases n - i,
    {
        let mut matched = false;
        if v[i] == '[' {
            let j = find_word_or_close(v, i + 1);
            if j < n && v[j] == ']' {
                assert(sq_match_at(v@, i as int));
                r.push(' ');
                i = j + 1;
                matched = true;
            }
        }
        if !matched {
            assert(!sq_match_at(v@, i as int));
            r.push(v[i]);
            i += 1;
        }
    }
    assert(spec_sq_from(v@, n as int) =~= Seq::<char>::empty());
    assert(r@ =~= r@ + Seq::<char>::empty());
    r
}

/// Removes square-bracket groups that hold no word character.
pub fn string_remove_square_brackets(input: &str) -> (r: Result<String, ()>)
    ensures
        r is Ok,
        r->Ok_0@ == spec_remove_square_brackets(input@),
{
    let v = chars_of(input);
    let s = sq_chars(&v);
    Ok(string_of(&s))
}

// ---------------------------------------------------------------------------
// Episode-range removal
// ---------------------------------------------------------------------------
/// A range pattern starts at `i` with `a` digits before the dash: `a` digits,
/// a `-`, and at least one digit after it.
pub open spec fn range_match_a(s: Seq<char>, i: int, a: int) -> bool {
    &&& 0 <= i
    &&& 1 <= a <= 3
    &&& i + a + 1 < s.len()
    &&& (forall|k: int| i <= k < i + a ==> is_digit_char(s[k]))
    &&& s[i + a] == '-'
    &&& is_digit_char(s[i + a + 1])
}

/// Number of digits before the dash of the range starting at `i`; zero when
/// no range starts there.
pub open spec fn range_a(s: Seq<char>, i: int) -> int {
    if range_match_a(s, i, 1) {
        1
    } else if range_match_a(s, i, 2) {
        2
    } else if range_match_a(s, i, 3) {
        3
    } else {
        0
    }
}

/// Number of digits taken after the dash: up to three, greedily.
pub open spec fn range_b(s: Seq<char>, p: int) -> int {
    if p + 2 < s.len() && is_digit_char(s[p + 1]) && is_digit_char(s[p + 2]) {
        3
    } else if p + 1 < s.len() && is_digit_char(s[p + 1]) {
        2
    } else {
        1
    }
}

/// Every `digits-digits` range (one to three digits on each side) replaced by
/// a single space.
pub open spec fn spec_range_from(s: Seq<char>, i: int) -> Seq<char>
    decreases s.len() - i when 0 <= i <= s.len()
{
    if i >= s.len() {
        Seq::<char>::empty()
    } else if range_a(s, i) > 0 {
        let a = range_a(s, i);
        let b = range_b(s, i + a + 1);
        seq![' '] + spec_range_from(s, i + a + 1 + b)
    } else {
        seq![s[i]] + spec_range_from(s, i + 1)
    }
}

/// Range removal followed by empty-bracket removal, as the range stage always
/// runs.
pub open spec fn spec_remove_episode_range(s: Seq<char>) -> Seq<char> {
    spec_eb_from(spec_range_from(s, 0), 0)
}

pub(crate) fn range_chars(v: &Vec<char>) -> (r: Vec<char>)
    ensures
        r@ == spec_range_from(v@, 0),
{
    let n = v.len();
    let mut r: Vec<char> = Vec::new();
    let mut i: usize = 0;
    while i < n
        invariant
            i <= n,
            n == v@.len(),
            spec_range_from(v@, 0) == r@ + spec_range_from(v@, i as int),
        decreases n - i,
    {
        let mut a: usize = 0;
        if n - i >= 3 && exec_is_digit(v[i]) && v[i + 1] == '-' && exec_is_digit(v[i + 2]) {
            a = 1;
        } else if n - i >= 4 && exec_is_digit(v[i]) && exec_is_digit(v[i + 1]) && v[i + 2] == '-'
            && exec_is_digit(v[i + 3]) {
            a = 2;
        } else if n - i >= 5 && exec_is_digit(v[i]) && exec_is_digit(v[i + 1]) && exec_is_digit(
            v[i + 2],
        ) && v[i + 3] == '-' && exec_is_digit(v[i + 4]) {
            a = 3;
        }
        assert(a as int == range_a(v@, i as int));
        if a > 0 {
            let p = i + a + 1;
            let b: usize = if n - p >= 3 && exec_is_digit(v[p + 1]) && exec_is_digit(v[p + 2]) {
                3
            } else if n - p >= 2 && exec_is_digit(v[p + 1]) {
                2
            } else {
                1
            };
            assert(b as int == range_b(v@, p as int));
            r.push(' ');
            i = p + b;
        } else {
            r.push(v[i]);
            i += 1;
        }
    }
    assert(spec_range_from(v@, n as int) =~= Seq::<char>::empty());
    assert(r@ =~= r@ + Seq::<char>::empty());
    r
}

/// Removes episode ranges such as `01-13`, then removes any bracket pair the
/// removal left empty.
pub fn string_remove_episode_range(input: &str) -> (r: Result<String, ()>)
    ensures
        r is Ok,
        r->Ok_0@ == spec_remove_episode_range(input@),
{
    let v = chars_of(input);
    let g = range_chars(&v);
    let e = eb_chars(&g);
    Ok(string_of(&e))
}

// ---------------------------------------------------------------------------
// File-extension stripping
// ---------------------------------------------------------------------------
/// A file extension starts at `i`: a dot followed by two to four word
/// characters that run to the end of the string.
pub open spec fn ext_at(s: Seq<char>, i: int) -> bool {
    &&& 0 <= i < s.len()
    &&& s[i] == '.'
    &&& 2 <= s.len() - i - 1 <= 4
    &&& (forall|k: int| i < k < s.len() ==> is_word_char(s[k]))
}

/// The trailing extension replaced by a space, then both ends trimmed. At
/// most one position can start an extension, since a dot is not a word
/// character.
pub open spec fn spec_remove_file_extension(s: Seq<char>) -> Seq<char> {
    if exists|i: int| ext_at(s, i) {
        spec_trim(s.subrange(0, choose|i: int| ext_at(s, i)) + seq![' '])
    } else {
        spec_trim(s)
    }
}

proof fn lemma_ext_unique(s: Seq<char>, i: int, j: int)
    requires
        ext_at(s, i),
        ext_at(s, j),
    ensures
        i == j,
{
    if i < j {
        assert(is_word_char(s[j]));
        assert(s[j] == '.');
        assert(false);
    }
    if j < i {
        assert(is_word_char(s[i]));
        assert(s[i] == '.');
        assert(false);
    }
}

pub(crate) fn fileext_chars(v: &Vec<char>) -> (r: Vec<char>)
    ensures
        r@ == spec_remove_file_extension(v@),
{
    let n = v.len();
    // the dot of an extension sits 3 to 5 characters before the end
    let mut found: bool = false;
    let mut pos: usize = 0;
    let mut d: usize = 3;
    while d <= 5
        invariant
            3 <= d <= 6,
            n == v@.len(),
            found ==> pos < n && ext_at(v@, pos as int),
            !found ==> forall|i: int|
                n - d < i < n ==> !ext_at(v@, i),
        decreases 6 - d,
    {
        if !found && d <= n {
            let i = n - d;
            let mut all_word = true;
            let mut k = i + 1;
            while k < n
                invariant
                    i < k <= n,
                    n == v@.len(),
                    all_word <==> (forall|m: int| i < m < k ==> is_word_char(v@[m])),
                decreases n - k,
            {
                if !exec_is_word(v[k]) {
                    all_word = false;
                }
                k += 1;
            }
            if v[i] == '.' && all_word {
                assert(ext_at(v@, i as int));
                found = true;
                pos = i;
            } else {
                assert(!ext_at(v@, i as int));
            }
        }
        if !found {
            assert(forall|i: int| n - d <= i < n ==> !ext_at(v@, i)) by {
                if n >= d {
                    assert(!ext_at(v@, n - d as int));
                } else {
                    assert(forall|i: int| i < 0 ==> !ext_at(v@, i));
                }
            }
        }
        d += 1;
    }
    if found {
        let mut head: Vec<char> = Vec::new();
        let mut i: usize = 0;
        while i < pos
            invariant
                i <= pos < n,
                n == v@.len(),
                head@ == v@.subrange(0, i as int),
            decreases pos - i,
        {
            head.push(v[i]);
            assert(head@ =~= v@.subrange(0, i + 1));
            i += 1;
        }
        head.push(' ');
        assert(head@ =~= v@.subrange(0, pos as int) + seq![' ']);
        let t = trim_chars(&head);
        proof {
            let w = choose|i: int| ext_at(v@, i);
            lemma_ext_unique(v@, w, pos as int);
        }
        t
    } else {
        proof {
            if exists|i: int| ext_at(v@, i) {
                let w = choose|i: int| ext_at(v@, i);
                assert(2 <= v@.len() - w - 1 <= 4);
                assert(n - 6 < w < n);
                assert(false);
            }
        }
        trim_chars(v)
    }
}

/// Strips a trailing dot-plus-two-to-four-word-character extension and trims
/// the result.
pub fn string_remove_file_extension(input: &str) -> (r: String)
    ensures
        r@ == spec_remove_file_extension(input@),
{
    let v = chars_of(input);
    let t = fileext_chars(&v);
    string_of(&t)
}

} // verus!
