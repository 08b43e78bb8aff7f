//! Roman numerals: decoding a numeral to an integer, recognizing the
//! canonical numeral shape `M{0,4}(CM|CD|D?C{0,3})(XC|XL|L?X{0,3})(IX|IV|V?I{0,3})`
//! case-insensitively, and the cleaning stage that strips a trailing
//! white-space-delimited numeral of that shape.

use vstd::prelude::*;

use crate::chars::{chars_of, eq_ci, exec_eq_ci, exec_is_space, is_space_char, string_of};
use crate::clean::{find_nonspace, first_nonspace};

verus! {

// ---------------------------------------------------------------------------
// Decoding
// ---------------------------------------------------------------------------
/// One of the seven upper-case numeral symbols.
pub open spec fn is_roman_char(c: char) -> bool {
    c == 'I' || c == 'V' || c == 'X' || c == 'L' || c == 'C' || c == 'D' || c == 'M'
}

/// Value of an upper-case numeral symbol; zero for anything else.
pub open spec fn roman_char_val(c: char) -> int {
    if c == 'I' {
        1
    } else if c == 'V' {
        5
    } else if c == 'X' {
        10
    } else if c == 'L' {
        50
    } else if c == 'C' {
        100
    } else if c == 'D' {
        500
    } else if c == 'M' {
        1000
    } else {
        0
    }
}

/// Every character is an upper-case numeral symbol.
pub open spec fn roman_valid(s: Seq<char>) -> bool {
    forall|k: int| 0 <= k < s.len() ==> is_roman_char(s[k])
}

/// Subtractive right-to-left accumulation over `s[0..k]`, where `prev` is
/// the value of the symbol just to the right: a symbol smaller than its
/// right neighbour is subtracted, any other is added.
pub open spec fn spec_roman_sum(s: Seq<char>, k: int, prev: int) -> int
    decreases k when 0 <= k <= s.len()
{
    if k <= 0 {
        0
    } else {
        let v = roman_char_val(s[k - 1]);
        (if v < prev {
            -v
        } else {
            v
        }) + spec_roman_sum(s, k - 1, v)
    }
}

/// The number a numeral string stands for.
pub open spec fn spec_roman_value(s: Seq<char>) -> int {
    spec_roman_sum(s, s.len() as int, 0)
}

/// The accumulated value never exceeds a thousand per symbol, in either
/// direction.
pub proof fn lemma_roman_sum_bound(s: Seq<char>, k: int, prev: int)
    requires
        0 <= k <= s.len(),
    ensures
        -1000 * k <= spec_roman_sum(s, k, prev) <= 1000 * k,
    decreases k,
{
    if k > 0 {
        let v = roman_char_val(s[k - 1]);
        lemma_roman_sum_bound(s, k - 1, v);
    }
}

/// On a string of valid symbols the accumulated value stays positive: a run
/// of subtractions is a chain of strictly growing symbol values, and each
/// symbol value is at least double the next smaller one.
proof fn lemma_roman_sum_pos(s: Seq<char>, k: int, prev: int)
    requires
        1 <= k <= s.len(),
        forall|j: int| 0 <= j < k ==> is_roman_char(s[j]),
        prev == 0 || prev == 1 || prev == 5 || prev == 10 || prev == 50 || prev == 100 || prev
            == 500 || prev == 1000,
    ensures
        spec_roman_sum(s, k, prev) >= 1 - prev,
    decreases k,
{
    let v = roman_char_val(s[k - 1]);
    assert(is_roman_char(s[k - 1]));
    assert(v == 1 || v == 5 || v == 10 || v == 50 || v == 100 || v == 500 || v == 1000);
    if k > 1 {
        lemma_roman_sum_pos(s, k - 1, v);
        assert(spec_roman_sum(s, k - 1, v) >= 1 - v);
    } else {
        assert(spec_roman_sum(s, k - 1, v) == 0);
    }
    if v < prev {
        assert(prev >= 2 * v);
        assert(spec_roman_sum(s, k, prev) == -v + spec_roman_sum(s, k - 1, v));
    } else {
        assert(spec_roman_sum(s, k, prev) == v + spec_roman_sum(s, k - 1, v));
    }
}

/// Decodes the numeral written in `v[lo..hi]` by the subtractive
/// right-to-left rule.
pub(crate) fn roman_chars_to_int(v: &Vec<char>, lo: usize, hi: usize) -> (r: Result<u16, ()>)
    requires
        lo <= hi <= v@.len(),
        roman_valid(v@.subrange(lo as int, hi as int)) ==> spec_roman_value(
            v@.subrange(lo as int, hi as int),
        ) <= u16::MAX,
    ensures
        r is Ok <==> roman_valid(v@.subrange(lo as int, hi as int)),
        r is Ok ==> r->Ok_0 as int == spec_roman_value(v@.subrange(lo as int, hi as int)),
{
    let ghost sub = v@.subrange(lo as int, hi as int);
    let n = hi - lo;
    let mut acc: i128 = 0;
    let mut prev: u32 = 0;
    let mut j: usize = hi;
    while j > lo
        invariant
            lo <= j <= hi <= v@.len(),
            n == hi - lo,
            sub == v@.subrange(lo as int, hi as int),
            forall|k: int| j - lo <= k < n ==> is_roman_char(sub[k]),
            prev == (if j == hi {
                0int
            } else {
                roman_char_val(sub[j - lo])
            }),
            spec_roman_sum(sub, n as int, 0) == acc + spec_roman_sum(sub, j - lo, prev as int),
            -1000 * (hi - j) <= acc <= 1000 * (hi - j),
        decreases j,
    {
        let c = v[j - 1];
        assert(c == sub[j - 1 - lo]);
        let val: u32 = match c {
            'I' => 1,
            'V' => 5,
            'X' => 10,
            'L' => 50,
            'C' => 100,
            'D' => 500,
            'M' => 1000,
            _ => {
                assert(!is_roman_char(sub[j - 1 - lo]));
                return Err(());
            },
        };
        assert(val == roman_char_val(sub[j - 1 - lo]));
        if val < prev {
            acc = acc - val as i128;
        } else {
            acc = acc + val as i128;
        }
        prev = val;
        j -= 1;
    }
    assert(roman_valid(sub));
    assert(acc == spec_roman_value(sub));
    proof {
        if n > 0 {
            lemma_roman_sum_pos(sub, n as int, 0);
        }
    }
    assert(0 <= acc <= 65535);
    Ok(acc as u16)
}

/// Decodes a Roman numeral by the subtractive right-to-left rule: a symbol
/// standing left of a larger one is subtracted, any other added. Fails
/// exactly when some character is not one of the seven upper-case symbols;
/// non-canonical spellings such as `IIII` are accepted.
pub fn roman_to_int(roman: &str) -> (r: Result<u16, ()>)
    requires
        roman_valid(roman@) ==> spec_roman_value(roman@) <= u16::MAX,
    ensures
        r is Ok <==> roman_valid(roman@),
        r is Ok ==> r->Ok_0 == spec_roman_value(roman@),
{
    let v = chars_of(roman);
    assert(v@.subrange(0, v@.len() as int) =~= roman@);
    roman_chars_to_int(&v, 0, v.len())
}

// ---------------------------------------------------------------------------
// The canonical numeral grammar
// ---------------------------------------------------------------------------
/// A run of at most `max` copies of the symbol `u`, compared
/// case-insensitively.
pub open spec fn is_char_run(t: Seq<char>, u: char, max: int) -> bool {
    t.len() <= max && (forall|k: int| 0 <= k < t.len() ==> eq_ci(t[k], u))
}

/// One order-of-magnitude group of the canonical grammar,
/// `one ten | one five | five one{0,3} | one{0,3}`: for the hundreds
/// `CM|CD|D?C{0,3}`, and likewise for tens and units.
pub open spec fn is_group_part(t: Seq<char>, one: char, five: char, ten: char) -> bool {
    ||| (t.len() == 2 && eq_ci(t[0], one) && eq_ci(t[1], ten))
    ||| (t.len() == 2 && eq_ci(t[0], one) && eq_ci(t[1], five))
    ||| (t.len() >= 1 && eq_ci(t[0], five) && is_char_run(t.subrange(1, t.len() as int), one, 3))
    ||| is_char_run(t, one, 3)
}

/// The units group `IX|IV|V?I{0,3}` makes up the whole rest.
pub open spec fn dec_units(t: Seq<char>) -> bool {
    is_group_part(t, 'I', 'V', 'X')
}

/// A tens group `XC|XL|L?X{0,3}` followed by a units group.
pub open spec fn dec_tens(t: Seq<char>) -> bool {
    exists|l: int|
        0 <= l <= 4 && l <= t.len() && is_group_part(t.subrange(0, l), 'X', 'L', 'C') && dec_units(
            t.subrange(l, t.len() as int),
        )
}

/// A hundreds group `CM|CD|D?C{0,3}` followed by tens and units.
pub open spec fn dec_hundreds(t: Seq<char>) -> bool {
    exists|l: int|
        0 <= l <= 4 && l <= t.len() && is_group_part(t.subrange(0, l), 'C', 'D', 'M') && dec_tens(
            t.subrange(l, t.len() as int),
        )
}

/// The whole canonical shape: up to four `M`s, then hundreds, tens, units.
/// The empty string is of this shape.
pub open spec fn is_big_roman(t: Seq<char>) -> bool {
    exists|l: int|
        0 <= l <= 4 && l <= t.len() && is_char_run(t.subrange(0, l), 'M', 4) && dec_hundreds(
            t.subrange(l, t.len() as int),
        )
}

fn exec_char_run(v: &Vec<char>, lo: usize, hi: usize, u: char, max: usize) -> (r: bool)
    requires
        lo <= hi <= v@.len(),
    ensures
        r == is_char_run(v@.subrange(lo as int, hi as int), u, max as int),
{
    let ghost t = v@.subrange(lo as int, hi as int);
    if hi - lo > max {
        return false;
    }
    let mut k = lo;
    while k < hi
        invariant
            lo <= k <= hi <= v@.len(),
            t == v@.subrange(lo as int, hi as int),
            forall|m: int| 0 <= m < k - lo ==> eq_ci(t[m], u),
        decreases hi - k,
    {
        if !exec_eq_ci(v[k], u) {
            assert(t[k - lo] == v@[k as int]);
            return false;
        }
        assert(t[k - lo] == v@[k as int]);
        k += 1;
    }
    true
}

fn exec_group_part(v: &Vec<char>, lo: usize, hi: usize, one: char, five: char, ten: char) -> (r:
    bool)
    requires
        lo <= hi <= v@.len(),
    ensures
        r == is_group_part(v@.subrange(lo as int, hi as int), one, five, ten),
{
    let ghost t = v@.subrange(lo as int, hi as int);
    let len = hi - lo;
    let two_high = len == 2 && (exec_eq_ci(v[lo], one) && (exec_eq_ci(v[lo + 1], ten) || exec_eq_ci(
        v[lo + 1],
        five,
    )));
    let five_run = len >= 1 && exec_eq_ci(v[lo], five) && exec_char_run(v, lo + 1, hi, one, 3);
    let plain_run = exec_char_run(v, lo, hi, one, 3);
    proof {
        if len >= 1 {
            assert(t[0] == v@[lo as int]);
            assert(t.subrange(1, t.len() as int) =~= v@.subrange(lo + 1, hi as int));
        }
        if len == 2 {
            assert(t[1] == v@[lo + 1]);
        }
    }
    two_high || five_run || plain_run
}

fn exec_dec_units(v: &Vec<char>, lo: usize, hi: usize) -> (r: bool)
    requires
        lo <= hi <= v@.len(),
    ensures
        r == dec_units(v@.subrange(lo as int, hi as int)),
{
    exec_group_part(v, lo, hi, 'I', 'V', 'X')
}

fn exec_dec_tens(v: &Vec<char>, lo: usize, hi: usize) -> (r: bool)
    requires
        lo <= hi <= v@.len(),
    ensures
        r == dec_tens(v@.subrange(lo as int, hi as int)),
{
    let ghost t = v@.subrange(lo as int, hi as int);
    let mut l: usize = 0;
    loop
        invariant
            0 <= l <= 5,
            lo <= hi <= v@.len(),
            t == v@.subrange(lo as int, hi as int),
            forall|m: int|
                0 <= m < l && m <= t.len() ==> !(is_group_part(t.subrange(0, m), 'X', 'L', 'C')
                    && dec_units(t.subrange(m, t.len() as int))),
        decreases 5 - l,
    {
        if l > 4 || l > hi - lo {
            assert(forall|m: int|
                0 <= m <= 4 && m <= t.len() ==> !(is_group_part(t.subrange(0, m), 'X', 'L', 'C')
                    && dec_units(t.subrange(m, t.len() as int))));
            return false;
        }
        proof {
            assert(t.subrange(0, l as int) =~= v@.subrange(lo as int, lo + l));
            assert(t.subrange(l as int, t.len() as int) =~= v@.subrange(lo + l, hi as int));
        }
        if exec_group_part(v, lo, lo + l, 'X', 'L', 'C') && exec_dec_units(v, lo + l, hi) {
            return true;
        }
        l += 1;
    }
}

fn exec_dec_hundreds(v: &Vec<char>, lo: usize, hi: usize) -> (r: bool)
    requires
        lo <= hi <= v@.len(),
    ensures
        r == dec_hundreds(v@.subrange(lo as int, hi as int)),
{
    let ghost t = v@.subrange(lo as int, hi as int);
    let mut l: usize = 0;
    loop
        invariant
            0 <= l <= 5,
            lo <= hi <= v@.len(),
            t == v@.subrange(lo as int, hi as int),
            forall|m: int|
                0 <= m < l && m <= t.len() ==> !(is_group_part(t.subrange(0, m), 'C', 'D', 'M')
                    && dec_tens(t.subrange(m, t.len() as int))),
        decreases 5 - l,
    {
        if l > 4 || l > hi - lo {
            assert(forall|m: int|
                0 <= m <= 4 && m <= t.len() ==> !(is_group_part(t.subrange(0, m), 'C', 'D', 'M')
                    && dec_tens(t.subrange(m, t.len() as int))));
            return false;
        }
        proof {
            assert(t.subrange(0, l as int) =~= v@.subrange(lo as int, lo + l));
            assert(t.subrange(l as int, t.len() as int) =~= v@.subrange(lo + l, hi as int));
        }
        if exec_group_part(v, lo, lo + l, 'C', 'D', 'M') && exec_dec_tens(v, lo + l, hi) {
            return true;
        }
        l += 1;
    }
}

pub(crate) fn exec_is_big_roman(v: &Vec<char>, lo: usize, hi: usize) -> (r: bool)
    requires
        lo <= hi <= v@.len(),
    ensures
        r == is_big_roman(v@.subrange(lo as int, hi as int)),
{
    let ghost t = v@.subrange(lo as int, hi as int);
    let mut l: usize = 0;
    loop
        invariant
            0 <= l <= 5,
            lo <= hi <= v@.len(),
            t == v@.subrange(lo as int, hi as int),
            forall|m: int|
                0 <= m < l && m <= t.len() ==> !(is_char_run(t.subrange(0, m), 'M', 4) && dec_hundreds(
                    t.subrange(m, t.len() as int),
                )),
        decreases 5 - l,
    {
        if l > 4 || l > hi - lo {
            assert(forall|m: int|
                0 <= m <= 4 && m <= t.len() ==> !(is_char_run(t.subrange(0, m), 'M', 4)
                    && dec_hundreds(t.subrange(m, t.len() as int))));
            return false;
        }
        proof {
            assert(t.subrange(0, l as int) =~= v@.subrange(lo as int, lo + l));
            assert(t.subrange(l as int, t.len() as int) =~= v@.subrange(lo + l, hi as int));
        }
        if exec_char_run(v, lo, lo + l, 'M', 4) && exec_dec_hundreds(v, lo + l, hi) {
            return true;
        }
        l += 1;
    }
}

// ---------------------------------------------------------------------------
// Trailing-numeral strip stage
// ---------------------------------------------------------------------------
/// White space starts at `i` and everything after the white-space run is a
/// canonical numeral reaching the end of the string.
pub open spec fn roman_tail_match_at(s: Seq<char>, i: int) -> bool {
    &&& 0 <= i < s.len()
    &&& is_space_char(s[i])
    &&& is_big_roman(s.subrange(first_nonspace(s, i + 1), s.len() as int))
}

/// The first position where a trailing white-space-plus-numeral match
/// starts; the length of the string when there is none.
pub open spec fn roman_tail_start(s: Seq<char>, i: int) -> int
    decreases s.len() - i when 0 <= i <= s.len()
{
    if i >= s.len() {
        s.len() as int
    } else if roman_tail_match_at(s, i) {
        i
    } else {
        roman_tail_start(s, i + 1)
    }
}

/// A trailing white-space-delimited canonical numeral replaced by a single
/// space; without one the string is unchanged.
pub open spec fn spec_remove_roman_number(s: Seq<char>) -> Seq<char> {
    if roman_tail_start(s, 0) < s.len() {
        s.subrange(0, roman_tail_start(s, 0)) + seq![' ']
    } else {
        s
    }
}

pub proof fn lemma_roman_tail_start(s: Seq<char>, i: int)
    requires
        0 <= i <= s.len(),
    ensures
        i <= roman_tail_start(s, i) <= s.len(),
        forall|k: int| i <= k < roman_tail_start(s, i) ==> !roman_tail_match_at(s, k),
        roman_tail_start(s, i) < s.len() ==> roman_tail_match_at(s, roman_tail_start(s, i)),
    decreases s.len() - i,
{
    if i < s.len() && !roman_tail_match_at(s, i) {
        lemma_roman_tail_start(s, i + 1);
    }
}

/// The first position where a trailing white-space-plus-numeral match
/// starts, or the length of the string when there is none.
pub(crate) fn find_roman_tail(v: &Vec<char>) -> (r: usize)
    ensures
        r as int == roman_tail_start(v@, 0),
        r <= v@.len(),
{
    let n = v.len();
    let mut i: usize = 0;
    while i < n
        invariant
            0 <= i <= n,
            n == v@.len(),
            forall|k: int| 0 <= k < i ==> !roman_tail_match_at(v@, k),
        decreases n - i,
    {
        if exec_is_space(v[i]) {
            let j = find_nonspace(v, i + 1);
            if exec_is_big_roman(v, j, n) {
                assert(roman_tail_match_at(v@, i as int));
                proof {
                    lemma_roman_tail_start(v@, 0);
                }
                return i;
            }
            assert(!roman_tail_match_at(v@, i as int));
        } else {
            assert(!roman_tail_match_at(v@, i as int));
        }
        i += 1;
    }
    proof {
        lemma_roman_tail_start(v@, 0);
    }
    n
}

pub(crate) fn roman_strip_chars(v: &Vec<char>) -> (r: Vec<char>)
    ensures
        r@ == spec_remove_roman_number(v@),
{
    let n = v.len();
    let i = find_roman_tail(v);
    let mut r: Vec<char> = Vec::new();
    if i < n {
        let mut k: usize = 0;
        while k < i
            invariant
                k <= i < n,
                n == v@.len(),
                r@ == v@.subrange(0, k as int),
            decreases i - k,
        {
            r.push(v[k]);
            assert(r@ =~= v@.subrange(0, k + 1));
            k += 1;
        }
        r.push(' ');
        assert(r@ =~= v@.subrange(0, i as int) + seq![' ']);
        r
    } else {
        let mut k: usize = 0;
        while k < n
            invariant
                k <= n,
                n == v@.len(),
                r@ == v@.subrange(0, k as int),
            decreases n - k,
        {
            r.push(v[k]);
            assert(r@ =~= v@.subrange(0, k + 1));
            k += 1;
        }
        assert(r@ =~= v@);
        r
    }
}

/// Removes a trailing Roman numeral (with the white space before it becoming
/// one space); the numeral may be empty, so a trailing white-space run alone
/// also collapses to one space.
pub fn string_remove_roman_number(input: &str) -> (r: Result<String, ()>)
    ensures
        r is Ok,
        r->Ok_0@ == spec_remove_roman_number(input@),
{
    let v = chars_of(input);
    let r = roman_strip_chars(&v);
    Ok(string_of(&r))
}

// ---------------------------------------------------------------------------
// Length and value bounds of grammar-shaped numerals
// ---------------------------------------------------------------------------
proof fn lemma_group_part_len(t: Seq<char>, one: char, five: char, ten: char)
    requires
        is_group_part(t, one, five, ten),
    ensures
        t.len() <= 4,
{
    if t.len() >= 1 {
        assert(t.subrange(1, t.len() as int).len() == t.len() - 1);
    }
}

proof fn lemma_dec_tens_len(t: Seq<char>)
    requires
        dec_tens(t),
    ensures
        t.len() <= 8,
{
    let l = choose|l: int|
        0 <= l <= 4 && l <= t.len() && is_group_part(t.subrange(0, l), 'X', 'L', 'C') && dec_units(
            t.subrange(l, t.len() as int),
        );
    lemma_group_part_len(t.subrange(l, t.len() as int), 'I', 'V', 'X');
}

proof fn lemma_dec_hundreds_len(t: Seq<char>)
    requires
        dec_hundreds(t),
    ensures
        t.len() <= 12,
{
    let l = choose|l: int|
        0 <= l <= 4 && l <= t.len() && is_group_part(t.subrange(0, l), 'C', 'D', 'M') && dec_tens(
            t.subrange(l, t.len() as int),
        );
    lemma_dec_tens_len(t.subrange(l, t.len() as int));
}

/// A string of the canonical shape holds at most sixteen symbols.
pub proof fn lemma_big_roman_len(t: Seq<char>)
    requires
        is_big_roman(t),
    ensures
        t.len() <= 16,
{
    let l = choose|l: int|
        0 <= l <= 4 && l <= t.len() && is_char_run(t.subrange(0, l), 'M', 4) && dec_hundreds(
            t.subrange(l, t.len() as int),
        );
    lemma_dec_hundreds_len(t.subrange(l, t.len() as int));
}

/// A numeral of the season pattern holds at most four symbols.
pub proof fn lemma_small_roman_len(t: Seq<char>)
    requires
        is_small_roman(t),
    ensures
        1 <= t.len() <= 4,
{
    if t.len() >= 1 {
        assert(t.subrange(1, t.len() as int).len() == t.len() - 1);
    }
}

// ---------------------------------------------------------------------------
// The season pattern's small numerals
// ---------------------------------------------------------------------------
/// A numeral of the season pattern `I{1,3}|IV|VI{0,3}|IX|XI{0,3}`: the
/// values one through thirteen, compared case-insensitively.
pub open spec fn is_small_roman(t: Seq<char>) -> bool {
    ||| (1 <= t.len() && is_char_run(t, 'I', 3))
    ||| (t.len() == 2 && eq_ci(t[0], 'I') && eq_ci(t[1], 'V'))
    ||| (t.len() == 2 && eq_ci(t[0], 'I') && eq_ci(t[1], 'X'))
    ||| (1 <= t.len() && eq_ci(t[0], 'V') && is_char_run(t.subrange(1, t.len() as int), 'I', 3))
    ||| (1 <= t.len() && eq_ci(t[0], 'X') && is_char_run(t.subrange(1, t.len() as int), 'I', 3))
}

pub(crate) fn exec_is_small_roman(v: &Vec<char>, lo: usize, hi: usize) -> (r: bool)
    requires
        lo <= hi <= v@.len(),
    ensures
        r == is_small_roman(v@.subrange(lo as int, hi as int)),
{
    let ghost t = v@.subrange(lo as int, hi as int);
    let len = hi - lo;
    if len == 0 {
        return false;
    }
    assert(t[0] == v@[lo as int]);
    let i_run = exec_char_run(v, lo, hi, 'I', 3);
    let iv = len == 2 && exec_eq_ci(v[lo], 'I') && exec_eq_ci(v[lo + 1], 'V');
    let ix = len == 2 && exec_eq_ci(v[lo], 'I') && exec_eq_ci(v[lo + 1], 'X');
    let v_run = exec_eq_ci(v[lo], 'V') && exec_char_run(v, lo + 1, hi, 'I', 3);
    let x_run = exec_eq_ci(v[lo], 'X') && exec_char_run(v, lo + 1, hi, 'I', 3);
    proof {
        assert(t.subrange(1, t.len() as int) =~= v@.subrange(lo + 1, hi as int));
        if len == 2 {
            assert(t[1] == v@[lo + 1]);
        }
    }
    i_run || iv || ix || v_run || x_run
}

} // verus!
