//! Laws the cleaning stages obey, proved once for all inputs: a four-digit
//! number outside the year range is never removed; the duplicate-space stage
//! and the trailing-numeral stage are each a fixed point of themselves; a
//! bracket group holding the sentinel marker disappears whole; and a name
//! with no season marker resolves to season one.

use vstd::prelude::*;

use crate::chars::{
    eq_ci, is_space_char, spec_collapse_from, spec_collapse_trim, spec_trim_end, spec_trim_start,
};
use crate::clean::{
    first_nonspace, in_year_range, spec_remove_years, spec_years_from, window_value,
    year_window_at,
};
use crate::filter::{
    first_occurrence, marked_group_at, sentinel_between, spec_strip_marked, spec_strip_marked_from,
};
use crate::roman::{
    dec_hundreds, dec_tens, dec_units, is_big_roman, is_char_run, is_group_part,
    roman_tail_match_at, roman_tail_start, spec_remove_roman_number,
};
use crate::series::{
    season_digits_match, small_tail_start, spec_explicit_or_default, spec_season_clean,
    spec_season_number,
};

verus! {

// ---------------------------------------------------------------------------
// Year removal touches nothing outside the year range
// ---------------------------------------------------------------------------
proof fn lemma_years_from_id(s: Seq<char>, i: int)
    requires
        0 <= i <= s.len(),
        forall|k: int| year_window_at(s, k) ==> !in_year_range(window_value(s, k)),
    ensures
        spec_years_from(s, i) == s.subrange(i, s.len() as int),
    decreases s.len() - i,
{
    if i >= s.len() {
        assert(spec_years_from(s, i) =~= s.subrange(i, s.len() as int));
    } else if year_window_at(s, i) {
        lemma_years_from_id(s, i + 4);
        assert(s.subrange(i, i + 4) + s.subrange(i + 4, s.len() as int) =~= s.subrange(
            i,
            s.len() as int,
        ));
    } else {
        lemma_years_from_id(s, i + 1);
        assert(seq![s[i]] + s.subrange(i + 1, s.len() as int) =~= s.subrange(i, s.len() as int));
    }
}

/// A string in which no four-digit group reachable by the scan spells a year
/// between 1928 and 2030 passes through year removal with nothing struck
/// out: only its white space is collapsed and its ends trimmed.
pub proof fn lemma_years_out_of_range_kept(s: Seq<char>)
    requires
        forall|k: int| year_window_at(s, k) ==> !in_year_range(window_value(s, k)),
    ensures
        spec_remove_years(s) == spec_collapse_trim(s),
{
    lemma_years_from_id(s, 0);
    assert(s.subrange(0, s.len() as int) =~= s);
}

// ---------------------------------------------------------------------------
// Duplicate-space collapsing is a fixed point of itself
// ---------------------------------------------------------------------------
/// No space is doubled, and every space is the plain space character.
spec fn no_dup_spaces(t: Seq<char>) -> bool {
    forall|j: int|
        0 <= j < t.len() && is_space_char(#[trigger] t[j]) ==> t[j] == ' ' && (j + 1 == t.len()
            || !is_space_char(t[j + 1]))
}

proof fn lemma_collapse_first(s: Seq<char>, i: int)
    requires
        0 <= i < s.len(),
        !is_space_char(s[i]),
    ensures
        spec_collapse_from(s, i).len() > 0,
        spec_collapse_from(s, i)[0] == s[i],
{
}

proof fn lemma_collapse_nodup(s: Seq<char>, i: int)
    requires
        0 <= i <= s.len(),
    ensures
        no_dup_spaces(spec_collapse_from(s, i)),
    decreases s.len() - i,
{
    if i >= s.len() {
    } else if is_space_char(s[i]) && i + 1 < s.len() && is_space_char(s[i + 1]) {
        lemma_collapse_nodup(s, i + 1);
    } else {
        lemma_collapse_nodup(s, i + 1);
        let rest = spec_collapse_from(s, i + 1);
        let head = if is_space_char(s[i]) {
            ' '
        } else {
            s[i]
        };
        let out = spec_collapse_from(s, i);
        assert(out =~= seq![head] + rest);
        assert forall|j: int|
            0 <= j < out.len() && is_space_char(#[trigger] out[j]) implies out[j] == ' ' && (j + 1
            == out.len() || !is_space_char(out[j + 1])) by {
            if j == 0 {
                if is_space_char(s[i]) {
                    // the next space run starts later: the following character,
                    // if any, opens the rest and is not a space
                    if 1 < out.len() {
                        assert(out[1] == rest[0]);
                        assert(i + 1 < s.len());
                        assert(!is_space_char(s[i + 1]));
                        lemma_collapse_first(s, i + 1);
                    }
                }
            } else {
                assert(out[j] == rest[j - 1]);
                assert(is_space_char(rest[j - 1]));
                assert(rest[j - 1] == ' ' && (j == rest.len() || !is_space_char(rest[j])));
                if j + 1 < out.len() {
                    assert(out[j + 1] == rest[j]);
                }
            }
        }
    }
}

proof fn lemma_trim_start_nodup(t: Seq<char>)
    requires
        no_dup_spaces(t),
    ensures
        no_dup_spaces(spec_trim_start(t)),
        spec_trim_start(t).len() > 0 ==> !is_space_char(spec_trim_start(t)[0]),
    decreases t.len(),
{
    if t.len() > 0 && is_space_char(t[0]) {
        let u = t.drop_first();
        assert(forall|j: int| 0 <= j < u.len() ==> u[j] == t[j + 1]);
        assert(no_dup_spaces(u));
        lemma_trim_start_nodup(u);
    }
}

proof fn lemma_trim_end_nodup(t: Seq<char>)
    requires
        no_dup_spaces(t),
    ensures
        no_dup_spaces(spec_trim_end(t)),
        spec_trim_end(t).len() > 0 ==> !is_space_char(spec_trim_end(t).last()),
        spec_trim_end(t).len() > 0 ==> spec_trim_end(t)[0] == t[0],
    decreases t.len(),
{
    if t.len() > 0 && is_space_char(t.last()) {
        let u = t.drop_last();
        assert(forall|j: int| 0 <= j < u.len() ==> u[j] == t[j]);
        assert(no_dup_spaces(u));
        lemma_trim_end_nodup(u);
    }
}

proof fn lemma_collapse_id(t: Seq<char>, i: int)
    requires
        0 <= i <= t.len(),
        no_dup_spaces(t),
    ensures
        spec_collapse_from(t, i) == t.subrange(i, t.len() as int),
    decreases t.len() - i,
{
    if i >= t.len() {
        assert(spec_collapse_from(t, i) =~= t.subrange(i, t.len() as int));
    } else {
        assert(!(is_space_char(t[i]) && i + 1 < t.len() && is_space_char(t[i + 1])));
        lemma_collapse_id(t, i + 1);
        if is_space_char(t[i]) {
            assert(t[i] == ' ');
        }
        assert(seq![t[i]] + t.subrange(i + 1, t.len() as int) =~= t.subrange(i, t.len() as int));
    }
}

/// Collapsing duplicate spaces and trimming is a projection: a second pass
/// over its own output returns that output unchanged.
pub proof fn lemma_space_collapse_idempotent(s: Seq<char>)
    ensures
        spec_collapse_trim(spec_collapse_trim(s)) == spec_collapse_trim(s),
{
    let c = spec_collapse_from(s, 0);
    lemma_collapse_nodup(s, 0);
    lemma_trim_start_nodup(c);
    let u = spec_trim_start(c);
    lemma_trim_end_nodup(u);
    let t = spec_trim_end(u);
    assert(t == spec_collapse_trim(s));
    assert(no_dup_spaces(t));
    lemma_collapse_id(t, 0);
    assert(t.subrange(0, t.len() as int) =~= t);
    assert(spec_collapse_from(t, 0) == t);
    if t.len() > 0 {
        assert(t[0] == u[0]);
        assert(!is_space_char(t[0]));
    }
    assert(spec_trim_start(t) == t);
    assert(spec_trim_end(t) == t);
}

// ---------------------------------------------------------------------------
// Trailing-numeral stripping is a fixed point of itself
// ---------------------------------------------------------------------------
/// A character the numeral grammar can contain: one of the seven symbols,
/// in either case.
spec fn is_romanish(c: char) -> bool {
    eq_ci(c, 'I') || eq_ci(c, 'V') || eq_ci(c, 'X') || eq_ci(c, 'L') || eq_ci(c, 'C') || eq_ci(
        c,
        'D',
    ) || eq_ci(c, 'M')
}

proof fn lemma_group_part_chars(t: Seq<char>, one: char, five: char, ten: char)
    requires
        is_group_part(t, one, five, ten),
    ensures
        forall|k: int|
            0 <= k < t.len() ==> eq_ci(#[trigger] t[k], one) || eq_ci(t[k], five) || eq_ci(
                t[k],
                ten,
            ),
{
    assert forall|k: int|
        0 <= k < t.len() implies eq_ci(#[trigger] t[k], one) || eq_ci(t[k], five) || eq_ci(
        t[k],
        ten,
    ) by {
        if t.len() >= 1 && eq_ci(t[0], five) && is_char_run(t.subrange(1, t.len() as int), one, 3)
            && k >= 1 {
            assert(t.subrange(1, t.len() as int)[k - 1] == t[k]);
        }
    }
}

proof fn lemma_big_roman_chars(t: Seq<char>)
    requires
        is_big_roman(t),
    ensures
        forall|k: int| 0 <= k < t.len() ==> is_romanish(#[trigger] t[k]),
{
    let l1 = choose|l: int|
        0 <= l <= 4 && l <= t.len() && is_char_run(t.subrange(0, l), 'M', 4) && dec_hundreds(
            t.subrange(l, t.len() as int),
        );
    let r1 = t.subrange(l1, t.len() as int);
    let l2 = choose|l: int|
        0 <= l <= 4 && l <= r1.len() && is_group_part(r1.subrange(0, l), 'C', 'D', 'M')
            && dec_tens(r1.subrange(l, r1.len() as int));
    let r2 = r1.subrange(l2, r1.len() as int);
    let l3 = choose|l: int|
        0 <= l <= 4 && l <= r2.len() && is_group_part(r2.subrange(0, l), 'X', 'L', 'C')
            && dec_units(r2.subrange(l, r2.len() as int));
    let r3 = r2.subrange(l3, r2.len() as int);
    lemma_group_part_chars(r1.subrange(0, l2), 'C', 'D', 'M');
    lemma_group_part_chars(r2.subrange(0, l3), 'X', 'L', 'C');
    lemma_group_part_chars(r3, 'I', 'V', 'X');
    assert forall|k: int| 0 <= k < t.len() implies is_romanish(#[trigger] t[k]) by {
        if k < l1 {
            assert(t.subrange(0, l1)[k] == t[k]);
        } else if k < l1 + l2 {
            assert(r1.subrange(0, l2)[k - l1] == t[k]);
        } else if k < l1 + l2 + l3 {
            assert(r2.subrange(0, l3)[k - l1 - l2] == t[k]);
        } else {
            assert(r3[k - l1 - l2 - l3] == t[k]);
        }
    }
}

proof fn lemma_big_roman_empty()
    ensures
        is_big_roman(Seq::<char>::empty()),
{
    let e = Seq::<char>::empty();
    assert(e.subrange(0, 0) =~= e);
    assert(is_char_run(e, 'M', 4));
    assert(is_char_run(e, 'C', 3) && is_char_run(e, 'X', 3) && is_char_run(e, 'I', 3));
    assert(is_group_part(e, 'C', 'D', 'M'));
    assert(is_group_part(e, 'X', 'L', 'C'));
    assert(dec_units(e));
    assert(dec_tens(e)) by {
        assert(is_group_part(e.subrange(0, 0), 'X', 'L', 'C') && dec_units(
            e.subrange(0, e.len() as int),
        ));
    }
    assert(dec_hundreds(e)) by {
        assert(is_group_part(e.subrange(0, 0), 'C', 'D', 'M') && dec_tens(
            e.subrange(0, e.len() as int),
        ));
    }
    assert(is_char_run(e.subrange(0, 0), 'M', 4) && dec_hundreds(e.subrange(0, e.len() as int)));
}

proof fn lemma_fns_through_spaces(s: Seq<char>, a: int, b: int)
    requires
        0 <= a <= b <= s.len(),
        forall|k: int| a <= k < b ==> is_space_char(s[k]),
    ensures
        first_nonspace(s, a) == first_nonspace(s, b),
    decreases b - a,
{
    if a < b {
        lemma_fns_through_spaces(s, a + 1, b);
    }
}

/// Stripping a trailing Roman numeral is a projection: a second pass over
/// its own output returns that output unchanged.
pub proof fn lemma_roman_strip_idempotent(s: Seq<char>)
    ensures
        spec_remove_roman_number(spec_remove_roman_number(s)) == spec_remove_roman_number(s),
{
    crate::roman::lemma_roman_tail_start(s, 0);
    let m = roman_tail_start(s, 0);
    if m < s.len() {
        let out = s.subrange(0, m) + seq![' '];
        assert(out.len() == m + 1);
        assert(out[m as int] == ' ');
        assert(forall|k: int| 0 <= k < m ==> out[k] == s[k]);
        // the appended space itself carries a trailing match: the empty numeral
        assert(first_nonspace(out, m + 1) == out.len());
        assert(out.subrange(m + 1, out.len() as int) =~= Seq::<char>::empty());
        lemma_big_roman_empty();
        assert(roman_tail_match_at(out, m as int));
        // and no match can start earlier
        assert forall|i: int| 0 <= i < m implies !roman_tail_match_at(out, i) by {
            if roman_tail_match_at(out, i) {
                let g = first_nonspace(out, i + 1);
                crate::clean::lemma_first_nonspace(out, i + 1);
                let tail = out.subrange(g, out.len() as int);
                if g < out.len() {
                    assert(tail.last() == out[out.len() - 1]);
                    assert(tail.last() == ' ');
                    lemma_big_roman_chars(tail);
                    assert(is_romanish(' '));
                    assert((' ' as u32) == 0x20);
                    assert(false);
                } else {
                    // everything from `i` to the appended space is white space,
                    // so the same match already started at `i` in the input
                    assert(forall|k: int| i <= k < m ==> is_space_char(s[k]));
                    assert(roman_tail_match_at(s, m as int));
                    assert(is_space_char(s[m as int]));
                    lemma_fns_through_spaces(s, i + 1, m + 1);
                    assert(roman_tail_match_at(s, i));
                    assert(false);
                }
            }
        }
        crate::roman::lemma_roman_tail_start(out, 0);
        let m2 = roman_tail_start(out, 0);
        assert(m2 == m);
        assert(out.subrange(0, m as int) =~= s.subrange(0, m as int));
        assert(spec_remove_roman_number(out) == out);
    }
}

// ---------------------------------------------------------------------------
// A bracket group holding the sentinel disappears whole
// ---------------------------------------------------------------------------
proof fn lemma_first_occ_at(s: Seq<char>, i: int, e: int, c: char)
    requires
        0 <= i <= e < s.len(),
        s[e] == c,
        forall|k: int| i <= k < e ==> s[k] != c,
    ensures
        first_occurrence(s, i, c) == e,
    decreases e - i,
{
    if i < e {
        lemma_first_occ_at(s, i + 1, e, c);
    }
}

proof fn lemma_first_occ_sub(s: Seq<char>, i: int, k: int, c: char)
    requires
        0 <= i <= k <= s.len(),
    ensures
        first_occurrence(s, k, c) == i + first_occurrence(s.subrange(i, s.len() as int), k - i, c),
    decreases s.len() - k,
{
    let t = s.subrange(i, s.len() as int);
    if k < s.len() {
        assert(t[k - i] == s[k]);
        if s[k] != c {
            lemma_first_occ_sub(s, i, k + 1, c);
        }
    }
}

proof fn lemma_sentinel_sub(s: Seq<char>, i: int, lo: int, hi: int)
    requires
        0 <= i <= lo,
        lo <= hi <= s.len(),
    ensures
        sentinel_between(s, lo, hi) == sentinel_between(s.subrange(i, s.len() as int), lo - i, hi
            - i),
{
    let t = s.subrange(i, s.len() as int);
    if sentinel_between(s, lo, hi) {
        let p = choose|p: int| lo <= p && p + 8 <= hi && #[trigger] s.subrange(p, p + 8) == crate::filter::sentinel();
        assert(t.subrange(p - i, p - i + 8) =~= s.subrange(p, p + 8));
        assert(sentinel_between(t, lo - i, hi - i));
    }
    if sentinel_between(t, lo - i, hi - i) {
        let q = choose|q: int|
            lo - i <= q && q + 8 <= hi - i && #[trigger] t.subrange(q, q + 8)
                == crate::filter::sentinel();
        assert(s.subrange(q + i, q + i + 8) =~= t.subrange(q, q + 8));
        assert(sentinel_between(s, lo, hi));
    }
}

proof fn lemma_strip_suffix(s: Seq<char>, i: int, k: int, open: char, close: char)
    requires
        0 <= i <= k <= s.len(),
    ensures
        spec_strip_marked_from(s, k, open, close) == spec_strip_marked_from(
            s.subrange(i, s.len() as int),
            k - i,
            open,
            close,
        ),
    decreases s.len() - k,
{
    let t = s.subrange(i, s.len() as int);
    if k < s.len() {
        assert(t[k - i] == s[k]);
        lemma_first_occ_sub(s, i, k + 1, close);
        let e = first_occurrence(s, k + 1, close);
        crate::filter::lemma_first_occurrence(s, k + 1, close);
        crate::filter::lemma_first_occurrence(t, k + 1 - i, close);
        if e < s.len() {
            lemma_sentinel_sub(s, i, k + 1, e);
        }
        assert(marked_group_at(s, k, open, close) == marked_group_at(t, k - i, open, close));
        if marked_group_at(s, k, open, close) {
            lemma_strip_suffix(s, i, e + 1, open, close);
        } else {
            lemma_strip_suffix(s, i, k + 1, open, close);
        }
    }
}

proof fn lemma_strip_prefix(
    a: Seq<char>,
    m: Seq<char>,
    b: Seq<char>,
    j: int,
    open: char,
    close: char,
)
    requires
        0 <= j <= a.len(),
        open != close,
        forall|k: int| 0 <= k < a.len() ==> a[k] != open,
        forall|k: int| 0 <= k < m.len() ==> m[k] != close,
        sentinel_between(m, 0, m.len() as int),
    ensures
        spec_strip_marked_from(a + seq![open] + m + seq![close] + b, j, open, close)
            == a.subrange(j, a.len() as int) + seq![' '] + spec_strip_marked_from(b, 0, open, close),
    decreases a.len() - j,
{
    let s = a + seq![open] + m + seq![close] + b;
    let g = a.len() as int;
    let e = g + 1 + m.len() as int;
    assert(s.len() == a.len() + m.len() + b.len() + 2);
    assert(forall|k: int| 0 <= k < a.len() ==> s[k] == a[k]);
    assert(s[g] == open);
    assert(forall|k: int| 0 <= k < m.len() ==> s[g + 1 + k] == m[k]);
    assert(s[e] == close);
    if j < a.len() {
        assert(s[j] != open);
        assert(!marked_group_at(s, j, open, close));
        lemma_strip_prefix(a, m, b, j + 1, open, close);
        assert(seq![s[j]] + (a.subrange(j + 1, a.len() as int) + seq![' ']
            + spec_strip_marked_from(b, 0, open, close)) =~= a.subrange(j, a.len() as int)
            + seq![' '] + spec_strip_marked_from(b, 0, open, close));
    } else {
        // the opening bracket: its group ends at the first closing bracket,
        // which sits just past the marked text
        assert(forall|k: int| g + 1 <= k < e ==> s[k] == m[k - g - 1] && s[k] != close);
        lemma_first_occ_at(s, g + 1, e, close);
        lemma_sentinel_sub(m, 0, 0, m.len() as int);
        let p = choose|p: int|
            0 <= p && p + 8 <= m.len() && #[trigger] m.subrange(p, p + 8)
                == crate::filter::sentinel();
        assert(s.subrange(g + 1 + p, g + 1 + p + 8) =~= m.subrange(p, p + 8));
        assert(sentinel_between(s, g + 1, e));
        assert(marked_group_at(s, j, open, close));
        assert(s.subrange(e + 1, s.len() as int) =~= b);
        lemma_strip_suffix(s, e + 1, e + 1, open, close);
        assert(spec_strip_marked_from(s, j, open, close) == seq![' '] + spec_strip_marked_from(
            b,
            0,
            open,
            close,
        ));
        assert(seq![' '] + spec_strip_marked_from(b, 0, open, close) =~= a.subrange(
            j,
            a.len() as int,
        ) + seq![' '] + spec_strip_marked_from(b, 0, open, close));
    }
}

/// A bracket group that the marking pass left a sentinel in disappears
/// whole: if the marked name has the form `a (m) b` — the group holding the
/// sentinel, no closing bracket inside it, no opening bracket before it —
/// the strip stage yields `a`, one space, and the rest of the string
/// stripped on its own. The same holds for square brackets.
pub proof fn lemma_marked_group_removed_whole(
    a: Seq<char>,
    m: Seq<char>,
    b: Seq<char>,
    open: char,
    close: char,
)
    requires
        open != close,
        forall|k: int| 0 <= k < a.len() ==> a[k] != open,
        forall|k: int| 0 <= k < m.len() ==> m[k] != close,
        sentinel_between(m, 0, m.len() as int),
    ensures
        spec_strip_marked(a + seq![open] + m + seq![close] + b, open, close) == a + seq![' ']
            + spec_strip_marked(b, open, close),
{
    lemma_strip_prefix(a, m, b, 0, open, close);
    assert(a.subrange(0, a.len() as int) =~= a);
}

// ---------------------------------------------------------------------------
// A name with no season marker resolves to season one
// ---------------------------------------------------------------------------
/// With no trailing Roman numeral of the season pattern and no explicit
/// `season N` / `S N` marker on the cleaned name, the season defaults to
/// one.
pub proof fn lemma_season_default(s: Seq<char>, cc: Seq<Seq<char>>, meta: Seq<Seq<char>>)
    requires
        small_tail_start(spec_season_clean(s, cc, meta), 0) == spec_season_clean(
            s,
            cc,
            meta,
        ).len(),
        !season_digits_match(spec_season_clean(s, cc, meta)),
    ensures
        spec_season_number(s, cc, meta) == 1,
{
    let c = spec_season_clean(s, cc, meta);
    assert(spec_explicit_or_default(c) == 1);
}

} // verus!
