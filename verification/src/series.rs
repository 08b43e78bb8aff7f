//! Series metadata inference: the canonical series name and season number of
//! a folder name, and per-file episode numbers, single-file or disambiguated
//! across a batch by occurrence counts.

use vstd::prelude::*;

use crate::chars::{
    chars_of, collapse_chars, digit_val, eq_ci, exec_eq_ci, exec_is_ascii, exec_is_digit,
    exec_is_space, is_ascii_char, is_digit_char, is_space_char, spec_collapse_trim, spec_trim,
    string_of, trim_chars,
};
use crate::clean::{
    eb_chars, fileext_chars, find_nonspace, first_nonspace, range_chars, spec_remove_empty_brackets,
    spec_remove_episode_range, spec_remove_file_extension, spec_remove_square_brackets,
    spec_remove_years, sq_chars, years_chars,
};
use crate::filter::{filter_patterns_ok, spec_remove_filtered, string_remove_filtered};
use crate::roman::{
    exec_is_small_roman, find_roman_tail, is_small_roman, lemma_big_roman_len,
    lemma_roman_sum_bound, lemma_small_roman_len, roman_chars_to_int, roman_tail_start,
    roman_valid, spec_remove_roman_number, spec_roman_value,
};

pub use crate::clean::{
    string_remove_duplicate_spaces, string_remove_empty_brackets, string_remove_episode_range,
    string_remove_file_extension, string_remove_square_brackets, string_remove_years,
};
pub use crate::filter::FilterWords;
pub use crate::roman::{roman_to_int, string_remove_roman_number};

verus! {

// ---------------------------------------------------------------------------
// The organized hierarchy's records
// ---------------------------------------------------------------------------
pub struct Subtitle {
    pub language: String,
    pub location: String,
}

pub struct Episode {
    pub sequence: u16,
    pub location: String,
    pub subtitles: Vec<Subtitle>,
}

pub struct Season {
    pub sequence: i8,
    pub location: String,
    pub episodes: Vec<Episode>,
}

pub struct Series {
    pub name: String,
    pub location: String,
    pub seasons: Vec<Season>,
}

impl Default for Episode {
    fn default() -> (r: Self)
        ensures
            r.sequence == 0,
            r.location@ == Seq::<char>::empty(),
            r.subtitles@ == Seq::<Subtitle>::empty(),
    {
        let r = Episode { sequence: 0, location: String::new(), subtitles: Vec::new() };
        assert(r.subtitles@ =~= Seq::<Subtitle>::empty());
        r
    }
}

// ---------------------------------------------------------------------------
// Series name
// ---------------------------------------------------------------------------
/// The cleaned series name: the full pipeline (filtered tokens, years,
/// trailing numeral, episode ranges, empty brackets, duplicate spaces), then
/// the trailing-numeral stage once more and a final trim.
pub open spec fn spec_series_name(s: Seq<char>, cc: Seq<Seq<char>>, meta: Seq<Seq<char>>) -> Seq<
    char,
> {
    let a = spec_remove_filtered(s, cc, meta);
    let b = spec_remove_years(a);
    let c = spec_remove_roman_number(b);
    let d = spec_remove_episode_range(c);
    let e = spec_remove_empty_brackets(d);
    let f = spec_collapse_trim(e);
    let g = spec_remove_roman_number(f);
    spec_trim(g)
}

/// Cleans a folder name into the canonical series name. Fails exactly when a
/// non-empty filter-word list builds a pattern the regex engine rejects; an
/// empty result is a valid, if degenerate, name.
pub fn extract_series_name(folder_name: &str, filter_words: &FilterWords) -> (r: Result<
    String,
    (),
>)
    ensures
        r is Ok <==> filter_patterns_ok(
            filter_words.cc_group.deep_view(),
            filter_words.meta_tag.deep_view(),
        ),
        r is Ok ==> r->Ok_0@ == spec_series_name(
            folder_name@,
            filter_words.cc_group.deep_view(),
            filter_words.meta_tag.deep_view(),
        ),
{
    let filtered = match string_remove_filtered(folder_name, filter_words) {
        Ok(x) => x,
        Err(_) => {
            return Err(());
        },
    };
    let v0 = chars_of(filtered.as_str());
    let v1 = years_chars(&v0);
    let v2 = collapse_chars(&v1);
    let v3 = trim_chars(&v2);
    let v4 = crate::roman::roman_strip_chars(&v3);
    let v5 = range_chars(&v4);
    let v6 = eb_chars(&v5);
    let v7 = eb_chars(&v6);
    let v8 = collapse_chars(&v7);
    let v9 = trim_chars(&v8);
    let v10 = crate::roman::roman_strip_chars(&v9);
    let v11 = trim_chars(&v10);
    Ok(string_of(&v11))
}

// ---------------------------------------------------------------------------
// Season number
// ---------------------------------------------------------------------------
/// The name as the season resolver sees it: filtered tokens removed,
/// square-bracket groups removed, ends trimmed.
pub open spec fn spec_season_clean(s: Seq<char>, cc: Seq<Seq<char>>, meta: Seq<Seq<char>>) -> Seq<
    char,
> {
    spec_trim(spec_remove_square_brackets(spec_remove_filtered(s, cc, meta)))
}

/// White space starts at `i` and everything after the run is a numeral of
/// the season pattern reaching the end of the string.
pub open spec fn small_tail_match_at(s: Seq<char>, i: int) -> bool {
    &&& 0 <= i < s.len()
    &&& is_space_char(s[i])
    &&& is_small_roman(s.subrange(first_nonspace(s, i + 1), s.len() as int))
}

/// The first position where such a match starts; the length of the string
/// when there is none.
pub open spec fn small_tail_start(s: Seq<char>, i: int) -> int
    decreases s.len() - i when 0 <= i <= s.len()
{
    if i >= s.len() {
        s.len() as int
    } else if small_tail_match_at(s, i) {
        i
    } else {
        small_tail_start(s, i + 1)
    }
}

proof fn lemma_small_tail_start(s: Seq<char>, i: int)
    requires
        0 <= i <= s.len(),
    ensures
        i <= small_tail_start(s, i) <= s.len(),
        forall|k: int| i <= k < small_tail_start(s, i) ==> !small_tail_match_at(s, k),
        small_tail_start(s, i) < s.len() ==> small_tail_match_at(s, small_tail_start(s, i)),
    decreases s.len() - i,
{
    if i < s.len() && !small_tail_match_at(s, i) {
        lemma_small_tail_start(s, i + 1);
    }
}

fn find_small_tail(v: &Vec<char>) -> (r: usize)
    ensures
        r as int == small_tail_start(v@, 0),
        r <= v@.len(),
{
    let n = v.len();
    let mut i: usize = 0;
    while i < n
        invariant
            0 <= i <= n,
            n == v@.len(),
            forall|k: int| 0 <= k < i ==> !small_tail_match_at(v@, k),
        decreases n - i,
    {
        if exec_is_space(v[i]) {
            let j = find_nonspace(v, i + 1);
            if exec_is_small_roman(v, j, n) {
                assert(small_tail_match_at(v@, i as int));
                proof {
                    lemma_small_tail_start(v@, 0);
                }
                return i;
            }
            assert(!small_tail_match_at(v@, i as int));
        } else {
            assert(!small_tail_match_at(v@, i as int));
        }
        i += 1;
    }
    proof {
        lemma_small_tail_start(v@, 0);
    }
    n
}

/// Start of the maximal digit run ending just before `j`.
pub open spec fn trail_digits_start(s: Seq<char>, j: int) -> int
    decreases j when 0 <= j <= s.len()
{
    if j > 0 && is_digit_char(s[j - 1]) {
        trail_digits_start(s, j - 1)
    } else {
        j
    }
}

/// Start of the maximal white-space run ending just before `j`.
pub open spec fn space_run_back(s: Seq<char>, j: int) -> int
    decreases j when 0 <= j <= s.len()
{
    if j > 0 && is_space_char(s[j - 1]) {
        space_run_back(s, j - 1)
    } else {
        j
    }
}

proof fn lemma_trail_digits_start(s: Seq<char>, j: int)
    requires
        0 <= j <= s.len(),
    ensures
        0 <= trail_digits_start(s, j) <= j,
        forall|k: int| trail_digits_start(s, j) <= k < j ==> is_digit_char(s[k]),
    decreases j,
{
    if j > 0 && is_digit_char(s[j - 1]) {
        lemma_trail_digits_start(s, j - 1);
    }
}

/// The word `season`, or the one letter `s`, ends right before position `m`
/// and has white space just before it; compared case-insensitively.
pub open spec fn season_keyword_ends_at(s: Seq<char>, m: int) -> bool {
    ||| (m >= 7 && m <= s.len() && eq_ci(s[m - 6], 'S') && eq_ci(s[m - 5], 'E') && eq_ci(
        s[m - 4],
        'A',
    ) && eq_ci(s[m - 3], 'S') && eq_ci(s[m - 2], 'O') && eq_ci(s[m - 1], 'N') && is_space_char(
        s[m - 7],
    ))
    ||| (m >= 2 && m <= s.len() && eq_ci(s[m - 1], 'S') && is_space_char(s[m - 2]))
}

/// The explicit pattern matches: the name ends in a digit run, preceded
/// (over optional white space) by the keyword, itself preceded by white
/// space.
pub open spec fn season_digits_match(s: Seq<char>) -> bool {
    let t = trail_digits_start(s, s.len() as int);
    t < s.len() && season_keyword_ends_at(s, space_run_back(s, t))
}

/// The number the digits from `j` on spell, read onto an accumulator.
pub open spec fn tail_digits_value(s: Seq<char>, j: int, acc: int) -> int
    decreases s.len() - j when 0 <= j <= s.len()
{
    if j >= s.len() {
        acc
    } else {
        tail_digits_value(s, j + 1, 10 * acc + digit_val(s[j]))
    }
}

/// The value of the trailing digit run.
pub open spec fn spec_season_digits(s: Seq<char>) -> int {
    tail_digits_value(s, trail_digits_start(s, s.len() as int), 0)
}

proof fn lemma_tail_digits_value_ge(s: Seq<char>, j: int, acc: int)
    requires
        0 <= j <= s.len(),
        acc >= 0,
        forall|k: int| j <= k < s.len() ==> is_digit_char(s[k]),
    ensures
        tail_digits_value(s, j, acc) >= acc,
    decreases s.len() - j,
{
    if j < s.len() {
        assert(is_digit_char(s[j]));
        lemma_tail_digits_value_ge(s, j + 1, 10 * acc + digit_val(s[j]));
    }
}

/// The season the explicit pattern yields: the digit value when the pattern
/// matches and the value fits, season one otherwise.
pub open spec fn spec_explicit_or_default(s: Seq<char>) -> u16 {
    if season_digits_match(s) && spec_season_digits(s) <= u16::MAX {
        spec_season_digits(s) as u16
    } else {
        1u16
    }
}

/// The season number of a cleaned name: a trailing Roman numeral of the
/// season pattern decodes to the season; failing that the explicit
/// `season N` / `S N` pattern is read; failing both the season is one.
pub open spec fn spec_season_number(s: Seq<char>, cc: Seq<Seq<char>>, meta: Seq<Seq<char>>) -> u16 {
    let c = spec_season_clean(s, cc, meta);
    let tail = c.subrange(first_nonspace(c, small_tail_start(c, 0) + 1), c.len() as int);
    if small_tail_start(c, 0) < c.len() && roman_valid(tail) {
        spec_roman_value(tail) as u16
    } else {
        spec_explicit_or_default(c)
    }
}

/// Resolves the season number of a folder or file name. No absence is an
/// error: a name with no season marker is season one. Fails exactly when a
/// non-empty filter-word list builds a pattern the regex engine rejects.
pub fn extract_series_season_number(file_name: &str, filter_words: &FilterWords) -> (r: Result<
    u16,
    (),
>)
    ensures
        r is Ok <==> filter_patterns_ok(
            filter_words.cc_group.deep_view(),
            filter_words.meta_tag.deep_view(),
        ),
        r is Ok ==> r->Ok_0 == spec_season_number(
            file_name@,
            filter_words.cc_group.deep_view(),
            filter_words.meta_tag.deep_view(),
        ),
{
    let filtered = match string_remove_filtered(file_name, filter_words) {
        Ok(x) => x,
        Err(_) => {
            return Err(());
        },
    };
    let v0 = chars_of(filtered.as_str());
    let v1 = sq_chars(&v0);
    let c = trim_chars(&v1);
    let n = c.len();

    // a trailing Roman numeral of the season pattern
    let start = find_small_tail(&c);
    if start < n {
        let g = find_nonspace(&c, start + 1);
        proof {
            lemma_small_tail_start(c@, 0);
            let tail = c@.subrange(g as int, n as int);
            lemma_small_roman_len(tail);
            lemma_roman_sum_bound(tail, tail.len() as int, 0);
        }
        match roman_chars_to_int(&c, g, n) {
            Ok(x) => {
                return Ok(x);
            },
            Err(_) => {
                // not spelled in upper-case symbols: try the next strategy
            },
        }
    }

    // the explicit season pattern
    let mut t: usize = n;
    while t > 0 && exec_is_digit(c[t - 1])
        invariant
            0 <= t <= n,
            n == c@.len(),
            trail_digits_start(c@, n as int) == trail_digits_start(c@, t as int),
        decreases t,
    {
        t -= 1;
    }
    assert(trail_digits_start(c@, n as int) == t);
    let mut u: usize = t;
    while u > 0 && exec_is_space(c[u - 1])
        invariant
            0 <= u <= t <= n,
            n == c@.len(),
            space_run_back(c@, t as int) == space_run_back(c@, u as int),
        decreases u,
    {
        u -= 1;
    }
    assert(space_run_back(c@, t as int) == u);
    let kw = (u >= 7 && exec_eq_ci(c[u - 6], 'S') && exec_eq_ci(c[u - 5], 'E') && exec_eq_ci(
        c[u - 4],
        'A',
    ) && exec_eq_ci(c[u - 3], 'S') && exec_eq_ci(c[u - 2], 'O') && exec_eq_ci(c[u - 1], 'N')
        && exec_is_space(c[u - 7])) || (u >= 2 && exec_eq_ci(c[u - 1], 'S') && exec_is_space(
        c[u - 2],
    ));
    assert(kw == season_keyword_ends_at(c@, u as int));
    if t < n && kw {
        assert(season_digits_match(c@));
        proof {
            lemma_trail_digits_start(c@, n as int);
        }
        let mut acc: u32 = 0;
        let mut j: usize = t;
        let mut over = false;
        while j < n && !over
            invariant
                t <= j <= n,
                n == c@.len(),
                forall|k: int| t <= k < n ==> is_digit_char(c@[k]),
                !over ==> acc <= 65535 && spec_season_digits(c@) == tail_digits_value(
                    c@,
                    j as int,
                    acc as int,
                ),
                over ==> spec_season_digits(c@) > 65535,
            decreases n - j,
        {
            let d = (c[j] as u32) - 0x30;
            assert(d == digit_val(c@[j as int]));
            let next = 10 * acc + d;
            if next > 65535 {
                proof {
                    lemma_tail_digits_value_ge(c@, j + 1, next as int);
                }
                over = true;
            } else {
                acc = next;
            }
            j += 1;
        }
        if over {
            Ok(1)
        } else {
            assert(spec_season_digits(c@) == acc);
            Ok(acc as u16)
        }
    } else {
        assert(!season_digits_match(c@));
        Ok(1)
    }
}

// ---------------------------------------------------------------------------
// Episode candidates of one file name
// ---------------------------------------------------------------------------
/// The name as the episode extractor sees it: filtered tokens, years and
/// empty brackets removed, spaces collapsed, the file extension stripped.
pub open spec fn spec_episode_clean(s: Seq<char>, cc: Seq<Seq<char>>, meta: Seq<Seq<char>>) -> Seq<
    char,
> {
    spec_remove_file_extension(
        spec_collapse_trim(spec_remove_empty_brackets(spec_remove_years(spec_remove_filtered(s, cc, meta)))),
    )
}

/// The candidate a trailing Roman numeral yields: the decoded value if the
/// matched tail is spelled in upper-case symbols, nothing otherwise.
pub open spec fn spec_roman_candidates(clean: Seq<char>) -> Seq<u16> {
    let tail = clean.subrange(
        first_nonspace(clean, roman_tail_start(clean, 0) + 1),
        clean.len() as int,
    );
    if roman_tail_start(clean, 0) < clean.len() && roman_valid(tail) {
        seq![spec_roman_value(tail) as u16]
    } else {
        Seq::<u16>::empty()
    }
}

/// Match shape of a bracketed one-or-two-digit token at `i`: an ASCII
/// character, one or two digits (two only when another ASCII character
/// follows them), and an ASCII character. The result is the whole match's
/// length, four or three; zero means no match at `i`.
pub open spec fn digit_match_len(s: Seq<char>, i: int) -> int {
    if !(0 <= i && i + 2 < s.len() && is_ascii_char(s[i]) && is_digit_char(s[i + 1])) {
        0
    } else if is_digit_char(s[i + 2]) {
        if i + 3 < s.len() && is_ascii_char(s[i + 3]) {
            4
        } else {
            3
        }
    } else if is_ascii_char(s[i + 2]) {
        3
    } else {
        0
    }
}

/// The one- or two-digit number each non-overlapping match captures, in
/// order of the scan.
pub open spec fn spec_digits_from(s: Seq<char>, i: int) -> Seq<u16>
    decreases s.len() - i when 0 <= i <= s.len()
{
    if i >= s.len() {
        Seq::<u16>::empty()
    } else if digit_match_len(s, i) == 4 {
        seq![(10 * digit_val(s[i + 1]) + digit_val(s[i + 2])) as u16] + spec_digits_from(s, i + 4)
    } else if digit_match_len(s, i) == 3 {
        seq![digit_val(s[i + 1]) as u16] + spec_digits_from(s, i + 3)
    } else {
        spec_digits_from(s, i + 1)
    }
}

/// All episode-number candidates of a cleaned name: the trailing Roman
/// numeral's value first, then every bracketed one-or-two-digit token.
pub open spec fn spec_candidates_of_clean(clean: Seq<char>) -> Seq<u16> {
    spec_roman_candidates(clean) + spec_digits_from(clean, 0)
}

/// All episode-number candidates of a raw file name.
pub open spec fn spec_episode_candidates(
    s: Seq<char>,
    cc: Seq<Seq<char>>,
    meta: Seq<Seq<char>>,
) -> Seq<u16> {
    spec_candidates_of_clean(spec_episode_clean(s, cc, meta))
}

fn digit_candidates(v: &Vec<char>, out: &mut Vec<u16>)
    ensures
        final(out)@ == old(out)@ + spec_digits_from(v@, 0),
{
    let n = v.len();
    let mut i: usize = 0;
    while i < n
        invariant
            0 <= i <= n,
            n == v@.len(),
            old(out)@ + spec_digits_from(v@, 0) == out@ + spec_digits_from(v@, i as int),
        decreases n - i,
    {
        let mut len: usize = 0;
        if n - i >= 3 && exec_is_ascii(v[i]) && exec_is_digit(v[i + 1]) {
            if exec_is_digit(v[i + 2]) {
                if n - i >= 4 && exec_is_ascii(v[i + 3]) {
                    len = 4;
                } else {
                    len = 3;
                }
            } else if exec_is_ascii(v[i + 2]) {
                len = 3;
            }
        }
        assert(len as int == digit_match_len(v@, i as int)) by {
            if len == 3 && is_digit_char(v@[i + 2]) {
                assert(digit_match_len(v@, i as int) == 3);
            }
        }
        if len == 4 {
            let d1 = (v[i + 1] as u32) - 0x30;
            let d2 = (v[i + 2] as u32) - 0x30;
            out.push((10 * d1 + d2) as u16);
            i += 4;
        } else if len == 3 {
            let d1 = (v[i + 1] as u32) - 0x30;
            out.push(d1 as u16);
            i += 3;
        } else {
            i += 1;
        }
    }
    assert(spec_digits_from(v@, n as int) =~= Seq::<u16>::empty());
    assert(out@ =~= out@ + Seq::<u16>::empty());
}

/// Finds every plausible episode-number candidate in one file name, trailing
/// Roman numeral first, bracketed digit tokens after, in scan order. An
/// empty result is a recoverable absence. Fails exactly when a non-empty
/// filter-word list builds a pattern the regex engine rejects.
pub fn string_find_episode_number(file_name: &str, filter_words: &FilterWords) -> (r: Result<
    Vec<u16>,
    (),
>)
    ensures
        r is Ok <==> filter_patterns_ok(
            filter_words.cc_group.deep_view(),
            filter_words.meta_tag.deep_view(),
        ),
        r is Ok ==> r->Ok_0@ == spec_episode_candidates(
            file_name@,
            filter_words.cc_group.deep_view(),
            filter_words.meta_tag.deep_view(),
        ),
{
    let filtered = match string_remove_filtered(file_name, filter_words) {
        Ok(x) => x,
        Err(_) => {
            return Err(());
        },
    };
    let v0 = chars_of(filtered.as_str());
    let v1 = years_chars(&v0);
    let v2 = collapse_chars(&v1);
    let v3 = trim_chars(&v2);
    let v4 = eb_chars(&v3);
    let v5 = collapse_chars(&v4);
    let v6 = trim_chars(&v5);
    let clean = fileext_chars(&v6);
    let n = clean.len();

    let mut out: Vec<u16> = Vec::new();
    let start = find_roman_tail(&clean);
    if start < n {
        let g = find_nonspace(&clean, start + 1);
        proof {
            crate::roman::lemma_roman_tail_start(clean@, 0);
            let tail = clean@.subrange(g as int, n as int);
            lemma_big_roman_len(tail);
            lemma_roman_sum_bound(tail, tail.len() as int, 0);
        }
        match roman_chars_to_int(&clean, g, n) {
            Ok(x) => {
                out.push(x);
            },
            Err(_) => {
                // the matched tail was not spelled in upper-case symbols
            },
        }
    }
    assert(out@ == spec_roman_candidates(clean@));
    digit_candidates(&clean, &mut out);
    Ok(out)
}

// ---------------------------------------------------------------------------
// Episode numbers of a batch
// ---------------------------------------------------------------------------
/// How often a value occurs in one candidate list.
pub open spec fn count_in(cs: Seq<u16>, x: u16) -> nat
    decreases cs.len(),
{
    if cs.len() == 0 {
        0nat
    } else {
        count_in(cs.drop_last(), x) + (if cs.last() == x {
            1nat
        } else {
            0nat
        })
    }
}

/// How often a value occurs over all candidate lists of the batch.
pub open spec fn total_count(lists: Seq<Seq<u16>>, x: u16) -> nat
    decreases lists.len(),
{
    if lists.len() == 0 {
        0nat
    } else {
        total_count(lists.drop_last(), x) + count_in(lists.last(), x)
    }
}

/// Index of the first candidate among `cs[0..upto]` whose batch-wide count
/// is minimal: the lowest-frequency candidate, earliest on a tie.
pub open spec fn best_index(cs: Seq<u16>, lists: Seq<Seq<u16>>, upto: int) -> int
    decreases upto when 1 <= upto <= cs.len()
{
    if upto <= 1 {
        0
    } else {
        let b = best_index(cs, lists, upto - 1);
        if total_count(lists, cs[upto - 1]) < total_count(lists, cs[b]) {
            upto - 1
        } else {
            b
        }
    }
}

/// The candidate a file's list selects: the one occurring least often over
/// the batch, the earliest-extracted on a tie.
pub open spec fn spec_pick(cs: Seq<u16>, lists: Seq<Seq<u16>>) -> u16 {
    cs[best_index(cs, lists, cs.len() as int)]
}

/// The selected episode numbers of the batch, one per file with a non-empty
/// candidate list, in file order.
pub open spec fn spec_picks(lists: Seq<Seq<u16>>, i: int) -> Seq<u16>
    decreases lists.len() - i when 0 <= i <= lists.len()
{
    if i >= lists.len() {
        Seq::<u16>::empty()
    } else if lists[i].len() == 0 {
        spec_picks(lists, i + 1)
    } else {
        seq![spec_pick(lists[i], lists)] + spec_picks(lists, i + 1)
    }
}

/// The candidate lists of every file of the batch.
pub open spec fn spec_cand_lists(
    names: Seq<Seq<char>>,
    cc: Seq<Seq<char>>,
    meta: Seq<Seq<char>>,
) -> Seq<Seq<u16>> {
    Seq::new(names.len(), |i: int| spec_episode_candidates(names[i], cc, meta))
}

/// The episodes carry the given numbers in order and are otherwise blank.
pub open spec fn episodes_match(eps: Seq<Episode>, picks: Seq<u16>) -> bool {
    &&& eps.len() == picks.len()
    &&& (forall|k: int| 0 <= k < eps.len() ==> #[trigger] eps[k].sequence == picks[k])
    &&& (forall|k: int|
        0 <= k < eps.len() ==> (#[trigger] eps[k].location@.len() == 0 && eps[k].subtitles@.len()
            == 0))
}

fn count_in_list(cs: &Vec<u16>, x: u16) -> (r: usize)
    ensures
        r as nat == count_in(cs@, x),
{
    let n = cs.len();
    let mut r: usize = 0;
    let mut k: usize = 0;
    while k < n
        invariant
            0 <= k <= n,
            n == cs@.len(),
            r <= k,
            r as nat == count_in(cs@.subrange(0, k as int), x),
        decreases n - k,
    {
        let ghost pre = cs@.subrange(0, k as int);
        let ghost cur = cs@.subrange(0, k + 1);
        proof {
            assert(cur.drop_last() =~= pre);
            assert(cur.last() == cs@[k as int]);
        }
        if cs[k] == x {
            r += 1;
        }
        k += 1;
    }
    assert(cs@.subrange(0, n as int) =~= cs@);
    r
}

fn count_total(lists: &Vec<Vec<u16>>, x: u16) -> (r: u128)
    ensures
        r as nat == total_count(lists.deep_view(), x),
{
    let ghost ls = lists.deep_view();
    let n = lists.len();
    let mut r: u128 = 0;
    let mut k: usize = 0;
    while k < n
        invariant
            0 <= k <= n,
            n == lists@.len(),
            ls == lists.deep_view(),
            ls.len() == n,
            r as nat == total_count(ls.subrange(0, k as int), x),
            r as int <= k * 0x10000000000000000,
        decreases n - k,
    {
        let ghost pre = ls.subrange(0, k as int);
        let ghost cur = ls.subrange(0, k + 1);
        proof {
            assert(cur.drop_last() =~= pre);
            assert(cur.last() == ls[k as int]);
            assert(ls[k as int] =~= lists@[k as int]@);
        }
        let c = count_in_list(&lists[k], x);
        assert(c as nat == count_in(ls[k as int], x));
        r = r + c as u128;
        k += 1;
    }
    assert(ls.subrange(0, n as int) =~= ls);
    r
}

fn pick_best(cs: &Vec<u16>, lists: &Vec<Vec<u16>>) -> (r: u16)
    requires
        cs@.len() >= 1,
    ensures
        r == spec_pick(cs@, lists.deep_view()),
{
    let ghost ls = lists.deep_view();
    let mut best_j: usize = 0;
    let mut best_c: u128 = count_total(lists, cs[0]);
    let mut j: usize = 1;
    while j < cs.len()
        invariant
            1 <= j <= cs@.len(),
            best_j < j,
            ls == lists.deep_view(),
            best_j as int == best_index(cs@, ls, j as int),
            best_c as nat == total_count(ls, cs@[best_j as int]),
        decreases cs@.len() - j,
    {
        let c = count_total(lists, cs[j]);
        if c < best_c {
            best_j = j;
            best_c = c;
        }
        j += 1;
    }
    cs[best_j]
}

/// Infers each file's episode number from a batch of file names believed to
/// belong to one season. An empty batch yields nothing. A single file keeps
/// its first candidate. A larger batch counts every candidate across all
/// files and gives each file the candidate that recurs least, since numbers
/// shared by the whole batch (a resolution, a quality tag) recur in every
/// name while the true episode number is unique to its file. Counts order
/// candidates exactly as frequency scores over the fixed batch size would.
/// Files without candidates are skipped, so the result can be shorter than
/// the batch.
pub fn extract_episode_number(file_names: Vec<String>, filter_words: &FilterWords) -> (r: Option<
    Vec<Episode>,
>)
    ensures
        ({
            let names = file_names.deep_view();
            let cc = filter_words.cc_group.deep_view();
            let meta = filter_words.meta_tag.deep_view();
            let lists = spec_cand_lists(names, cc, meta);
            &&& (names.len() == 0 ==> r is None)
            &&& (names.len() == 1 && filter_patterns_ok(cc, meta) && lists[0].len() > 0 ==> r
                is Some && episodes_match(r->0@, seq![lists[0][0]]))
            &&& (names.len() == 1 && !(filter_patterns_ok(cc, meta) && lists[0].len() > 0) ==> r
                is None)
            &&& (names.len() >= 2 && filter_patterns_ok(cc, meta) ==> r is Some && episodes_match(
                r->0@,
                spec_picks(lists, 0),
            ))
            &&& (names.len() >= 2 && !filter_patterns_ok(cc, meta) ==> r is Some && r->0@.len()
                == 0)
        }),
{
    let ghost names = file_names.deep_view();
    let ghost cc = filter_words.cc_group.deep_view();
    let ghost meta = filter_words.meta_tag.deep_view();
    let ghost speclists = spec_cand_lists(names, cc, meta);
    let n = file_names.len();
    assert(names.len() == file_names@.len());
    if n == 0 {
        return None;
    }
    if n == 1 {
        let name0: &String = &file_names[0];
        assert(name0@ == names[0]);
        match string_find_episode_number(name0.as_str(), filter_words) {
            Ok(cands) => {
                if cands.len() > 0 {
                    let e = Episode {
                        sequence: cands[0],
                        location: String::new(),
                        subtitles: Vec::new(),
                    };
                    let mut result: Vec<Episode> = Vec::new();
                    result.push(e);
                    assert(episodes_match(result@, seq![speclists[0][0]]));
                    return Some(result);
                } else {
                    return None;
                }
            },
            Err(_) => {
                return None;
            },
        }
    }
    // first pass: every file's candidates
    let mut lists: Vec<Vec<u16>> = Vec::new();
    let mut k: usize = 0;
    while k < n
        invariant
            0 <= k <= n,
            2 <= n,
            n == file_names@.len(),
            names.len() == n,
            names == file_names.deep_view(),
            cc == filter_words.cc_group.deep_view(),
            meta == filter_words.meta_tag.deep_view(),
            speclists == spec_cand_lists(names, cc, meta),
            k > 0 ==> filter_patterns_ok(cc, meta),
            lists@.len() == k,
            lists.deep_view() == speclists.subrange(0, k as int),
        decreases n - k,
    {
        let namek: &String = &file_names[k];
        assert(namek@ == names[k as int]);
        match string_find_episode_number(namek.as_str(), filter_words) {
            Ok(cands) => {
                let ghost dv0 = lists.deep_view();
                lists.push(cands);
                proof {
                    assert(lists.deep_view() =~~= speclists.subrange(0, k + 1));
                }
            },
            Err(_) => {
                // no pattern compiles, so no file has candidates
                let empty: Vec<Episode> = Vec::new();
                assert(empty@.len() == 0);
                return Some(empty);
            },
        }
        k += 1;
    }
    assert(lists.deep_view() =~~= speclists);
    // second pass: per file, the least-recurring candidate
    let mut result: Vec<Episode> = Vec::new();
    let mut i: usize = 0;
    while i < n
        invariant
            0 <= i <= n,
            n == lists@.len(),
            lists.deep_view() == speclists,
            spec_picks(speclists, 0) == result@.map_values(|e: Episode| e.sequence) + spec_picks(
                speclists,
                i as int,
            ),
            forall|m: int| 0 <= m < result@.len() ==> (#[trigger] result@[m]).location@.len()
                == 0,
            forall|m: int| 0 <= m < result@.len() ==> (#[trigger] result@[m]).subtitles@.len()
                == 0,
        decreases n - i,
    {
        assert(lists@[i as int]@ =~= speclists[i as int]);
        if lists[i].len() > 0 {
            let s = pick_best(&lists[i], &lists);
            let ghost r0 = result@;
            let loc = String::new();
            let subs: Vec<Subtitle> = Vec::new();
            assert(loc@.len() == 0 && subs@.len() == 0);
            result.push(Episode { sequence: s, location: loc, subtitles: subs });
            proof {
                assert(result@.last().location@.len() == 0 && result@.last().subtitles@.len()
                    == 0);
                assert forall|m: int|
                    0 <= m < result@.len() implies ((#[trigger] result@[m]).location@.len() == 0
                    && result@[m].subtitles@.len() == 0) by {
                    if m < r0.len() {
                        assert(result@[m] == r0[m]);
                        assert(r0[m].location@.len() == 0 && r0[m].subtitles@.len() == 0);
                    } else {
                        assert(result@[m] == result@.last());
                    }
                }
                assert(result@.map_values(|e: Episode| e.sequence) =~= r0.map_values(
                    |e: Episode| e.sequence,
                ) + seq![s]);
            }
        }
        i += 1;
    }
    assert(spec_picks(speclists, n as int) =~= Seq::<u16>::empty());
    assert(result@.map_values(|e: Episode| e.sequence) =~= result@.map_values(
        |e: Episode| e.sequence,
    ) + Seq::<u16>::empty());
    assert(episodes_match(result@, spec_picks(speclists, 0)));
    Some(result)
}

} // verus!
