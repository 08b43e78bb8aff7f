//! Filtered-token removal: the configured release-group and meta-tag
//! fragments are combined into one case-insensitive alternation pattern,
//! every match in the name is overwritten with a sentinel marker, and any
//! bracket group that contains the marker is then removed whole.

use vstd::prelude::*;
use vstd::string::StringExecFns;

use crate::chars::{chars_of, string_of};

verus! {

/// The configured noise fragments: release-group names, quality and
/// encoding tags, and a reserved low-priority list. Each entry is read as a
/// case-insensitive regular-expression alternative; an empty list makes its
/// stage a no-op.
pub struct FilterWords {
    pub cc_group: Vec<String>,
    pub meta_tag: Vec<String>,
    pub low_priority: Vec<String>,
}

impl FilterWords {
    pub fn new(cc_group: Vec<String>, meta_tag: Vec<String>, low_priority: Vec<String>) -> (r:
        FilterWords)
        ensures
            r.cc_group == cc_group,
            r.meta_tag == meta_tag,
            r.low_priority == low_priority,
    {
        FilterWords { cc_group, meta_tag, low_priority }
    }
}

// ---------------------------------------------------------------------------
// The alternation pattern
// ---------------------------------------------------------------------------
/// A fragment wrapped in a group: `(fragment)`.
pub open spec fn wrapped(frag: Seq<char>) -> Seq<char> {
    seq!['('] + frag + seq![')']
}

/// The fragments, each wrapped, joined with `|`.
pub open spec fn combined_of(frags: Seq<Seq<char>>) -> Seq<char>
    decreases frags.len(),
{
    if frags.len() == 0 {
        Seq::<char>::empty()
    } else if frags.len() == 1 {
        wrapped(frags[0])
    } else {
        combined_of(frags.drop_last()) + seq!['|'] + wrapped(frags.last())
    }
}

/// The whole pattern handed to the regex engine:
/// `(?i)` + combined + `(&` + combined + `)*?`.
pub open spec fn pattern_of(frags: Seq<Seq<char>>) -> Seq<char> {
    seq!['(', '?', 'i', ')'] + combined_of(frags) + seq!['(', '&'] + combined_of(frags) + seq![
        ')',
        '*',
        '?',
    ]
}

/// The sentinel marker written over every matched fragment.
pub open spec fn sentinel() -> Seq<char> {
    seq!['%', 'R', 'e', 'M', '0', 'v', 'E', '%']
}

/// Whether the regex engine accepts a pattern.
/// Relies on `regex::Regex::new`: compilation succeeds or fails on the
/// pattern text alone.
pub uninterp spec fn regex_valid(pattern: Seq<char>) -> bool;

/// What replacing every match of a pattern leaves of a haystack.
/// Relies on `regex::Regex::replace_all`: the result is a function of the
/// pattern, the haystack and the replacement text alone.
pub uninterp spec fn regex_replaced(
    pattern: Seq<char>,
    haystack: Seq<char>,
    rep: Seq<char>,
) -> Seq<char>;

/// Relies on `regex::Regex::new` and `regex::Regex::replace_all`: `new`
/// accepts or rejects the pattern text deterministically, and `replace_all`
/// rewrites every non-overlapping match of the compiled pattern in the
/// haystack, deterministically in its three string arguments.
#[verifier::external_body]
fn regex_replace_all(pattern: &str, haystack: &str, rep: &str) -> (r: Option<String>)
    ensures
        r is Some <==> regex_valid(pattern@),
        r is Some ==> r->0@ == regex_replaced(pattern@, haystack@, rep@),
{
    match regex::Regex::new(pattern) {
        Ok(re) => Some(re.replace_all(haystack, rep).into_owned()),
        Err(_) => None,
    }
}

fn build_pattern(frags: &Vec<String>) -> (r: String)
    ensures
        r@ == pattern_of(frags.deep_view()),
{
    proof {
        reveal_strlit("(?i)");
        reveal_strlit("(");
        reveal_strlit(")");
        reveal_strlit("|");
        reveal_strlit("(&");
        reveal_strlit(")*?");
    }
    assert("(?i)"@ =~= seq!['(', '?', 'i', ')']);
    assert("("@ =~= seq!['(']);
    assert(")"@ =~= seq![')']);
    assert("|"@ =~= seq!['|']);
    assert("(&"@ =~= seq!['(', '&']);
    assert(")*?"@ =~= seq![')', '*', '?']);
    let ghost fs = frags.deep_view();
    let mut combined = String::new();
    let mut k: usize = 0;
    while k < frags.len()
        invariant
            k <= frags@.len(),
            fs == frags.deep_view(),
            combined@ == combined_of(fs.subrange(0, k as int)),
        decreases frags@.len() - k,
    {
        proof {
            reveal_strlit("(");
            reveal_strlit(")");
            reveal_strlit("|");
        }
        assert("("@ =~= seq!['(']);
        assert(")"@ =~= seq![')']);
        assert("|"@ =~= seq!['|']);
        if k > 0 {
            combined.append("|");
            assert(combined@ == combined_of(fs.subrange(0, k as int)) + seq!['|']);
        }
        combined.append("(");
        combined.append(frags[k].as_str());
        combined.append(")");
        proof {
            assert(frags@[k as int]@ == fs[k as int]);
            let pre = fs.subrange(0, k as int);
            let cur = fs.subrange(0, k + 1);
            assert(cur.drop_last() =~= pre);
            assert(cur.last() == fs[k as int]);
            if k == 0 {
                assert(combined@ =~= wrapped(fs[0]));
                assert(combined@ == combined_of(cur));
            } else {
                assert(combined@ =~= combined_of(pre) + seq!['|'] + wrapped(fs[k as int]));
                assert(combined@ == combined_of(cur));
            }
        }
        k += 1;
    }
    assert(fs.subrange(0, fs.len() as int) =~= fs);
    let mut p = String::new();
    p.append("(?i)");
    p.append(combined.as_str());
    p.append("(&");
    p.append(combined.as_str());
    p.append(")*?");
    assert(p@ =~= pattern_of(fs));
    p
}

// ---------------------------------------------------------------------------
// Removing bracket groups that hold the sentinel
// ---------------------------------------------------------------------------
/// The sentinel occurs somewhere inside `s[a..b]`.
pub open spec fn sentinel_between(s: Seq<char>, a: int, b: int) -> bool {
    exists|p: int| a <= p && p + 8 <= b && #[trigger] s.subrange(p, p + 8) == sentinel()
}

/// The first position at or after `i` holding the character `c`, or the
/// length of the string if there is none.
pub open spec fn first_occurrence(s: Seq<char>, i: int, c: char) -> int
    decreases s.len() - i when 0 <= i <= s.len()
{
    if i >= s.len() {
        s.len() as int
    } else if s[i] == c {
        i
    } else {
        first_occurrence(s, i + 1, c)
    }
}

pub proof fn lemma_first_occurrence(s: Seq<char>, i: int, c: char)
    requires
        0 <= i <= s.len(),
    ensures
        i <= first_occurrence(s, i, c) <= s.len(),
    decreases s.len() - i,
{
    if i < s.len() && s[i] != c {
        lemma_first_occurrence(s, i + 1, c);
    }
}

/// A marked group starts at `i`: the opening bracket, with the sentinel
/// somewhere before the first closing bracket that follows.
pub open spec fn marked_group_at(s: Seq<char>, i: int, open: char, close: char) -> bool {
    &&& 0 <= i < s.len()
    &&& s[i] == open
    &&& first_occurrence(s, i + 1, close) < s.len()
    &&& sentinel_between(s, i + 1, first_occurrence(s, i + 1, close))
}

/// Every marked group, opening bracket through its first closing bracket,
/// replaced by a single space.
pub open spec fn spec_strip_marked_from(s: Seq<char>, i: int, open: char, close: char) -> Seq<
    char,
>
    decreases s.len() - i when 0 <= i <= s.len() via spec_strip_marked_from_decreases
{
    if i >= s.len() {
        Seq::<char>::empty()
    } else if marked_group_at(s, i, open, close) {
        seq![' '] + spec_strip_marked_from(s, first_occurrence(s, i + 1, close) + 1, open, close)
    } else {
        seq![s[i]] + spec_strip_marked_from(s, i + 1, open, close)
    }
}

#[via_fn]
proof fn spec_strip_marked_from_decreases(s: Seq<char>, i: int, open: char, close: char) {
    if i < s.len() && marked_group_at(s, i, open, close) {
        lemma_first_occurrence(s, i + 1, close);
    }
}

pub open spec fn spec_strip_marked(s: Seq<char>, open: char, close: char) -> Seq<char> {
    spec_strip_marked_from(s, 0, open, close)
}

fn find_occurrence(v: &Vec<char>, i: usize, c: char) -> (r: usize)
    requires
        i <= v@.len(),
    ensures
        r == first_occurrence(v@, i as int, c),
        i <= r <= v@.len(),
    decreases v@.len() - i,
{
    if i == v.len() {
        i
    } else if v[i] == c {
        i
    } else {
        find_occurrence(v, i + 1, c)
    }
}

fn has_sentinel(v: &Vec<char>, a: usize, b: usize) -> (r: bool)
    requires
        a <= b <= v@.len(),
    ensures
        r == sentinel_between(v@, a as int, b as int),
{
    let mut p = a;
    while p < b && b - p >= 8
        invariant
            a <= p <= b,
            b <= v@.len(),
            forall|q: int|
                a <= q && q + 8 <= b && q < p ==> #[trigger] v@.subrange(q, q + 8) != sentinel(),
        decreases b - p,
    {
        if v[p] == '%' && v[p + 1] == 'R' && v[p + 2] == 'e' && v[p + 3] == 'M' && v[p + 4] == '0'
            && v[p + 5] == 'v' && v[p + 6] == 'E' && v[p + 7] == '%' {
            assert(v@.subrange(p as int, p + 8) =~= sentinel());
            return true;
        }
        proof {
            let sub = v@.subrange(p as int, p + 8);
            assert(sub[0] == v@[p as int] && sub[1] == v@[p + 1] && sub[2] == v@[p + 2] && sub[3]
                == v@[p + 3] && sub[4] == v@[p + 4] && sub[5] == v@[p + 5] && sub[6] == v@[p + 6]
                && sub[7] == v@[p + 7]);
            assert(sub != sentinel());
        }
        p += 1;
    }
    false
}

fn strip_marked_chars(v: &Vec<char>, open: char, close: char) -> (r: Vec<char>)
    ensures
        r@ == spec_strip_marked(v@, open, close),
{
    let n = v.len();
    let mut r: Vec<char> = Vec::new();
    let mut i: usize = 0;
    while i < n
        invariant
            i <= n,
            n == v@.len(),
            spec_strip_marked(v@, open, close) == r@ + spec_strip_marked_from(
                v@,
                i as int,
                open,
                close,
            ),
        decreases n - i,
    {
        let mut matched = false;
        if v[i] == open {
            let j = find_occurrence(v, i + 1, close);
            if j < n && has_sentinel(v, i + 1, j) {
                assert(marked_group_at(v@, i as int, open, close));
                r.push(' ');
                i = j + 1;
                matched = true;
            }
        }
        if !matched {
            assert(!marked_group_at(v@, i as int, open, close));
            r.push(v[i]);
            i += 1;
        }
    }
    assert(spec_strip_marked_from(v@, n as int, open, close) =~= Seq::<char>::empty());
    assert(r@ =~= r@ + spec_strip_marked_from(v@, n as int, open, close));
    r
}

// ---------------------------------------------------------------------------
// The whole stage
// ---------------------------------------------------------------------------
/// Both alternation patterns compile (an empty fragment list builds none).
pub open spec fn filter_patterns_ok(cc: Seq<Seq<char>>, meta: Seq<Seq<char>>) -> bool {
    &&& (cc.len() == 0 || regex_valid(pattern_of(cc)))
    &&& (meta.len() == 0 || regex_valid(pattern_of(meta)))
}

/// One marking pass: every fragment match overwritten with the sentinel; a
/// stage with no fragments leaves the string alone.
pub open spec fn spec_mark(s: Seq<char>, frags: Seq<Seq<char>>) -> Seq<char> {
    if frags.len() == 0 {
        s
    } else {
        regex_replaced(pattern_of(frags), s, sentinel())
    }
}

/// Filtered-token removal as a whole: mark release-group fragments, mark
/// meta-tag fragments, then drop every square-bracket and every parenthesis
/// group that holds a sentinel. With no configured fragments at all the
/// stage is a no-op and the name passes through untouched.
pub open spec fn spec_remove_filtered(
    s: Seq<char>,
    cc: Seq<Seq<char>>,
    meta: Seq<Seq<char>>,
) -> Seq<char> {
    if cc.len() == 0 && meta.len() == 0 {
        s
    } else {
        spec_strip_marked(spec_strip_marked(spec_mark(spec_mark(s, cc), meta), '[', ']'), '(', ')')
    }
}

/// Marks every configured release-group and meta-tag fragment in the name
/// and removes each bracket group that contained one. With both fragment
/// lists empty the name is returned unchanged. Fails exactly when a
/// non-empty fragment list builds a pattern the regex engine rejects. A
/// name that itself contains the internal marker text is treated as marked
/// once any fragment list is non-empty.
pub fn string_remove_filtered(input: &str, filter_words: &FilterWords) -> (r: Result<String, ()>)
    ensures
        r is Ok <==> filter_patterns_ok(
            filter_words.cc_group.deep_view(),
            filter_words.meta_tag.deep_view(),
        ),
        r is Ok ==> r->Ok_0@ == spec_remove_filtered(
            input@,
            filter_words.cc_group.deep_view(),
            filter_words.meta_tag.deep_view(),
        ),
{
    if filter_words.cc_group.len() == 0 && filter_words.meta_tag.len() == 0 {
        return Ok(input.to_owned());
    }
    proof {
        reveal_strlit("%ReM0vE%");
    }
    let mid1: String = if filter_words.cc_group.len() == 0 {
        input.to_owned()
    } else {
        let pat = build_pattern(&filter_words.cc_group);
        match regex_replace_all(pat.as_str(), input, "%ReM0vE%") {
            Some(s) => s,
            None => {
                return Err(());
            },
        }
    };
    assert("%ReM0vE%"@ =~= sentinel());
    assert(mid1@ == spec_mark(input@, filter_words.cc_group.deep_view()));
    let mid2: String = if filter_words.meta_tag.len() == 0 {
        mid1
    } else {
        let pat = build_pattern(&filter_words.meta_tag);
        match regex_replace_all(pat.as_str(), mid1.as_str(), "%ReM0vE%") {
            Some(s) => s,
            None => {
                return Err(());
            },
        }
    };
    let v = chars_of(mid2.as_str());
    let sq = strip_marked_chars(&v, '[', ']');
    let pa = strip_marked_chars(&sq, '(', ')');
    Ok(string_of(&pa))
}

} // verus!
