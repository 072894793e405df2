//! The five text patterns by which company data is picked out of the HTML
//! that the rating and indicator pages serve, with their matching semantics.
//!
//! Each pattern has the shape `<opening character>(<group>)<rest>`: a match
//! starts at an opening character at position `i`, its group starts at
//! `i + 1`, and `*_at(s, i)` gives the end of the group of the match that
//! starts at `i`, if one does. Where a pattern has a choice (a repetition of
//! varying length, an optional character), the spec tries the choices in the
//! order a backtracking matcher with greedy repetitions does, and takes the
//! first that completes the match. Among all matches, the one that starts
//! leftmost is taken.

use vstd::prelude::*;
use crate::text::occurs_at;

verus! {

/// The character classes that the patterns use.
#[derive(Clone, Copy, Debug)]
pub enum CharClass {
    /// `[A-Z0-9]`
    UpperOrDigit,
    /// `[0-9]`
    Digit,
    /// `[A-D]`
    RatingLetter,
    /// `[\+\-]`
    Sign,
}

pub open spec fn in_class(c: char, class: CharClass) -> bool {
    match class {
        CharClass::UpperOrDigit => ('A' <= c && c <= 'Z') || ('0' <= c && c <= '9'),
        CharClass::Digit => '0' <= c && c <= '9',
        CharClass::RatingLetter => 'A' <= c && c <= 'D',
        CharClass::Sign => c == '+' || c == '-',
    }
}

/// Whether `c` belongs to `class`.
pub fn in_class_exec(c: char, class: CharClass) -> (b: bool)
    ensures
        b == in_class(c, class),
{
    match class {
        CharClass::UpperOrDigit => ('A' <= c && c <= 'Z') || ('0' <= c && c <= '9'),
        CharClass::Digit => '0' <= c && c <= '9',
        CharClass::RatingLetter => 'A' <= c && c <= 'D',
        CharClass::Sign => c == '+' || c == '-',
    }
}

/// The position just after the longest run of `class` characters that
/// starts at `k`.
pub open spec fn run_end(s: Seq<char>, k: int, class: CharClass) -> int
    decreases s.len() - k,
{
    if 0 <= k < s.len() && in_class(s[k], class) {
        run_end(s, k + 1, class)
    } else {
        k
    }
}

/// `</span>`
pub open spec fn span_close() -> Seq<char> {
    seq!['<', '/', 's', 'p', 'a', 'n', '>']
}

/// `</div>`
pub open spec fn div_close() -> Seq<char> {
    seq!['<', '/', 'd', 'i', 'v', '>']
}

/// The patterns, each written as the regular expression it stands for.
#[derive(Clone, Copy, Debug)]
pub enum Pattern {
    /// `>([A-Z0-9]{3})`: a ticker.
    Ticker,
    /// `\(([A-Z0-9]*)\)`: a company name in parentheses.
    Name,
    /// `>([A-D]{1,3}[\+\-]*)</span>`: an Altman rating.
    Altman,
    /// `>([0-9])</span>`: a Piotroski F-score.
    FScore,
    /// `>([0-9]*.[0-9]*)%?</div>`: a decimal indicator value, where `.` is
    /// any character but a line feed.
    Float,
}

/// `>([A-Z0-9]{3})` at `i`.
pub open spec fn ticker_at(s: Seq<char>, i: int) -> Option<int> {
    if 0 <= i && i + 4 <= s.len() && s[i] == '>' && in_class(s[i + 1], CharClass::UpperOrDigit)
        && in_class(s[i + 2], CharClass::UpperOrDigit) && in_class(
        s[i + 3],
        CharClass::UpperOrDigit,
    ) {
        Some(i + 4)
    } else {
        None
    }
}

/// `\(([A-Z0-9]*)\)` at `i`, the group taking `k` characters first, then
/// fewer.
pub open spec fn name_try(s: Seq<char>, i: int, k: int) -> Option<int>
    decreases k + 1,
{
    if k < 0 {
        None
    } else if i + 1 + k < s.len() && s[i + 1 + k] == ')' {
        Some(i + 1 + k)
    } else {
        name_try(s, i, k - 1)
    }
}

/// `\(([A-Z0-9]*)\)` at `i`.
pub open spec fn name_at(s: Seq<char>, i: int) -> Option<int> {
    if 0 <= i < s.len() && s[i] == '(' {
        name_try(s, i, run_end(s, i + 1, CharClass::UpperOrDigit) - (i + 1))
    } else {
        None
    }
}

/// `[\+\-]*</span>` from `p`, the repetition taking `b` characters first,
/// then fewer; gives the end of the signs.
pub open spec fn altman_signs(s: Seq<char>, p: int, b: int) -> Option<int>
    decreases b + 1,
{
    if b < 0 {
        None
    } else if occurs_at(s, span_close(), p + b) {
        Some(p + b)
    } else {
        altman_signs(s, p, b - 1)
    }
}

/// `[A-D]{1,3}[\+\-]*</span>` after the `>` at `i`, the letters taking `a`
/// characters first, then fewer down to one.
pub open spec fn altman_letters(s: Seq<char>, i: int, a: int) -> Option<int>
    decreases a,
{
    if a < 1 {
        None
    } else {
        let p = i + 1 + a;
        match altman_signs(s, p, run_end(s, p, CharClass::Sign) - p) {
            Some(q) => Some(q),
            None => altman_letters(s, i, a - 1),
        }
    }
}

/// `>([A-D]{1,3}[\+\-]*)</span>` at `i`.
pub open spec fn altman_at(s: Seq<char>, i: int) -> Option<int> {
    if 0 <= i < s.len() && s[i] == '>' {
        let l = run_end(s, i + 1, CharClass::RatingLetter) - (i + 1);
        altman_letters(s, i, if l < 3 { l } else { 3 })
    } else {
        None
    }
}

/// `>([0-9])</span>` at `i`.
pub open spec fn fscore_at(s: Seq<char>, i: int) -> Option<int> {
    if 0 <= i && i + 2 <= s.len() && s[i] == '>' && in_class(s[i + 1], CharClass::Digit)
        && occurs_at(s, span_close(), i + 2) {
        Some(i + 2)
    } else {
        None
    }
}

/// `%?</div>` at `q`.
pub open spec fn float_tail(s: Seq<char>, q: int) -> bool {
    (0 <= q < s.len() && s[q] == '%' && occurs_at(s, div_close(), q + 1)) || occurs_at(
        s,
        div_close(),
        q,
    )
}

/// `[0-9]*%?</div>` after the any-character at `p`, the digits taking `b`
/// characters first, then fewer; gives the end of the digits.
pub open spec fn float_second(s: Seq<char>, p: int, b: int) -> Option<int>
    decreases b + 1,
{
    if b < 0 {
        None
    } else if float_tail(s, p + 1 + b) {
        Some(p + 1 + b)
    } else {
        float_second(s, p, b - 1)
    }
}

/// `[0-9]*.[0-9]*%?</div>` after the `>` at `i`, the first digits taking
/// `a` characters first, then fewer.
pub open spec fn float_first(s: Seq<char>, i: int, a: int) -> Option<int>
    decreases a + 1,
{
    if a < 0 {
        None
    } else {
        let p = i + 1 + a;
        let r = if 0 <= p < s.len() && s[p] != '\n' {
            float_second(s, p, run_end(s, p + 1, CharClass::Digit) - (p + 1))
        } else {
            None
        };
        match r {
            Some(q) => Some(q),
            None => float_first(s, i, a - 1),
        }
    }
}

/// `>([0-9]*.[0-9]*)%?</div>` at `i`.
pub open spec fn float_at(s: Seq<char>, i: int) -> Option<int> {
    if 0 <= i < s.len() && s[i] == '>' {
        float_first(s, i, run_end(s, i + 1, CharClass::Digit) - (i + 1))
    } else {
        None
    }
}

/// The end of the group of the match of `pattern` that starts at `i`.
pub open spec fn match_at(pattern: Pattern, s: Seq<char>, i: int) -> Option<int> {
    match pattern {
        Pattern::Ticker => ticker_at(s, i),
        Pattern::Name => name_at(s, i),
        Pattern::Altman => altman_at(s, i),
        Pattern::FScore => fscore_at(s, i),
        Pattern::Float => float_at(s, i),
    }
}

/// The leftmost match of `pattern` that starts at or after `k`: its start and
/// the end of its group.
pub open spec fn leftmost_from(pattern: Pattern, s: Seq<char>, k: int) -> Option<(int, int)>
    decreases s.len() - k,
{
    if k < 0 || k >= s.len() {
        None
    } else {
        match match_at(pattern, s, k) {
            Some(e) => Some((k, e)),
            None => leftmost_from(pattern, s, k + 1),
        }
    }
}

/// The group of the leftmost match of `pattern` in `s`, if there is a match.
pub open spec fn first_group(pattern: Pattern, s: Seq<char>) -> Option<Seq<char>> {
    match leftmost_from(pattern, s, 0) {
        Some((i, e)) => Some(s.subrange(i + 1, e)),
        None => None,
    }
}

// ----- facts about runs and the choice functions -----

/// A run holds only `class` characters and ends at the end of `s` or before
/// a character outside `class`.
pub proof fn lemma_run_end(s: Seq<char>, k: int, class: CharClass)
    requires
        0 <= k <= s.len(),
    ensures
        k <= run_end(s, k, class) <= s.len(),
        forall|m: int| k <= m < run_end(s, k, class) ==> in_class(#[trigger] s[m], class),
        run_end(s, k, class) < s.len() ==> !in_class(s[run_end(s, k, class)], class),
    decreases s.len() - k,
{
    if k < s.len() && in_class(s[k], class) {
        lemma_run_end(s, k + 1, class);
    }
}

/// A run seen from any point inside it ends where it ends.
pub proof fn lemma_run_end_inside(s: Seq<char>, k: int, j: int, class: CharClass)
    requires
        0 <= k <= j <= run_end(s, k, class),
        k <= s.len(),
    ensures
        run_end(s, j, class) == run_end(s, k, class),
    decreases j - k,
{
    if k < j {
        lemma_run_end(s, k, class);
        assert(in_class(s[k], class));
        lemma_run_end_inside(s, k + 1, j, class);
    }
}

proof fn lemma_occurs_first(s: Seq<char>, lit: Seq<char>, q: int)
    requires
        occurs_at(s, lit, q),
        lit.len() > 0,
    ensures
        s[q] == lit[0],
{
    assert(s.subrange(q, q + lit.len())[0] == s[q]);
}

proof fn lemma_name_try_none(s: Seq<char>, i: int, k: int)
    requires
        k < 0 || i + 1 + k < s.len(),
        forall|j: int| 0 <= j <= k ==> in_class(#[trigger] s[i + 1 + j], CharClass::UpperOrDigit),
    ensures
        name_try(s, i, k) is None,
    decreases k + 1,
{
    if k >= 0 {
        assert(in_class(s[i + 1 + k], CharClass::UpperOrDigit));
        lemma_name_try_none(s, i, k - 1);
    }
}

proof fn lemma_signs_none(s: Seq<char>, p: int, b: int)
    requires
        forall|j: int| 0 <= j <= b ==> p + j < s.len() && in_class(#[trigger] s[p + j], CharClass::Sign),
    ensures
        altman_signs(s, p, b) is None,
    decreases b + 1,
{
    if b >= 0 {
        assert(in_class(s[p + b], CharClass::Sign));
        if occurs_at(s, span_close(), p + b) {
            lemma_occurs_first(s, span_close(), p + b);
        }
        lemma_signs_none(s, p, b - 1);
    }
}

proof fn lemma_letters_none(s: Seq<char>, i: int, a: int)
    requires
        0 <= i,
        forall|j: int| 1 <= j <= a ==> i + 1 + j < s.len() && in_class(#[trigger] s[i + 1 + j], CharClass::RatingLetter),
    ensures
        altman_letters(s, i, a) is None,
    decreases a,
{
    if a >= 1 {
        let p = i + 1 + a;
        assert(in_class(s[p], CharClass::RatingLetter));
        assert(run_end(s, p, CharClass::Sign) == p);
        if occurs_at(s, span_close(), p) {
            lemma_occurs_first(s, span_close(), p);
        }
        assert(altman_signs(s, p, -1) is None);
        assert(altman_signs(s, p, 0) is None);
        lemma_letters_none(s, i, a - 1);
    }
}

proof fn lemma_tail_digit(s: Seq<char>, q: int)
    requires
        0 <= q < s.len(),
        in_class(s[q], CharClass::Digit),
    ensures
        !float_tail(s, q),
{
    if occurs_at(s, div_close(), q) {
        lemma_occurs_first(s, div_close(), q);
    }
}

proof fn lemma_second_none(s: Seq<char>, p: int, b: int)
    requires
        0 <= p,
        forall|j: int| 0 <= j <= b ==> p + 1 + j < s.len() && in_class(#[trigger] s[p + 1 + j], CharClass::Digit),
    ensures
        float_second(s, p, b) is None,
    decreases b + 1,
{
    if b >= 0 {
        assert(in_class(s[p + 1 + b], CharClass::Digit));
        lemma_tail_digit(s, p + 1 + b);
        lemma_second_none(s, p, b - 1);
    }
}

/// After the longest run of digits, `[0-9]*` then `%?</div>` succeeds only
/// with all of the digits.
proof fn lemma_second_run(s: Seq<char>, p: int)
    requires
        0 <= p < s.len(),
    ensures
        float_second(s, p, run_end(s, p + 1, CharClass::Digit) - (p + 1)) == (if float_tail(
            s,
            run_end(s, p + 1, CharClass::Digit),
        ) {
            Some(run_end(s, p + 1, CharClass::Digit))
        } else {
            None::<int>
        }),
{
    let e = run_end(s, p + 1, CharClass::Digit);
    lemma_run_end(s, p + 1, CharClass::Digit);
    let b = e - (p + 1);
    if !float_tail(s, e) {
        assert forall|j: int| 0 <= j <= b - 1 implies p + 1 + j < s.len() && in_class(
            #[trigger] s[p + 1 + j],
            CharClass::Digit,
        ) by {}
        lemma_second_none(s, p, b - 1);
    }
}

/// With the first digits shorter than their run, the any-character is a
/// digit and the match can only end where the run of digits ends.
proof fn lemma_first_inside(s: Seq<char>, i: int, a: int)
    requires
        0 <= i < s.len(),
        0 <= a < run_end(s, i + 1, CharClass::Digit) - (i + 1),
    ensures
        float_first(s, i, a) == (if float_tail(s, run_end(s, i + 1, CharClass::Digit)) {
            Some(run_end(s, i + 1, CharClass::Digit))
        } else {
            None::<int>
        }),
    decreases a + 1,
{
    if a >= 0 {
        let e = run_end(s, i + 1, CharClass::Digit);
        lemma_run_end(s, i + 1, CharClass::Digit);
        let p = i + 1 + a;
        assert(in_class(s[p], CharClass::Digit));
        lemma_run_end_inside(s, i + 1, p + 1, CharClass::Digit);
        lemma_second_run(s, p);
        if a >= 1 {
            lemma_first_inside(s, i, a - 1);
        } else {
            assert(float_first(s, i, -1) is None);
        }
    }
}

/// A run ends exactly where the `class` characters stop.
pub proof fn lemma_run_end_exact(s: Seq<char>, k: int, e: int, class: CharClass)
    requires
        0 <= k <= e <= s.len(),
        forall|m: int| k <= m < e ==> in_class(#[trigger] s[m], class),
        e == s.len() || !in_class(s[e], class),
    ensures
        run_end(s, k, class) == e,
    decreases e - k,
{
    if k < e {
        lemma_run_end_exact(s, k + 1, e, class);
    }
}

// ----- the shapes of the groups -----

/// Every character of `s` is in `class`.
pub open spec fn all_in_class(s: Seq<char>, class: CharClass) -> bool {
    forall|j: int| 0 <= j < s.len() ==> in_class(#[trigger] s[j], class)
}

/// Three upper-case letters or digits.
pub open spec fn is_ticker(g: Seq<char>) -> bool {
    g.len() == 3 && all_in_class(g, CharClass::UpperOrDigit)
}

/// One to three of the letters `A`-`D`, then any number of `+` and `-`.
pub open spec fn is_altman_rating(g: Seq<char>) -> bool {
    exists|a: int|
        1 <= a <= 3 && a <= g.len() && all_in_class(#[trigger] g.subrange(0, a), CharClass::RatingLetter)
            && all_in_class(g.subrange(a, g.len() as int), CharClass::Sign)
}

/// A single decimal digit.
pub open spec fn is_f_score(g: Seq<char>) -> bool {
    g.len() == 1 && in_class(g[0], CharClass::Digit)
}

/// Digits, one character other than a line feed, digits.
pub open spec fn is_float_text(g: Seq<char>) -> bool {
    exists|a: int|
        0 <= a < g.len() && all_in_class(#[trigger] g.subrange(0, a), CharClass::Digit) && g[a] != '\n'
            && all_in_class(g.subrange(a + 1, g.len() as int), CharClass::Digit)
}

/// The shape of the group of `pattern`.
pub open spec fn group_shape(pattern: Pattern, g: Seq<char>) -> bool {
    match pattern {
        Pattern::Ticker => is_ticker(g),
        Pattern::Name => all_in_class(g, CharClass::UpperOrDigit),
        Pattern::Altman => is_altman_rating(g),
        Pattern::FScore => is_f_score(g),
        Pattern::Float => is_float_text(g),
    }
}

/// The classes by their characters: `[A-Z0-9]`, `[0-9]`, `[A-D]` and
/// `[\+\-]`.
pub proof fn lemma_char_classes(c: char)
    ensures
        in_class(c, CharClass::UpperOrDigit) <==> (('A' as u32) <= (c as u32) <= ('Z' as u32)
            || ('0' as u32) <= (c as u32) <= ('9' as u32)),
        in_class(c, CharClass::Digit) <==> ('0' as u32) <= (c as u32) <= ('9' as u32),
        in_class(c, CharClass::RatingLetter) <==> ('A' as u32) <= (c as u32) <= ('D' as u32),
        in_class(c, CharClass::Sign) <==> (c == '+' || c == '-'),
        in_class('K', CharClass::UpperOrDigit) && in_class('Z', CharClass::UpperOrDigit)
            && in_class('A', CharClass::UpperOrDigit) && in_class('0', CharClass::UpperOrDigit)
            && in_class('9', CharClass::UpperOrDigit),
        !in_class('a', CharClass::UpperOrDigit) && !in_class(' ', CharClass::UpperOrDigit)
            && !in_class('(', CharClass::UpperOrDigit) && !in_class(')', CharClass::UpperOrDigit)
            && !in_class('>', CharClass::UpperOrDigit),
        !in_class('E', CharClass::RatingLetter) && !in_class('a', CharClass::RatingLetter),
{
}

/// `g` is one to three of `A`-`D` up to `a`, and only `+` and `-` after.
pub open spec fn rating_letters_then_signs(g: Seq<char>, a: int) -> bool {
    &&& 1 <= a <= 3
    &&& a <= g.len()
    &&& forall|j: int| 0 <= j < a ==> ('A' as u32) <= (#[trigger] g[j] as u32) <= ('D' as u32)
    &&& forall|j: int| a <= j < g.len() ==> (#[trigger] g[j] == '+' || g[j] == '-')
}

/// The shapes of the groups, character by character: a ticker is three
/// characters of `A`-`Z` or `0`-`9`; an F-score is one character of `0`-`9`;
/// an Altman rating is one to three of `A`-`D`, then only `+` and `-`.
pub proof fn lemma_group_shapes(g: Seq<char>)
    ensures
        is_ticker(g) <==> g.len() == 3 && forall|j: int|
            0 <= j < 3 ==> (('A' as u32) <= (#[trigger] g[j] as u32) <= ('Z' as u32) || ('0' as u32)
                <= (g[j] as u32) <= ('9' as u32)),
        is_f_score(g) <==> g.len() == 1 && ('0' as u32) <= (g[0] as u32) <= ('9' as u32),
        is_altman_rating(g) <==> exists|a: int| #[trigger] rating_letters_then_signs(g, a),
{
    assert forall|j: int| 0 <= j < g.len() implies (in_class(#[trigger] g[j], CharClass::UpperOrDigit)
        <==> (('A' as u32) <= (g[j] as u32) <= ('Z' as u32) || ('0' as u32) <= (g[j] as u32) <= (
    '9' as u32))) && (in_class(g[j], CharClass::Digit) <==> ('0' as u32) <= (g[j] as u32) <= (
    '9' as u32)) && (in_class(g[j], CharClass::RatingLetter) <==> ('A' as u32) <= (g[j] as u32) <= (
    'D' as u32)) && (in_class(g[j], CharClass::Sign) <==> (g[j] == '+' || g[j] == '-')) by {
        lemma_char_classes(g[j]);
    }
    if is_altman_rating(g) {
        let a = choose|a: int|
            1 <= a <= 3 && a <= g.len() && all_in_class(#[trigger] g.subrange(0, a), CharClass::RatingLetter)
                && all_in_class(g.subrange(a, g.len() as int), CharClass::Sign);
        assert forall|j: int| 0 <= j < a implies ('A' as u32) <= (#[trigger] g[j] as u32) <= ('D' as u32) by {
            assert(g.subrange(0, a)[j] == g[j]);
        }
        assert forall|j: int| a <= j < g.len() implies (#[trigger] g[j] == '+' || g[j] == '-') by {
            assert(g.subrange(a, g.len() as int)[j - a] == g[j]);
        }
        assert(rating_letters_then_signs(g, a));
    }
    if exists|a: int| #[trigger] rating_letters_then_signs(g, a) {
        let a = choose|a: int| #[trigger] rating_letters_then_signs(g, a);
        assert forall|j: int| 0 <= j < a implies in_class(
            #[trigger] g.subrange(0, a)[j],
            CharClass::RatingLetter,
        ) by {
            assert(g.subrange(0, a)[j] == g[j]);
        }
        assert forall|j: int| 0 <= j < g.len() - a implies in_class(
            #[trigger] g.subrange(a, g.len() as int)[j],
            CharClass::Sign,
        ) by {
            assert(g.subrange(a, g.len() as int)[j] == g[j + a]);
        }
        assert(all_in_class(g.subrange(0, a), CharClass::RatingLetter));
        assert(all_in_class(g.subrange(a, g.len() as int), CharClass::Sign));
    }
}

pub proof fn lemma_leftmost_is_match(pattern: Pattern, s: Seq<char>, k: int)
    ensures
        leftmost_from(pattern, s, k) matches Some((i, e)) ==> k <= i < s.len() && match_at(
            pattern,
            s,
            i,
        ) == Some(e),
    decreases s.len() - k,
{
    if 0 <= k < s.len() && match_at(pattern, s, k) is None {
        lemma_leftmost_is_match(pattern, s, k + 1);
    }
}

proof fn lemma_name_try_range(s: Seq<char>, i: int, k: int)
    ensures
        name_try(s, i, k) matches Some(e) ==> i + 1 <= e <= i + 1 + k && e < s.len(),
    decreases k + 1,
{
    if k >= 0 {
        lemma_name_try_range(s, i, k - 1);
    }
}

proof fn lemma_signs_range(s: Seq<char>, p: int, b: int)
    ensures
        altman_signs(s, p, b) matches Some(q) ==> p <= q <= p + b && q + 7 <= s.len(),
    decreases b + 1,
{
    if b >= 0 {
        lemma_signs_range(s, p, b - 1);
    }
}

proof fn lemma_letters_range(s: Seq<char>, i: int, a: int)
    ensures
        altman_letters(s, i, a) matches Some(q) ==> q + 7 <= s.len() && exists|a2: int|
            1 <= a2 <= a && i + 1 + a2 <= q <= #[trigger] run_end(s, i + 1 + a2, CharClass::Sign),
    decreases a,
{
    if a >= 1 {
        let p = i + 1 + a;
        lemma_signs_range(s, p, run_end(s, p, CharClass::Sign) - p);
        lemma_letters_range(s, i, a - 1);
        if let Some(q) = altman_letters(s, i, a) {
            if altman_signs(s, p, run_end(s, p, CharClass::Sign) - p) is Some {
                assert(i + 1 + a <= q <= run_end(s, i + 1 + a, CharClass::Sign));
            } else {
                let a2 = choose|a2: int|
                    1 <= a2 <= a - 1 && i + 1 + a2 <= q <= #[trigger] run_end(
                        s,
                        i + 1 + a2,
                        CharClass::Sign,
                    );
                assert(1 <= a2 <= a && i + 1 + a2 <= q <= run_end(s, i + 1 + a2, CharClass::Sign));
            }
        }
    }
}

proof fn lemma_second_range(s: Seq<char>, p: int, b: int)
    ensures
        float_second(s, p, b) matches Some(q) ==> p + 1 <= q <= p + 1 + b,
    decreases b + 1,
{
    if b >= 0 {
        lemma_second_range(s, p, b - 1);
    }
}

proof fn lemma_first_range(s: Seq<char>, i: int, a: int)
    ensures
        float_first(s, i, a) matches Some(q) ==> exists|a2: int|
            0 <= a2 <= a && 0 <= i + 1 + a2 < s.len() && s[i + 1 + a2] != '\n' && i + 2 + a2 <= q
                <= #[trigger] run_end(s, i + 2 + a2, CharClass::Digit),
    decreases a + 1,
{
    if a >= 0 {
        let p = i + 1 + a;
        if 0 <= p < s.len() && s[p] != '\n' {
            lemma_second_range(s, p, run_end(s, p + 1, CharClass::Digit) - (p + 1));
        }
        lemma_first_range(s, i, a - 1);
        if let Some(q) = float_first(s, i, a) {
            let r = if 0 <= p < s.len() && s[p] != '\n' {
                float_second(s, p, run_end(s, p + 1, CharClass::Digit) - (p + 1))
            } else {
                None
            };
            if r is Some {
                assert(0 <= i + 1 + a < s.len() && s[i + 1 + a] != '\n' && i + 2 + a <= q
                    <= run_end(s, i + 2 + a, CharClass::Digit));
            } else {
                let a2 = choose|a2: int|
                    0 <= a2 <= a - 1 && 0 <= i + 1 + a2 < s.len() && s[i + 1 + a2] != '\n' && i + 2
                        + a2 <= q <= #[trigger] run_end(s, i + 2 + a2, CharClass::Digit);
                assert(0 <= a2 <= a);
            }
        }
    }
}

/// Whatever is found for a pattern has the shape of the pattern's group: a
/// ticker is three upper-case letters or digits, a name upper-case letters and
/// digits, a rating one to three of `A`-`D` followed by signs, an F-score one
/// digit, and a value digits around one other character.
pub proof fn lemma_first_group_shape(pattern: Pattern, s: Seq<char>)
    ensures
        first_group(pattern, s) matches Some(g) ==> group_shape(pattern, g),
{
    lemma_leftmost_is_match(pattern, s, 0);
    if let Some((i, e)) = leftmost_from(pattern, s, 0) {
        let g = s.subrange(i + 1, e);
        match pattern {
            Pattern::Ticker => {
                assert(g[0] == s[i + 1] && g[1] == s[i + 2] && g[2] == s[i + 3]);
            },
            Pattern::Name => {
                lemma_run_end(s, i + 1, CharClass::UpperOrDigit);
                lemma_name_try_range(
                    s,
                    i,
                    run_end(s, i + 1, CharClass::UpperOrDigit) - (i + 1),
                );
                assert forall|j: int| 0 <= j < g.len() implies in_class(
                    #[trigger] g[j],
                    CharClass::UpperOrDigit,
                ) by {
                    assert(g[j] == s[i + 1 + j]);
                }
            },
            Pattern::Altman => {
                let l = run_end(s, i + 1, CharClass::RatingLetter) - (i + 1);
                let a = if l < 3 {
                    l
                } else {
                    3
                };
                lemma_run_end(s, i + 1, CharClass::RatingLetter);
                lemma_letters_range(s, i, a);
                let a2 = choose|a2: int|
                    1 <= a2 <= a && i + 1 + a2 <= e <= #[trigger] run_end(
                        s,
                        i + 1 + a2,
                        CharClass::Sign,
                    );
                lemma_run_end(s, i + 1 + a2, CharClass::Sign);
                assert(all_in_class(g.subrange(0, a2), CharClass::RatingLetter)) by {
                    assert forall|j: int| 0 <= j < a2 implies in_class(
                        #[trigger] g.subrange(0, a2)[j],
                        CharClass::RatingLetter,
                    ) by {
                        assert(g.subrange(0, a2)[j] == s[i + 1 + j]);
                    }
                }
                assert(all_in_class(g.subrange(a2, g.len() as int), CharClass::Sign)) by {
                    assert forall|j: int| 0 <= j < g.len() - a2 implies in_class(
                        #[trigger] g.subrange(a2, g.len() as int)[j],
                        CharClass::Sign,
                    ) by {
                        assert(g.subrange(a2, g.len() as int)[j] == s[i + 1 + a2 + j]);
                    }
                }
            },
            Pattern::FScore => {
                assert(g[0] == s[i + 1]);
            },
            Pattern::Float => {
                let m = run_end(s, i + 1, CharClass::Digit) - (i + 1);
                lemma_run_end(s, i + 1, CharClass::Digit);
                lemma_first_range(s, i, m);
                let a2 = choose|a2: int|
                    0 <= a2 <= m && 0 <= i + 1 + a2 < s.len() && s[i + 1 + a2] != '\n' && i + 2
                        + a2 <= e <= #[trigger] run_end(s, i + 2 + a2, CharClass::Digit);
                lemma_run_end(s, i + 2 + a2, CharClass::Digit);
                assert(g[a2] == s[i + 1 + a2]);
                assert(all_in_class(g.subrange(0, a2), CharClass::Digit)) by {
                    assert forall|j: int| 0 <= j < a2 implies in_class(
                        #[trigger] g.subrange(0, a2)[j],
                        CharClass::Digit,
                    ) by {
                        assert(g.subrange(0, a2)[j] == s[i + 1 + j]);
                    }
                }
                assert(all_in_class(g.subrange(a2 + 1, g.len() as int), CharClass::Digit)) by {
                    assert forall|j: int| 0 <= j < g.len() - a2 - 1 implies in_class(
                        #[trigger] g.subrange(a2 + 1, g.len() as int)[j],
                        CharClass::Digit,
                    ) by {
                        assert(g.subrange(a2 + 1, g.len() as int)[j] == s[i + 2 + a2 + j]);
                    }
                }
            },
        }
    }
}

/// A match's group ends after its start and within the text.
pub proof fn lemma_match_bounds(pattern: Pattern, s: Seq<char>, i: int)
    ensures
        match_at(pattern, s, i) matches Some(e) ==> 0 <= i < e <= s.len(),
{
    match pattern {
        Pattern::Ticker => {},
        Pattern::Name => {
            lemma_name_try_range(s, i, run_end(s, i + 1, CharClass::UpperOrDigit) - (i + 1));
        },
        Pattern::Altman => {
            let l = run_end(s, i + 1, CharClass::RatingLetter) - (i + 1);
            lemma_letters_range(s, i, if l < 3 { l } else { 3 });
        },
        Pattern::FScore => {},
        Pattern::Float => {
            let m = run_end(s, i + 1, CharClass::Digit) - (i + 1);
            lemma_first_range(s, i, m);
            if let Some(e) = float_at(s, i) {
                let a2 = choose|a2: int|
                    0 <= a2 <= m && 0 <= i + 1 + a2 < s.len() && s[i + 1 + a2] != '\n' && i + 2
                        + a2 <= e <= #[trigger] run_end(s, i + 2 + a2, CharClass::Digit);
                lemma_run_end(s, i + 2 + a2, CharClass::Digit);
            }
        },
    }
}

// ----- reading back what a page writes -----

/// The character every match of `pattern` starts with.
pub open spec fn opening_char(pattern: Pattern) -> char {
    match pattern {
        Pattern::Name => '(',
        _ => '>',
    }
}

proof fn lemma_no_match_without_opening(pattern: Pattern, s: Seq<char>, i: int)
    requires
        0 <= i < s.len(),
        s[i] != opening_char(pattern),
    ensures
        match_at(pattern, s, i) is None,
{
}

proof fn lemma_no_match_from(pattern: Pattern, s: Seq<char>, k: int)
    requires
        forall|m: int| 0 <= m < s.len() ==> s[m] != opening_char(pattern),
    ensures
        leftmost_from(pattern, s, k) is None,
    decreases s.len() - k,
{
    if 0 <= k < s.len() {
        lemma_no_match_without_opening(pattern, s, k);
        lemma_no_match_from(pattern, s, k + 1);
    }
}

/// Text without the character that opens a pattern (`(` for a name, `>` for
/// the others) holds no value of that pattern.
pub proof fn lemma_no_group_without_opening(pattern: Pattern, s: Seq<char>)
    requires
        forall|m: int| 0 <= m < s.len() ==> s[m] != opening_char(pattern),
    ensures
        first_group(pattern, s) is None,
{
    lemma_no_match_from(pattern, s, 0);
}

/// With no match before `k`, the leftmost match is the one at `k`.
proof fn lemma_leftmost_at(pattern: Pattern, s: Seq<char>, j: int, k: int, e: int)
    requires
        0 <= j <= k < s.len(),
        match_at(pattern, s, k) == Some(e),
        forall|m: int| j <= m < k ==> match_at(pattern, s, m) is None,
    ensures
        leftmost_from(pattern, s, j) == Some((k, e)),
    decreases k - j,
{
    if j < k {
        lemma_leftmost_at(pattern, s, j + 1, k, e);
    }
}

/// A value after a prefix without the pattern's opening character: the
/// leftmost match is the one at the end of the prefix.
proof fn lemma_group_after_prefix(pattern: Pattern, s: Seq<char>, pre: Seq<char>, e: int)
    requires
        pre.len() < s.len(),
        s.subrange(0, pre.len() as int) == pre,
        forall|m: int| 0 <= m < pre.len() ==> pre[m] != opening_char(pattern),
        match_at(pattern, s, pre.len() as int) == Some(e),
    ensures
        first_group(pattern, s) == Some(s.subrange(pre.len() as int + 1, e)),
{
    assert forall|m: int| 0 <= m < pre.len() implies match_at(pattern, s, m) is None by {
        assert(s[m] == s.subrange(0, pre.len() as int)[m]);
        lemma_no_match_without_opening(pattern, s, m);
    }
    lemma_leftmost_at(pattern, s, 0, pre.len() as int, e);
}

/// A ticker written after `>`, behind text without `>`, is read back as it
/// is, whatever follows.
pub proof fn lemma_ticker_read_back(pre: Seq<char>, t: Seq<char>, rest: Seq<char>)
    requires
        is_ticker(t),
        forall|m: int| 0 <= m < pre.len() ==> pre[m] != '>',
    ensures
        first_group(Pattern::Ticker, pre + seq!['>'] + t + rest) == Some(t),
{
    let s = pre + seq!['>'] + t + rest;
    let k = pre.len() as int;
    assert(s[k] == '>' && s[k + 1] == t[0] && s[k + 2] == t[1] && s[k + 3] == t[2]);
    assert(ticker_at(s, k) == Some(k + 4));
    assert(s.subrange(0, k) =~= pre);
    lemma_group_after_prefix(Pattern::Ticker, s, pre, k + 4);
    assert(s.subrange(k + 1, k + 4) =~= t);
}

/// A name written between parentheses, behind text without `(`, is read back
/// as it is, whatever follows.
pub proof fn lemma_name_read_back(pre: Seq<char>, n: Seq<char>, rest: Seq<char>)
    requires
        all_in_class(n, CharClass::UpperOrDigit),
        forall|m: int| 0 <= m < pre.len() ==> pre[m] != '(',
    ensures
        first_group(Pattern::Name, pre + seq!['('] + n + seq![')'] + rest) == Some(n),
{
    let s = pre + seq!['('] + n + seq![')'] + rest;
    let k = pre.len() as int;
    let e: int = k + 1 + n.len() as int;
    assert forall|m: int| k + 1 <= m < e implies in_class(#[trigger] s[m], CharClass::UpperOrDigit) by {
        assert(s[m] == n[m - k - 1]);
    }
    assert(s[k] == '(');
    assert(s[e] == ')');
    lemma_run_end_exact(s, k + 1, e, CharClass::UpperOrDigit);
    assert(name_try(s, k, e - k - 1) == Some(e));
    assert(name_at(s, k) == Some(e));
    assert(s.subrange(0, k) =~= pre);
    lemma_group_after_prefix(Pattern::Name, s, pre, e);
    assert(s.subrange(k + 1, e) =~= n);
}

/// An Altman rating written between `>` and `</span>`, behind text without
/// `>`, is read back as it is, whatever follows.
pub proof fn lemma_altman_read_back(pre: Seq<char>, v: Seq<char>, rest: Seq<char>)
    requires
        is_altman_rating(v),
        forall|m: int| 0 <= m < pre.len() ==> pre[m] != '>',
    ensures
        first_group(Pattern::Altman, pre + seq!['>'] + v + span_close() + rest) == Some(v),
{
    let s = pre + seq!['>'] + v + span_close() + rest;
    let k = pre.len() as int;
    let a = choose|a: int|
        1 <= a <= 3 && a <= v.len() && all_in_class(#[trigger] v.subrange(0, a), CharClass::RatingLetter)
            && all_in_class(v.subrange(a, v.len() as int), CharClass::Sign);
    let end: int = k + 1 + v.len() as int;
    assert(s[k] == '>');
    assert(s[end] == '<');
    assert forall|m: int| k + 1 <= m < k + 1 + a implies in_class(
        #[trigger] s[m],
        CharClass::RatingLetter,
    ) by {
        assert(s[m] == v.subrange(0, a)[m - k - 1]);
    }
    if a < v.len() {
        assert(s[k + 1 + a] == v.subrange(a, v.len() as int)[0]);
        assert(in_class(s[k + 1 + a], CharClass::Sign));
    }
    lemma_run_end_exact(s, k + 1, k + 1 + a, CharClass::RatingLetter);
    assert forall|m: int| k + 1 + a <= m < end implies in_class(#[trigger] s[m], CharClass::Sign) by {
        assert(s[m] == v.subrange(a, v.len() as int)[m - k - 1 - a]);
    }
    lemma_run_end_exact(s, k + 1 + a, end, CharClass::Sign);
    assert(s.subrange(end, end + 7) =~= span_close());
    assert(altman_signs(s, k + 1 + a, end - (k + 1 + a)) == Some(end));
    assert(altman_letters(s, k, a) == Some(end));
    assert(altman_at(s, k) == Some(end));
    assert(s.subrange(0, k) =~= pre);
    lemma_group_after_prefix(Pattern::Altman, s, pre, end);
    assert(s.subrange(k + 1, end) =~= v);
}

/// A digit written between `>` and `</span>`, behind text without `>`, is
/// read back as the F-score, whatever follows.
pub proof fn lemma_f_score_read_back(pre: Seq<char>, d: char, rest: Seq<char>)
    requires
        in_class(d, CharClass::Digit),
        forall|m: int| 0 <= m < pre.len() ==> pre[m] != '>',
    ensures
        first_group(Pattern::FScore, pre + seq!['>', d] + span_close() + rest) == Some(seq![d]),
{
    let s = pre + seq!['>', d] + span_close() + rest;
    let k = pre.len() as int;
    assert(s[k] == '>' && s[k + 1] == d);
    assert(s.subrange(k + 2, k + 9) =~= span_close());
    assert(fscore_at(s, k) == Some(k + 2));
    assert(s.subrange(0, k) =~= pre);
    lemma_group_after_prefix(Pattern::FScore, s, pre, k + 2);
    assert(s.subrange(k + 1, k + 2) =~= seq![d]);
}

/// A value of the indicator form (digits, one character other than a line
/// feed, digits) written between `>` and `</div>`, behind text without `>`,
/// is read back as it is, whatever follows.
pub proof fn lemma_float_read_back(pre: Seq<char>, x: Seq<char>, rest: Seq<char>)
    requires
        is_float_text(x),
        forall|m: int| 0 <= m < pre.len() ==> pre[m] != '>',
    ensures
        first_group(Pattern::Float, pre + seq!['>'] + x + div_close() + rest) == Some(x),
{
    let s = pre + seq!['>'] + x + div_close() + rest;
    let k = pre.len() as int;
    let a = choose|a: int|
        0 <= a < x.len() && all_in_class(#[trigger] x.subrange(0, a), CharClass::Digit) && x[a] != '\n'
            && all_in_class(x.subrange(a + 1, x.len() as int), CharClass::Digit);
    let end: int = k + 1 + x.len() as int;
    assert(s[k] == '>');
    assert(s[end] == '<' && s[end + 1] == '/');
    assert(s.subrange(end, end + 6) =~= div_close());
    assert(float_tail(s, end));
    assert forall|m: int| k + 1 <= m < k + 1 + a implies in_class(#[trigger] s[m], CharClass::Digit) by {
        assert(s[m] == x.subrange(0, a)[m - k - 1]);
    }
    assert forall|m: int| k + 2 + a <= m < end implies in_class(#[trigger] s[m], CharClass::Digit) by {
        assert(s[m] == x.subrange(a + 1, x.len() as int)[m - k - 2 - a]);
    }
    assert(s[k + 1 + a] == x[a]);
    if in_class(x[a], CharClass::Digit) {
        // every character of the value is a digit
        assert forall|m: int| k + 1 <= m < end implies in_class(#[trigger] s[m], CharClass::Digit) by {
            if m >= k + 2 + a {
            } else if m == k + 1 + a {
            } else {
            }
        }
        lemma_run_end_exact(s, k + 1, end, CharClass::Digit);
        let m = end - k - 1;
        // the any-character at the closing `<` leaves `/div>`, which fails
        lemma_run_end_exact(s, end + 1, end + 1, CharClass::Digit);
        if occurs_at(s, div_close(), end + 1) {
            assert(s.subrange(end + 1, end + 7)[0] == s[end + 1]);
        }
        assert(!float_tail(s, end + 1));
        assert(float_second(s, end, -1) is None);
        assert(float_second(s, end, 0) is None);
        lemma_first_inside(s, k, m - 1);
        assert(float_first(s, k, m) == Some(end));
        assert(float_at(s, k) == Some(end));
    } else {
        lemma_run_end_exact(s, k + 1, k + 1 + a, CharClass::Digit);
        lemma_run_end_exact(s, k + 2 + a, end, CharClass::Digit);
        lemma_second_run(s, k + 1 + a);
        assert(float_second(s, k + 1 + a, end - (k + 2 + a)) == Some(end));
        assert(float_first(s, k, a) == Some(end));
        assert(float_at(s, k) == Some(end));
    }
    assert(s.subrange(0, k) =~= pre);
    lemma_group_after_prefix(Pattern::Float, s, pre, end);
    assert(s.subrange(k + 1, end) =~= x);
}

// ----- matching -----

/// The end of the longest run of `class` characters that starts at `k`.
pub fn run_end_exec(s: &[char], k: usize, class: CharClass) -> (e: usize)
    requires
        k <= s@.len(),
    ensures
        e == run_end(s@, k as int, class),
        k <= e <= s@.len(),
{
    let n = s.len();
    let mut j = k;
    while j < n && in_class_exec(s[j], class)
        invariant
            k <= j <= n,
            n == s@.len(),
            run_end(s@, j as int, class) == run_end(s@, k as int, class),
        decreases n - j,
    {
        j = j + 1;
    }
    j
}

/// Whether `lit` occurs in `s` at `q`, for any `q`.
fn occurs_at_exec(s: &[char], lit: &[char], q: usize) -> (b: bool)
    ensures
        b == occurs_at(s@, lit@, q as int),
{
    if lit.len() <= s.len() && q <= s.len() - lit.len() {
        crate::text::matches_at(s, lit, q)
    } else {
        false
    }
}

fn span_close_exec() -> (v: Vec<char>)
    ensures
        v@ == span_close(),
{
    vec!['<', '/', 's', 'p', 'a', 'n', '>']
}

fn div_close_exec() -> (v: Vec<char>)
    ensures
        v@ == div_close(),
{
    vec!['<', '/', 'd', 'i', 'v', '>']
}

fn ticker_at_exec(s: &[char], i: usize) -> (r: Option<usize>)
    requires
        i < s@.len(),
    ensures
        r == (match ticker_at(s@, i as int) { Some(e) => Some(e as usize), None => None }),
        r matches Some(e) ==> i < e <= s@.len(),
{
    if s.len() - i >= 4 && s[i] == '>' && in_class_exec(s[i + 1], CharClass::UpperOrDigit)
        && in_class_exec(s[i + 2], CharClass::UpperOrDigit) && in_class_exec(
        s[i + 3],
        CharClass::UpperOrDigit,
    ) {
        Some(i + 4)
    } else {
        None
    }
}

fn name_at_exec(s: &[char], i: usize) -> (r: Option<usize>)
    requires
        i < s@.len(),
    ensures
        r == (match name_at(s@, i as int) { Some(e) => Some(e as usize), None => None }),
        r matches Some(e) ==> i < e <= s@.len(),
{
    if s[i] != '(' {
        return None;
    }
    let e = run_end_exec(s, i + 1, CharClass::UpperOrDigit);
    proof {
        lemma_run_end(s@, i + 1, CharClass::UpperOrDigit);
    }
    let k = e - (i + 1);
    if e < s.len() && s[e] == ')' {
        Some(e)
    } else {
        proof {
            assert forall|j: int| 0 <= j <= k - 1 implies in_class(
                #[trigger] s@[i + 1 + j],
                CharClass::UpperOrDigit,
            ) by {}
            lemma_name_try_none(s@, i as int, k - 1);
        }
        None
    }
}

fn altman_at_exec(s: &[char], i: usize) -> (r: Option<usize>)
    requires
        i < s@.len(),
    ensures
        r == (match altman_at(s@, i as int) { Some(e) => Some(e as usize), None => None }),
        r matches Some(e) ==> i < e <= s@.len(),
{
    if s[i] != '>' {
        return None;
    }
    let le = run_end_exec(s, i + 1, CharClass::RatingLetter);
    proof {
        lemma_run_end(s@, i + 1, CharClass::RatingLetter);
    }
    let l = le - (i + 1);
    if l < 1 {
        return None;
    }
    if l > 3 {
        proof {
            assert forall|j: int| 1 <= j <= 3 implies i + 1 + j < s@.len() && in_class(
                #[trigger] s@[i + 1 + j],
                CharClass::RatingLetter,
            ) by {}
            lemma_letters_none(s@, i as int, 3);
        }
        return None;
    }
    let p = le;
    let q = run_end_exec(s, p, CharClass::Sign);
    proof {
        lemma_run_end(s@, p as int, CharClass::Sign);
    }
    let span = span_close_exec();
    if occurs_at_exec(s, span.as_slice(), q) {
        assert(q + 7 <= s@.len());
        Some(q)
    } else {
        proof {
            let b = q - p;
            assert forall|j: int| 0 <= j <= b - 1 implies p + j < s@.len() && in_class(
                #[trigger] s@[p + j],
                CharClass::Sign,
            ) by {}
            lemma_signs_none(s@, p as int, b - 1);
            assert forall|j: int| 1 <= j <= l - 1 implies i + 1 + j < s@.len() && in_class(
                #[trigger] s@[i + 1 + j],
                CharClass::RatingLetter,
            ) by {}
            lemma_letters_none(s@, i as int, l - 1);
        }
        None
    }
}

fn fscore_at_exec(s: &[char], i: usize) -> (r: Option<usize>)
    requires
        i < s@.len(),
    ensures
        r == (match fscore_at(s@, i as int) { Some(e) => Some(e as usize), None => None }),
        r matches Some(e) ==> i < e <= s@.len(),
{
    let span = span_close_exec();
    if s.len() - i >= 2 && s[i] == '>' && in_class_exec(s[i + 1], CharClass::Digit)
        && occurs_at_exec(s, span.as_slice(), i + 2) {
        Some(i + 2)
    } else {
        None
    }
}

fn float_tail_exec(s: &[char], q: usize) -> (b: bool)
    ensures
        b == float_tail(s@, q as int),
{
    let div = div_close_exec();
    if q < s.len() && s[q] == '%' && occurs_at_exec(s, div.as_slice(), q + 1) {
        true
    } else {
        occurs_at_exec(s, div.as_slice(), q)
    }
}

fn float_at_exec(s: &[char], i: usize) -> (r: Option<usize>)
    requires
        i < s@.len(),
    ensures
        r == (match float_at(s@, i as int) { Some(e) => Some(e as usize), None => None }),
        r matches Some(e) ==> i < e <= s@.len(),
{
    if s[i] != '>' {
        return None;
    }
    let e = run_end_exec(s, i + 1, CharClass::Digit);
    proof {
        lemma_run_end(s@, i + 1, CharClass::Digit);
    }
    let m = e - (i + 1);
    // the first digits take the whole run, the any-character the next one
    if e < s.len() && s[e] != '\n' {
        let e2 = run_end_exec(s, e + 1, CharClass::Digit);
        proof {
            lemma_second_run(s@, e as int);
            lemma_run_end(s@, e + 1, CharClass::Digit);
        }
        if float_tail_exec(s, e2) {
            return Some(e2);
        }
    }
    proof {
        let p = i + 1 + m;
        assert(p == e);
    }
    // the first digits give up at least one digit to the any-character
    if m >= 1 && float_tail_exec(s, e) {
        proof {
            lemma_first_inside(s@, i as int, m - 1);
        }
        Some(e)
    } else {
        proof {
            if m >= 1 {
                lemma_first_inside(s@, i as int, m - 1);
            }
        }
        None
    }
}

/// The end of the group of the match of `pattern` that starts at `i`.
pub fn match_at_exec(pattern: Pattern, s: &[char], i: usize) -> (r: Option<usize>)
    requires
        i < s@.len(),
    ensures
        r == (match match_at(pattern, s@, i as int) { Some(e) => Some(e as usize), None => None }),
        r matches Some(e) ==> i < e <= s@.len(),
{
    match pattern {
        Pattern::Ticker => ticker_at_exec(s, i),
        Pattern::Name => name_at_exec(s, i),
        Pattern::Altman => altman_at_exec(s, i),
        Pattern::FScore => fscore_at_exec(s, i),
        Pattern::Float => float_at_exec(s, i),
    }
}

/// The start of the leftmost match of `pattern` in `s` and the end of its
/// group.
pub fn find_first(pattern: Pattern, s: &[char]) -> (r: Option<(usize, usize)>)
    ensures
        r == (match leftmost_from(pattern, s@, 0) {
            Some((i, e)) => Some((i as usize, e as usize)),
            None => None,
        }),
        r matches Some((i, e)) ==> i < e <= s@.len(),
{
    let n = s.len();
    let mut i: usize = 0;
    while i < n
        invariant
            i <= n,
            n == s@.len(),
            leftmost_from(pattern, s@, 0) == leftmost_from(pattern, s@, i as int),
        decreases n - i,
    {
        match match_at_exec(pattern, s, i) {
            Some(e) => {
                return Some((i, e));
            },
            None => {},
        }
        i = i + 1;
    }
    None
}

} // verus!
