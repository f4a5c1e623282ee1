//! Lowering the `^` power operator to the evaluator's `math::pow` call.
//!
//! The rewriting finds `base ^ exponent` occurrences whose operands are
//! identifiers, number literals or parenthesised groups, and rewrites the
//! first occurrence of the matched text until none is left.

use crate::jsonpath::is_word_char;
use crate::numfmt::is_digit;
use crate::strutil::{first_occurrence_from, occurs_at};
use vstd::prelude::*;

verus! {

/// Whether a character is white space, in the sense the operand
/// spacing, expression trimming and schedule field splitting use: the
/// Unicode white-space characters.
pub open spec fn is_space(c: char) -> bool {
    ||| c == ' '
    ||| c == '\t'
    ||| c == '\n'
    ||| c == '\r'
    ||| c == '\u{b}'
    ||| c == '\u{c}'
    ||| c == '\u{85}'
    ||| c == '\u{a0}'
    ||| c == '\u{1680}'
    ||| ('\u{2000}' <= c && c <= '\u{200a}')
    ||| c == '\u{2028}'
    ||| c == '\u{2029}'
    ||| c == '\u{202f}'
    ||| c == '\u{205f}'
    ||| c == '\u{3000}'
}

/// Test whether a character is white space.
pub fn is_space_exec(c: char) -> (r: bool)
    ensures
        r == is_space(c),
{
    c == ' ' || c == '\t' || c == '\n' || c == '\r' || c == '\u{b}' || c == '\u{c}' || c
        == '\u{85}' || c == '\u{a0}' || c == '\u{1680}' || ('\u{2000}' <= c && c <= '\u{200a}')
        || c == '\u{2028}' || c == '\u{2029}' || c == '\u{202f}' || c == '\u{205f}' || c
        == '\u{3000}'
}

/// The end of the run of spacing characters starting at `i`.
pub open spec fn space_run_end(s: Seq<char>, i: int) -> int
    decreases s.len() - i,
{
    if 0 <= i < s.len() && is_space(s[i]) {
        space_run_end(s, i + 1)
    } else {
        i
    }
}

pub proof fn lemma_space_run_end(s: Seq<char>, i: int)
    requires
        0 <= i <= s.len(),
    ensures
        i <= space_run_end(s, i) <= s.len(),
        forall|k: int| i <= k < space_run_end(s, i) ==> is_space(s[k]),
    decreases s.len() - i,
{
    if i < s.len() && is_space(s[i]) {
        lemma_space_run_end(s, i + 1);
    }
}

/// The end of the run of word characters starting at `i`.
pub open spec fn wrun(s: Seq<char>, i: int) -> int
    decreases s.len() - i,
{
    if 0 <= i < s.len() && is_word_char(s[i]) {
        wrun(s, i + 1)
    } else {
        i
    }
}

pub proof fn lemma_wrun(s: Seq<char>, i: int)
    requires
        0 <= i <= s.len(),
    ensures
        i <= wrun(s, i) <= s.len(),
    decreases s.len() - i,
{
    if i < s.len() && is_word_char(s[i]) {
        lemma_wrun(s, i + 1);
    }
}

/// The end of the run of digits starting at `i`.
pub open spec fn drun(s: Seq<char>, i: int) -> int
    decreases s.len() - i,
{
    if 0 <= i < s.len() && is_digit(s[i]) {
        drun(s, i + 1)
    } else {
        i
    }
}

pub proof fn lemma_drun(s: Seq<char>, i: int)
    requires
        0 <= i <= s.len(),
    ensures
        i <= drun(s, i) <= s.len(),
    decreases s.len() - i,
{
    if i < s.len() && is_digit(s[i]) {
        lemma_drun(s, i + 1);
    }
}

/// The position just past the closing parenthesis of a group starting
/// at `i`, when `s[i]` is `(`, the group has at least one inner
/// character, and a closing parenthesis follows.
pub open spec fn paren_end(s: Seq<char>, i: int) -> Option<int> {
    if 0 <= i < s.len() && s[i] == '(' {
        match crate::strutil::char_pos(s, ')', i + 1) {
            Some(j) => if j > i + 1 {
                Some(j + 1)
            } else {
                None
            },
            None => None,
        }
    } else {
        None
    }
}

/// Where the spacing run from `e` meets a `^`, the position after the
/// `^`'s trailing spacing; absent otherwise.
pub open spec fn caret_after(s: Seq<char>, e: int) -> Option<(int, int)> {
    let t = space_run_end(s, e);
    if t < s.len() && s[t] == '^' {
        Some((t, space_run_end(s, t + 1)))
    } else {
        None
    }
}

/// The end of the second operand read greedily at `u`: a word run, else
/// a number literal, else a parenthesised group.
pub open spec fn operand2_end(s: Seq<char>, u: int) -> Option<int> {
    if 0 <= u < s.len() && is_word_char(s[u]) {
        Some(wrun(s, u))
    } else if 0 <= u < s.len() && is_digit(s[u]) {
        let d = drun(s, u);
        if d < s.len() && s[d] == '.' {
            Some(drun(s, d + 1))
        } else {
            Some(d)
        }
    } else {
        paren_end(s, u)
    }
}

/// A `base ^ exponent` occurrence: the operand bounds and the caret.
pub ghost struct PowerMatch {
    pub lo: int,
    pub b_hi: int,
    pub e_lo: int,
    pub hi: int,
}

/// The match starting exactly at `lo`, following the preference order
/// of the operand alternatives: a word run first, then a number
/// literal with its fraction preferred longest, then a group.
pub open spec fn power_match_at(s: Seq<char>, lo: int) -> Option<PowerMatch> {
    if 0 <= lo < s.len() && is_word_char(s[lo]) && power_op2(s, lo, wrun(s, lo)) is Some {
        power_op2(s, lo, wrun(s, lo))
    } else if 0 <= lo < s.len() && is_digit(s[lo]) {
        let d = drun(s, lo);
        if d < s.len() && s[d] == '.' {
            let f = drun(s, d + 1);
            if power_op2(s, lo, f) is Some {
                power_op2(s, lo, f)
            } else if power_op2(s, lo, d + 1) is Some {
                power_op2(s, lo, d + 1)
            } else {
                power_op2(s, lo, d)
            }
        } else {
            power_op2(s, lo, d)
        }
    } else {
        match paren_end(s, lo) {
            Some(e) => power_op2(s, lo, e),
            None => None,
        }
    }
}

/// The rest of a match whose first operand ends at `b_hi`: spacing, a
/// caret, spacing, and the second operand.
pub open spec fn power_op2(s: Seq<char>, lo: int, b_hi: int) -> Option<PowerMatch> {
    match caret_after(s, b_hi) {
        Some((_t, u)) => match operand2_end(s, u) {
            Some(hi) => Some(PowerMatch { lo, b_hi, e_lo: u, hi }),
            None => None,
        },
        None => None,
    }
}

/// The leftmost `base ^ exponent` occurrence at or after `i`.
pub open spec fn first_power_match(s: Seq<char>, i: int) -> Option<PowerMatch>
    decreases s.len() - i,
{
    if i < 0 || i >= s.len() {
        None
    } else if power_match_at(s, i) is Some {
        power_match_at(s, i)
    } else {
        first_power_match(s, i + 1)
    }
}

/// How many times a character occurs.
pub open spec fn count_char(s: Seq<char>, c: char) -> int
    decreases s.len(),
{
    if s.len() == 0 {
        0int
    } else {
        count_char(s.drop_last(), c) + if s.last() == c {
            1int
        } else {
            0int
        }
    }
}

pub proof fn lemma_count_char_nonneg(s: Seq<char>, c: char)
    ensures
        count_char(s, c) >= 0,
    decreases s.len(),
{
    if s.len() > 0 {
        lemma_count_char_nonneg(s.drop_last(), c);
    }
}

pub proof fn lemma_count_char_concat(a: Seq<char>, b: Seq<char>, c: char)
    ensures
        count_char(a + b, c) == count_char(a, c) + count_char(b, c),
    decreases b.len(),
{
    if b.len() == 0 {
        assert(a + b =~= a);
    } else {
        assert((a + b).drop_last() =~= a + b.drop_last());
        assert((a + b).last() == b.last());
        lemma_count_char_concat(a, b.drop_last(), c);
    }
}

pub proof fn lemma_count_char_none(s: Seq<char>, c: char)
    requires
        forall|i: int| 0 <= i < s.len() ==> s[i] != c,
    ensures
        count_char(s, c) == 0,
    decreases s.len(),
{
    if s.len() > 0 {
        lemma_count_char_none(s.drop_last(), c);
    }
}

/// The replacement text of one match: the call form around the two
/// operand texts.
pub open spec fn spec_pow_call(base: Seq<char>, exp: Seq<char>) -> Seq<char> {
    seq!['m', 'a', 't', 'h', ':', ':', 'p', 'o', 'w', '('] + base + seq![',', ' '] + exp + seq![
        ')',
    ]
}

/// One rewriting step: replace the first occurrence of the matched text
/// with the call form.
pub open spec fn spec_pow_step(s: Seq<char>, m: PowerMatch) -> Seq<char> {
    let matched = s.subrange(m.lo, m.hi);
    let rep = spec_pow_call(s.subrange(m.lo, m.b_hi), s.subrange(m.e_lo, m.hi));
    spec_replace_first(s, matched, rep)
}

/// Replacing the first occurrence of `from`, when there is one.
pub open spec fn spec_replace_first(s: Seq<char>, from: Seq<char>, to: Seq<char>) -> Seq<char> {
    match first_occurrence_from(s, from, 0) {
        Some(k) => s.take(k) + to + s.skip(k + from.len()),
        None => s,
    }
}

/// A well-formed match: operands inside the text, the caret between
/// them, spacing around the caret.
pub open spec fn power_match_wf(s: Seq<char>, m: PowerMatch) -> bool {
    &&& 0 <= m.lo <= m.b_hi
    &&& m.b_hi < m.e_lo <= m.hi <= s.len()
    &&& exists|t: int|
        m.b_hi <= t < m.e_lo && s[t] == '^' && (forall|k: int|
            m.b_hi <= k < t ==> is_space(s[k])) && (forall|k: int|
            t < k < m.e_lo ==> is_space(s[k]))
}

/// Repeatedly lowering `^` occurrences until none is left.
pub open spec fn spec_convert_power(s: Seq<char>) -> Seq<char>
    decreases count_char(s, '^'),
    when count_char(s, '^') >= 0
    via spec_convert_power_decreases
{
    match first_power_match(s, 0) {
        None => s,
        Some(m) => spec_convert_power(spec_pow_step(s, m)),
    }
}

#[via_fn]
proof fn spec_convert_power_decreases(s: Seq<char>) {
    match first_power_match(s, 0) {
        None => {},
        Some(m) => {
            lemma_first_power_match_wf(s, 0);
            lemma_pow_step_decreases(s, m);
        },
    }
}

/// A found match is well-formed.
pub proof fn lemma_first_power_match_wf(s: Seq<char>, i: int)
    requires
        first_power_match(s, i) is Some,
    ensures
        power_match_wf(s, first_power_match(s, i)->0),
    decreases s.len() - i,
{
    if 0 <= i < s.len() && power_match_at(s, i) is Some {
        lemma_power_match_at_wf(s, i);
    } else if 0 <= i < s.len() {
        lemma_first_power_match_wf(s, i + 1);
    }
}

proof fn lemma_operand2_end_bounds(s: Seq<char>, u: int)
    requires
        0 <= u,
        operand2_end(s, u) is Some,
    ensures
        u < operand2_end(s, u)->0 <= s.len(),
{
    if u < s.len() && is_word_char(s[u]) {
        lemma_wrun(s, u + 1);
        assert(wrun(s, u) > u);
    } else if u < s.len() && is_digit(s[u]) {
        lemma_drun(s, u + 1);
        let d = drun(s, u);
        if d < s.len() && s[d] == '.' {
            lemma_drun(s, d + 1);
        }
        assert(d > u);
    } else {
        crate::strutil::lemma_char_pos(s, ')', u + 1);
    }
}

proof fn lemma_power_op2_wf(s: Seq<char>, lo: int, b_hi: int)
    requires
        0 <= lo <= b_hi <= s.len(),
        power_op2(s, lo, b_hi) is Some,
    ensures
        power_match_wf(s, power_op2(s, lo, b_hi)->0),
{
    let t = space_run_end(s, b_hi);
    lemma_space_run_end(s, b_hi);
    let u = space_run_end(s, t + 1);
    lemma_space_run_end(s, t + 1);
    lemma_operand2_end_bounds(s, u);
}

proof fn lemma_power_match_at_wf(s: Seq<char>, lo: int)
    requires
        power_match_at(s, lo) is Some,
    ensures
        power_match_wf(s, power_match_at(s, lo)->0),
{
    if 0 <= lo < s.len() && is_word_char(s[lo]) && power_op2(s, lo, wrun(s, lo)) is Some {
        lemma_wrun(s, lo);
        lemma_power_op2_wf(s, lo, wrun(s, lo));
    } else if 0 <= lo < s.len() && is_digit(s[lo]) {
        lemma_drun(s, lo);
        let d = drun(s, lo);
        if d < s.len() && s[d] == '.' {
            lemma_drun(s, d + 1);
            let f = drun(s, d + 1);
            if power_op2(s, lo, f) is Some {
                lemma_power_op2_wf(s, lo, f);
            } else if power_op2(s, lo, d + 1) is Some {
                lemma_power_op2_wf(s, lo, d + 1);
            } else {
                lemma_power_op2_wf(s, lo, d);
            }
        } else {
            lemma_power_op2_wf(s, lo, d);
        }
    } else {
        crate::strutil::lemma_char_pos(s, ')', lo + 1);
        let e = paren_end(s, lo)->0;
        lemma_power_op2_wf(s, lo, e);
    }
}

/// One rewriting step removes exactly one caret.
proof fn lemma_pow_step_decreases(s: Seq<char>, m: PowerMatch)
    requires
        power_match_wf(s, m),
    ensures
        count_char(spec_pow_step(s, m), '^') == count_char(s, '^') - 1,
        count_char(spec_pow_step(s, m), '^') >= 0,
{
    let matched = s.subrange(m.lo, m.hi);
    let base = s.subrange(m.lo, m.b_hi);
    let exp = s.subrange(m.e_lo, m.hi);
    let rep = spec_pow_call(base, exp);
    let t = choose|t: int|
        m.b_hi <= t < m.e_lo && s[t] == '^' && (forall|k: int|
            m.b_hi <= k < t ==> is_space(s[k])) && (forall|k: int|
            t < k < m.e_lo ==> is_space(s[k]));
    assert(matched =~= base + s.subrange(m.b_hi, t) + seq!['^'] + s.subrange(t + 1, m.e_lo)
        + exp);
    lemma_count_char_concat(base + s.subrange(m.b_hi, t) + seq!['^'] + s.subrange(t + 1, m.e_lo),
        exp, '^');
    lemma_count_char_concat(base + s.subrange(m.b_hi, t) + seq!['^'], s.subrange(t + 1, m.e_lo),
        '^');
    lemma_count_char_concat(base + s.subrange(m.b_hi, t), seq!['^'], '^');
    lemma_count_char_concat(base, s.subrange(m.b_hi, t), '^');
    assert(count_char(seq!['^'], '^') == 1) by {
        assert(seq!['^'].drop_last() =~= Seq::<char>::empty());
        assert(count_char(Seq::<char>::empty(), '^') == 0);
    }
    lemma_count_char_none(s.subrange(m.b_hi, t), '^');
    lemma_count_char_none(s.subrange(t + 1, m.e_lo), '^');
    assert(count_char(matched, '^') == count_char(base, '^') + count_char(exp, '^') + 1);
    let lit1 = seq!['m', 'a', 't', 'h', ':', ':', 'p', 'o', 'w', '('];
    let lit2 = seq![',', ' '];
    let lit3 = seq![')'];
    lemma_count_char_none(lit1, '^');
    lemma_count_char_none(lit2, '^');
    lemma_count_char_none(lit3, '^');
    lemma_count_char_concat(lit1 + base + lit2 + exp, lit3, '^');
    lemma_count_char_concat(lit1 + base + lit2, exp, '^');
    lemma_count_char_concat(lit1 + base, lit2, '^');
    lemma_count_char_concat(lit1, base, '^');
    assert(rep =~= lit1 + base + lit2 + exp + lit3);
    assert(count_char(rep, '^') == count_char(matched, '^') - 1);
    assert(occurs_at(s, matched, m.lo)) by {
        assert(s.subrange(m.lo, m.lo + matched.len()) =~= matched);
    }
    let k = first_occurrence_from(s, matched, 0);
    assert(k is Some) by {
        if k is None {
            crate::strutil::lemma_occurrence_found(s, matched, 0, m.lo);
        }
    }
    let kk = k->0;
    crate::strutil::lemma_first_occurrence_some(s, matched, 0, kk);
    assert(s =~= s.take(kk) + matched + s.skip(kk + matched.len()));
    lemma_count_char_concat(s.take(kk) + matched, s.skip(kk + matched.len()), '^');
    lemma_count_char_concat(s.take(kk), matched, '^');
    let r = s.take(kk) + rep + s.skip(kk + matched.len());
    lemma_count_char_concat(s.take(kk) + rep, s.skip(kk + matched.len()), '^');
    lemma_count_char_concat(s.take(kk), rep, '^');
    assert(spec_pow_step(s, m) == r);
    lemma_count_char_nonneg(s.take(kk), '^');
    lemma_count_char_nonneg(s.skip(kk + matched.len()), '^');
    lemma_count_char_nonneg(base, '^');
    lemma_count_char_nonneg(exp, '^');
}

fn space_run_end_exec(s: &Vec<char>, i: usize) -> (r: usize)
    requires
        i <= s@.len(),
    ensures
        r == space_run_end(s@, i as int),
        i <= r <= s@.len(),
    decreases s@.len() - i,
{
    if i < s.len() && is_space_exec(s[i]) {
        return space_run_end_exec(s, i + 1);
    }
    i
}

fn wrun_exec(s: &Vec<char>, i: usize) -> (r: usize)
    requires
        i <= s@.len(),
    ensures
        r == wrun(s@, i as int),
        i <= r <= s@.len(),
    decreases s@.len() - i,
{
    if i < s.len() {
        let c = s[i];
        if ('a' <= c && c <= 'z') || ('A' <= c && c <= 'Z') || ('0' <= c && c <= '9') || c == '_' {
            return wrun_exec(s, i + 1);
        }
    }
    i
}

fn drun_exec(s: &Vec<char>, i: usize) -> (r: usize)
    requires
        i <= s@.len(),
    ensures
        r == drun(s@, i as int),
        i <= r <= s@.len(),
    decreases s@.len() - i,
{
    if i < s.len() {
        let c = s[i];
        if '0' <= c && c <= '9' {
            return drun_exec(s, i + 1);
        }
    }
    i
}

fn paren_end_exec(s: &Vec<char>, i: usize) -> (r: Option<usize>)
    requires
        i <= s@.len(),
    ensures
        match r {
            Some(e) => paren_end(s@, i as int) == Some(e as int) && i < e <= s@.len(),
            None => paren_end(s@, i as int) is None,
        },
{
    if i < s.len() && s[i] == '(' {
        match crate::strutil::find_char(s, ')', i + 1) {
            Some(j) => if j > i + 1 {
                Some(j + 1)
            } else {
                None
            },
            None => None,
        }
    } else {
        None
    }
}

fn operand2_end_exec(s: &Vec<char>, u: usize) -> (r: Option<usize>)
    requires
        u <= s@.len(),
    ensures
        match r {
            Some(e) => operand2_end(s@, u as int) == Some(e as int) && u < e <= s@.len(),
            None => operand2_end(s@, u as int) is None,
        },
{
    if u < s.len() {
        let c = s[u];
        if ('a' <= c && c <= 'z') || ('A' <= c && c <= 'Z') || ('0' <= c && c <= '9') || c == '_' {
            proof {
                lemma_wrun(s@, u + 1);
            }
            return Some(wrun_exec(s, u));
        }
    }
    paren_end_exec(s, u)
}

/// An exec-side match: operand bounds within the text.
struct PmExec {
    lo: usize,
    b_hi: usize,
    e_lo: usize,
    hi: usize,
}

fn power_op2_exec(s: &Vec<char>, lo: usize, b_hi: usize) -> (r: Option<PmExec>)
    requires
        lo <= b_hi <= s@.len(),
    ensures
        match r {
            Some(m) => power_op2(s@, lo as int, b_hi as int) == Some(
                PowerMatch {
                    lo: m.lo as int,
                    b_hi: m.b_hi as int,
                    e_lo: m.e_lo as int,
                    hi: m.hi as int,
                },
            ) && m.lo == lo && m.b_hi == b_hi && m.b_hi < m.e_lo && m.e_lo <= m.hi <= s@.len(),
            None => power_op2(s@, lo as int, b_hi as int) is None,
        },
{
    let t = space_run_end_exec(s, b_hi);
    if t < s.len() && s[t] == '^' {
        let u = space_run_end_exec(s, t + 1);
        match operand2_end_exec(s, u) {
            Some(hi) => Some(PmExec { lo, b_hi, e_lo: u, hi }),
            None => None,
        }
    } else {
        None
    }
}

fn power_match_at_exec(s: &Vec<char>, lo: usize) -> (r: Option<PmExec>)
    requires
        lo < s@.len(),
    ensures
        match r {
            Some(m) => power_match_at(s@, lo as int) == Some(
                PowerMatch {
                    lo: m.lo as int,
                    b_hi: m.b_hi as int,
                    e_lo: m.e_lo as int,
                    hi: m.hi as int,
                },
            ) && m.lo == lo && lo <= m.b_hi < m.e_lo && m.e_lo <= m.hi <= s@.len(),
            None => power_match_at(s@, lo as int) is None,
        },
{
    let c = s[lo];
    if ('a' <= c && c <= 'z') || ('A' <= c && c <= 'Z') || ('0' <= c && c <= '9') || c == '_' {
        proof {
            lemma_wrun(s@, lo as int);
        }
        let w = wrun_exec(s, lo);
        let first = power_op2_exec(s, lo, w);
        if first.is_some() {
            return first;
        }
        if '0' <= c && c <= '9' {
            proof {
                lemma_drun(s@, lo as int);
            }
            let d = drun_exec(s, lo);
            if d < s.len() && s[d] == '.' {
                let f = drun_exec(s, d + 1);
                let second = power_op2_exec(s, lo, f);
                if second.is_some() {
                    return second;
                }
                let third = power_op2_exec(s, lo, d + 1);
                if third.is_some() {
                    return third;
                }
                return power_op2_exec(s, lo, d);
            }
            return power_op2_exec(s, lo, d);
        }
        return None;
    }
    if '0' <= c && c <= '9' {
        return None;
    }
    match paren_end_exec(s, lo) {
        Some(e) => power_op2_exec(s, lo, e),
        None => None,
    }
}

fn first_power_match_exec(s: &Vec<char>, i: usize) -> (r: Option<PmExec>)
    requires
        i <= s@.len(),
    ensures
        match r {
            Some(m) => first_power_match(s@, i as int) == Some(
                PowerMatch {
                    lo: m.lo as int,
                    b_hi: m.b_hi as int,
                    e_lo: m.e_lo as int,
                    hi: m.hi as int,
                },
            ) && i <= m.lo <= m.b_hi && m.b_hi < m.e_lo && m.e_lo <= m.hi <= s@.len(),
            None => first_power_match(s@, i as int) is None,
        },
    decreases s@.len() - i,
{
    if i >= s.len() {
        return None;
    }
    match power_match_at_exec(s, i) {
        Some(m) => Some(m),
        None => first_power_match_exec(s, i + 1),
    }
}

/// Apply one rewriting step to the characters.
#[verifier::loop_isolation(false)]
fn pow_step_exec(s: &Vec<char>, m: &PmExec) -> (r: Vec<char>)
    requires
        m.lo <= m.b_hi <= s@.len(),
        m.b_hi < m.e_lo,
        m.e_lo <= m.hi <= s@.len(),
    ensures
        r@ == spec_pow_step(
            s@,
            PowerMatch {
                lo: m.lo as int,
                b_hi: m.b_hi as int,
                e_lo: m.e_lo as int,
                hi: m.hi as int,
            },
        ),
{
    let ghost mm = PowerMatch {
        lo: m.lo as int,
        b_hi: m.b_hi as int,
        e_lo: m.e_lo as int,
        hi: m.hi as int,
    };
    let mut matched: Vec<char> = Vec::new();
    crate::strutil::push_range(&mut matched, s, m.lo, m.hi);
    proof {
        assert(matched@ =~= s@.subrange(mm.lo, mm.hi));
    }
    let mut rep: Vec<char> = Vec::new();
    let lit1 = crate::strutil::string_to_chars("math::pow(");
    crate::strutil::push_range(&mut rep, &lit1, 0, lit1.len());
    crate::strutil::push_range(&mut rep, s, m.lo, m.b_hi);
    rep.push(',');
    rep.push(' ');
    crate::strutil::push_range(&mut rep, s, m.e_lo, m.hi);
    rep.push(')');
    proof {
        reveal_strlit("math::pow(");
        assert("math::pow("@ =~= seq!['m', 'a', 't', 'h', ':', ':', 'p', 'o', 'w', '(']);
        assert(lit1@.subrange(0, lit1@.len() as int) =~= lit1@);
        assert(rep@ =~= spec_pow_call(s@.subrange(mm.lo, mm.b_hi), s@.subrange(mm.e_lo, mm.hi)));
    }
    match crate::strutil::find_from(s, &matched, 0) {
        Some(k) => {
            let n: usize = s.len();
            let mut out: Vec<char> = Vec::new();
            crate::strutil::push_range(&mut out, s, 0, k);
            crate::strutil::push_range(&mut out, &rep, 0, rep.len());
            crate::strutil::push_range(&mut out, s, k + matched.len(), n);
            proof {
                assert(s@.subrange(0, k as int) =~= s@.take(k as int));
                assert(rep@.subrange(0, rep@.len() as int) =~= rep@);
                assert(s@.subrange(k + matched@.len(), s@.len() as int) =~= s@.skip(
                    k + matched@.len(),
                ));
                assert(out@ =~= s@.take(k as int) + rep@ + s@.skip(k + matched@.len()));
            }
            out
        },
        None => {
            proof {
                assert(occurs_at(s@, matched@, mm.lo)) by {
                    assert(s@.subrange(mm.lo, mm.lo + matched@.len()) =~= matched@);
                }
                crate::strutil::lemma_occurrence_found(s@, matched@, 0, mm.lo);
                assert(false);
            }
            Vec::new()
        },
    }
}

/// Rewrite every `base ^ exponent` occurrence to the call form, first
/// occurrence first, until none is left.
#[verifier::loop_isolation(false)]
pub fn convert_power_chars(s: Vec<char>) -> (r: Vec<char>)
    ensures
        r@ == spec_convert_power(s@),
{
    let mut cur = s;
    proof {
        lemma_count_char_nonneg(cur@, '^');
    }
    loop
        invariant
            spec_convert_power(cur@) == spec_convert_power(s@),
            count_char(cur@, '^') >= 0,
        decreases count_char(cur@, '^'),
    {
        match first_power_match_exec(&cur, 0) {
            None => {
                return cur;
            },
            Some(m) => {
                proof {
                    lemma_first_power_match_wf(cur@, 0);
                    lemma_pow_step_decreases(
                        cur@,
                        PowerMatch {
                            lo: m.lo as int,
                            b_hi: m.b_hi as int,
                            e_lo: m.e_lo as int,
                            hi: m.hi as int,
                        },
                    );
                }
                cur = pow_step_exec(&cur, &m);
            },
        }
    }
}

/// Rewrite the `^` operator in an expression to the evaluator's power
/// call, as [`spec_convert_power`] describes.
pub fn convert_power_operator(expr: &str) -> (r: String)
    ensures
        r@ == spec_convert_power(expr@),
{
    let chars = crate::strutil::string_to_chars(expr);
    let converted = convert_power_chars(chars);
    crate::strutil::chars_to_string(&converted)
}

} // verus!
