//! The JSONPath extractor: `$.`-rooted paths with dotted keys, integer
//! array indices and bracket-quoted keys, resolved against a JSON value.

use crate::json::{jv_of, JsonValue, Jv};
use crate::numfmt::{is_digit, spec_dec_value};
use crate::strutil::chars_to_string;
use vstd::prelude::*;

verus! {

/// One step of a path: an object key or an array index.
pub enum PathSeg {
    Key(String),
    Index(u64),
}

/// The model of a path step.
pub ghost enum SegV {
    Key(Seq<char>),
    Index(int),
}

impl View for PathSeg {
    type V = SegV;

    open spec fn view(&self) -> SegV {
        match self {
            PathSeg::Key(k) => SegV::Key(k@),
            PathSeg::Index(n) => SegV::Index(*n as int),
        }
    }
}

impl DeepView for PathSeg {
    type V = SegV;

    open spec fn deep_view(&self) -> SegV {
        self.view()
    }
}

/// Whether a character may stand in a dotted key.
pub open spec fn is_word_char(c: char) -> bool {
    ('a' <= c && c <= 'z') || ('A' <= c && c <= 'Z') || is_digit(c) || c == '_'
}

/// The end of the run of word characters starting at `i`.
pub open spec fn word_run_end(s: Seq<char>, i: int) -> int
    decreases s.len() - i,
{
    if 0 <= i < s.len() && is_word_char(s[i]) {
        word_run_end(s, i + 1)
    } else {
        i
    }
}

/// The end of the run of digit characters starting at `i`.
pub open spec fn digit_run_end(s: Seq<char>, i: int) -> int
    decreases s.len() - i,
{
    if 0 <= i < s.len() && is_digit(s[i]) {
        digit_run_end(s, i + 1)
    } else {
        i
    }
}

/// The least position at or after `i` holding a quote, if any.
pub open spec fn quote_pos(s: Seq<char>, i: int) -> Option<int>
    decreases s.len() - i,
{
    if i < 0 || i >= s.len() {
        None
    } else if s[i] == '\'' {
        Some(i)
    } else {
        quote_pos(s, i + 1)
    }
}

/// The parsed steps of the path text from position `i` on: `.key`,
/// `[index]` and `['key']` steps until the end of the text, or nothing
/// when the text does not fit that shape.
pub open spec fn spec_parse_segs(s: Seq<char>, i: int) -> Option<Seq<SegV>>
    decreases s.len() - i,
    via spec_parse_segs_decreases
{
    if i < 0 || i > s.len() {
        None
    } else if i == s.len() {
        Some(Seq::<SegV>::empty())
    } else if s[i] == '.' {
        let j = word_run_end(s, i + 1);
        if j == i + 1 {
            None
        } else {
            match spec_parse_segs(s, j) {
                Some(rest) => Some(seq![SegV::Key(s.subrange(i + 1, j))] + rest),
                None => None,
            }
        }
    } else if s[i] == '[' {
        if i + 1 < s.len() && s[i + 1] == '\'' {
            match quote_pos(s, i + 2) {
                Some(k) => if k + 1 < s.len() && s[k + 1] == ']' {
                    match spec_parse_segs(s, k + 2) {
                        Some(rest) => Some(seq![SegV::Key(s.subrange(i + 2, k))] + rest),
                        None => None,
                    }
                } else {
                    None
                },
                None => None,
            }
        } else {
            let j = digit_run_end(s, i + 1);
            if j == i + 1 || j >= s.len() || s[j] != ']' || spec_dec_value(
                s.subrange(i + 1, j),
            ) > u64::MAX {
                None
            } else {
                match spec_parse_segs(s, j + 1) {
                    Some(rest) => Some(
                        seq![SegV::Index(spec_dec_value(s.subrange(i + 1, j)))] + rest,
                    ),
                    None => None,
                }
            }
        }
    } else {
        None
    }
}

#[via_fn]
proof fn spec_parse_segs_decreases(s: Seq<char>, i: int) {
    if 0 <= i < s.len() {
        if s[i] == '.' {
            lemma_word_run_end(s, i + 1);
        } else if s[i] == '[' {
            if i + 1 < s.len() && s[i + 1] == '\'' {
                if quote_pos(s, i + 2) is Some {
                    lemma_quote_pos(s, i + 2);
                }
            } else {
                lemma_digit_run_end(s, i + 1);
            }
        }
    }
}

/// The run of word characters ends within the text, at or after where
/// it starts.
pub proof fn lemma_word_run_end(s: Seq<char>, i: int)
    requires
        0 <= i <= s.len(),
    ensures
        i <= word_run_end(s, i) <= s.len(),
        forall|k: int| i <= k < word_run_end(s, i) ==> is_word_char(s[k]),
        word_run_end(s, i) < s.len() ==> !is_word_char(s[word_run_end(s, i)]),
    decreases s.len() - i,
{
    if i < s.len() && is_word_char(s[i]) {
        lemma_word_run_end(s, i + 1);
    }
}

/// The run of digits ends within the text, at or after where it starts.
pub proof fn lemma_digit_run_end(s: Seq<char>, i: int)
    requires
        0 <= i <= s.len(),
    ensures
        i <= digit_run_end(s, i) <= s.len(),
        forall|k: int| i <= k < digit_run_end(s, i) ==> is_digit(s[k]),
        digit_run_end(s, i) < s.len() ==> !is_digit(s[digit_run_end(s, i)]),
    decreases s.len() - i,
{
    if i < s.len() && is_digit(s[i]) {
        lemma_digit_run_end(s, i + 1);
    }
}

/// A found quote lies within the text, at or after the start.
pub proof fn lemma_quote_pos(s: Seq<char>, i: int)
    requires
        quote_pos(s, i) is Some,
    ensures
        i <= quote_pos(s, i)->0 < s.len(),
        s[quote_pos(s, i)->0] == '\'',
    decreases s.len() - i,
{
    if 0 <= i < s.len() && s[i] != '\'' {
        lemma_quote_pos(s, i + 1);
    }
}

/// The parsed steps of a whole path: a leading `$`, then the steps.
pub open spec fn spec_parse_path(s: Seq<char>) -> Option<Seq<SegV>> {
    if s.len() >= 1 && s[0] == '$' {
        spec_parse_segs(s, 1)
    } else {
        None
    }
}

fn word_run_end_exec(s: &Vec<char>, i: usize) -> (r: usize)
    requires
        i <= s@.len(),
    ensures
        r == word_run_end(s@, i as int),
    decreases s@.len() - i,
{
    if i < s.len() {
        let c = s[i];
        if ('a' <= c && c <= 'z') || ('A' <= c && c <= 'Z') || ('0' <= c && c <= '9') || c == '_' {
            return word_run_end_exec(s, i + 1);
        }
    }
    i
}

fn digit_run_end_exec(s: &Vec<char>, i: usize) -> (r: usize)
    requires
        i <= s@.len(),
    ensures
        r == digit_run_end(s@, i as int),
    decreases s@.len() - i,
{
    if i < s.len() {
        let c = s[i];
        if '0' <= c && c <= '9' {
            return digit_run_end_exec(s, i + 1);
        }
    }
    i
}

fn quote_pos_exec(s: &Vec<char>, i: usize) -> (r: Option<usize>)
    requires
        i <= s@.len(),
    ensures
        match r {
            Some(k) => quote_pos(s@, i as int) == Some(k as int) && i <= k < s@.len(),
            None => quote_pos(s@, i as int) is None,
        },
    decreases s@.len() - i,
{
    if i >= s.len() {
        None
    } else if s[i] == '\'' {
        Some(i)
    } else {
        match quote_pos_exec(s, i + 1) {
            Some(k) => Some(k),
            None => None,
        }
    }
}

/// The parsed value of a digit run, exactly when it fits.
fn parse_index(s: &Vec<char>, lo: usize, hi: usize) -> (r: Option<u64>)
    requires
        lo <= hi <= s@.len(),
        forall|k: int| lo <= k < hi ==> is_digit(s@[k]),
    ensures
        match r {
            Some(v) => v as int == spec_dec_value(s@.subrange(lo as int, hi as int)) && v as int
                <= u64::MAX,
            None => spec_dec_value(s@.subrange(lo as int, hi as int)) > u64::MAX,
        },
    decreases hi - lo,
{
    proof {
        crate::numfmt::lemma_dec_value_digits_nonneg(s@.subrange(lo as int, hi as int));
    }
    if lo == hi {
        proof {
            assert(s@.subrange(lo as int, hi as int).len() == 0);
        }
        return Some(0);
    }
    let ghost whole = s@.subrange(lo as int, hi as int);
    match parse_index(s, lo, hi - 1) {
        None => {
            proof {
                lemma_dec_value_prefix_grows(s@, lo as int, hi as int);
            }
            None
        },
        Some(v) => {
            proof {
                assert(whole.drop_last() =~= s@.subrange(lo as int, hi - 1 as int));
                assert(whole.last() == s@[hi - 1]);
                crate::numfmt::lemma_dec_value_digits_nonneg(whole.drop_last());
            }
            let c = s[hi - 1];
            let d: u64 = (c as u32 as u64) - 48;
            proof {
                assert(d as int == crate::numfmt::digit_val(s@[hi - 1]));
            }
            if v > (u64::MAX - d) / 10 {
                return None;
            }
            Some(v * 10 + d)
        },
    }
}

proof fn lemma_dec_value_prefix_grows(s: Seq<char>, lo: int, hi: int)
    requires
        0 <= lo < hi <= s.len(),
        forall|k: int| lo <= k < hi ==> is_digit(s[k]),
    ensures
        spec_dec_value(s.subrange(lo, hi)) >= spec_dec_value(s.subrange(lo, hi - 1)),
{
    let whole = s.subrange(lo, hi);
    assert(whole.drop_last() =~= s.subrange(lo, hi - 1));
    assert(forall|k: int| 0 <= k < whole.len() ==> is_digit(whole[k]));
    crate::numfmt::lemma_dec_value_digits_nonneg(whole.drop_last());
    assert(crate::numfmt::digit_val(whole.last()) >= 0);
}

/// Parse the steps of a path text from position `i` on.
fn parse_segs(s: &Vec<char>, i: usize) -> (r: Option<Vec<PathSeg>>)
    requires
        i <= s@.len(),
    ensures
        match r {
            Some(segs) => spec_parse_segs(s@, i as int) == Some(segs.deep_view()),
            None => spec_parse_segs(s@, i as int) is None,
        },
    decreases s@.len() - i,
{
    if i == s.len() {
        let r: Vec<PathSeg> = Vec::new();
        proof {
            assert(r.deep_view() =~= Seq::<SegV>::empty());
        }
        return Some(r);
    }
    if s[i] == '.' {
        let j = word_run_end_exec(s, i + 1);
        proof {
            lemma_word_run_end(s@, i + 1);
        }
        if j == i + 1 {
            return None;
        }
        let mut key: Vec<char> = Vec::new();
        crate::strutil::push_range(&mut key, s, i + 1, j);
        match parse_segs(s, j) {
            Some(rest) => {
                let mut out: Vec<PathSeg> = Vec::new();
                out.push(PathSeg::Key(chars_to_string(&key)));
                let ghost restv = rest.deep_view();
                let mut rest = rest;
                append_all(&mut out, &mut rest);
                proof {
                    assert(out.deep_view() =~= seq![SegV::Key(s@.subrange(i + 1, j as int))]
                        + restv);
                }
                Some(out)
            },
            None => None,
        }
    } else if s[i] == '[' {
        if i + 1 < s.len() && s[i + 1] == '\'' {
            match quote_pos_exec(s, i + 2) {
                Some(k) => {
                    if k + 1 < s.len() && s[k + 1] == ']' {
                        let mut key: Vec<char> = Vec::new();
                        crate::strutil::push_range(&mut key, s, i + 2, k);
                        match parse_segs(s, k + 2) {
                            Some(rest) => {
                                let mut out: Vec<PathSeg> = Vec::new();
                                out.push(PathSeg::Key(chars_to_string(&key)));
                                let ghost restv = rest.deep_view();
                                let mut rest = rest;
                                append_all(&mut out, &mut rest);
                                proof {
                                    assert(out.deep_view() =~= seq![
                                        SegV::Key(s@.subrange(i + 2, k as int)),
                                    ] + restv);
                                }
                                Some(out)
                            },
                            None => None,
                        }
                    } else {
                        None
                    }
                },
                None => None,
            }
        } else {
            let j = digit_run_end_exec(s, i + 1);
            proof {
                lemma_digit_run_end(s@, i + 1);
            }
            if j == i + 1 || j >= s.len() {
                return None;
            }
            if s[j] != ']' {
                return None;
            }
            match parse_index(s, i + 1, j) {
                None => None,
                Some(n) => {
                    match parse_segs(s, j + 1) {
                        Some(rest) => {
                            let mut out: Vec<PathSeg> = Vec::new();
                            out.push(PathSeg::Index(n));
                            let ghost restv = rest.deep_view();
                            let mut rest = rest;
                            append_all(&mut out, &mut rest);
                            proof {
                                assert(out.deep_view() =~= seq![
                                    SegV::Index(spec_dec_value(s@.subrange(i + 1, j as int))),
                                ] + restv);
                            }
                            Some(out)
                        },
                        None => None,
                    }
                },
            }
        }
    } else {
        None
    }
}

/// Move every element of `src` to the end of `dst`.
#[verifier::loop_isolation(false)]
fn append_all(dst: &mut Vec<PathSeg>, src: &mut Vec<PathSeg>)
    ensures
        final(dst).deep_view() == old(dst).deep_view() + old(src).deep_view(),
{
    let ghost d0 = old(dst).deep_view();
    let ghost s0 = old(src).deep_view();
    let ghost dlen = old(dst)@.len();
    let n: usize = src.len();
    let mut i: usize = 0;
    while i < n
        invariant
            n == old(src)@.len(),
            i <= n,
            src@ == old(src)@,
            dst@.len() == dlen + i,
            forall|j: int| 0 <= j < dlen ==> (#[trigger] dst@[j]).deep_view() == d0[j],
            forall|j: int| dlen <= j < dst@.len() ==> (#[trigger] dst@[j]).deep_view() == s0[j
                - dlen],
        decreases n - i,
    {
        let item = match &src[i] {
            PathSeg::Key(k) => PathSeg::Key(k.clone()),
            PathSeg::Index(x) => PathSeg::Index(*x),
        };
        proof {
            assert(item@ == s0[i as int]);
        }
        dst.push(item);
        i = i + 1;
    }
    proof {
        assert(dst.deep_view() =~= d0 + s0);
    }
}

/// Parse a path text into steps: a leading `$`, then the steps.
pub fn parse_path(path: &str) -> (r: Option<Vec<PathSeg>>)
    ensures
        match r {
            Some(segs) => spec_parse_path(path@) == Some(segs.deep_view()),
            None => spec_parse_path(path@) is None,
        },
{
    let chars = crate::strutil::string_to_chars(path);
    if chars.len() == 0 || chars[0] != '$' {
        return None;
    }
    parse_segs(&chars, 1)
}

/// The first value under an object key, in entry order.
pub open spec fn spec_assoc_first(fields: Seq<(Seq<char>, Jv)>, k: Seq<char>) -> Option<Jv>
    decreases fields.len(),
{
    if fields.len() == 0 {
        None
    } else if fields.first().0 == k {
        Some(fields.first().1)
    } else {
        spec_assoc_first(fields.drop_first(), k)
    }
}

/// What resolving parsed steps against a value gives: the value itself
/// for no steps; a key step descends into an object, an index step into
/// an array; anything else, a missing key or an index out of range is
/// absent.
pub open spec fn spec_extract(segs: Seq<SegV>, v: Jv) -> Option<Jv>
    decreases segs.len(),
{
    if segs.len() == 0 {
        Some(v)
    } else {
        match segs.first() {
            SegV::Key(k) => match v {
                Jv::Object(fields) => match spec_assoc_first(fields, k) {
                    Some(x) => spec_extract(segs.drop_first(), x),
                    None => None,
                },
                _ => None,
            },
            SegV::Index(n) => match v {
                Jv::Array(items) => if 0 <= n < items.len() {
                    spec_extract(segs.drop_first(), items[n])
                } else {
                    None
                },
                _ => None,
            },
        }
    }
}

/// Resolve parsed steps against a value, starting at step `at`.
fn extract_from(segs: &Vec<PathSeg>, at: usize, v: &JsonValue) -> (r: Option<JsonValue>)
    requires
        at <= segs@.len(),
    ensures
        match r {
            Some(x) => spec_extract(segs.deep_view().skip(at as int), v@) == Some(x@),
            None => spec_extract(segs.deep_view().skip(at as int), v@) is None,
        },
    decreases segs@.len() - at,
{
    let ghost tail = segs.deep_view().skip(at as int);
    if at == segs.len() {
        proof {
            assert(tail.len() == 0);
        }
        return Some(v.clone());
    }
    proof {
        assert(tail.first() == segs.deep_view()[at as int]);
        assert(tail.drop_first() =~= segs.deep_view().skip(at + 1));
    }
    match &segs[at] {
        PathSeg::Key(k) => {
            match v {
                JsonValue::Object(fields) => {
                    match object_first(fields, k) {
                        Some(idx) => {
                            proof {
                                crate::json::lemma_jv_of_pairs_props(fields@);
                                assert(decreases_to!(v => fields));
                                assert(decreases_to!(fields => fields@));
                                assert(decreases_to!(fields@ => fields@[idx as int]));
                                assert(decreases_to!(fields@[idx as int] => fields@[
                                    idx as int ].1));
                            }
                            extract_from(segs, at + 1, &fields[idx].1)
                        },
                        None => None,
                    }
                },
                _ => None,
            }
        },
        PathSeg::Index(n) => {
            match v {
                JsonValue::Array(items) => {
                    if *n < items.len() as u64 {
                        let idx = *n as usize;
                        proof {
                            crate::json::lemma_jv_of_seq_props(items@);
                            assert(decreases_to!(v => items));
                            assert(decreases_to!(items => items@));
                            assert(decreases_to!(items@ => items@[idx as int]));
                        }
                        extract_from(segs, at + 1, &items[idx])
                    } else {
                        proof {
                            crate::json::lemma_jv_of_seq_props(items@);
                        }
                        None
                    }
                },
                _ => None,
            }
        },
    }
}

/// The position of the first entry under `k`, if any.
fn object_first(fields: &Vec<(String, JsonValue)>, k: &String) -> (r: Option<usize>)
    ensures
        match r {
            Some(idx) => idx < fields@.len() && spec_assoc_first(
                crate::json::jv_of_pairs(fields@),
                k@,
            ) == Some(crate::json::jv_of_pairs(fields@)[idx as int].1) && fields@[idx as int].0@
                == k@,
            None => spec_assoc_first(crate::json::jv_of_pairs(fields@), k@) is None,
        },
{
    let ghost fv = crate::json::jv_of_pairs(fields@);
    proof {
        crate::json::lemma_jv_of_pairs_props(fields@);
    }
    let kc = crate::strutil::string_to_chars(k.as_str());
    let mut i: usize = 0;
    proof {
        assert(fv.skip(0) =~= fv);
    }
    while i < fields.len()
        invariant
            kc@ == k@,
            i <= fields@.len(),
            fv == crate::json::jv_of_pairs(fields@),
            fv.len() == fields@.len(),
            forall|j: int| 0 <= j < fv.len() ==> (#[trigger] fv[j]) == (fields@[j].0@, jv_of(
                fields@[j].1,
            )),
            spec_assoc_first(fv, k@) == spec_assoc_first(fv.skip(i as int), k@),
        decreases fields@.len() - i,
    {
        proof {
            assert(fv.skip(i as int).first() == fv[i as int]);
            assert(fv.skip(i as int).drop_first() =~= fv.skip(i + 1));
        }
        let fc = crate::strutil::string_to_chars(fields[i].0.as_str());
        if crate::strutil::chars_eq(&kc, &fc) {
            return Some(i);
        }
        i = i + 1;
    }
    proof {
        assert(fv.skip(i as int).len() == 0);
    }
    None
}

/// Resolve a path text against a value: the parsed steps applied to the
/// value, or absent when the text is not a path of the supported shape.
pub fn extract_path(path: &str, v: &JsonValue) -> (r: Option<JsonValue>)
    ensures
        match r {
            Some(x) => (match spec_parse_path(path@) {
                Some(segs) => spec_extract(segs, v@) == Some(x@),
                None => false,
            }),
            None => (match spec_parse_path(path@) {
                Some(segs) => spec_extract(segs, v@) is None,
                None => true,
            }),
        },
{
    match parse_path(path) {
        Some(segs) => {
            proof {
                assert(segs.deep_view().skip(0) =~= segs.deep_view());
            }
            extract_from(&segs, 0, v)
        },
        None => None,
    }
}

} // verus!
