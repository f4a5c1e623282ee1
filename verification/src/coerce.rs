//! Type coercion of extracted JSON values.

use crate::json::{JsonValue, Jv};
use crate::jsontext::{json_text_chars, spec_json_text};
use crate::numfmt::{is_digit, spec_dec_digits, spec_dec_value, spec_i64_dec, spec_parse_i64};
use crate::numfmt::{i64_dec_chars, parse_i64_chars, u64_dec_chars};
use crate::strutil::{chars_to_string, lower_of, lowercase, string_to_chars};
use vstd::prelude::*;

verus! {

/// What parsing a text as a float and printing it again gives: the
/// display text of the parsed double, or nothing when the text is not a
/// float. It is a function of the text alone.
pub uninterp spec fn float_parsed(s: Seq<char>) -> Option<Seq<char>>;

/// Relies on `str::parse` to the machine double (named through
/// evalexpr's numeric-type alias) and the double's display form: both
/// depend on the text alone.
#[verifier::external_body]
pub fn parse_float_text(s: &str) -> (r: Option<String>)
    ensures
        match r {
            Some(t) => float_parsed(s@) == Some(t@),
            None => float_parsed(s@) is None,
        },
{
    let parsed: Result<
        <evalexpr::DefaultNumericTypes as evalexpr::EvalexprNumericTypes>::Float,
        _,
    > = s.parse();
    match parsed {
        Ok(f) => Some(format!("{}", f)),
        Err(_) => None,
    }
}

/// Whether a float display text denotes a value that is not finite.
pub open spec fn is_nonfinite_float_text(t: Seq<char>) -> bool {
    t == seq!['i', 'n', 'f'] || t == seq!['-', 'i', 'n', 'f'] || t == seq!['N', 'a', 'N']
}

/// Test whether a float display text denotes a value that is not
/// finite.
pub fn float_text_nonfinite(t: &Vec<char>) -> (r: bool)
    ensures
        r == is_nonfinite_float_text(t@),
{
    let mut inf: Vec<char> = Vec::new();
    inf.push('i');
    inf.push('n');
    inf.push('f');
    let mut ninf: Vec<char> = Vec::new();
    ninf.push('-');
    ninf.push('i');
    ninf.push('n');
    ninf.push('f');
    let mut nan: Vec<char> = Vec::new();
    nan.push('N');
    nan.push('a');
    nan.push('N');
    proof {
        assert(inf@ =~= seq!['i', 'n', 'f']);
        assert(ninf@ =~= seq!['-', 'i', 'n', 'f']);
        assert(nan@ =~= seq!['N', 'a', 'N']);
    }
    crate::strutil::chars_eq(t, &inf) || crate::strutil::chars_eq(t, &ninf)
        || crate::strutil::chars_eq(t, &nan)
}

/// The float value a parse-and-print gave, as a JSON value: a finite
/// text carries over, a non-finite one collapses to null, a failed
/// parse is absent.
pub open spec fn spec_float_value(ot: Option<Seq<char>>) -> Option<Jv> {
    match ot {
        Some(t) => if is_nonfinite_float_text(t) {
            Some(Jv::Null)
        } else {
            Some(Jv::Float(t))
        },
        None => None,
    }
}

/// The integer part of a float display text, truncated toward zero and
/// saturated to the signed 64-bit range.
pub open spec fn spec_float_trunc(t: Seq<char>) -> int {
    let neg = t.len() > 0 && t[0] == '-';
    let from: int = if neg {
        1
    } else {
        0
    };
    let digits = t.subrange(from, crate::jsonpath::digit_run_end(t, from));
    let mag = spec_dec_value(digits);
    if neg {
        if -mag < i64::MIN {
            i64::MIN as int
        } else {
            -mag
        }
    } else {
        if mag > i64::MAX {
            i64::MAX as int
        } else {
            mag
        }
    }
}

/// Truncate a float display text toward zero, saturating.
#[verifier::loop_isolation(false)]
fn float_trunc(t: &Vec<char>) -> (r: i64)
    ensures
        r as int == spec_float_trunc(t@),
{
    let neg: bool = t.len() > 0 && t[0] == '-';
    let from: usize = if neg {
        1
    } else {
        0
    };
    proof {
        crate::jsonpath::lemma_digit_run_end(t@, from as int);
    }
    let hi = digit_run_end_exec(t, from);
    let ghost digits = t@.subrange(from as int, hi as int);
    proof {
        crate::numfmt::lemma_dec_value_digits_nonneg(digits);
    }
    let mut mag: u128 = 0;
    let mut i: usize = from;
    let cap: u128 = 9223372036854775808u128;
    while i < hi
        invariant
            from <= i <= hi <= t@.len(),
            mag == if spec_dec_value(t@.subrange(from as int, i as int)) > cap {
                cap as int
            } else {
                spec_dec_value(t@.subrange(from as int, i as int))
            },
            mag <= cap,
        decreases hi - i,
    {
        let ghost pre = t@.subrange(from as int, i as int);
        proof {
            assert(t@.subrange(from as int, i + 1 as int).drop_last() =~= pre);
            assert(t@.subrange(from as int, i + 1 as int).last() == t@[i as int]);
            crate::numfmt::lemma_dec_value_digits_nonneg(pre);
            assert(is_digit(t@[i as int]));
            assert(spec_dec_value(t@.subrange(from as int, i + 1 as int)) == spec_dec_value(pre)
                * 10 + crate::numfmt::digit_val(t@[i as int]));
        }
        let c = t[i];
        let d: u128 = (c as u32 as u128) - 48;
        if mag >= cap {
            mag = cap;
        } else {
            let next = mag * 10 + d;
            if next > cap {
                mag = cap;
            } else {
                mag = next;
            }
        }
        i = i + 1;
    }
    if neg {
        if mag >= 9223372036854775808u128 {
            i64::MIN
        } else {
            -((mag as u64) as i64)
        }
    } else {
        if mag >= 9223372036854775807u128 {
            i64::MAX
        } else {
            (mag as u64) as i64
        }
    }
}

fn digit_run_end_exec(s: &Vec<char>, i: usize) -> (r: usize)
    requires
        i <= s@.len(),
    ensures
        r == crate::jsonpath::digit_run_end(s@, i as int),
        i <= r <= s@.len(),
        forall|k: int| i <= k < r ==> is_digit(s@[k]),
    decreases s@.len() - i,
{
    proof {
        crate::jsonpath::lemma_digit_run_end(s@, i as int);
    }
    if i < s.len() {
        let c = s[i];
        if '0' <= c && c <= '9' {
            return digit_run_end_exec(s, i + 1);
        }
    }
    i
}

/// Whether a float display text denotes zero: no digit one to nine.
pub open spec fn float_text_is_zero(t: Seq<char>) -> bool {
    forall|i: int| 0 <= i < t.len() ==> !('1' <= t[i] && t[i] <= '9')
}

fn float_text_zero(t: &Vec<char>) -> (r: bool)
    ensures
        r == float_text_is_zero(t@),
{
    let mut i: usize = 0;
    while i < t.len()
        invariant
            i <= t@.len(),
            forall|k: int| 0 <= k < i ==> !('1' <= t@[k] && t@[k] <= '9'),
        decreases t@.len() - i,
    {
        let c = t[i];
        if '1' <= c && c <= '9' {
            return false;
        }
        i = i + 1;
    }
    true
}

/// What a value coerced to a boolean is: booleans carry over, a string
/// is lowercased and matched against the usual truthy and falsy words,
/// and a number is true exactly when it is not zero.
pub open spec fn spec_to_bool(v: Jv) -> Option<bool> {
    match v {
        Jv::Bool(b) => Some(b),
        Jv::Str(s) => {
            let l = lower_of(s);
            if l == seq!['t', 'r', 'u', 'e'] || l == seq!['1'] || l == seq!['y', 'e', 's'] || l
                == seq!['o', 'n'] {
                Some(true)
            } else if l == seq!['f', 'a', 'l', 's', 'e'] || l == seq!['0'] || l == seq![
                'n',
                'o',
            ] || l == seq!['o', 'f', 'f'] {
                Some(false)
            } else {
                None
            }
        },
        Jv::Int(i) => Some(i != 0),
        Jv::UInt(u) => Some(u != 0),
        Jv::Float(t) => Some(!float_text_is_zero(t)),
        _ => None,
    }
}

/// Coerce a value to a boolean, when one can be read from it.
fn to_bool(v: &JsonValue) -> (r: Option<bool>)
    ensures
        r == spec_to_bool(v@),
{
    match v {
        JsonValue::Bool(b) => Some(*b),
        JsonValue::Str(s) => {
            let l = lowercase(s.as_str());
            let lc = string_to_chars(l.as_str());
            let truthy: bool = eq_lit(&lc, "true") || eq_lit(&lc, "1") || eq_lit(&lc, "yes")
                || eq_lit(&lc, "on");
            if truthy {
                proof {
                    reveal_lits();
                }
                return Some(true);
            }
            let falsy: bool = eq_lit(&lc, "false") || eq_lit(&lc, "0") || eq_lit(&lc, "no")
                || eq_lit(&lc, "off");
            proof {
                reveal_lits();
            }
            if falsy {
                Some(false)
            } else {
                None
            }
        },
        JsonValue::Int(i) => Some(*i != 0),
        JsonValue::UInt(u) => Some(*u != 0),
        JsonValue::Float(t) => {
            let tc = string_to_chars(t.as_str());
            Some(!float_text_zero(&tc))
        },
        _ => None,
    }
}

/// Compare characters against a literal.
fn eq_lit(s: &Vec<char>, lit: &str) -> (r: bool)
    ensures
        r == (s@ == lit@),
{
    let lc = string_to_chars(lit);
    crate::strutil::chars_eq(s, &lc)
}

proof fn reveal_lits()
    ensures
        "true"@ == seq!['t', 'r', 'u', 'e'],
        "1"@ == seq!['1'],
        "yes"@ == seq!['y', 'e', 's'],
        "on"@ == seq!['o', 'n'],
        "false"@ == seq!['f', 'a', 'l', 's', 'e'],
        "0"@ == seq!['0'],
        "no"@ == seq!['n', 'o'],
        "off"@ == seq!['o', 'f', 'f'],
        "float"@ == seq!['f', 'l', 'o', 'a', 't'],
        "int"@ == seq!['i', 'n', 't'],
        "str"@ == seq!['s', 't', 'r'],
        "string"@ == seq!['s', 't', 'r', 'i', 'n', 'g'],
        "bool"@ == seq!['b', 'o', 'o', 'l'],
        "booltoint"@ == seq!['b', 'o', 'o', 'l', 't', 'o', 'i', 'n', 't'],
{
    reveal_strlit("true");
    reveal_strlit("1");
    reveal_strlit("yes");
    reveal_strlit("on");
    reveal_strlit("false");
    reveal_strlit("0");
    reveal_strlit("no");
    reveal_strlit("off");
    reveal_strlit("float");
    reveal_strlit("int");
    reveal_strlit("str");
    reveal_strlit("string");
    reveal_strlit("bool");
    reveal_strlit("booltoint");
    assert("true"@ =~= seq!['t', 'r', 'u', 'e']);
    assert("1"@ =~= seq!['1']);
    assert("yes"@ =~= seq!['y', 'e', 's']);
    assert("on"@ =~= seq!['o', 'n']);
    assert("false"@ =~= seq!['f', 'a', 'l', 's', 'e']);
    assert("0"@ =~= seq!['0']);
    assert("no"@ =~= seq!['n', 'o']);
    assert("off"@ =~= seq!['o', 'f', 'f']);
    assert("float"@ =~= seq!['f', 'l', 'o', 'a', 't']);
    assert("int"@ =~= seq!['i', 'n', 't']);
    assert("str"@ =~= seq!['s', 't', 'r']);
    assert("string"@ =~= seq!['s', 't', 'r', 'i', 'n', 'g']);
    assert("bool"@ =~= seq!['b', 'o', 'o', 'l']);
    assert("booltoint"@ =~= seq!['b', 'o', 'o', 'l', 't', 'o', 'i', 'n', 't']);
}

/// What coercion to a named type gives, for each supported tag; an
/// unknown tag is absent.
pub open spec fn spec_convert_type(v: Jv, t: Seq<char>) -> Option<Jv> {
    if t == seq!['f', 'l', 'o', 'a', 't'] {
        match v {
            Jv::Float(x) => Some(Jv::Float(x)),
            Jv::Int(i) => spec_float_value(float_parsed(spec_i64_dec(i))),
            Jv::UInt(u) => spec_float_value(float_parsed(spec_dec_digits(u))),
            Jv::Str(s) => spec_float_value(float_parsed(s)),
            _ => None,
        }
    } else if t == seq!['i', 'n', 't'] {
        match v {
            Jv::Int(i) => Some(Jv::Int(i)),
            Jv::UInt(u) => Some(Jv::Int(
                if u <= i64::MAX {
                    u
                } else {
                    i64::MAX as int
                },
            )),
            Jv::Float(x) => Some(Jv::Int(spec_float_trunc(x))),
            Jv::Str(s) => match spec_parse_i64(s) {
                Some(n) => Some(Jv::Int(n)),
                None => None,
            },
            _ => None,
        }
    } else if t == seq!['s', 't', 'r'] || t == seq!['s', 't', 'r', 'i', 'n', 'g'] {
        match v {
            Jv::Str(s) => Some(Jv::Str(s)),
            _ => Some(Jv::Str(spec_json_text(v))),
        }
    } else if t == seq!['b', 'o', 'o', 'l'] {
        match spec_to_bool(v) {
            Some(b) => Some(Jv::Bool(b)),
            None => None,
        }
    } else if t == seq!['b', 'o', 'o', 'l', 't', 'o', 'i', 'n', 't'] {
        match spec_to_bool(v) {
            Some(b) => Some(Jv::Int(if b {
                1int
            } else {
                0int
            })),
            None => None,
        }
    } else {
        None
    }
}

/// Coerce a value to a named type: floats, integers, strings and
/// booleans as the configuration's coercion tags define them.
pub fn convert_type(value: &JsonValue, tag: &str) -> (r: Option<JsonValue>)
    ensures
        match r {
            Some(x) => spec_convert_type(value@, tag@) == Some(x@),
            None => spec_convert_type(value@, tag@) is None,
        },
{
    let tc = string_to_chars(tag);
    proof {
        reveal_lits();
    }
    if eq_lit(&tc, "float") {
        match value {
            JsonValue::Float(x) => Some(JsonValue::Float(x.clone())),
            JsonValue::Int(i) => {
                let digits = i64_dec_chars(*i);
                float_value_of(parse_float_text(chars_to_string(&digits).as_str()))
            },
            JsonValue::UInt(u) => {
                let digits = u64_dec_chars(*u);
                float_value_of(parse_float_text(chars_to_string(&digits).as_str()))
            },
            JsonValue::Str(s) => float_value_of(parse_float_text(s.as_str())),
            _ => None,
        }
    } else if eq_lit(&tc, "int") {
        match value {
            JsonValue::Int(i) => Some(JsonValue::Int(*i)),
            JsonValue::UInt(u) => {
                if *u <= i64::MAX as u64 {
                    Some(JsonValue::Int(*u as i64))
                } else {
                    Some(JsonValue::Int(i64::MAX))
                }
            },
            JsonValue::Float(x) => {
                let xc = string_to_chars(x.as_str());
                Some(JsonValue::Int(float_trunc(&xc)))
            },
            JsonValue::Str(s) => {
                let sc = string_to_chars(s.as_str());
                match parse_i64_chars(&sc) {
                    Some(n) => Some(JsonValue::Int(n)),
                    None => None,
                }
            },
            _ => None,
        }
    } else if eq_lit(&tc, "str") || eq_lit(&tc, "string") {
        match value {
            JsonValue::Str(s) => Some(JsonValue::Str(s.clone())),
            _ => {
                let chars = json_text_chars(value);
                Some(JsonValue::Str(chars_to_string(&chars)))
            },
        }
    } else if eq_lit(&tc, "bool") {
        match to_bool(value) {
            Some(b) => Some(JsonValue::Bool(b)),
            None => None,
        }
    } else if eq_lit(&tc, "booltoint") {
        match to_bool(value) {
            Some(b) => Some(JsonValue::Int(if b {
                1
            } else {
                0
            })),
            None => None,
        }
    } else {
        None
    }
}

/// Wrap the result of a float parse as a JSON value, collapsing
/// non-finite texts to null.
fn float_value_of(r: Option<String>) -> (out: Option<JsonValue>)
    ensures
        match out {
            Some(x) => (match r {
                Some(t) => spec_float_value(Some(t@)) == Some(x@),
                None => false,
            }),
            None => r is None,
        },
{
    match r {
        Some(t) => {
            let tc = string_to_chars(t.as_str());
            if float_text_nonfinite(&tc) {
                Some(JsonValue::Null)
            } else {
                Some(JsonValue::Float(t))
            }
        },
        None => None,
    }
}

} // verus!
