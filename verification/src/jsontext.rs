//! Rendering a [`JsonValue`] as canonical JSON text.

use crate::json::{jv_of, jv_of_pairs, jv_of_seq, lemma_jv_of_pairs_props, lemma_jv_of_seq_props,
    JsonValue, Jv};
use crate::numfmt::{spec_dec_digits, spec_hex_digit, spec_i64_dec};
use crate::numfmt::{i64_dec_chars, u64_dec_chars};
use crate::strutil::string_to_chars;
use vstd::prelude::*;

verus! {

/// What serde's JSON renderer does with one character of a string:
/// quote and backslash get a backslash; the named control characters
/// their short escape; other control characters a `\u00..` escape.
pub open spec fn spec_escape_json_char(c: char) -> Seq<char> {
    if c == '"' {
        seq!['\\', '"']
    } else if c == '\\' {
        seq!['\\', '\\']
    } else if c == '\u{8}' {
        seq!['\\', 'b']
    } else if c == '\u{c}' {
        seq!['\\', 'f']
    } else if c == '\n' {
        seq!['\\', 'n']
    } else if c == '\r' {
        seq!['\\', 'r']
    } else if c == '\t' {
        seq!['\\', 't']
    } else if (c as u32) < 32 {
        seq![
            '\\',
            'u',
            '0',
            '0',
            spec_hex_digit((c as u32) as int / 16),
            spec_hex_digit((c as u32) as int % 16),
        ]
    } else {
        seq![c]
    }
}

/// The escaped body of a JSON string.
pub open spec fn spec_escape_json(s: Seq<char>) -> Seq<char>
    decreases s.len(),
{
    if s.len() == 0 {
        Seq::<char>::empty()
    } else {
        spec_escape_json(s.drop_last()) + spec_escape_json_char(s.last())
    }
}

/// What serde's JSON renderer prints for the finite float whose decimal
/// display text is the argument. It is a function of the text alone.
pub uninterp spec fn json_float_text(t: Seq<char>) -> Seq<char>;

/// Relies on `str::parse` to the machine double (named through
/// evalexpr's numeric-type alias) and on serde_json's rendering of such
/// a number: together they turn a float's display text into its JSON
/// text, and the result depends on the text alone.
#[verifier::external_body]
pub fn float_json_chars(t: &String) -> (r: String)
    ensures
        r@ == json_float_text(t@),
{
    let parsed: Result<
        <evalexpr::DefaultNumericTypes as evalexpr::EvalexprNumericTypes>::Float,
        _,
    > = t.parse();
    match parsed {
        Ok(f) => serde_json::to_string(&f).unwrap_or_else(|_| String::new()),
        Err(_) => String::new(),
    }
}

/// The JSON text of a modeled value: `null`, `true`/`false`, decimal
/// numbers, quoted and escaped strings, and bracketed, comma-separated
/// arrays and objects.
pub open spec fn spec_json_text(v: Jv) -> Seq<char>
    decreases v,
{
    match v {
        Jv::Null => seq!['n', 'u', 'l', 'l'],
        Jv::Bool(b) => if b {
            seq!['t', 'r', 'u', 'e']
        } else {
            seq!['f', 'a', 'l', 's', 'e']
        },
        Jv::Int(i) => spec_i64_dec(i),
        Jv::UInt(u) => spec_dec_digits(u),
        Jv::Float(t) => json_float_text(t),
        Jv::Str(s) => seq!['"'] + spec_escape_json(s) + seq!['"'],
        Jv::Array(items) => {
            proof {
                assert(decreases_to!(v => items));
            }
            seq!['['] + spec_json_items(items) + seq![']']
        },
        Jv::Object(fields) => {
            proof {
                assert(decreases_to!(v => fields));
            }
            seq!['{'] + spec_json_fields(fields) + seq!['}']
        },
    }
}

/// The comma-separated renderings of an array's items.
pub open spec fn spec_json_items(s: Seq<Jv>) -> Seq<char>
    decreases s,
{
    if s.len() == 0 {
        Seq::<char>::empty()
    } else if s.len() == 1 {
        proof {
            assert(decreases_to!(s => s[0]));
        }
        spec_json_text(s[0])
    } else {
        proof {
            assert(decreases_to!(s => s.subrange(0, s.len() - 1)));
            assert(decreases_to!(s => s[s.len() - 1]));
        }
        spec_json_items(s.subrange(0, s.len() - 1)) + seq![','] + spec_json_text(s[s.len() - 1])
    }
}

/// The comma-separated `"key":value` renderings of an object's entries.
pub open spec fn spec_json_field(f: (Seq<char>, Jv)) -> Seq<char>
    decreases f,
{
    proof {
        assert(decreases_to!(f => f.1));
    }
    seq!['"'] + spec_escape_json(f.0) + seq!['"', ':'] + spec_json_text(f.1)
}

/// The comma-separated renderings of an object's entries.
pub open spec fn spec_json_fields(s: Seq<(Seq<char>, Jv)>) -> Seq<char>
    decreases s,
{
    if s.len() == 0 {
        Seq::<char>::empty()
    } else if s.len() == 1 {
        proof {
            assert(decreases_to!(s => s[0]));
            assert(decreases_to!(s[0] => s[0].1));
        }
        spec_json_field(s[0])
    } else {
        proof {
            assert(decreases_to!(s => s.subrange(0, s.len() - 1)));
            assert(decreases_to!(s => s[s.len() - 1]));
            assert(decreases_to!(s[s.len() - 1] => s[s.len() - 1].1));
        }
        spec_json_fields(s.subrange(0, s.len() - 1)) + seq![','] + spec_json_field(s[s.len() - 1])
    }
}

/// Append the escaped body of a JSON string to `out`.
#[verifier::loop_isolation(false)]
fn push_escaped_json(out: &mut Vec<char>, s: &String)
    ensures
        final(out)@ == old(out)@ + spec_escape_json(s@),
{
    let chars = string_to_chars(s.as_str());
    let mut i: usize = 0;
    proof {
        assert(old(out)@ + spec_escape_json(s@.take(0)) =~= old(out)@);
    }
    while i < chars.len()
        invariant
            out@ == old(out)@ + spec_escape_json(s@.take(i as int)),
            i <= chars@.len(),
            chars@ == s@,
        decreases chars@.len() - i,
    {
        let c = chars[i];
        proof {
            assert(s@.take(i + 1 as int).drop_last() =~= s@.take(i as int));
            assert(s@.take(i + 1 as int).last() == s@[i as int]);
        }
        if c == '"' {
            out.push('\\');
            out.push('"');
        } else if c == '\\' {
            out.push('\\');
            out.push('\\');
        } else if c == '\u{8}' {
            out.push('\\');
            out.push('b');
        } else if c == '\u{c}' {
            out.push('\\');
            out.push('f');
        } else if c == '\n' {
            out.push('\\');
            out.push('n');
        } else if c == '\r' {
            out.push('\\');
            out.push('r');
        } else if c == '\t' {
            out.push('\\');
            out.push('t');
        } else if (c as u32) < 32 {
            out.push('\\');
            out.push('u');
            out.push('0');
            out.push('0');
            let lo: u32 = c as u32;
            out.push(crate::numfmt::hex_digit_char((lo / 16) as u8));
            out.push(crate::numfmt::hex_digit_char((lo % 16) as u8));
        } else {
            out.push(c);
        }
        proof {
            assert(out@ =~= old(out)@ + spec_escape_json(s@.take(i + 1 as int)));
        }
        i = i + 1;
    }
    proof {
        assert(s@.take(s@.len() as int) =~= s@);
    }
}

/// Render a value as JSON text characters.
#[verifier::loop_isolation(false)]
pub fn json_text_chars(v: &JsonValue) -> (r: Vec<char>)
    ensures
        r@ == spec_json_text(v@),
    decreases v,
{
    match v {
        JsonValue::Null => {
            let mut out: Vec<char> = Vec::new();
            out.push('n');
            out.push('u');
            out.push('l');
            out.push('l');
            proof {
                assert(out@ =~= spec_json_text(v@));
            }
            out
        },
        JsonValue::Bool(b) => {
            let mut out: Vec<char> = Vec::new();
            if *b {
                out.push('t');
                out.push('r');
                out.push('u');
                out.push('e');
            } else {
                out.push('f');
                out.push('a');
                out.push('l');
                out.push('s');
                out.push('e');
            }
            proof {
                assert(out@ =~= spec_json_text(v@));
            }
            out
        },
        JsonValue::Int(i) => i64_dec_chars(*i),
        JsonValue::UInt(u) => u64_dec_chars(*u),
        JsonValue::Float(t) => {
            let rendered = float_json_chars(t);
            string_to_chars(rendered.as_str())
        },
        JsonValue::Str(s) => {
            let mut out: Vec<char> = Vec::new();
            out.push('"');
            push_escaped_json(&mut out, s);
            out.push('"');
            proof {
                assert(out@ =~= spec_json_text(v@));
            }
            out
        },
        JsonValue::Array(a) => {
            let ghost av = jv_of_seq(a@);
            proof {
                lemma_jv_of_seq_props(a@);
            }
            let mut out: Vec<char> = Vec::new();
            out.push('[');
            let mut i: usize = 0;
            proof {
                assert(out@ =~= seq!['['] + spec_json_items(av.take(0)));
            }
            while i < a.len()
                invariant
                    out@ == seq!['['] + spec_json_items(av.take(i as int)),
                    i <= a@.len(),
                decreases a@.len() - i,
            {
                if i > 0 {
                    out.push(',');
                }
                proof {
                    assert(decreases_to!(v => a));
                    assert(decreases_to!(a => a@));
                    assert(decreases_to!(a@ => a@[i as int]));
                    assert(decreases_to!(v => a@[i as int]));
                }
                let rendered = json_text_chars(&a[i]);
                let mut k: usize = 0;
                let ghost mid = out@;
                while k < rendered.len()
                    invariant
                        k <= rendered@.len(),
                        out@ == mid + rendered@.take(k as int),
                    decreases rendered@.len() - k,
                {
                    out.push(rendered[k]);
                    proof {
                        assert(rendered@.take(k + 1 as int) =~= rendered@.take(k as int).push(
                            rendered@[k as int]));
                        assert(out@ =~= mid + rendered@.take(k + 1 as int));
                    }
                    k = k + 1;
                }
                proof {
                    assert(rendered@.take(rendered@.len() as int) =~= rendered@);
                    assert(av.take(i + 1 as int).subrange(0, i as int) =~= av.take(i as int));
                    assert(av.take(i + 1 as int)[i as int] == av[i as int]);
                    if i == 0 {
                        assert(out@ =~= seq!['['] + spec_json_items(av.take(1)));
                    } else {
                        assert(out@ =~= seq!['['] + spec_json_items(av.take(i + 1 as int)));
                    }
                }
                i = i + 1;
            }
            out.push(']');
            proof {
                assert(av.take(a@.len() as int) =~= av);
                assert(out@ =~= spec_json_text(v@));
            }
            out
        },
        JsonValue::Object(o) => {
            let ghost ov = jv_of_pairs(o@);
            proof {
                lemma_jv_of_pairs_props(o@);
            }
            let mut out: Vec<char> = Vec::new();
            out.push('{');
            let mut i: usize = 0;
            proof {
                assert(out@ =~= seq!['{'] + spec_json_fields(ov.take(0)));
            }
            while i < o.len()
                invariant
                    out@ == seq!['{'] + spec_json_fields(ov.take(i as int)),
                    i <= o@.len(),
                decreases o@.len() - i,
            {
                if i > 0 {
                    out.push(',');
                }
                out.push('"');
                push_escaped_json(&mut out, &o[i].0);
                out.push('"');
                out.push(':');
                proof {
                    assert(decreases_to!(v => o));
                    assert(decreases_to!(o => o@));
                    assert(decreases_to!(o@ => o@[i as int]));
                    assert(decreases_to!(o@[i as int] => o@[i as int].1));
                    assert(decreases_to!(v => o@[i as int].1));
                }
                let rendered = json_text_chars(&o[i].1);
                let mut k: usize = 0;
                let ghost mid = out@;
                while k < rendered.len()
                    invariant
                        k <= rendered@.len(),
                        out@ == mid + rendered@.take(k as int),
                    decreases rendered@.len() - k,
                {
                    out.push(rendered[k]);
                    proof {
                        assert(rendered@.take(k + 1 as int) =~= rendered@.take(k as int).push(
                            rendered@[k as int]));
                        assert(out@ =~= mid + rendered@.take(k + 1 as int));
                    }
                    k = k + 1;
                }
                proof {
                    assert(rendered@.take(rendered@.len() as int) =~= rendered@);
                    assert(ov.take(i + 1 as int).subrange(0, i as int) =~= ov.take(i as int));
                    assert(ov.take(i + 1 as int)[i as int] == ov[i as int]);
                    assert(ov[i as int].0 == o@[i as int].0@);
                    assert(ov[i as int].1 == jv_of(o@[i as int].1));
                    assert(rendered@ == spec_json_text(ov[i as int].1));
                    assert(spec_json_field(ov[i as int]) == seq!['"'] + spec_escape_json(
                        ov[i as int].0,
                    ) + seq!['"', ':'] + spec_json_text(ov[i as int].1));
                    if i == 0 {
                        assert(spec_json_fields(ov.take(1)) == spec_json_field(ov[0]));
                        assert(out@ =~= seq!['{'] + spec_json_fields(ov.take(1)));
                    } else {
                        assert(out@ =~= seq!['{'] + spec_json_fields(ov.take(i + 1 as int)));
                    }
                }
                i = i + 1;
            }
            out.push('}');
            proof {
                assert(ov.take(o@.len() as int) =~= ov);
                assert(out@ =~= spec_json_text(v@));
            }
            out
        },
    }
}

/// Render a value as a JSON text string.
pub fn json_text(v: &JsonValue) -> (r: String)
    ensures
        r@ == spec_json_text(v@),
{
    let chars = json_text_chars(v);
    crate::strutil::chars_to_string(&chars)
}

} // verus!
