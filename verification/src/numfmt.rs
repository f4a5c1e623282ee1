//! Decimal rendering and parsing, and lowercase hex encoding.

use vstd::prelude::*;

verus! {

/// The decimal digit character for a value below ten.
pub open spec fn spec_digit(d: int) -> char {
    if d == 0 {
        '0'
    } else if d == 1 {
        '1'
    } else if d == 2 {
        '2'
    } else if d == 3 {
        '3'
    } else if d == 4 {
        '4'
    } else if d == 5 {
        '5'
    } else if d == 6 {
        '6'
    } else if d == 7 {
        '7'
    } else if d == 8 {
        '8'
    } else {
        '9'
    }
}

/// The decimal digit characters of a non-negative value, most
/// significant first, with no leading zeros (zero itself is "0").
pub open spec fn spec_dec_digits(n: int) -> Seq<char>
    decreases n,
{
    if n < 10 {
        seq![spec_digit(n)]
    } else {
        spec_dec_digits(n / 10).push(spec_digit(n % 10))
    }
}

/// The decimal rendering of a signed value.
pub open spec fn spec_i64_dec(i: int) -> Seq<char> {
    if i < 0 {
        seq!['-'] + spec_dec_digits(-i)
    } else {
        spec_dec_digits(i)
    }
}

fn digit_char(d: u64) -> (c: char)
    requires
        d < 10,
    ensures
        c == spec_digit(d as int),
{
    if d == 0 {
        '0'
    } else if d == 1 {
        '1'
    } else if d == 2 {
        '2'
    } else if d == 3 {
        '3'
    } else if d == 4 {
        '4'
    } else if d == 5 {
        '5'
    } else if d == 6 {
        '6'
    } else if d == 7 {
        '7'
    } else if d == 8 {
        '8'
    } else {
        '9'
    }
}

/// The decimal digit characters of an unsigned value.
pub fn u64_dec_chars(n: u64) -> (r: Vec<char>)
    ensures
        r@ == spec_dec_digits(n as int),
    decreases n,
{
    if n < 10 {
        let mut r: Vec<char> = Vec::new();
        r.push(digit_char(n));
        proof {
            assert(r@ =~= seq![spec_digit(n as int)]);
        }
        r
    } else {
        let mut r = u64_dec_chars(n / 10);
        r.push(digit_char(n % 10));
        r
    }
}

/// The decimal characters of a signed value, with a leading `-` when it
/// is negative.
pub fn i64_dec_chars(i: i64) -> (r: Vec<char>)
    ensures
        r@ == spec_i64_dec(i as int),
{
    if i >= 0 {
        u64_dec_chars(i as u64)
    } else {
        let mag: u64 = if i == i64::MIN {
            9223372036854775808u64
        } else {
            (-i) as u64
        };
        proof {
            assert(mag as int == -(i as int));
        }
        let digits = u64_dec_chars(mag);
        let mut r: Vec<char> = Vec::new();
        r.push('-');
        let mut k: usize = 0;
        while k < digits.len()
            invariant
                k <= digits@.len(),
                r@ == seq!['-'] + digits@.take(k as int),
            decreases digits@.len() - k,
        {
            r.push(digits[k]);
            proof {
                assert(digits@.take(k + 1 as int) =~= digits@.take(k as int).push(digits@[
                    k as int ]));
                assert(r@ =~= (seq!['-'] + digits@.take(k as int)).push(digits@[k as int]));
            }
            k = k + 1;
        }
        proof {
            assert(digits@.take(digits@.len() as int) =~= digits@);
        }
        r
    }
}

/// Whether a character is a decimal digit.
pub open spec fn is_digit(c: char) -> bool {
    '0' <= c && c <= '9'
}

/// The value of a decimal digit character.
pub open spec fn digit_val(c: char) -> int {
    c as int - '0' as int
}

/// The value of a digit sequence read as a decimal number.
pub open spec fn spec_dec_value(s: Seq<char>) -> int
    decreases s.len(),
{
    if s.len() == 0 {
        0
    } else {
        spec_dec_value(s.drop_last()) * 10 + digit_val(s.last())
    }
}

/// Whether every character of the sequence is a decimal digit.
pub open spec fn all_digits(s: Seq<char>) -> bool {
    forall|i: int| 0 <= i < s.len() ==> is_digit(s[i])
}

/// What `i64` parsing of the characters gives: an optional single sign,
/// then at least one digit, and a value within the type's range.
pub open spec fn spec_parse_i64(s: Seq<char>) -> Option<int> {
    let (neg, ds) = if s.len() > 0 && s[0] == '-' {
        (true, s.drop_first())
    } else if s.len() > 0 && s[0] == '+' {
        (false, s.drop_first())
    } else {
        (false, s)
    };
    if ds.len() > 0 && all_digits(ds) {
        let v = if neg {
            -spec_dec_value(ds)
        } else {
            spec_dec_value(ds)
        };
        if i64::MIN <= v <= i64::MAX {
            Some(v)
        } else {
            None
        }
    } else {
        None
    }
}

pub proof fn lemma_dec_value_digits_nonneg(s: Seq<char>)
    requires
        all_digits(s),
    ensures
        spec_dec_value(s) >= 0,
    decreases s.len(),
{
    if s.len() > 0 {
        assert(all_digits(s.drop_last()));
        lemma_dec_value_digits_nonneg(s.drop_last());
    }
}

/// Parse the digits of `s` starting at `from`, all of which must be
/// digits for a result; the value is reported exactly, or `None` when it
/// cannot be represented, together with the sign applied by the caller.
fn parse_digits(s: &Vec<char>, from: usize) -> (r: Option<u128>)
    requires
        from <= s@.len(),
    ensures
        match r {
            Some(v) => all_digits(s@.skip(from as int)) && s@.len() > from && v
                == spec_dec_value(s@.skip(from as int)) && v <= u64::MAX,
            None => !(s@.len() > from && all_digits(s@.skip(from as int)) && spec_dec_value(
                s@.skip(from as int),
            ) <= u64::MAX),
        },
{
    let n: usize = s.len();
    if from >= n {
        return None;
    }
    let mut mag: u128 = 0;
    let mut over: bool = false;
    let mut i: usize = from;
    let threshold: u128 = 18446744073709551616u128;
    while i < n
        invariant
            n == s@.len(),
            from <= i <= n,
            threshold == u64::MAX + 1,
            all_digits(s@.subrange(from as int, i as int)),
            !over ==> mag == spec_dec_value(s@.subrange(from as int, i as int)) && mag
                < threshold * 10,
            over ==> spec_dec_value(s@.subrange(from as int, i as int)) > u64::MAX,
        decreases n - i,
    {
        let c = s[i];
        if !('0' <= c && c <= '9') {
            proof {
                assert(s@.skip(from as int)[i - from] == s@[i as int]);
            }
            return None;
        }
        let d: u128 = (c as u32 as u128) - 48;
        let ghost pre = s@.subrange(from as int, i as int);
        proof {
            assert(s@.subrange(from as int, i + 1 as int) =~= pre.push(s@[i as int]));
            assert(s@.subrange(from as int, i + 1 as int).drop_last() =~= pre);
            lemma_dec_value_digits_nonneg(pre);
        }
        if over || mag >= threshold {
            over = true;
            proof {
                assert(spec_dec_value(pre.push(s@[i as int])) == spec_dec_value(pre) * 10
                    + digit_val(s@[i as int]));
            }
        } else {
            mag = mag * 10 + d;
        }
        i = i + 1;
    }
    proof {
        assert(s@.subrange(from as int, n as int) =~= s@.skip(from as int));
    }
    if over {
        return None;
    }
    if mag > 18446744073709551615u128 {
        return None;
    }
    Some(mag)
}

/// Parse a signed 64-bit decimal value, accepting exactly what `i64`
/// parsing from a string accepts: an optional `+` or `-`, then one or
/// more digits, within range.
pub fn parse_i64_chars(s: &Vec<char>) -> (r: Option<i64>)
    ensures
        match r {
            Some(v) => spec_parse_i64(s@) == Some(v as int),
            None => spec_parse_i64(s@) is None,
        },
{
    let neg: bool = s.len() > 0 && s[0] == '-';
    let signed: bool = s.len() > 0 && (s[0] == '-' || s[0] == '+');
    let from: usize = if signed {
        1
    } else {
        0
    };
    proof {
        if signed {
            assert(s@.skip(1) =~= s@.drop_first());
        } else {
            assert(s@.skip(0) =~= s@);
        }
    }
    match parse_digits(s, from) {
        None => {
            proof {
                let ghost ds = s@.skip(from as int);
                if ds.len() > 0 && all_digits(ds) {
                    lemma_dec_value_digits_nonneg(ds);
                }
            }
            None
        },
        Some(mag) => {
            proof {
                lemma_dec_value_digits_nonneg(s@.skip(from as int));
            }
            if neg {
                if mag > 9223372036854775808u128 {
                    None
                } else if mag == 9223372036854775808u128 {
                    Some(i64::MIN)
                } else {
                    Some(-((mag as u64) as i64))
                }
            } else {
                if mag > 9223372036854775807u128 {
                    None
                } else {
                    Some(mag as u64 as i64)
                }
            }
        },
    }
}

/// The lowercase hex digit character for a value below sixteen.
pub open spec fn spec_hex_digit(d: int) -> char {
    if d < 10 {
        spec_digit(d)
    } else if d == 10 {
        'a'
    } else if d == 11 {
        'b'
    } else if d == 12 {
        'c'
    } else if d == 13 {
        'd'
    } else if d == 14 {
        'e'
    } else {
        'f'
    }
}

/// The lowercase hex encoding of a byte sequence: two digits per byte,
/// high digit first.
pub open spec fn spec_hex_of(b: Seq<u8>) -> Seq<char>
    decreases b.len(),
{
    if b.len() == 0 {
        Seq::<char>::empty()
    } else {
        spec_hex_of(b.drop_last()) + seq![
            spec_hex_digit(b.last() as int / 16),
            spec_hex_digit(b.last() as int % 16),
        ]
    }
}

pub fn hex_digit_char(d: u8) -> (c: char)
    requires
        d < 16,
    ensures
        c == spec_hex_digit(d as int),
{
    if d < 10 {
        digit_char(d as u64)
    } else if d == 10 {
        'a'
    } else if d == 11 {
        'b'
    } else if d == 12 {
        'c'
    } else if d == 13 {
        'd'
    } else if d == 14 {
        'e'
    } else {
        'f'
    }
}

/// Encode bytes as lowercase hex characters.
pub fn hex_chars(b: &Vec<u8>) -> (r: Vec<char>)
    ensures
        r@ == spec_hex_of(b@),
{
    let mut r: Vec<char> = Vec::new();
    let mut i: usize = 0;
    proof {
        assert(b@.take(0) =~= Seq::<u8>::empty());
    }
    while i < b.len()
        invariant
            i <= b@.len(),
            r@ == spec_hex_of(b@.take(i as int)),
        decreases b@.len() - i,
    {
        let byte = b[i];
        r.push(hex_digit_char(byte / 16));
        r.push(hex_digit_char(byte % 16));
        proof {
            assert(b@.take(i + 1 as int).drop_last() =~= b@.take(i as int));
            assert(b@.take(i + 1 as int).last() == b@[i as int]);
        }
        i = i + 1;
    }
    proof {
        assert(b@.take(b@.len() as int) =~= b@);
    }
    r
}

} // verus!
