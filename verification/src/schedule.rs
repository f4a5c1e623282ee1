//! The cron gate: whether a wall-clock instant falls in a minute that a
//! cron expression designates.

use crate::error::ConfigError;
use crate::exprpow::is_space;
use crate::strutil::{chars_to_string, string_to_chars};
use vstd::prelude::*;

verus! {

/// The first scheduled instant strictly after the given Unix second,
/// for a cron expression in the six- or seven-field form; nothing when
/// the expression does not parse or no instant follows. It is a
/// function of the expression and the instant alone.
pub uninterp spec fn cron_next(expr: Seq<char>, after: int) -> Option<int>;

/// Whether a cron expression parses in the six- or seven-field form.
/// It is a function of the expression alone.
pub uninterp spec fn cron_is_valid(expr: Seq<char>) -> bool;

/// Relies on `cron::Schedule::from_str`: whether the expression parses
/// depends on the expression alone.
#[verifier::external_body]
pub fn cron_parses(expr: &str) -> (r: bool)
    ensures
        r == cron_is_valid(expr@),
{
    <cron::Schedule as std::str::FromStr>::from_str(expr).is_ok()
}

/// Relies on `cron::Schedule::after` over a UTC instant built with
/// chrono: the first scheduled instant strictly after the given Unix
/// second, as a Unix second; the schedule iteration is deterministic,
/// so the result depends on the expression and the instant alone. At
/// the last representable second, where one more second cannot exist,
/// nothing follows; the guard keeps the iterator's step in range.
#[verifier::external_body]
fn cron_next_after(expr: &str, after: i64) -> (r: Option<i64>)
    ensures
        match r {
            Some(n) => cron_next(expr@, after as int) == Some(n as int),
            None => cron_next(expr@, after as int) is None,
        },
{
    if after >= chrono::DateTime::<chrono::Utc>::MAX_UTC.timestamp() {
        return None;
    }
    let schedule = match <cron::Schedule as std::str::FromStr>::from_str(expr) {
        Ok(s) => s,
        Err(_) => return None,
    };
    let instant = match chrono::DateTime::<chrono::Utc>::from_timestamp(after, 0) {
        Some(t) => t,
        None => return None,
    };
    schedule.after(&instant).next().map(|t| t.timestamp())
}

/// Relies on `std::time::SystemTime::now`: the current Unix second,
/// clamped to zero before the epoch and to the largest value on
/// overflow, so the result is never negative.
#[verifier::external_body]
pub fn now_unix_secs() -> (r: i64)
    ensures
        r >= 0,
{
    match std::time::SystemTime::now().duration_since(std::time::UNIX_EPOCH) {
        Ok(d) => i64::try_from(d.as_secs()).unwrap_or(i64::MAX),
        Err(_) => 0,
    }
}

/// Relies on `std::time::SystemTime::now`: the current Unix time in
/// nanoseconds, clamped to zero before the epoch and to the largest
/// value on overflow, so the result is never negative.
#[verifier::external_body]
pub fn now_unix_nanos() -> (r: i64)
    ensures
        r >= 0,
{
    match std::time::SystemTime::now().duration_since(std::time::UNIX_EPOCH) {
        Ok(d) => i64::try_from(d.as_nanos()).unwrap_or(i64::MAX),
        Err(_) => 0,
    }
}

/// The end of the run of non-spacing characters starting at `i`.
pub open spec fn word_end(s: Seq<char>, i: int) -> int
    decreases s.len() - i,
{
    if 0 <= i < s.len() && !is_space(s[i]) {
        word_end(s, i + 1)
    } else {
        i
    }
}

pub proof fn lemma_word_end(s: Seq<char>, i: int)
    requires
        0 <= i <= s.len(),
    ensures
        i <= word_end(s, i) <= s.len(),
    decreases s.len() - i,
{
    if i < s.len() && !is_space(s[i]) {
        lemma_word_end(s, i + 1);
    }
}

/// How many spacing-separated fields the text holds from `i` on.
pub open spec fn spec_field_count(s: Seq<char>, i: int) -> int
    decreases s.len() - i,
    via spec_field_count_decreases
{
    if i < 0 || i >= s.len() {
        0int
    } else if is_space(s[i]) {
        spec_field_count(s, i + 1)
    } else {
        1 + spec_field_count(s, word_end(s, i + 1))
    }
}

#[via_fn]
proof fn spec_field_count_decreases(s: Seq<char>, i: int) {
    if 0 <= i < s.len() && !is_space(s[i]) {
        lemma_word_end(s, i + 1);
    }
}

fn word_end_exec(s: &Vec<char>, i: usize) -> (r: usize)
    requires
        i <= s@.len(),
    ensures
        r == word_end(s@, i as int),
        i <= r <= s@.len(),
    decreases s@.len() - i,
{
    if i < s.len() && !crate::exprpow::is_space_exec(s[i]) {
        return word_end_exec(s, i + 1);
    }
    i
}

/// Count the spacing-separated fields of the text.
#[verifier::loop_isolation(false)]
pub fn field_count(s: &Vec<char>) -> (r: usize)
    ensures
        r == spec_field_count(s@, 0),
{
    let mut count: usize = 0;
    let mut i: usize = 0;
    while i < s.len()
        invariant
            i <= s@.len(),
            count <= i,
            spec_field_count(s@, 0) == count + spec_field_count(s@, i as int),
        decreases s@.len() - i,
    {
        if crate::exprpow::is_space_exec(s[i]) {
            i = i + 1;
        } else {
            count = count + 1;
            i = word_end_exec(s, i + 1);
        }
    }
    count
}

/// The expression in the form the cron parser takes: a five-field
/// expression gets a leading zero seconds field; anything else stands
/// as it is.
pub open spec fn spec_normalized_schedule(s: Seq<char>) -> Seq<char> {
    if spec_field_count(s, 0) == 5 {
        seq!['0', ' '] + s
    } else {
        s
    }
}

/// Normalise a schedule for the cron parser.
pub fn normalize_schedule(schedule: &str) -> (r: String)
    ensures
        r@ == spec_normalized_schedule(schedule@),
{
    let chars = string_to_chars(schedule);
    if field_count(&chars) == 5 {
        let mut out: Vec<char> = Vec::new();
        out.push('0');
        out.push(' ');
        crate::strutil::push_range(&mut out, &chars, 0, chars.len());
        proof {
            assert(chars@.subrange(0, chars@.len() as int) =~= chars@);
            assert(out@ =~= seq!['0', ' '] + schedule@);
        }
        chars_to_string(&out)
    } else {
        chars_to_string(&chars)
    }
}

/// The start of the minute holding a Unix second.
pub open spec fn spec_minute_start(t: int) -> int {
    t - ((t % 60) + 60) % 60
}

/// Whether the instant falls in a minute the expression designates:
/// some scheduled instant lies in the half-open minute window, which
/// holds exactly when the first scheduled instant strictly after one
/// second before the minute's start still starts in the same minute.
/// An expression that does not parse gates nothing.
pub open spec fn spec_schedule_matches(s: Seq<char>, t: int) -> bool {
    let m = spec_minute_start(t);
    if m - 1 < i64::MIN {
        false
    } else {
        match cron_next(spec_normalized_schedule(s), m - 1) {
            Some(n) => spec_minute_start(n) == m,
            None => false,
        }
    }
}

/// Whether a schedule designates the minute holding the given Unix
/// second.
pub fn schedule_matches_at_secs(schedule: &str, t: i64) -> (r: bool)
    ensures
        r == spec_schedule_matches(schedule@, t as int),
{
    let normalized = normalize_schedule(schedule);
    let rem: i64 = ((t % 60) + 60) % 60;
    let wide: i128 = (t as i128) - (rem as i128) - 1;
    if wide < i64::MIN as i128 {
        proof {
            assert(spec_minute_start(t as int) - 1 < i64::MIN);
        }
        return false;
    }
    let check_from: i64 = wide as i64;
    match cron_next_after(normalized.as_str(), check_from) {
        Some(n) => {
            let nrem: i64 = ((n % 60) + 60) % 60;
            let nstart: i128 = (n as i128) - (nrem as i128);
            let mstart: i128 = (check_from as i128) + 1;
            nstart == mstart
        },
        None => false,
    }
}

/// Check a schedule: at least five fields, and the normalised form must
/// parse as a cron expression.
pub fn validate_cron_schedule(schedule: &str) -> (r: Result<(), ConfigError>)
    ensures
        r is Ok <==> (spec_field_count(schedule@, 0) >= 5 && cron_is_valid(
            spec_normalized_schedule(schedule@),
        )),
        r is Err ==> (r->Err_0 is InvalidCron),
{
    let chars = string_to_chars(schedule);
    let n: usize = field_count(&chars);
    if n < 5 {
        let mut msg = String::new();
        msg.append("cron expression must have at least 5 fields: ");
        msg.append(schedule);
        return Err(ConfigError::InvalidCron(msg));
    }
    let normalized = normalize_schedule(schedule);
    if cron_parses(normalized.as_str()) {
        Ok(())
    } else {
        let mut msg = String::new();
        msg.append("invalid cron expression: ");
        msg.append(schedule);
        Err(ConfigError::InvalidCron(msg))
    }
}

} // verus!
