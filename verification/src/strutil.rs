//! Character-level string utilities.
//!
//! The library does all of its scanning and building over `Vec<char>`,
//! converting from `&str` at the public boundaries. Contracts are stated
//! over `Seq<char>`.

use vstd::prelude::*;
use vstd::string::StrSliceExecFns;

verus! {

/// Collect the characters of a string slice into a vector.
pub fn string_to_chars(s: &str) -> (r: Vec<char>)
    ensures
        r@ == s@,
{
    let n: usize = s.unicode_len();
    let mut r: Vec<char> = Vec::new();
    let mut i: usize = 0;
    while i < n
        invariant
            n == s@.len(),
            i <= n,
            r@ == s@.take(i as int),
        decreases n - i,
    {
        r.push(s.get_char(i));
        proof {
            assert(s@.take(i + 1 as int) =~= s@.take(i as int).push(s@[i as int]));
        }
        i = i + 1;
    }
    proof {
        assert(s@.take(n as int) =~= s@);
    }
    r
}

/// Relies on `String::from_iter` over `char`: the returned string holds
/// exactly the characters of the vector, in order.
#[verifier::external_body]
pub fn chars_to_string(v: &Vec<char>) -> (r: String)
    ensures
        r@ == v@,
{
    v.iter().collect()
}

/// Whether two character vectors hold the same characters.
pub fn chars_eq(a: &Vec<char>, b: &Vec<char>) -> (r: bool)
    ensures
        r == (a@ == b@),
{
    if a.len() != b.len() {
        proof {
            assert(a@.len() != b@.len());
        }
        return false;
    }
    let mut i: usize = 0;
    while i < a.len()
        invariant
            a@.len() == b@.len(),
            i <= a@.len(),
            forall|j: int| 0 <= j < i ==> a@[j] == b@[j],
        decreases a@.len() - i,
    {
        if a[i] != b[i] {
            return false;
        }
        i = i + 1;
    }
    proof {
        assert(a@ =~= b@);
    }
    true
}

/// Whether `sub` occurs in `s` starting at position `i`.
pub open spec fn occurs_at(s: Seq<char>, sub: Seq<char>, i: int) -> bool {
    &&& 0 <= i
    &&& i + sub.len() <= s.len()
    &&& s.subrange(i, i + sub.len()) == sub
}

/// Whether `sub` occurs anywhere in `s`.
pub open spec fn contains_seq(s: Seq<char>, sub: Seq<char>) -> bool {
    exists|i: int| occurs_at(s, sub, i)
}

/// Whether `p` is a prefix of `s`.
pub open spec fn spec_starts_with(s: Seq<char>, p: Seq<char>) -> bool {
    p.len() <= s.len() && s.subrange(0, p.len() as int) == p
}

/// Test whether `p` is a prefix of `s`.
pub fn starts_with(s: &Vec<char>, p: &Vec<char>) -> (r: bool)
    ensures
        r == spec_starts_with(s@, p@),
{
    if p.len() > s.len() {
        return false;
    }
    matches_at(s, p, 0)
}

/// Test `sub` at one position.
fn matches_at(s: &Vec<char>, sub: &Vec<char>, i: usize) -> (r: bool)
    requires
        i + sub@.len() <= s@.len(),
    ensures
        r == occurs_at(s@, sub@, i as int),
{
    let n: usize = s.len();
    let mut j: usize = 0;
    while j < sub.len()
        invariant
            n == s@.len(),
            i + sub@.len() <= s@.len(),
            j <= sub@.len(),
            forall|k: int| 0 <= k < j ==> s@[i + k] == sub@[k],
        decreases sub@.len() - j,
    {
        if s[i + j] != sub[j] {
            proof {
                assert(s@.subrange(i as int, i + sub@.len())[j as int] == s@[i + j]);
            }
            return false;
        }
        j = j + 1;
    }
    proof {
        assert(s@.subrange(i as int, i + sub@.len()) =~= sub@);
    }
    true
}

/// The least position at or after `from` where `sub` occurs in `s`,
/// if there is one.
pub open spec fn first_occurrence_from(s: Seq<char>, sub: Seq<char>, from: int) -> Option<int>
    decreases s.len() + 1 - from,
{
    if from < 0 || from + sub.len() > s.len() {
        None
    } else if occurs_at(s, sub, from) {
        Some(from)
    } else {
        first_occurrence_from(s, sub, from + 1)
    }
}

/// Find the first occurrence of `sub` in `s` at or after `from`.
pub fn find_from(s: &Vec<char>, sub: &Vec<char>, from: usize) -> (r: Option<usize>)
    ensures
        match r {
            Some(i) => first_occurrence_from(s@, sub@, from as int) == Some(i as int) && from
                <= i && i + sub@.len() <= s@.len(),
            None => first_occurrence_from(s@, sub@, from as int) is None,
        },
{
    let n: usize = s.len();
    let m: usize = sub.len();
    if m > n || from > n - m {
        proof {
            lemma_first_occurrence_none(s@, sub@, from as int);
        }
        return None;
    }
    if m == 0 {
        proof {
            assert(s@.subrange(from as int, from as int) =~= sub@);
        }
        return Some(from);
    }
    let mut i: usize = from;
    while i <= n - m
        invariant
            n == s@.len(),
            m == sub@.len(),
            1 <= m <= n,
            from <= i <= n - m + 1,
            first_occurrence_from(s@, sub@, from as int) == first_occurrence_from(
                s@,
                sub@,
                i as int,
            ),
        decreases n - i,
    {
        if matches_at(s, sub, i) {
            return Some(i);
        }
        i = i + 1;
    }
    proof {
        lemma_first_occurrence_none(s@, sub@, i as int);
    }
    None
}

proof fn lemma_first_occurrence_none(s: Seq<char>, sub: Seq<char>, from: int)
    requires
        from + sub.len() > s.len() || from < 0,
    ensures
        first_occurrence_from(s, sub, from) is None,
{
}

/// A found occurrence lies at or after the start of the search and
/// inside the sequence, and it is the leftmost one.
pub proof fn lemma_first_occurrence_some(s: Seq<char>, sub: Seq<char>, from: int, i: int)
    requires
        first_occurrence_from(s, sub, from) == Some(i),
    ensures
        from <= i,
        i + sub.len() <= s.len(),
        occurs_at(s, sub, i),
        forall|j: int| from <= j < i ==> !occurs_at(s, sub, j),
    decreases s.len() + 1 - from,
{
    if from < 0 || from + sub.len() > s.len() {
    } else if occurs_at(s, sub, from) {
    } else {
        lemma_first_occurrence_some(s, sub, from + 1, i);
    }
}

/// Where nothing occurs, the search finds nothing.
pub proof fn lemma_no_occurrence(s: Seq<char>, sub: Seq<char>, from: int)
    requires
        forall|k: int| from <= k ==> !occurs_at(s, sub, k),
    ensures
        first_occurrence_from(s, sub, from) is None,
    decreases s.len() + 1 - from,
{
    if !(from < 0 || from + sub.len() > s.len()) {
        lemma_no_occurrence(s, sub, from + 1);
    }
}

/// A one-character pattern occurs exactly where that character stands.
pub proof fn lemma_occurs_at_char(s: Seq<char>, c: char, i: int)
    ensures
        occurs_at(s, seq![c], i) <==> (0 <= i < s.len() && s[i] == c),
{
    if 0 <= i < s.len() {
        assert(s.subrange(i, i + 1) =~= seq![s[i]]);
        if s[i] == c {
            assert(s.subrange(i, i + 1) =~= seq![c]);
        }
        if occurs_at(s, seq![c], i) {
            assert(seq![s[i]][0] == seq![c][0]);
        }
    }
}

/// The character substitution of `a` by `b`, position by position.
pub open spec fn spec_char_map(s: Seq<char>, a: char, b: char) -> Seq<char> {
    Seq::new(
        s.len(),
        |i: int|
            if s[i] == a {
                b
            } else {
                s[i]
            },
    )
}

/// Law: replacing one character by one character is the position-wise
/// substitution.
pub proof fn lemma_replace_char_map(s: Seq<char>, a: char, b: char)
    ensures
        spec_replace_all(s, seq![a], seq![b]) == spec_char_map(s, a, b),
    decreases s.len(),
{
    match first_occurrence_from(s, seq![a], 0) {
        None => {
            assert forall|i: int| 0 <= i < s.len() implies s[i] != a by {
                lemma_occurs_at_char(s, a, i);
                if occurs_at(s, seq![a], i) {
                    lemma_occurrence_found(s, seq![a], 0, i);
                }
            }
            assert(spec_replace_all(s, seq![a], seq![b]) =~= spec_char_map(s, a, b));
        },
        Some(i) => {
            lemma_first_occurrence_some(s, seq![a], 0, i);
            lemma_occurs_at_char(s, a, i);
            let tail = s.skip(i + 1);
            lemma_replace_char_map(tail, a, b);
            assert forall|j: int| 0 <= j < i implies s[j] != a by {
                lemma_occurs_at_char(s, a, j);
            }
            assert(spec_replace_all(s, seq![a], seq![b]) =~= spec_char_map(s, a, b));
        },
    }
}

/// Searching a suffix finds the same occurrences, shifted.
pub proof fn lemma_first_occurrence_skip(s: Seq<char>, sub: Seq<char>, base: int, from: int)
    requires
        0 <= base <= s.len(),
        base <= from,
    ensures
        first_occurrence_from(s, sub, from) == match first_occurrence_from(
            s.skip(base),
            sub,
            from - base,
        ) {
            Some(i) => Some(i + base),
            None => None,
        },
    decreases s.len() + 1 - from,
{
    let t = s.skip(base);
    if from - base < 0 || from - base + sub.len() > t.len() {
    } else {
        assert(s.subrange(from, from + sub.len()) =~= t.subrange(
            from - base,
            from - base + sub.len(),
        ));
        if occurs_at(t, sub, from - base) {
            assert(occurs_at(s, sub, from));
        } else {
            assert(!occurs_at(s, sub, from));
            lemma_first_occurrence_skip(s, sub, base, from + 1);
        }
    }
}

/// Replacing every occurrence of `from` (sought left to right, without
/// rescanning what was inserted) with `to`. An empty pattern replaces
/// nothing.
pub open spec fn spec_replace_all(s: Seq<char>, from: Seq<char>, to: Seq<char>) -> Seq<char>
    decreases s.len(),
{
    if from.len() == 0 {
        s
    } else {
        match first_occurrence_from(s, from, 0) {
            None => s,
            Some(i) => {
                proof {
                    lemma_first_occurrence_some(s, from, 0, i);
                }
                s.take(i) + to + spec_replace_all(s.skip(i + from.len()), from, to)
            },
        }
    }
}

/// Append a range of `src` to `out`.
#[verifier::loop_isolation(false)]
pub fn push_range(out: &mut Vec<char>, src: &Vec<char>, lo: usize, hi: usize)
    requires
        lo <= hi <= old(out)@.len() + src@.len(),
        hi <= src@.len(),
    ensures
        final(out)@ == old(out)@ + src@.subrange(lo as int, hi as int),
{
    let mut k: usize = lo;
    proof {
        assert(old(out)@ + src@.subrange(lo as int, lo as int) =~= old(out)@);
    }
    while k < hi
        invariant
            lo <= k <= hi,
            out@ == old(out)@ + src@.subrange(lo as int, k as int),
        decreases hi - k,
    {
        out.push(src[k]);
        proof {
            assert(src@.subrange(lo as int, k + 1 as int) =~= src@.subrange(
                lo as int,
                k as int,
            ).push(src@[k as int]));
        }
        k = k + 1;
    }
}

/// Replace every occurrence of `from` in `s` with `to`, left to right.
#[verifier::loop_isolation(false)]
pub fn replace_all(s: &Vec<char>, from: &Vec<char>, to: &Vec<char>) -> (r: Vec<char>)
    ensures
        r@ == spec_replace_all(s@, from@, to@),
{
    if from.len() == 0 {
        let mut out: Vec<char> = Vec::new();
        push_range(&mut out, s, 0, s.len());
        proof {
            assert(s@.subrange(0, s@.len() as int) =~= s@);
        }
        return out;
    }
    let mut out: Vec<char> = Vec::new();
    let mut pos: usize = 0;
    proof {
        assert(s@.skip(0) =~= s@);
        assert(out@ + spec_replace_all(s@, from@, to@) =~= spec_replace_all(s@, from@, to@));
    }
    while pos < s.len()
        invariant
            from@.len() > 0,
            pos <= s@.len(),
            spec_replace_all(s@, from@, to@) == out@ + spec_replace_all(
                s@.skip(pos as int),
                from@,
                to@,
            ),
        decreases s@.len() - pos,
    {
        match find_from(s, from, pos) {
            None => {
                proof {
                    lemma_first_occurrence_skip(s@, from@, pos as int, pos as int);
                }
                let ghost before = out@;
                push_range(&mut out, s, pos, s.len());
                proof {
                    assert(s@.subrange(pos as int, s@.len() as int) =~= s@.skip(pos as int));
                    assert(out@ =~= before + s@.skip(pos as int));
                }
                return out;
            },
            Some(i) => {
                proof {
                    lemma_first_occurrence_skip(s@, from@, pos as int, pos as int);
                    lemma_first_occurrence_some(s@, from@, pos as int, i as int);
                }
                let ghost t = s@.skip(pos as int);
                let ghost before = out@;
                push_range(&mut out, s, pos, i);
                let mut k: usize = 0;
                let ghost mid = out@;
                while k < to.len()
                    invariant
                        k <= to@.len(),
                        out@ == mid + to@.take(k as int),
                    decreases to@.len() - k,
                {
                    out.push(to[k]);
                    proof {
                        assert(to@.take(k + 1 as int) =~= to@.take(k as int).push(to@[k as int]));
                    }
                    k = k + 1;
                }
                proof {
                    assert(to@.take(to@.len() as int) =~= to@);
                    assert(t.take(i - pos) =~= s@.subrange(pos as int, i as int));
                    assert(t.skip(i - pos + from@.len()) =~= s@.skip(i + from@.len()));
                    assert(out@ =~= before + t.take(i - pos) + to@);
                }
                pos = i + from.len();
            },
        }
    }
    proof {
        if pos == s@.len() {
            assert(s@.skip(pos as int) =~= Seq::<char>::empty());
            if from@.len() > 0 {
                assert(first_occurrence_from(Seq::<char>::empty(), from@, 0) is None);
            }
            assert(out@ + spec_replace_all(s@.skip(pos as int), from@, to@) =~= out@);
        }
    }
    out
}

/// The least position at or after `i` holding the character, if any.
pub open spec fn char_pos(s: Seq<char>, c: char, i: int) -> Option<int>
    decreases s.len() - i,
{
    if i < 0 || i >= s.len() {
        None
    } else if s[i] == c {
        Some(i)
    } else {
        char_pos(s, c, i + 1)
    }
}

/// A found character position lies in range, holds the character, and
/// is the least such position.
pub proof fn lemma_char_pos(s: Seq<char>, c: char, i: int)
    requires
        char_pos(s, c, i) is Some,
    ensures
        i <= char_pos(s, c, i)->0 < s.len(),
        s[char_pos(s, c, i)->0] == c,
        forall|k: int| i <= k < char_pos(s, c, i)->0 ==> s[k] != c,
    decreases s.len() - i,
{
    if 0 <= i < s.len() && s[i] != c {
        lemma_char_pos(s, c, i + 1);
    }
}

/// Find the least position at or after `i` holding the character.
pub fn find_char(s: &Vec<char>, c: char, i: usize) -> (r: Option<usize>)
    requires
        i <= s@.len(),
    ensures
        match r {
            Some(k) => char_pos(s@, c, i as int) == Some(k as int) && i <= k < s@.len(),
            None => char_pos(s@, c, i as int) is None,
        },
    decreases s@.len() - i,
{
    if i >= s.len() {
        None
    } else if s[i] == c {
        Some(i)
    } else {
        find_char(s, c, i + 1)
    }
}

/// An occurrence at or after the start of a search means the search
/// finds one.
pub proof fn lemma_occurrence_found(s: Seq<char>, sub: Seq<char>, from: int, i: int)
    requires
        0 <= from <= i,
        occurs_at(s, sub, i),
    ensures
        first_occurrence_from(s, sub, from) is Some,
    decreases i - from,
{
    if from < i && !occurs_at(s, sub, from) {
        lemma_occurrence_found(s, sub, from + 1, i);
    }
}

/// What trimming every leading and trailing quote character leaves.
pub open spec fn spec_trim_quotes(s: Seq<char>) -> Seq<char>
    decreases s.len(),
{
    if s.len() > 0 && s.first() == '"' {
        spec_trim_quotes(s.drop_first())
    } else if s.len() > 0 && s.last() == '"' {
        spec_trim_quotes(s.drop_last())
    } else {
        s
    }
}

/// Remove every leading and trailing `"` character.
#[verifier::loop_isolation(false)]
pub fn trim_quotes(s: &Vec<char>) -> (r: Vec<char>)
    ensures
        r@ == spec_trim_quotes(s@),
{
    let mut lo: usize = 0;
    let mut hi: usize = s.len();
    proof {
        assert(s@.subrange(0, s@.len() as int) =~= s@);
    }
    while lo < hi && s[lo] == '"'
        invariant
            lo <= hi <= s@.len(),
            spec_trim_quotes(s@) == spec_trim_quotes(s@.subrange(lo as int, hi as int)),
        decreases hi - lo,
    {
        proof {
            assert(s@.subrange(lo as int, hi as int).drop_first() =~= s@.subrange(
                lo + 1 as int,
                hi as int,
            ));
        }
        lo = lo + 1;
    }
    while lo < hi && s[hi - 1] == '"'
        invariant
            lo <= hi <= s@.len(),
            spec_trim_quotes(s@) == spec_trim_quotes(s@.subrange(lo as int, hi as int)),
            lo < hi ==> s@[lo as int] != '"',
        decreases hi - lo,
    {
        proof {
            assert(s@.subrange(lo as int, hi as int).drop_last() =~= s@.subrange(
                lo as int,
                hi - 1 as int,
            ));
        }
        hi = hi - 1;
    }
    let mut out: Vec<char> = Vec::new();
    push_range(&mut out, s, lo, hi);
    proof {
        assert(out@ =~= s@.subrange(lo as int, hi as int));
    }
    out
}

/// What `str::to_lowercase` returns for the given characters. It is a
/// function of the characters alone.
pub uninterp spec fn lower_of(s: Seq<char>) -> Seq<char>;

/// Relies on `str::to_lowercase`: the result depends on the characters
/// alone, and an empty string stays empty.
#[verifier::external_body]
pub fn lowercase(s: &str) -> (r: String)
    ensures
        r@ == lower_of(s@),
        s@.len() == 0 ==> r@.len() == 0,
{
    s.to_lowercase()
}

} // verus!
