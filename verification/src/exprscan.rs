//! Finding embedded JSONPath references in expression text, and the
//! longest-first substitution that turns them into variable names.

use crate::jsonpath::is_word_char;
use crate::strutil::{replace_all, spec_replace_all};
use vstd::prelude::*;

verus! {

/// Whether a character may stand in an embedded path reference after
/// the leading `$.`: word characters, dots, brackets and quotes.
pub open spec fn is_path_char(c: char) -> bool {
    is_word_char(c) || c == '.' || c == '[' || c == ']' || c == '\''
}

/// The end of the run of path characters starting at `i`.
pub open spec fn path_run_end(s: Seq<char>, i: int) -> int
    decreases s.len() - i,
{
    if 0 <= i < s.len() && is_path_char(s[i]) {
        path_run_end(s, i + 1)
    } else {
        i
    }
}

pub proof fn lemma_path_run_end(s: Seq<char>, i: int)
    requires
        0 <= i <= s.len(),
    ensures
        i <= path_run_end(s, i) <= s.len(),
    decreases s.len() - i,
{
    if i < s.len() && is_path_char(s[i]) {
        lemma_path_run_end(s, i + 1);
    }
}

/// The embedded path references found scanning left to right: at a
/// `$.` followed by at least one path character, the maximal run is
/// taken and the scan continues after it.
pub open spec fn spec_find_paths(s: Seq<char>, i: int) -> Seq<Seq<char>>
    decreases s.len() - i,
    via spec_find_paths_decreases
{
    if i < 0 || i >= s.len() {
        Seq::<Seq<char>>::empty()
    } else if s[i] == '$' && i + 2 < s.len() && s[i + 1] == '.' && is_path_char(s[i + 2]) {
        let j = path_run_end(s, i + 2);
        seq![s.subrange(i, j)] + spec_find_paths(s, j)
    } else {
        spec_find_paths(s, i + 1)
    }
}

#[via_fn]
proof fn spec_find_paths_decreases(s: Seq<char>, i: int) {
    if 0 <= i < s.len() {
        if s[i] == '$' && i + 2 < s.len() && s[i + 1] == '.' && is_path_char(s[i + 2]) {
            lemma_path_run_end(s, i + 2);
        }
    }
}

fn path_run_end_exec(s: &Vec<char>, i: usize) -> (r: usize)
    requires
        i <= s@.len(),
    ensures
        r == path_run_end(s@, i as int),
        i <= r <= s@.len(),
    decreases s@.len() - i,
{
    if i < s.len() {
        let c = s[i];
        if ('a' <= c && c <= 'z') || ('A' <= c && c <= 'Z') || ('0' <= c && c <= '9') || c == '_'
            || c == '.' || c == '[' || c == ']' || c == '\'' {
            return path_run_end_exec(s, i + 1);
        }
    }
    i
}

fn is_path_char_exec(c: char) -> (r: bool)
    ensures
        r == is_path_char(c),
{
    ('a' <= c && c <= 'z') || ('A' <= c && c <= 'Z') || ('0' <= c && c <= '9') || c == '_' || c
        == '.' || c == '[' || c == ']' || c == '\''
}

/// Find the embedded path references of an expression text.
#[verifier::loop_isolation(false)]
pub fn find_paths(s: &Vec<char>) -> (r: Vec<Vec<char>>)
    ensures
        r.deep_view() == spec_find_paths(s@, 0),
{
    let mut out: Vec<Vec<char>> = Vec::new();
    let mut i: usize = 0;
    proof {
        assert(out.deep_view() + spec_find_paths(s@, 0) =~= spec_find_paths(s@, 0));
    }
    while i < s.len()
        invariant
            i <= s@.len(),
            spec_find_paths(s@, 0) == out.deep_view() + spec_find_paths(s@, i as int),
        decreases s@.len() - i,
    {
        if s[i] == '$' && s.len() - i > 2 && s[i + 1] == '.' && is_path_char_exec(s[i + 2]) {
            let j = path_run_end_exec(s, i + 2);
            let mut path: Vec<char> = Vec::new();
            crate::strutil::push_range(&mut path, s, i, j);
            let ghost ov = out.deep_view();
            proof {
                assert(path.deep_view() =~= s@.subrange(i as int, j as int));
            }
            out.push(path);
            proof {
                assert(out.deep_view() =~~= ov.push(s@.subrange(i as int, j as int)));
                assert(out.deep_view() + spec_find_paths(s@, j as int) =~~= ov + spec_find_paths(
                    s@,
                    i as int,
                ));
            }
            i = j;
        } else {
            i = i + 1;
        }
    }
    proof {
        assert(spec_find_paths(s@, s@.len() as int) =~= Seq::<Seq<char>>::empty());
        assert(out.deep_view() + Seq::<Seq<char>>::empty() =~= out.deep_view());
    }
    out
}

/// Where a text stands in a list sorted by falling length: after every
/// strictly longer text and after every earlier text of the same
/// length, so that sorting is stable.
pub open spec fn spec_insert_desc(s: Seq<Seq<char>>, x: Seq<char>) -> Seq<Seq<char>>
    decreases s.len(),
{
    if s.len() > 0 && s.last().len() < x.len() {
        spec_insert_desc(s.drop_last(), x).push(s.last())
    } else {
        s.push(x)
    }
}

/// The list sorted by falling length, keeping the order of texts of
/// equal length.
pub open spec fn spec_sort_desc(s: Seq<Seq<char>>) -> Seq<Seq<char>>
    decreases s.len(),
{
    if s.len() == 0 {
        Seq::<Seq<char>>::empty()
    } else {
        spec_insert_desc(spec_sort_desc(s.drop_last()), s.last())
    }
}

proof fn lemma_insert_desc_split(s: Seq<Seq<char>>, x: Seq<char>, i: int)
    requires
        0 <= i <= s.len(),
        forall|j: int| i <= j < s.len() ==> (#[trigger] s[j]).len() < x.len(),
    ensures
        spec_insert_desc(s, x) == spec_insert_desc(s.take(i), x) + s.skip(i),
    decreases s.len() - i,
{
    if i == s.len() {
        assert(s.take(i) =~= s);
        assert(spec_insert_desc(s, x) + s.skip(i) =~= spec_insert_desc(s, x));
    } else {
        assert(s.last().len() < x.len());
        let s2 = s.drop_last();
        assert(forall|j: int| i <= j < s2.len() ==> (#[trigger] s2[j]) == s[j]);
        lemma_insert_desc_split(s2, x, i);
        assert(s2.take(i) =~= s.take(i));
        assert(spec_insert_desc(s, x) =~= (spec_insert_desc(s.take(i), x) + s2.skip(i)).push(
            s.last(),
        ));
        assert((spec_insert_desc(s.take(i), x) + s2.skip(i)).push(s.last()) =~= spec_insert_desc(
            s.take(i),
            x,
        ) + s.skip(i));
    }
}

/// Insert a text into a list sorted by falling length, stably.
#[verifier::loop_isolation(false)]
fn insert_by_len_desc(list: &mut Vec<Vec<char>>, x: Vec<char>)
    ensures
        final(list).deep_view() == spec_insert_desc(old(list).deep_view(), x@),
{
    let ghost s = old(list).deep_view();
    let mut i: usize = list.len();
    let mut stop: bool = false;
    while i > 0 && !stop
        invariant
            list@ == old(list)@,
            i <= list@.len(),
            forall|j: int| i <= j < s.len() ==> (#[trigger] s[j]).len() < x@.len(),
            stop ==> i > 0 && s[i - 1].len() >= x@.len(),
        decreases i, (if stop {
            0int
        } else {
            1int
        }),
    {
        if list[i - 1].len() < x.len() {
            i = i - 1;
        } else {
            stop = true;
        }
    }
    proof {
        lemma_insert_desc_split(s, x@, i as int);
        if i > 0 {
            assert(s.take(i as int).last() == s[i - 1]);
        }
        assert(spec_insert_desc(s.take(i as int), x@) == s.take(i as int).push(x@));
    }
    let ghost xv = x@;
    list.insert(i, x);
    proof {
        assert(list@[i as int].deep_view() =~= xv);
        assert(list.deep_view() =~~= s.take(i as int).push(xv) + s.skip(i as int));
    }
}

/// Sort path texts by falling length, keeping the order of texts of
/// equal length, so that longer paths are substituted first.
#[verifier::loop_isolation(false)]
pub fn sort_by_len_desc(paths: Vec<Vec<char>>) -> (r: Vec<Vec<char>>)
    ensures
        r.deep_view() == spec_sort_desc(paths.deep_view()),
{
    let ghost pv = paths.deep_view();
    let mut out: Vec<Vec<char>> = Vec::new();
    let mut i: usize = 0;
    let mut rest = paths;
    proof {
        assert(out.deep_view() =~= spec_sort_desc(pv.take(0)));
    }
    while i < rest.len()
        invariant
            i <= rest@.len(),
            rest.deep_view() == pv,
            out.deep_view() == spec_sort_desc(pv.take(i as int)),
        decreases rest@.len() - i,
    {
        proof {
            assert(pv[i as int] =~= rest@[i as int]@);
        }
        let item = copy_chars(&rest[i]);
        insert_by_len_desc(&mut out, item);
        proof {
            assert(pv.take(i + 1 as int).drop_last() =~= pv.take(i as int));
            assert(pv.take(i + 1 as int).last() == pv[i as int]);
        }
        i = i + 1;
    }
    proof {
        assert(pv.take(rest@.len() as int) =~= pv);
    }
    out
}

/// Copy a character vector.
pub fn copy_chars(v: &Vec<char>) -> (r: Vec<char>)
    ensures
        r@ == v@,
{
    let mut out: Vec<char> = Vec::new();
    crate::strutil::push_range(&mut out, v, 0, v.len());
    proof {
        assert(v@.subrange(0, v@.len() as int) =~= v@);
    }
    out
}

/// The variable name of an embedded path: `$` becomes `JSON_` and `.`
/// becomes `_`.
pub open spec fn spec_jsonpath_to_variable(p: Seq<char>) -> Seq<char> {
    spec_replace_all(
        spec_replace_all(p, seq!['$'], seq!['J', 'S', 'O', 'N', '_']),
        seq!['.'],
        seq!['_'],
    )
}

/// The path of a variable name: `JSON_` becomes `$` and `_` becomes
/// `.`.
pub open spec fn spec_variable_to_jsonpath(v: Seq<char>) -> Seq<char> {
    spec_replace_all(
        spec_replace_all(v, seq!['J', 'S', 'O', 'N', '_'], seq!['$']),
        seq!['_'],
        seq!['.'],
    )
}

/// Turn an embedded path's characters into its variable name.
pub fn jsonpath_to_variable_chars(p: &Vec<char>) -> (r: Vec<char>)
    ensures
        r@ == spec_jsonpath_to_variable(p@),
{
    let mut dollar: Vec<char> = Vec::new();
    dollar.push('$');
    let mut json_: Vec<char> = Vec::new();
    json_.push('J');
    json_.push('S');
    json_.push('O');
    json_.push('N');
    json_.push('_');
    let mut dot: Vec<char> = Vec::new();
    dot.push('.');
    let mut under: Vec<char> = Vec::new();
    under.push('_');
    proof {
        assert(dollar@ =~= seq!['$']);
        assert(json_@ =~= seq!['J', 'S', 'O', 'N', '_']);
        assert(dot@ =~= seq!['.']);
        assert(under@ =~= seq!['_']);
    }
    let step = replace_all(p, &dollar, &json_);
    replace_all(&step, &dot, &under)
}

/// A path character that survives the variable-name round trip:
/// letters, digits and dots, with no underscore, bracket, quote or
/// second `$`.
pub open spec fn is_plain_path_char(c: char) -> bool {
    ('a' <= c && c <= 'z') || ('A' <= c && c <= 'Z') || crate::numfmt::is_digit(c) || c == '.'
}

/// Law: naming a path as a variable and reading the name back gives
/// the path, for a `$.`-rooted path of letters, digits and dots that
/// does not hold the text `JSON.` anywhere. (A path with an underscore
/// or with an embedded `JSON.` does not round-trip: the backward
/// substitution cannot tell its characters from the forward one's.)
pub proof fn lemma_variable_name_round_trip(p: Seq<char>)
    requires
        p.len() >= 2,
        p[0] == '$',
        p[1] == '.',
        forall|i: int| 1 <= i < p.len() ==> is_plain_path_char(#[trigger] p[i]),
        forall|k: int| !crate::strutil::occurs_at(p, seq!['J', 'S', 'O', 'N', '.'], k),
    ensures
        spec_variable_to_jsonpath(spec_jsonpath_to_variable(p)) == p,
{
    let dollar = seq!['$'];
    let json_ = seq!['J', 'S', 'O', 'N', '_'];
    let t = p.skip(1);
    crate::strutil::lemma_occurs_at_char(p, '$', 0);
    assert(crate::strutil::first_occurrence_from(p, dollar, 0) == Some(0int));
    assert forall|k: int| !crate::strutil::occurs_at(t, dollar, k) by {
        crate::strutil::lemma_occurs_at_char(t, '$', k);
        if 0 <= k < t.len() {
            assert(t[k] == p[k + 1]);
        }
    }
    crate::strutil::lemma_no_occurrence(t, dollar, 0);
    let v1 = spec_replace_all(p, dollar, json_);
    assert(spec_replace_all(t, dollar, json_) == t);
    assert(v1 == p.take(0) + json_ + spec_replace_all(p.skip(1), dollar, json_));
    assert(v1 =~= json_ + t);
    crate::strutil::lemma_replace_char_map(v1, '.', '_');
    let v2 = spec_replace_all(v1, seq!['.'], seq!['_']);
    let md = crate::strutil::spec_char_map(t, '.', '_');
    assert(v2 =~= json_ + md);
    assert(spec_jsonpath_to_variable(p) == v2);
    assert(crate::strutil::occurs_at(v2, json_, 0)) by {
        assert(v2.subrange(0, 5) =~= json_);
    }
    assert(crate::strutil::first_occurrence_from(v2, json_, 0) == Some(0int));
    assert(v2.skip(5) =~= md);
    assert forall|k: int| !crate::strutil::occurs_at(md, json_, k) by {
        if crate::strutil::occurs_at(md, json_, k) {
            assert(md.subrange(k, k + 5)[0] == md[k]);
            assert(md.subrange(k, k + 5)[1] == md[k + 1]);
            assert(md.subrange(k, k + 5)[2] == md[k + 2]);
            assert(md.subrange(k, k + 5)[3] == md[k + 3]);
            assert(md.subrange(k, k + 5)[4] == md[k + 4]);
            assert(t[k] == 'J' && t[k + 1] == 'S' && t[k + 2] == 'O' && t[k + 3] == 'N');
            assert(is_plain_path_char(t[k + 4]));
            assert(t[k + 4] == '.');
            assert(crate::strutil::occurs_at(p, seq!['J', 'S', 'O', 'N', '.'], k + 1)) by {
                assert(p.subrange(k + 1, k + 6) =~= seq!['J', 'S', 'O', 'N', '.']);
            }
        }
    }
    crate::strutil::lemma_no_occurrence(md, json_, 0);
    let w1 = spec_replace_all(v2, json_, dollar);
    assert(spec_replace_all(md, json_, dollar) == md) by {
        assert(v2.skip(5) == md);
    }
    assert(w1 == v2.take(0) + dollar + spec_replace_all(v2.skip(5), json_, dollar));
    assert(w1 =~= dollar + md);
    crate::strutil::lemma_replace_char_map(w1, '_', '.');
    let w2 = spec_replace_all(w1, seq!['_'], seq!['.']);
    assert(w2 =~= p);
}

/// The expression text with each found path, longest first, replaced by
/// its variable name, one path after the other.
pub open spec fn spec_apply_substitutions(s: Seq<char>, paths: Seq<Seq<char>>, i: int) -> Seq<
    char,
>
    decreases paths.len() - i,
{
    if i < 0 || i >= paths.len() {
        s
    } else {
        spec_apply_substitutions(
            spec_replace_all(s, paths[i], spec_jsonpath_to_variable(paths[i])),
            paths,
            i + 1,
        )
    }
}

/// Replace each path of the list in the text by its variable name, in
/// list order.
#[verifier::loop_isolation(false)]
pub fn apply_substitutions(s: Vec<char>, paths: &Vec<Vec<char>>) -> (r: Vec<char>)
    ensures
        r@ == spec_apply_substitutions(s@, paths.deep_view(), 0),
{
    let ghost pv = paths.deep_view();
    let ghost s0 = s@;
    let mut cur = s;
    let mut i: usize = 0;
    while i < paths.len()
        invariant
            i <= paths@.len(),
            pv == paths.deep_view(),
            spec_apply_substitutions(s0, pv, 0) == spec_apply_substitutions(cur@, pv, i as int),
        decreases paths@.len() - i,
    {
        proof {
            assert(pv[i as int] =~= paths@[i as int]@);
        }
        let var = jsonpath_to_variable_chars(&paths[i]);
        cur = replace_all(&cur, &paths[i], &var);
        i = i + 1;
    }
    cur
}

} // verus!
