//! The arithmetic expression sub-language: embedded path references
//! become variable names, the power operator becomes the evaluator's
//! call form, and the rewritten text goes to the evaluator.

use crate::error::ExpressionError;
use crate::exprpow::{convert_power_chars, is_space, is_space_exec, spec_convert_power};
use crate::exprscan::{apply_substitutions, find_paths, sort_by_len_desc, spec_apply_substitutions,
    spec_find_paths, spec_jsonpath_to_variable, spec_sort_desc, spec_variable_to_jsonpath};
use crate::strutil::{chars_to_string, replace_all, string_to_chars};
use vstd::prelude::*;

verus! {

/// Turn an embedded path into its variable name: `$` becomes `JSON_`
/// and `.` becomes `_`.
pub fn jsonpath_to_variable(path: &str) -> (r: String)
    ensures
        r@ == spec_jsonpath_to_variable(path@),
{
    let chars = string_to_chars(path);
    let out = crate::exprscan::jsonpath_to_variable_chars(&chars);
    chars_to_string(&out)
}

/// Turn a variable name back into a path: `JSON_` becomes `$` and `_`
/// becomes `.`.
pub fn variable_to_jsonpath(var: &str) -> (r: String)
    ensures
        r@ == spec_variable_to_jsonpath(var@),
{
    let chars = string_to_chars(var);
    let mut json_: Vec<char> = Vec::new();
    json_.push('J');
    json_.push('S');
    json_.push('O');
    json_.push('N');
    json_.push('_');
    let mut dollar: Vec<char> = Vec::new();
    dollar.push('$');
    let mut under: Vec<char> = Vec::new();
    under.push('_');
    let mut dot: Vec<char> = Vec::new();
    dot.push('.');
    proof {
        assert(json_@ =~= seq!['J', 'S', 'O', 'N', '_']);
        assert(dollar@ =~= seq!['$']);
        assert(under@ =~= seq!['_']);
        assert(dot@ =~= seq!['.']);
    }
    let step = replace_all(&chars, &json_, &dollar);
    let out = replace_all(&step, &under, &dot);
    chars_to_string(&out)
}

/// The embedded paths of an expression, sorted by falling length so
/// that longer paths are substituted before their prefixes.
pub open spec fn spec_expression_paths(s: Seq<char>) -> Seq<Seq<char>> {
    spec_sort_desc(spec_find_paths(s, 0))
}

/// The rewritten expression: every found path replaced by its variable
/// name, longest first, then the power operator lowered to the
/// evaluator's call form.
pub open spec fn spec_converted_expression(s: Seq<char>) -> Seq<char> {
    spec_convert_power(spec_apply_substitutions(s, spec_expression_paths(s), 0))
}

/// Rewrite an expression for the evaluator and report the embedded
/// paths that were found, sorted by falling length.
pub fn parse_expression(text: &str) -> (r: (String, Vec<String>))
    ensures
        r.0@ == spec_converted_expression(text@),
        r.1.deep_view() == spec_expression_paths(text@),
{
    let chars = string_to_chars(text);
    let found = find_paths(&chars);
    let sorted = sort_by_len_desc(found);
    let substituted = apply_substitutions(chars, &sorted);
    let converted = convert_power_chars(substituted);
    let mut paths: Vec<String> = Vec::new();
    let mut i: usize = 0;
    let ghost sv = sorted.deep_view();
    proof {
        assert(paths.deep_view() =~= sv.take(0));
    }
    while i < sorted.len()
        invariant
            i <= sorted@.len(),
            sv == sorted.deep_view(),
            paths.deep_view() == sv.take(i as int),
        decreases sorted@.len() - i,
    {
        proof {
            assert(sv[i as int] =~= sorted@[i as int]@);
        }
        paths.push(chars_to_string(&sorted[i]));
        proof {
            assert(sv.take(i + 1 as int) =~= sv.take(i as int).push(sv[i as int]));
            assert(paths.deep_view() =~~= sv.take(i + 1 as int));
        }
        i = i + 1;
    }
    proof {
        assert(sv.take(sorted@.len() as int) =~= sv);
    }
    (chars_to_string(&converted), paths)
}

/// The variable names of the embedded paths of an expression.
pub fn extract_variables(text: &str) -> (r: Vec<String>)
    ensures
        r.deep_view() == Seq::new(
            spec_expression_paths(text@).len(),
            |i: int| spec_jsonpath_to_variable(spec_expression_paths(text@)[i]),
        ),
{
    let (_, paths) = parse_expression(text);
    let ghost pv = spec_expression_paths(text@);
    let mut out: Vec<String> = Vec::new();
    let mut i: usize = 0;
    while i < paths.len()
        invariant
            i <= paths@.len(),
            paths.deep_view() == pv,
            out@.len() == i,
            forall|j: int| 0 <= j < i ==> (#[trigger] out@[j])@ == spec_jsonpath_to_variable(
                pv[j],
            ),
        decreases paths@.len() - i,
    {
        proof {
            assert(pv[i as int] =~= paths@[i as int]@);
        }
        let chars = string_to_chars(paths[i].as_str());
        let var = crate::exprscan::jsonpath_to_variable_chars(&chars);
        out.push(chars_to_string(&var));
        i = i + 1;
    }
    proof {
        assert(out.deep_view() =~~= Seq::new(pv.len(), |i: int| spec_jsonpath_to_variable(pv[i])));
    }
    out
}

/// The run of leading `=` characters.
pub open spec fn eq_run_end(s: Seq<char>, i: int) -> int
    decreases s.len() - i,
{
    if 0 <= i < s.len() && s[i] == '=' {
        eq_run_end(s, i + 1)
    } else {
        i
    }
}

/// What trimming surrounding spacing leaves.
pub open spec fn spec_trim_spaces(s: Seq<char>) -> Seq<char>
    decreases s.len(),
{
    if s.len() > 0 && is_space(s.first()) {
        spec_trim_spaces(s.drop_first())
    } else if s.len() > 0 && is_space(s.last()) {
        spec_trim_spaces(s.drop_last())
    } else {
        s
    }
}

/// The expression body: the text after every leading `=`, trimmed of
/// surrounding spacing.
pub open spec fn spec_expression_body(s: Seq<char>) -> Seq<char> {
    spec_trim_spaces(s.skip(eq_run_end(s, 0)))
}

fn eq_run_end_exec(s: &Vec<char>, i: usize) -> (r: usize)
    requires
        i <= s@.len(),
    ensures
        r == eq_run_end(s@, i as int),
        i <= r <= s@.len(),
    decreases s@.len() - i,
{
    if i < s.len() && s[i] == '=' {
        return eq_run_end_exec(s, i + 1);
    }
    i
}

/// Trim surrounding spacing from a character vector.
#[verifier::loop_isolation(false)]
pub fn trim_spaces(s: &Vec<char>) -> (r: Vec<char>)
    ensures
        r@ == spec_trim_spaces(s@),
{
    let mut lo: usize = 0;
    let mut hi: usize = s.len();
    proof {
        assert(s@.subrange(0, s@.len() as int) =~= s@);
    }
    while lo < hi && is_space_exec(s[lo])
        invariant
            lo <= hi <= s@.len(),
            spec_trim_spaces(s@) == spec_trim_spaces(s@.subrange(lo as int, hi as int)),
        decreases hi - lo,
    {
        proof {
            assert(s@.subrange(lo as int, hi as int).drop_first() =~= s@.subrange(
                lo + 1 as int,
                hi as int,
            ));
        }
        lo = lo + 1;
    }
    while lo < hi && is_space_exec(s[hi - 1])
        invariant
            lo <= hi <= s@.len(),
            spec_trim_spaces(s@) == spec_trim_spaces(s@.subrange(lo as int, hi as int)),
            lo < hi ==> !is_space(s@[lo as int]),
        decreases hi - lo,
    {
        proof {
            assert(s@.subrange(lo as int, hi as int).drop_last() =~= s@.subrange(
                lo as int,
                hi - 1 as int,
            ));
        }
        hi = hi - 1;
    }
    let mut out: Vec<char> = Vec::new();
    crate::strutil::push_range(&mut out, s, lo, hi);
    proof {
        assert(out@ =~= s@.subrange(lo as int, hi as int));
    }
    out
}

/// The key-value views of a variable binding list.
pub open spec fn bindings_view(s: Seq<(String, String)>) -> Seq<(Seq<char>, Seq<char>)> {
    Seq::new(s.len(), |i: int| (s[i].0@, s[i].1@))
}

/// What the evaluator returns for a rewritten expression and a list of
/// variable bindings (each a name and a float's display text): the
/// display text of the numeric result, or nothing on a parse failure,
/// an unbound variable or a non-numeric result. It is a function of the
/// text and the bindings alone.
pub uninterp spec fn eval_result(expr: Seq<char>, vars: Seq<(Seq<char>, Seq<char>)>) -> Option<
    Seq<char>,
>;

/// Relies on evalexpr's `eval_with_context` over a `HashMapContext`
/// holding the bindings as floats: the evaluator is deterministic, so
/// the result depends on the expression and the bindings alone.
#[verifier::external_body]
fn eval_with_bindings(expr: &str, vars: &Vec<(String, String)>) -> (r: Option<String>)
    ensures
        match r {
            Some(t) => eval_result(expr@, bindings_view(vars@)) == Some(t@),
            None => eval_result(expr@, bindings_view(vars@)) is None,
        },
{
    let mut ctx = evalexpr::HashMapContext::<evalexpr::DefaultNumericTypes>::new();
    for (name, value) in vars.iter() {
        if let Ok(f) = value.parse() {
            let bound = evalexpr::Value::Float(f);
            let _ = evalexpr::ContextWithMutableVariables::set_value(&mut ctx, name.clone(), bound);
        }
    }
    match evalexpr::eval_with_context(expr, &ctx) {
        Ok(v) => v.as_number().ok().map(|f| format!("{}", f)),
        Err(_) => None,
    }
}

/// Evaluate an arithmetic expression with the given variable bindings,
/// each a name and a float's display text. The leading `=` and
/// surrounding spacing are dropped; an empty body fails as a parse
/// error; the rewritten body goes to the evaluator, whose numeric
/// result is returned as display text.
/// The body of an expression: the text after every leading `=`,
/// trimmed of surrounding spacing.
pub fn expression_body(expression: &str) -> (r: String)
    ensures
        r@ == spec_expression_body(expression@),
{
    let chars = string_to_chars(expression);
    let from = eq_run_end_exec(&chars, 0);
    let mut body: Vec<char> = Vec::new();
    crate::strutil::push_range(&mut body, &chars, from, chars.len());
    proof {
        assert(body@ =~= chars@.skip(from as int));
    }
    let trimmed = trim_spaces(&body);
    chars_to_string(&trimmed)
}

pub fn evaluate_expression(expression: &str, variables: &Vec<(String, String)>) -> (r: Result<
    String,
    ExpressionError,
>)
    ensures
        spec_expression_body(expression@).len() == 0 ==> (r matches Err(e) && e is Parse),
        spec_expression_body(expression@).len() > 0 ==> (match eval_result(
            spec_converted_expression(spec_expression_body(expression@)),
            bindings_view(variables@),
        ) {
            Some(t) => r matches Ok(v) && v@ == t,
            None => r matches Err(e) && e is Evaluation,
        }),
{
    let text = expression_body(expression);
    if text.as_str().is_empty() {
        let mut msg = String::new();
        msg.append("empty expression");
        return Err(ExpressionError::Parse(msg));
    }
    let (converted, _) = parse_expression(text.as_str());
    match eval_with_bindings(converted.as_str(), variables) {
        Some(t) => Ok(t),
        None => {
            let mut msg = String::new();
            msg.append("expression did not evaluate to a number");
            Err(ExpressionError::Evaluation(msg))
        },
    }
}

} // verus!
