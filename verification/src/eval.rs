//! The evaluation loop.
//!
//! `Interpreter::eval_toks` consumes tokens left to right; for each token
//! it tries, in order: special forms, loop registers, builtin operators,
//! user-defined words, numeric literals, constants, and bare variable
//! names.  Nested constructs (word bodies, conditional branches, loop
//! bodies) are captured as raw token sub-sequences and re-evaluated by
//! recursive calls against the shared environment.  The recursion depth is
//! bounded by a fuel parameter; each nested evaluation runs with one unit
//! less, and at zero an error is reported instead of recursing.
//!
//! Every function here is proved to return exactly the environment that
//! the mathematical interpreter (`semantics`) describes.

use vstd::prelude::*;

use crate::inter::{toks_deep, ForthEnv, ForthVar, Interpreter, OutputItem, VarRef, DEFAULT_FUEL};
use crate::lex::{is_blank_tok, parse_i32, tok_is, tokenize};
use crate::model::{assoc_get, EnvModel, RefModel, Tok};
use crate::semantics::{
    fail, find_tok, is_str_end, joined, lemma_find_str_end_found, lemma_find_str_end_none,
    lemma_find_tok_found, lemma_find_tok_none, pushed, spec_builtin, spec_do_iters, spec_eval,
    spec_eval_toks, spec_form_allot, spec_form_cells, spec_form_def, spec_form_do, spec_form_if,
    spec_form_intro_const, spec_form_intro_var, spec_form_plus_ref, spec_form_str,
    spec_form_var_get, spec_form_var_set, spec_parse_string, spec_split_else, spec_step,
};

verus! {

/// Index of the first token equal to `kw` at or after `from`, if any.
fn find_from(toks: &Vec<String>, from: usize, kw: &str) -> (r: Option<usize>)
    requires
        from <= toks@.len(),
    ensures
        match r {
            Some(j) => from <= j < toks@.len() && toks@[j as int]@ == kw@ && (forall|k: int|
                from <= k < j ==> toks@[k]@ != kw@),
            None => forall|k: int| from <= k < toks@.len() ==> toks@[k]@ != kw@,
        },
{
    let n = toks.len();
    let mut j: usize = from;
    while j < n
        invariant
            from <= j <= n,
            n == toks@.len(),
            forall|k: int| from <= k < j ==> toks@[k]@ != kw@,
        decreases n - j,
    {
        if tok_is(&toks[j], kw) {
            return Some(j);
        }
        j += 1;
    }
    None
}

/// `find_from` agrees with `find_tok` on the token suffix that starts at
/// `from`.
proof fn lemma_find_from_tok(toks: Seq<String>, from: int, kw: Tok, r: Option<usize>)
    requires
        0 <= from <= toks.len(),
        match r {
            Some(j) => from <= j < toks.len() && toks[j as int]@ == kw && (forall|k: int|
                from <= k < j ==> toks[k]@ != kw),
            None => forall|k: int| from <= k < toks.len() ==> toks[k]@ != kw,
        },
    ensures
        match r {
            Some(j) => find_tok(toks_deep(toks).skip(from), kw) == Some(j - from),
            None => find_tok(toks_deep(toks).skip(from), kw) is None,
        },
{
    let suffix = toks_deep(toks).skip(from);
    match r {
        Some(j) => {
            assert(suffix[j - from] == toks[j as int]@);
            assert forall|k: int| 0 <= k < j - from implies #[trigger] suffix[k] != kw by {
                assert(suffix[k] == toks[from + k]@);
            }
            lemma_find_tok_found(suffix, kw, j - from);
        },
        None => {
            assert forall|k: int| 0 <= k < suffix.len() implies #[trigger] suffix[k] != kw by {
                assert(suffix[k] == toks[from + k]@);
            }
            lemma_find_tok_none(suffix, kw);
        },
    }
}

/// The tokens of the half-open range `[a, b)`, copied out.
fn collect_range(toks: &Vec<String>, a: usize, b: usize) -> (r: Vec<String>)
    requires
        a <= b <= toks@.len(),
    ensures
        toks_deep(r@) == toks_deep(toks@).subrange(a as int, b as int),
{
    let mut r: Vec<String> = Vec::new();
    let mut j: usize = a;
    while j < b
        invariant
            a <= j <= b <= toks@.len(),
            r@.len() == j - a,
            toks_deep(r@) == toks_deep(toks@).subrange(a as int, j as int),
        decreases b - j,
    {
        let ghost old_r = r@;
        r.push(toks[j].clone());
        proof {
            assert(toks_deep(r@) =~= toks_deep(toks@).subrange(a as int, j + 1));
        }
        j += 1;
    }
    r
}

/// Whether a token's last character is a double quote.
fn ends_with_quote(t: &String) -> (r: bool)
    ensures
        r == (t@.len() > 0 && t@.last() == '"'),
{
    let n = t.as_str().unicode_len();
    n > 0 && t.as_str().get_char(n - 1) == '"'
}

/// Report an error: record it in the output.  The evaluator halts the
/// current evaluation after calling this.
fn report(env: &mut ForthEnv, msg: String)
    ensures
        final(env)@ == fail(old(env)@, msg@),
{
    env.out_push(OutputItem::Error(msg));
}

/// A word definition, `:` at `pos`: read the name, store the body up to
/// the terminating `;`.
fn eval_definition(env: &mut ForthEnv, toks: &Vec<String>, pos: usize) -> (r: (usize, bool))
    requires
        pos < toks@.len(),
    ensures
        ({
            let s = spec_form_def(old(env)@, toks_deep(toks@).skip(pos as int));
            final(env)@ == s.env && r.0 as int == s.consumed && r.1 == s.halt
        }),
        1 <= r.0 && pos + r.0 <= toks@.len(),
{
    let ghost rem = toks_deep(toks@).skip(pos as int);
    let n = toks.len();
    if pos + 1 >= n {
        report(env, "Invalid function".to_owned());
        proof {
            assert(rem.skip(1).len() == 0);
        }
        return (1, true);
    }
    let name = &toks[pos + 1];
    match find_from(toks, pos + 2, ";") {
        None => {
            report(env, "Invalid function".to_owned());
            proof {
                lemma_find_from_tok(toks@, pos + 2, ";"@, None);
                assert(rem.skip(1).skip(1) =~= toks_deep(toks@).skip(pos + 2));
                assert(find_tok(rem.skip(1).skip(1), ";"@) is None);
            }
            (1, true)
        },
        Some(j) => {
            let body = collect_range(toks, pos + 2, j);
            env.add_function(name.as_str(), body);
            proof {
                lemma_find_from_tok(toks@, pos + 2, ";"@, Some(j));
                assert(rem.skip(1).skip(1) =~= toks_deep(toks@).skip(pos + 2));
                assert(find_tok(rem.skip(1).skip(1), ";"@) == Some(j - pos - 2));
                assert(rem.skip(1)[0] == toks@[pos + 1]@);
                assert(rem.skip(1).skip(1).take(j - pos - 2) =~= toks_deep(toks@).subrange(
                    pos + 2,
                    j as int,
                ));
                let s = spec_form_def(old(env)@, rem);
                assert(env@ =~= s.env);
            }
            (j - pos + 1, false)
        },
    }
}

/// A string literal, `."` at `pos`: join the tokens up to the terminating
/// quote and emit the text.
fn eval_string(env: &mut ForthEnv, toks: &Vec<String>, pos: usize) -> (r: (usize, bool))
    requires
        pos < toks@.len(),
    ensures
        ({
            let s = spec_form_str(old(env)@, toks_deep(toks@).skip(pos as int));
            final(env)@ == s.env && r.0 as int == s.consumed && r.1 == s.halt
        }),
        1 <= r.0 && pos + r.0 <= toks@.len(),
{
    let ghost rem = toks_deep(toks@).skip(pos as int);
    let ghost rest = rem.skip(1);
    let n = toks.len();
    let mut acc: String = String::new();
    let mut j: usize = pos + 1;
    proof {
        assert(rest =~= toks_deep(toks@).skip(pos + 1));
        assert(rest.take(0) =~= Seq::<Tok>::empty());
        reveal_strlit(" ");
        assert(" "@ =~= seq![' ']);
    }
    while j < n
        invariant
            pos + 1 <= j <= n,
            n == toks@.len(),
            env@ == old(env)@,
            rem == toks_deep(toks@).skip(pos as int),
            rest == rem.skip(1),
            rest == toks_deep(toks@).skip(pos + 1),
            acc@ == joined(rest.take(j - pos - 1)),
            forall|k: int| 0 <= k < j - pos - 1 ==> !is_str_end(#[trigger] rest[k]),
            " "@ == seq![' '],
        decreases n - j,
    {
        let t = &toks[j];
        proof {
            assert(rest[j - pos - 1] == toks@[j as int]@);
        }
        if tok_is(t, "\"") {
            env.out_push(OutputItem::Text(acc));
            proof {
                lemma_find_str_end_found(rest, j - pos - 1);
                assert(spec_parse_string(rest) == Some(
                    (joined(rest.take(j - pos - 1)), j - pos as int),
                ));
                let s = spec_form_str(old(env)@, rem);
                assert(env@ =~= s.env);
            }
            return (j - pos + 1, false);
        }
        if ends_with_quote(t) {
            let stripped = t.as_str().substring_char(0, t.as_str().unicode_len() - 1);
            let mut msg = acc;
            msg.append(stripped);
            proof {
                assert(stripped@ =~= rest[j - pos - 1].drop_last());
            }
            env.out_push(OutputItem::Text(msg));
            proof {
                lemma_find_str_end_found(rest, j - pos - 1);
                let s = spec_form_str(old(env)@, rem);
                assert(env@ =~= s.env);
            }
            return (j - pos + 1, false);
        }
        acc.append(t.as_str());
        acc.append(" ");
        proof {
            assert(rest.take(j - pos) =~= rest.take(j - pos - 1).push(rest[j - pos - 1]));
            assert(rest.take(j - pos).drop_last() =~= rest.take(j - pos - 1));
            assert(acc@ =~= joined(rest.take(j - pos)));
        }
        j += 1;
    }
    report(env, "Nonterminated string".to_owned());
    proof {
        assert(rest.take(n - pos - 1) =~= rest);
        lemma_find_str_end_none(rest);
        assert(spec_parse_string(rest) is None);
    }
    (1, true)
}

/// An indirect read, `@`: pop the top variable reference and push the
/// value it refers to.
fn eval_variable_get(env: &mut ForthEnv) -> (h: bool)
    ensures
        ({
            let s = spec_form_var_get(old(env)@);
            final(env)@ == s.env && h == s.halt
        }),
{
    match env.pop_variable_ref() {
        None => {
            report(env, "No variable reference found to get value".to_owned());
            true
        },
        Some(VarRef::Var(name)) => match env.get_variable(name.as_str()) {
            Some(ForthVar::Var(v)) => {
                env.push(v);
                false
            },
            Some(ForthVar::Array(_)) => {
                let mut m = "Unexpected array found when variable expected: ".to_owned();
                m.append(name.as_str());
                report(env, m);
                true
            },
            None => {
                let mut m = "No such variable: ".to_owned();
                m.append(name.as_str());
                report(env, m);
                true
            },
        },
        Some(VarRef::Array(name, pos)) => match env.get_variable(name.as_str()) {
            Some(ForthVar::Array(arr)) => {
                if 0 <= pos && (pos as usize) < arr.len() {
                    env.push(arr[pos as usize]);
                    false
                } else {
                    let mut m = "Array index out of bounds: ".to_owned();
                    m.append(name.as_str());
                    report(env, m);
                    true
                }
            },
            Some(ForthVar::Var(_)) => {
                let mut m = "Unexpected variable found when array expected: ".to_owned();
                m.append(name.as_str());
                report(env, m);
                true
            },
            None => {
                let mut m = "No such array: ".to_owned();
                m.append(name.as_str());
                report(env, m);
                true
            },
        },
    }
}

/// An indirect write, `!`: pop the top variable reference and a value, and
/// store the value where the reference points.
fn eval_variable_set(env: &mut ForthEnv) -> (h: bool)
    ensures
        ({
            let s = spec_form_var_set(old(env)@);
            final(env)@ == s.env && h == s.halt
        }),
{
    match env.pop_variable_ref() {
        None => {
            report(env, "No variable reference found to set value".to_owned());
            true
        },
        Some(VarRef::Var(name)) => {
            let x = match env.pop("Stack empty to set variable value".to_owned()) {
                Ok(x) => x,
                Err(e) => {
                    report(env, e);
                    return true;
                },
            };
            match env.get_variable(name.as_str()) {
                Some(ForthVar::Var(_)) => {
                    env.add_variable(name.as_str(), ForthVar::Var(x));
                    false
                },
                Some(ForthVar::Array(_)) => {
                    let mut m = "Unexpected array found when variable expected: ".to_owned();
                    m.append(name.as_str());
                    report(env, m);
                    true
                },
                None => {
                    let mut m = "No such variable: ".to_owned();
                    m.append(name.as_str());
                    report(env, m);
                    true
                },
            }
        },
        Some(VarRef::Array(name, pos)) => {
            let x = match env.pop("Stack empty to set array value".to_owned()) {
                Ok(x) => x,
                Err(e) => {
                    report(env, e);
                    return true;
                },
            };
            match env.array_set(name.as_str(), pos, x) {
                Ok(()) => false,
                Err(e) => {
                    report(env, e);
                    true
                },
            }
        },
    }
}

/// `variable` at `pos`: declare a zero-valued scalar named by the next
/// token and push a reference to it.
fn eval_intro_variable(env: &mut ForthEnv, toks: &Vec<String>, pos: usize) -> (r: (usize, bool))
    requires
        pos < toks@.len(),
    ensures
        ({
            let s = spec_form_intro_var(old(env)@, toks_deep(toks@).skip(pos as int));
            final(env)@ == s.env && r.0 as int == s.consumed && r.1 == s.halt
        }),
        1 <= r.0 && pos + r.0 <= toks@.len(),
{
    let n = toks.len();
    if pos + 1 >= n {
        report(env, "Variable name not found".to_owned());
        return (1, true);
    }
    let name = &toks[pos + 1];
    env.add_variable(name.as_str(), ForthVar::Var(0));
    env.push_variable_ref(VarRef::Var(name.clone()));
    proof {
        let s = spec_form_intro_var(old(env)@, toks_deep(toks@).skip(pos as int));
        assert(env@ =~= s.env);
    }
    (2, false)
}

/// `constant` at `pos`: pop a value and bind it to the next token's name.
fn eval_intro_constant(env: &mut ForthEnv, toks: &Vec<String>, pos: usize) -> (r: (usize, bool))
    requires
        pos < toks@.len(),
    ensures
        ({
            let s = spec_form_intro_const(old(env)@, toks_deep(toks@).skip(pos as int));
            final(env)@ == s.env && r.0 as int == s.consumed && r.1 == s.halt
        }),
        1 <= r.0 && pos + r.0 <= toks@.len(),
{
    let n = toks.len();
    if pos + 1 >= n {
        report(env, "Constant name not found".to_owned());
        return (1, true);
    }
    let name = &toks[pos + 1];
    let x = match env.pop("Stack empty to set constant".to_owned()) {
        Ok(x) => x,
        Err(e) => {
            report(env, e);
            return (1, true);
        },
    };
    env.add_constant(name.as_str(), x);
    proof {
        let s = spec_form_intro_const(old(env)@, toks_deep(toks@).skip(pos as int));
        assert(env@ =~= s.env);
    }
    (2, false)
}

/// `cells`: a no-op that requires a non-empty stack.
fn eval_cells(env: &mut ForthEnv) -> (h: bool)
    ensures
        ({
            let s = spec_form_cells(old(env)@);
            final(env)@ == s.env && h == s.halt
        }),
{
    match env.top("Empty stack to evaluate cells".to_owned()) {
        Ok(_) => false,
        Err(e) => {
            report(env, e);
            true
        },
    }
}

/// `allot`: convert the most recently referenced scalar variable into a
/// zero-initialized array whose length is popped from the stack.
fn eval_allot(env: &mut ForthEnv) -> (h: bool)
    ensures
        ({
            let s = spec_form_allot(old(env)@);
            final(env)@ == s.env && h == s.halt
        }),
{
    match env.pop_variable_ref() {
        None => {
            report(env, "No variable found to allocate as an array".to_owned());
            true
        },
        Some(VarRef::Array(name, _)) => {
            let mut m = "Already an array: ".to_owned();
            m.append(name.as_str());
            report(env, m);
            true
        },
        Some(VarRef::Var(name)) => {
            let length = match env.pop("Stack empty to allot array".to_owned()) {
                Ok(l) => l,
                Err(e) => {
                    report(env, e);
                    return true;
                },
            };
            if length < 0 {
                report(env, "Invalid array length for allot".to_owned());
                return true;
            }
            match env.get_variable(name.as_str()) {
                Some(ForthVar::Var(_)) => {
                    env.allot_array(name.as_str(), length);
                    false
                },
                Some(ForthVar::Array(_)) => {
                    let mut m = "Already an array: ".to_owned();
                    m.append(name.as_str());
                    report(env, m);
                    true
                },
                None => {
                    let mut m = "No such variable: ".to_owned();
                    m.append(name.as_str());
                    report(env, m);
                    true
                },
            }
        },
    }
}

/// `+` with a pending variable reference: pop an offset and make it the
/// top array reference's pending index.
fn eval_set_array_slot(env: &mut ForthEnv) -> (h: bool)
    requires
        old(env)@.var_refs.len() > 0,
    ensures
        ({
            let s = spec_form_plus_ref(old(env)@);
            final(env)@ == s.env && h == s.halt
        }),
{
    match env.top_variable_ref() {
        None => {
            // unreachable: a reference is pending
            proof {
                assert(false);
            }
            true
        },
        Some(VarRef::Var(name)) => {
            let mut m = "Cannot set slot on normal variable: ".to_owned();
            m.append(name.as_str());
            report(env, m);
            true
        },
        Some(VarRef::Array(name, _)) => {
            let p = match env.pop("Stack empty to set slot value for array".to_owned()) {
                Ok(p) => p,
                Err(e) => {
                    report(env, e);
                    return true;
                },
            };
            let _ = env.pop_variable_ref();
            env.push_variable_ref(VarRef::Array(name, p));
            proof {
                let s = spec_form_plus_ref(old(env)@);
                assert(env@ =~= s.env);
            }
            false
        },
    }
}

/// A loop register: push its value when the token names one.
fn eval_special_variables(env: &mut ForthEnv, t: &String) -> (r: bool)
    ensures
        r == (assoc_get(old(env)@.specials, t@) is Some),
        r ==> final(env)@ == pushed(old(env)@, assoc_get(old(env)@.specials, t@).unwrap()),
        !r ==> final(env)@ == old(env)@,
{
    match env.get_special(t.as_str()) {
        Some(v) => {
            env.push(v);
            true
        },
        None => false,
    }
}

/// A builtin operator: run it when the token names one.
fn eval_builtin(env: &mut ForthEnv, t: &String) -> (r: Option<crate::inter::ForthResult<()>>)
    ensures
        ({
            let o = spec_builtin(old(env)@, t@);
            match (r, o) {
                (None, None) => final(env)@ == old(env)@,
                (Some(res), Some(oo)) => final(env)@ == oo.env && ((res is Ok) == (
                oo.err is None)) && (res is Err ==> Some(res->Err_0@) == oo.err),
                _ => false,
            }
        }),
{
    if tok_is(t, "+") {
        Some(crate::ops::add(env))
    } else if tok_is(t, "-") {
        Some(crate::ops::subtract(env))
    } else if tok_is(t, "*") {
        Some(crate::ops::mul(env))
    } else if tok_is(t, "/") {
        Some(crate::ops::div(env))
    } else if tok_is(t, "mod") {
        Some(crate::ops::modulus(env))
    } else if tok_is(t, "and") {
        Some(crate::ops::and(env))
    } else if tok_is(t, "or") {
        Some(crate::ops::or(env))
    } else if tok_is(t, "p") {
        Some(crate::ops::print_stack(env))
    } else if tok_is(t, "d") {
        Some(crate::ops::print_func(env))
    } else if tok_is(t, "v") {
        Some(crate::ops::print_vars(env))
    } else if tok_is(t, "dup") {
        Some(crate::ops::dup(env))
    } else if tok_is(t, ".") {
        Some(crate::ops::pop(env))
    } else if tok_is(t, "drop") {
        Some(crate::ops::drop(env))
    } else if tok_is(t, "swap") {
        Some(crate::ops::swap(env))
    } else if tok_is(t, "over") {
        Some(crate::ops::over(env))
    } else if tok_is(t, "rot") {
        Some(crate::ops::rot(env))
    } else if tok_is(t, "emit") {
        Some(crate::ops::emit(env))
    } else if tok_is(t, "cr") {
        Some(crate::ops::cr(env))
    } else if tok_is(t, "=") {
        Some(crate::ops::eq(env))
    } else if tok_is(t, "!=") {
        Some(crate::ops::not_eq(env))
    } else if tok_is(t, "<") {
        Some(crate::ops::lt(env))
    } else if tok_is(t, ">") {
        Some(crate::ops::gt(env))
    } else if tok_is(t, "<=") {
        Some(crate::ops::lt_eq(env))
    } else if tok_is(t, ">=") {
        Some(crate::ops::gt_eq(env))
    } else if tok_is(t, "invert") {
        Some(crate::ops::invert(env))
    } else {
        None
    }
}

/// The tokens of the half-open range `[a, b)` with every `else` dropped,
/// copied out.
fn collect_drop_else(toks: &Vec<String>, a: usize, b: usize) -> (r: Vec<String>)
    requires
        a <= b <= toks@.len(),
    ensures
        toks_deep(r@) == crate::semantics::drop_else(
            toks_deep(toks@).subrange(a as int, b as int),
        ),
{
    let mut r: Vec<String> = Vec::new();
    let mut j: usize = a;
    proof {
        assert(toks_deep(toks@).subrange(a as int, a as int) =~= Seq::<Tok>::empty());
        assert(toks_deep(r@) =~= Seq::<Tok>::empty());
    }
    while j < b
        invariant
            a <= j <= b <= toks@.len(),
            toks_deep(r@) == crate::semantics::drop_else(
                toks_deep(toks@).subrange(a as int, j as int),
            ),
        decreases b - j,
    {
        let keep = !tok_is(&toks[j], "else");
        if keep {
            r.push(toks[j].clone());
        }
        proof {
            let sub1 = toks_deep(toks@).subrange(a as int, j + 1);
            assert(sub1.drop_last() =~= toks_deep(toks@).subrange(a as int, j as int));
            assert(sub1.last() == toks@[j as int]@);
            assert(toks_deep(r@) =~= crate::semantics::drop_else(sub1));
        }
        j += 1;
    }
    r
}

/// A constant: push its value when the token names one.
fn eval_constant(env: &mut ForthEnv, t: &String) -> (r: bool)
    ensures
        r == (assoc_get(old(env)@.constants, t@) is Some),
        r ==> final(env)@ == pushed(old(env)@, assoc_get(old(env)@.constants, t@).unwrap()),
        !r ==> final(env)@ == old(env)@,
{
    match env.get_constant(t.as_str()) {
        Some(v) => {
            env.push(v);
            true
        },
        None => false,
    }
}

/// A bare variable name: push a reference to it when the token names a
/// variable (for arrays, with pending index zero).
fn eval_variable(env: &mut ForthEnv, t: &String) -> (r: bool)
    ensures
        r == (assoc_get(old(env)@.vars, t@) is Some),
        r && assoc_get(old(env)@.vars, t@).unwrap() is Var ==> final(env)@ == (EnvModel {
            var_refs: old(env)@.var_refs.push(RefModel::Var(t@)),
            ..old(env)@
        }),
        r && assoc_get(old(env)@.vars, t@).unwrap() is Array ==> final(env)@ == (EnvModel {
            var_refs: old(env)@.var_refs.push(RefModel::Array(t@, 0)),
            ..old(env)@
        }),
        !r ==> final(env)@ == old(env)@,
{
    match env.get_variable(t.as_str()) {
        Some(ForthVar::Var(_)) => {
            env.push_variable_ref(VarRef::Var(t.clone()));
            true
        },
        Some(ForthVar::Array(_)) => {
            env.push_variable_ref(VarRef::Array(t.clone(), 0));
            true
        },
        None => false,
    }
}

impl Interpreter {
    /// A conditional, `if` at `pos`: pop the condition, split the tokens
    /// up to `then` into the two branches, and evaluate the branch the
    /// condition selects.
    fn eval_conditional(
        &self,
        env: &mut ForthEnv,
        toks: &Vec<String>,
        pos: usize,
        fuel: u64,
    ) -> (r: (usize, bool))
        requires
            pos < toks@.len(),
        ensures
            ({
                let s = spec_form_if(old(env)@, toks_deep(toks@).skip(pos as int), fuel as nat);
                final(env)@ == s.env && r.0 as int == s.consumed && r.1 == s.halt
            }),
            1 <= r.0 && pos + r.0 <= toks@.len(),
        decreases fuel, 0nat,
    {
        let ghost rem = toks_deep(toks@).skip(pos as int);
        let n = toks.len();
        let cond = match env.pop("Empty stack for condition in if".to_owned()) {
            Ok(c) => c,
            Err(e) => {
                report(env, e);
                return (1, true);
            },
        };
        let ghost e1 = env@;
        match find_from(toks, pos + 1, "then") {
            None => {
                report(env, "Nonterminated conditional".to_owned());
                proof {
                    lemma_find_from_tok(toks@, pos + 1, "then"@, None);
                    assert(rem.skip(1) =~= toks_deep(toks@).skip(pos + 1));
                }
                (1, true)
            },
            Some(jt) => {
                proof {
                    lemma_find_from_tok(toks@, pos + 1, "then"@, Some(jt));
                    assert(rem.skip(1) =~= toks_deep(toks@).skip(pos + 1));
                    assert(find_tok(rem.skip(1), "then"@) == Some(jt - pos - 1));
                }
                let ghost body = rem.skip(1).take(jt - pos - 1);
                proof {
                    assert(body =~= toks_deep(toks@).subrange(pos + 1, jt as int));
                }
                let consumed = jt - pos + 1;
                // Locate the first `else` of the body, if any.
                let r_else = find_from(toks, pos + 1, "else");
                let else_at: usize = match r_else {
                    Some(je) => if je < jt {
                        proof {
                            assert(body[je - pos - 1] == toks@[je as int]@);
                            assert forall|k: int| 0 <= k < je - pos - 1 implies #[trigger] body[k]
                                != "else"@ by {
                                assert(body[k] == toks@[pos + 1 + k]@);
                            }
                            crate::semantics::lemma_find_tok_found(body, "else"@, je - pos - 1);
                        }
                        je
                    } else {
                        proof {
                            assert forall|k: int| 0 <= k < body.len() implies #[trigger] body[k]
                                != "else"@ by {
                                assert(body[k] == toks@[pos + 1 + k]@);
                            }
                            crate::semantics::lemma_find_tok_none(body, "else"@);
                        }
                        jt
                    },
                    None => {
                        proof {
                            assert forall|k: int| 0 <= k < body.len() implies #[trigger] body[k]
                                != "else"@ by {
                                assert(body[k] == toks@[pos + 1 + k]@);
                            }
                            crate::semantics::lemma_find_tok_none(body, "else"@);
                        }
                        jt
                    },
                };
                let has_else = else_at < jt;
                // The before-branch runs up to the first `else`, or the
                // whole body without one.
                if else_at == pos + 1 || jt == pos + 1 {
                    report(env, "Empty statement for then clause".to_owned());
                    proof {
                        assert(spec_split_else(body).0.len() == 0);
                    }
                    return (1, true);
                }
                if has_else {
                    let after = collect_drop_else(toks, else_at + 1, jt);
                    proof {
                        assert(toks_deep(toks@).subrange(else_at + 1, jt as int) =~= body.skip(
                            else_at - pos,
                        ));
                        assert(toks_deep(after@) == spec_split_else(body).1);
                    }
                    if after.len() == 0 {
                        report(env, "Empty statement for then clause after else".to_owned());
                        return (1, true);
                    }
                    if cond != 0 {
                        let branch = collect_range(toks, pos + 1, else_at);
                        proof {
                            assert(toks_deep(branch@) =~= spec_split_else(body).0);
                        }
                        if fuel == 0 {
                            report(env, "Evaluation depth exceeded".to_owned());
                            return (1, true);
                        }
                        self.eval_toks(env, &branch, fuel - 1);
                        (consumed, false)
                    } else {
                        if fuel == 0 {
                            report(env, "Evaluation depth exceeded".to_owned());
                            return (1, true);
                        }
                        self.eval_toks(env, &after, fuel - 1);
                        (consumed, false)
                    }
                } else {
                    proof {
                        assert(spec_split_else(body).0 =~= body);
                    }
                    if cond != 0 {
                        let branch = collect_range(toks, pos + 1, jt);
                        proof {
                            assert(toks_deep(branch@) =~= body);
                        }
                        if fuel == 0 {
                            report(env, "Evaluation depth exceeded".to_owned());
                            return (1, true);
                        }
                        self.eval_toks(env, &branch, fuel - 1);
                        (consumed, false)
                    } else {
                        // no else-branch: nothing to evaluate
                        proof {
                            assert(spec_split_else(body).1.len() == 0);
                        }
                        (consumed, false)
                    }
                }
            },
        }
    }

    /// A counted loop, `do` at `pos`: pop the exclusive end bound, then
    /// the inclusive start bound, and evaluate the body once per index
    /// with the register `i` bound; remove the register afterwards.
    fn eval_do_loop(
        &self,
        env: &mut ForthEnv,
        toks: &Vec<String>,
        pos: usize,
        fuel: u64,
    ) -> (r: (usize, bool))
        requires
            pos < toks@.len(),
        ensures
            ({
                let s = spec_form_do(old(env)@, toks_deep(toks@).skip(pos as int), fuel as nat);
                final(env)@ == s.env && r.0 as int == s.consumed && r.1 == s.halt
            }),
            1 <= r.0 && pos + r.0 <= toks@.len(),
        decreases fuel, 0nat,
    {
        let ghost rem = toks_deep(toks@).skip(pos as int);
        let n = toks.len();
        match find_from(toks, pos + 1, "loop") {
            None => {
                report(env, "Nonterminated do loop".to_owned());
                proof {
                    lemma_find_from_tok(toks@, pos + 1, "loop"@, None);
                    assert(rem.skip(1) =~= toks_deep(toks@).skip(pos + 1));
                }
                (1, true)
            },
            Some(jl) => {
                proof {
                    lemma_find_from_tok(toks@, pos + 1, "loop"@, Some(jl));
                    assert(rem.skip(1) =~= toks_deep(toks@).skip(pos + 1));
                    assert(find_tok(rem.skip(1), "loop"@) == Some(jl - pos - 1));
                }
                let ghost bodyv = rem.skip(1).take(jl - pos - 1);
                proof {
                    assert(bodyv =~= toks_deep(toks@).subrange(pos + 1, jl as int));
                }
                let consumed = jl - pos + 1;
                if jl == pos + 1 {
                    report(env, "Empty loop body".to_owned());
                    return (1, true);
                }
                let end = match env.pop("Empty stack for end of do loop".to_owned()) {
                    Ok(v) => v,
                    Err(e) => {
                        report(env, e);
                        return (1, true);
                    },
                };
                let start = match env.pop("Empty stack for start of do loop".to_owned()) {
                    Ok(v) => v,
                    Err(e) => {
                        report(env, e);
                        return (1, true);
                    },
                };
                if start >= end {
                    let _ = env.clear_special("i");
                    proof {
                        let s = spec_form_do(old(env)@, rem, fuel as nat);
                        assert(env@ =~= s.env);
                    }
                    return (consumed, false);
                }
                if fuel == 0 {
                    report(env, "Evaluation depth exceeded".to_owned());
                    return (1, true);
                }
                let body = collect_range(toks, pos + 1, jl);
                let ghost e2 = env@;
                let mut i: i32 = start;
                while i < end
                    invariant
                        start <= i <= end,
                        fuel >= 1,
                        toks_deep(body@) == bodyv,
                        spec_do_iters(e2, bodyv, start as int, end as int, (fuel - 1) as nat)
                            == spec_do_iters(
                            env@,
                            bodyv,
                            i as int,
                            end as int,
                            (fuel - 1) as nat,
                        ),
                    decreases end - i,
                {
                    let ghost pre = env@;
                    let _ = env.set_special("i", i);
                    self.eval_toks(env, &body, fuel - 1);
                    proof {
                        assert(spec_do_iters(pre, bodyv, i as int, end as int, (fuel - 1) as nat)
                            == spec_do_iters(
                            env@,
                            bodyv,
                            i + 1,
                            end as int,
                            (fuel - 1) as nat,
                        ));
                    }
                    i += 1;
                }
                let _ = env.clear_special("i");
                proof {
                    let s = spec_form_do(old(env)@, rem, fuel as nat);
                    assert(env@ =~= s.env);
                }
                (consumed, false)
            },
        }
    }

    /// Evaluate a token sequence against the environment.  Each token is
    /// resolved in the fixed priority order; on an error the diagnostic is
    /// recorded in the output and this evaluation (only) halts.  `fuel`
    /// bounds the depth of nested evaluations.
    pub fn eval_toks(&self, env: &mut ForthEnv, toks: &Vec<String>, fuel: u64)
        ensures
            final(env)@ == spec_eval_toks(old(env)@, toks_deep(toks@), fuel as nat),
        decreases fuel, 1nat,
    {
        let ghost all = toks_deep(toks@);
        let ghost orig = old(env)@;
        let n = toks.len();
        let mut pos: usize = 0;
        let mut halted = false;
        proof {
            assert(all.skip(0) =~= all);
        }
        while pos < n && !halted
            invariant
                pos <= n,
                n == toks@.len(),
                all == toks_deep(toks@),
                !halted ==> spec_eval_toks(orig, all, fuel as nat) == spec_eval_toks(
                    env@,
                    all.skip(pos as int),
                    fuel as nat,
                ),
                halted ==> spec_eval_toks(orig, all, fuel as nat) == env@,
            decreases n - pos, (if halted { 0int } else { 1int }),
        {
            let ghost pre = env@;
            let ghost rem = all.skip(pos as int);
            let t = &toks[pos];
            let mut consumed: usize = 1;
            proof {
                assert(rem[0] == toks@[pos as int]@);
            }
            if is_blank_tok(t) {
            } else if tok_is(t, ":") {
                let (c, h) = eval_definition(env, toks, pos);
                consumed = c;
                halted = h;
            } else if tok_is(t, ".\"") {
                let (c, h) = eval_string(env, toks, pos);
                consumed = c;
                halted = h;
            } else if tok_is(t, "if") {
                let (c, h) = self.eval_conditional(env, toks, pos, fuel);
                consumed = c;
                halted = h;
            } else if tok_is(t, "@") {
                halted = eval_variable_get(env);
            } else if tok_is(t, "!") {
                halted = eval_variable_set(env);
            } else if tok_is(t, "variable") {
                let (c, h) = eval_intro_variable(env, toks, pos);
                consumed = c;
                halted = h;
            } else if tok_is(t, "constant") {
                let (c, h) = eval_intro_constant(env, toks, pos);
                consumed = c;
                halted = h;
            } else if tok_is(t, "cells") {
                halted = eval_cells(env);
            } else if tok_is(t, "allot") {
                halted = eval_allot(env);
            } else if tok_is(t, "do") {
                let (c, h) = self.eval_do_loop(env, toks, pos, fuel);
                consumed = c;
                halted = h;
            } else if tok_is(t, "+") && env.var_refs.len() > 0 {
                halted = eval_set_array_slot(env);
            } else if eval_special_variables(env, t) {
            } else {
                match eval_builtin(env, t) {
                    Some(Ok(())) => {},
                    Some(Err(e)) => {
                        report(env, e);
                        halted = true;
                    },
                    None => {
                        match env.get_function(t.as_str()) {
                            Some(body) => {
                                if fuel == 0 {
                                    report(env, "Evaluation depth exceeded".to_owned());
                                    halted = true;
                                } else {
                                    self.eval_toks(env, &body, fuel - 1);
                                }
                            },
                            None => {
                                match parse_i32(t) {
                                    Some(num) => {
                                        env.push(num);
                                    },
                                    None => {
                                        if eval_constant(env, t) {
                                        } else if eval_variable(env, t) {
                                        } else {
                                            let mut m = "Invalid token: ".to_owned();
                                            m.append(t.as_str());
                                            report(env, m);
                                            halted = true;
                                        }
                                    },
                                }
                            },
                        }
                    },
                }
            }
            proof {
                let s = spec_step(pre, rem, fuel as nat);
                assert(env@ == s.env && consumed as int == s.consumed && halted == s.halt);
                if halted {
                    assert(spec_eval_toks(pre, rem, fuel as nat) == env@);
                } else {
                    assert(1 <= s.consumed <= rem.len());
                    assert(rem.skip(consumed as int) =~= all.skip(pos + consumed));
                    assert(spec_eval_toks(pre, rem, fuel as nat) == spec_eval_toks(
                        env@,
                        all.skip(pos + consumed),
                        fuel as nat,
                    ));
                }
            }
            pos += consumed;
        }
        proof {
            if !halted {
                assert(all.skip(pos as int).len() == 0);
                assert(spec_eval_toks(env@, all.skip(pos as int), fuel as nat) == env@);
            }
        }
    }

    /// Evaluate a whole program text: tokenize it and evaluate the
    /// tokens, with the default depth bound.
    pub fn eval(&self, env: &mut ForthEnv, expr: &str)
        ensures
            final(env)@ == spec_eval(old(env)@, expr@, DEFAULT_FUEL as nat),
    {
        let toks = tokenize(expr);
        self.eval_toks(env, &toks, DEFAULT_FUEL);
    }
}

} // verus!
