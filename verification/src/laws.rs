//! Laws of the language, stated over the mathematical interpreter and
//! proved once and for all.

use vstd::prelude::*;

use crate::lex::{is_blank, spec_parse_i32};
use crate::model::{assoc_get, assoc_remove, EnvModel, OutModel, RefModel, Tok, VarModel};
use crate::semantics::{
    drop_else, fail, lemma_find_tok_found, popped, pushed, spec_add, spec_and, spec_builtin,
    spec_div, spec_do_iters, spec_drop, spec_dup, spec_eq, spec_eval_toks, spec_form_do,
    spec_form_if, spec_form_var_get, spec_form_var_set, spec_gt, spec_gt_eq, spec_lt, spec_lt_eq,
    spec_modulus, spec_mul, spec_not_eq, spec_or, spec_step, spec_subtract, spec_swap, step_cont,
};

verus! {

/// Binary operators pop their right operand first: after pushing `a` and
/// then `b`, subtraction leaves `a - b`, division `a / b`, and each
/// comparison pushes the truth value (`-1` or `0`) of `a <op> b`.
pub proof fn lemma_operand_order(e: EnvModel, a: i32, b: i32)
    ensures
        spec_add(pushed(pushed(e, a), b)).env.stack == e.stack.push(
            vstd::wrapping::i32_specs::wrapping_add(b, a),
        ),
        spec_mul(pushed(pushed(e, a), b)).env.stack == e.stack.push(
            vstd::wrapping::i32_specs::wrapping_mul(a, b),
        ),
        spec_and(pushed(pushed(e, a), b)).env.stack == e.stack.push(b & a),
        spec_or(pushed(pushed(e, a), b)).env.stack == e.stack.push(b | a),
        spec_subtract(pushed(pushed(e, a), b)).env.stack == e.stack.push(
            vstd::wrapping::i32_specs::wrapping_sub(a, b),
        ),
        a.checked_div(b) is Some ==> spec_div(pushed(pushed(e, a), b)).env.stack == e.stack.push(
            a.checked_div(b).unwrap(),
        ),
        a.checked_div(b) is None ==> spec_div(pushed(pushed(e, a), b)).err is Some,
        a.checked_rem(b) is Some ==> spec_modulus(pushed(pushed(e, a), b)).env.stack
            == e.stack.push(a.checked_rem(b).unwrap()),
        spec_lt(pushed(pushed(e, a), b)).env.stack == e.stack.push(
            if a < b {
                -1i32
            } else {
                0i32
            },
        ),
        spec_gt(pushed(pushed(e, a), b)).env.stack == e.stack.push(
            if a > b {
                -1i32
            } else {
                0i32
            },
        ),
        spec_lt_eq(pushed(pushed(e, a), b)).env.stack == e.stack.push(
            if a <= b {
                -1i32
            } else {
                0i32
            },
        ),
        spec_gt_eq(pushed(pushed(e, a), b)).env.stack == e.stack.push(
            if a >= b {
                -1i32
            } else {
                0i32
            },
        ),
        spec_eq(pushed(pushed(e, a), b)).env.stack == e.stack.push(
            if a == b {
                -1i32
            } else {
                0i32
            },
        ),
        spec_not_eq(pushed(pushed(e, a), b)).env.stack == e.stack.push(
            if a != b {
                -1i32
            } else {
                0i32
            },
        ),
{
    let s2 = pushed(pushed(e, a), b).stack;
    assert(s2.len() == e.stack.len() + 2);
    assert(s2.last() == b);
    assert(s2[s2.len() - 2] == a);
    assert(s2.drop_last().drop_last() =~= e.stack);
}

/// `dup` duplicates: after pushing `n`, it leaves two copies of `n`; and
/// `drop` after `dup` restores the stack, so `n dup drop` is `n`.
pub proof fn lemma_dup_drop_round_trip(e: EnvModel, n: i32)
    ensures
        spec_dup(pushed(e, n)).env.stack == e.stack.push(n).push(n),
        spec_drop(spec_dup(pushed(e, n)).env).env == pushed(e, n),
{
    assert(pushed(e, n).stack.push(n).drop_last() =~= pushed(e, n).stack);
    assert(spec_drop(spec_dup(pushed(e, n)).env).env =~= pushed(e, n));
}

/// `swap` is its own inverse: swapping the top two values twice restores
/// the environment exactly.
pub proof fn lemma_swap_involution(e: EnvModel)
    requires
        e.stack.len() >= 2,
    ensures
        spec_swap(spec_swap(e).env).env == e,
{
    let s = e.stack;
    let x = s.last();
    let y = s[s.len() - 2];
    let s1 = s.drop_last().drop_last().push(x).push(y);
    assert(s1.len() == s.len());
    assert(s1.last() == y);
    assert(s1[s1.len() - 2] == x);
    assert(s1.drop_last().drop_last() =~= s.drop_last().drop_last());
    assert(s1.drop_last().drop_last().push(y).push(x) =~= s);
    assert(spec_swap(spec_swap(e).env).env =~= e);
}

/// A counted loop whose start is not below its end runs zero iterations.
pub proof fn lemma_do_iters_none(e: EnvModel, body: Seq<Tok>, start: int, end: int, fuel: nat)
    requires
        start >= end,
    ensures
        spec_do_iters(e, body, start, end, fuel) == e,
{
}

/// The whole `do` ... `loop` construct with a start not below its end:
/// it pops its two bounds and removes the register `i`, runs the body
/// zero times, and reports no error.
pub proof fn lemma_do_loop_zero_iterations(e: EnvModel, body: Seq<Tok>, fuel: nat)
    requires
        body.len() > 0,
        forall|k: int| 0 <= k < body.len() ==> body[k] != "loop"@,
        e.stack.len() >= 2,
        e.stack[e.stack.len() - 2] >= e.stack.last(),
    ensures
        spec_form_do(e, seq!["do"@] + body + seq!["loop"@], fuel) == step_cont(
            (EnvModel {
                stack: e.stack.drop_last().drop_last(),
                specials: assoc_remove(popped(popped(e)).specials, "i"@),
                ..e
            }),
            body.len() + 2int,
        ),
{
    let toks = seq!["do"@] + body + seq!["loop"@];
    let rest = toks.skip(1);
    assert(rest =~= body + seq!["loop"@]);
    assert(rest[body.len() as int] == "loop"@);
    assert(forall|k: int| 0 <= k < body.len() ==> rest[k] == body[k]);
    lemma_find_tok_found(rest, "loop"@, body.len() as int);
    assert(rest.take(body.len() as int) =~= body);
    assert(spec_form_do(e, toks, fuel).env =~= (EnvModel {
        stack: e.stack.drop_last().drop_last(),
        specials: assoc_remove(popped(popped(e)).specials, "i"@),
        ..e
    }));
}

/// Invoking a user-defined word evaluates its stored body verbatim, by a
/// nested evaluation of the current environment: a second call after the
/// environment changed sees the changed state.
pub proof fn lemma_word_invocation(e: EnvModel, t: Tok, rest: Seq<Tok>, fuel: nat)
    requires
        !is_blank(t),
        t != ":"@,
        t != ".\""@,
        t != "if"@,
        t != "@"@,
        t != "!"@,
        t != "variable"@,
        t != "constant"@,
        t != "cells"@,
        t != "allot"@,
        t != "+"@,
        t != "do"@,
        assoc_get(e.specials, t) is None,
        spec_builtin(e, t) is None,
        assoc_get(e.funcs, t) is Some,
        fuel > 0,
    ensures
        spec_eval_toks(e, seq![t] + rest, fuel) == spec_eval_toks(
            spec_eval_toks(e, assoc_get(e.funcs, t).unwrap(), (fuel - 1) as nat),
            rest,
            fuel,
        ),
{
    let toks = seq![t] + rest;
    assert(toks[0] == t);
    let s = spec_step(e, toks, fuel);
    assert(s == step_cont(
        spec_eval_toks(e, assoc_get(e.funcs, t).unwrap(), (fuel - 1) as nat),
        1,
    ));
    assert(toks.skip(1) =~= rest);
}

/// A failed array read (the pending index outside the array) reports an
/// error and halts; the operand stack and the variables keep their state,
/// only the pending reference is consumed.
pub proof fn lemma_array_read_out_of_bounds(e: EnvModel, name: Tok, pos: i32, a: Seq<i32>)
    requires
        e.var_refs.len() > 0,
        e.var_refs.last() == RefModel::Array(name, pos),
        assoc_get(e.vars, name) == Some(VarModel::Array(a)),
        !(0 <= pos < a.len()),
    ensures
        spec_form_var_get(e).halt,
        spec_form_var_get(e).env.stack == e.stack,
        spec_form_var_get(e).env.vars == e.vars,
        spec_form_var_get(e).env.out == e.out.push(
            OutModel::Error("Array index out of bounds: "@ + name),
        ),
{
}

/// A failed array write (the pending index outside the array) reports an
/// error and halts; the variables keep their state, and of the stack only
/// the value popped before the failure is gone.
pub proof fn lemma_array_write_out_of_bounds(e: EnvModel, name: Tok, pos: i32, a: Seq<i32>)
    requires
        e.var_refs.len() > 0,
        e.var_refs.last() == RefModel::Array(name, pos),
        assoc_get(e.vars, name) == Some(VarModel::Array(a)),
        !(0 <= pos < a.len()),
        e.stack.len() > 0,
    ensures
        spec_form_var_set(e).halt,
        spec_form_var_set(e).env.vars == e.vars,
        spec_form_var_set(e).env.stack == e.stack.drop_last(),
{
}

/// A conditional selects its branch by the popped condition: non-zero
/// evaluates the before-`else` branch, zero the after-`else` branch, and
/// nothing else of the construct is evaluated.
pub proof fn lemma_conditional_selects(
    e: EnvModel,
    b1: Seq<Tok>,
    b2: Seq<Tok>,
    rest: Seq<Tok>,
    fuel: nat,
)
    requires
        e.stack.len() > 0,
        b1.len() > 0,
        b2.len() > 0,
        forall|k: int| 0 <= k < b1.len() ==> b1[k] != "then"@ && #[trigger] b1[k] != "else"@,
        forall|k: int| 0 <= k < b2.len() ==> b2[k] != "then"@ && #[trigger] b2[k] != "else"@,
        fuel > 0,
    ensures
        spec_form_if(e, seq!["if"@] + b1 + seq!["else"@] + b2 + seq!["then"@] + rest, fuel)
            == step_cont(
            spec_eval_toks(
                popped(e),
                if e.stack.last() != 0 {
                    b1
                } else {
                    b2
                },
                (fuel - 1) as nat,
            ),
            b1.len() + b2.len() + 3int,
        ),
{
    reveal_strlit("then");
    reveal_strlit("else");
    assert("then"@[0] == 't' && "else"@[0] == 'e');
    assert("then"@ != "else"@);
    let toks = seq!["if"@] + b1 + seq!["else"@] + b2 + seq!["then"@] + rest;
    let rem = toks.skip(1);
    assert(rem =~= b1 + seq!["else"@] + b2 + seq!["then"@] + rest);
    let jt = b1.len() + 1 + b2.len();
    assert(rem[jt as int] == "then"@);
    assert forall|k: int| 0 <= k < jt implies #[trigger] rem[k] != "then"@ by {
        if k < b1.len() {
            assert(rem[k] == b1[k]);
        } else if k == b1.len() {
            assert(rem[k] == "else"@);
        } else {
            assert(rem[k] == b2[k - b1.len() - 1]);
        }
    }
    lemma_find_tok_found(rem, "then"@, jt as int);
    let body = rem.take(jt as int);
    assert(body =~= b1 + seq!["else"@] + b2);
    assert(body[b1.len() as int] == "else"@);
    assert forall|k: int| 0 <= k < b1.len() implies #[trigger] body[k] != "else"@ by {
        assert(body[k] == b1[k]);
    }
    lemma_find_tok_found(body, "else"@, b1.len() as int);
    assert(body.take(b1.len() as int) =~= b1);
    assert(body.skip(b1.len() + 1int) =~= b2);
    lemma_drop_else_id(b2);
    assert(toks.len() == jt + 2 + rest.len());
}

/// Dropping `else` tokens from a sequence that has none changes nothing.
pub proof fn lemma_drop_else_id(toks: Seq<Tok>)
    requires
        forall|k: int| 0 <= k < toks.len() ==> #[trigger] toks[k] != "else"@,
    ensures
        drop_else(toks) == toks,
    decreases toks.len(),
{
    if toks.len() > 0 {
        lemma_drop_else_id(toks.drop_last());
        assert(drop_else(toks.drop_last()).push(toks.last()) =~= toks);
    }
}

/// `if` directly followed by `then` (an empty before-branch) is an error:
/// the condition is popped, the error is recorded, and evaluation halts.
pub proof fn lemma_conditional_empty_branch(e: EnvModel, rest: Seq<Tok>, fuel: nat)
    requires
        e.stack.len() > 0,
    ensures
        spec_form_if(e, seq!["if"@, "then"@] + rest, fuel).halt,
        spec_form_if(e, seq!["if"@, "then"@] + rest, fuel).env == fail(
            popped(e),
            "Empty statement for then clause"@,
        ),
{
    let toks = seq!["if"@, "then"@] + rest;
    let rem = toks.skip(1);
    assert(rem =~= seq!["then"@] + rest);
    assert(rem[0] == "then"@);
    lemma_find_tok_found(rem, "then"@, 0);
    assert(rem.take(0) =~= Seq::<Tok>::empty());
}

/// An unresolvable token reports `Invalid token` and halts the current
/// evaluation: the tokens after it are not evaluated, and the environment
/// keeps its state but for the recorded error.
pub proof fn lemma_invalid_token_halts(e: EnvModel, t: Tok, rest: Seq<Tok>, fuel: nat)
    requires
        !is_blank(t),
        t != ":"@,
        t != ".\""@,
        t != "if"@,
        t != "@"@,
        t != "!"@,
        t != "variable"@,
        t != "constant"@,
        t != "cells"@,
        t != "allot"@,
        t != "+"@,
        t != "do"@,
        assoc_get(e.specials, t) is None,
        spec_builtin(e, t) is None,
        assoc_get(e.funcs, t) is None,
        spec_parse_i32(t) is None,
        assoc_get(e.constants, t) is None,
        assoc_get(e.vars, t) is None,
    ensures
        spec_eval_toks(e, seq![t] + rest, fuel) == fail(e, "Invalid token: "@ + t),
{
    let toks = seq![t] + rest;
    assert(toks[0] == t);
    let s = spec_step(e, toks, fuel);
    assert(s.halt && s.env == fail(e, "Invalid token: "@ + t));
}

} // verus!
