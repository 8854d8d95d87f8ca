//! The mathematical interpreter: what one evaluation step, and a whole
//! evaluation, do to the environment model.
//!
//! For each token the evaluator tries, in a fixed priority order: special
//! forms, loop registers, builtin operators, user-defined words, numeric
//! literals, constants, and bare variable names.  On failure it records the
//! error in the output and halts the current evaluation; an enclosing
//! evaluation is not aborted.  Every executable evaluation function of the
//! crate is proved to return exactly what these functions describe.

use vstd::prelude::*;

use crate::lex::{is_blank, spec_parse_i32, spec_tokenize};
use crate::model::{assoc_get, assoc_remove, assoc_set, EnvModel, OutModel, RefModel, Tok, VarModel};

verus! {

/// The outcome of one builtin operator: the new environment, and the error
/// message when the operator failed.
#[verifier::ext_equal]
pub ghost struct OpOut {
    pub env: EnvModel,
    pub err: Option<Seq<char>>,
}

/// The outcome of evaluating one token: the new environment, how many
/// tokens were consumed, and whether the current evaluation halts here.
#[verifier::ext_equal]
pub ghost struct StepOut {
    pub env: EnvModel,
    pub consumed: int,
    pub halt: bool,
}

/// Append one output item.
pub open spec fn emit_out(e: EnvModel, o: OutModel) -> EnvModel {
    EnvModel { out: e.out.push(o), ..e }
}

/// Record an error in the output.
pub open spec fn fail(e: EnvModel, m: Seq<char>) -> EnvModel {
    emit_out(e, OutModel::Error(m))
}

/// Replace the operand stack.
pub open spec fn with_stack(e: EnvModel, s: Seq<i32>) -> EnvModel {
    EnvModel { stack: s, ..e }
}

/// Push one value on the operand stack.
pub open spec fn pushed(e: EnvModel, v: i32) -> EnvModel {
    with_stack(e, e.stack.push(v))
}

/// Drop the top of the operand stack.
pub open spec fn popped(e: EnvModel) -> EnvModel {
    with_stack(e, e.stack.drop_last())
}

pub open spec fn op_ok(e: EnvModel) -> OpOut {
    OpOut { env: e, err: None }
}

pub open spec fn op_err(e: EnvModel, m: Seq<char>) -> OpOut {
    OpOut { env: e, err: Some(m) }
}

/// Step on, the token sequence advanced by `consumed`.
pub open spec fn step_cont(e: EnvModel, consumed: int) -> StepOut {
    StepOut { env: e, consumed, halt: false }
}

/// Record the error and halt the current evaluation.
pub open spec fn step_halt(e: EnvModel, m: Seq<char>) -> StepOut {
    StepOut { env: fail(e, m), consumed: 1, halt: true }
}

/// The diagnostic a failed first pop of a binary operator carries.
pub open spec fn msg_arg1(name: Seq<char>) -> Seq<char> {
    "Empty stack: for first argument for "@ + name
}

/// The diagnostic a failed second pop of a binary operator carries.
pub open spec fn msg_arg2(name: Seq<char>) -> Seq<char> {
    "Empty stack: for second argument for "@ + name
}

/// A binary operator named `name`: pop `x`, then pop `y`, push `f(x, y)`.
/// A pop of an empty stack fails, and an operand popped before the failing
/// pop stays popped.
pub open spec fn spec_binop(e: EnvModel, name: Seq<char>, f: spec_fn(i32, i32) -> i32) -> OpOut {
    if e.stack.len() == 0 {
        op_err(e, msg_arg1(name))
    } else if e.stack.len() == 1 {
        op_err(popped(e), msg_arg2(name))
    } else {
        let x = e.stack.last();
        let y = e.stack[e.stack.len() - 2];
        op_ok(with_stack(e, e.stack.drop_last().drop_last().push(f(x, y))))
    }
}

/// A binary comparison named `name`: pop `x`, then pop `y`, push `-1` when
/// `f(x, y)` holds and `0` otherwise.
pub open spec fn spec_boolop(e: EnvModel, name: Seq<char>, f: spec_fn(i32, i32) -> bool) -> OpOut {
    spec_binop(e, name, |x: i32, y: i32| if f(x, y) { -1i32 } else { 0i32 })
}

pub open spec fn spec_add(e: EnvModel) -> OpOut {
    spec_binop(e, "+"@, |x: i32, y: i32| vstd::wrapping::i32_specs::wrapping_add(x, y))
}

/// Subtraction applies the operands as `y - x`: `x` popped first, `y`
/// second.
pub open spec fn spec_subtract(e: EnvModel) -> OpOut {
    spec_binop(e, "-"@, |x: i32, y: i32| vstd::wrapping::i32_specs::wrapping_sub(y, x))
}

pub open spec fn spec_mul(e: EnvModel) -> OpOut {
    spec_binop(e, "*"@, |x: i32, y: i32| vstd::wrapping::i32_specs::wrapping_mul(y, x))
}

/// Division applies the operands as `y / x` (truncating).  Dividing by
/// zero, or overflowing, fails after both operands are popped.
pub open spec fn spec_div(e: EnvModel) -> OpOut {
    if e.stack.len() == 0 {
        op_err(e, msg_arg1("/"@))
    } else if e.stack.len() == 1 {
        op_err(popped(e), msg_arg2("/"@))
    } else {
        let x = e.stack.last();
        let y = e.stack[e.stack.len() - 2];
        let e2 = with_stack(e, e.stack.drop_last().drop_last());
        match y.checked_div(x) {
            Some(v) => op_ok(pushed(e2, v)),
            None => op_err(e2, "Invalid operands for /"@),
        }
    }
}

/// Modulus applies the operands as `y % x` (truncating).  A zero divisor,
/// or overflow, fails after both operands are popped.
pub open spec fn spec_modulus(e: EnvModel) -> OpOut {
    if e.stack.len() == 0 {
        op_err(e, msg_arg1("mod"@))
    } else if e.stack.len() == 1 {
        op_err(popped(e), msg_arg2("mod"@))
    } else {
        let x = e.stack.last();
        let y = e.stack[e.stack.len() - 2];
        let e2 = with_stack(e, e.stack.drop_last().drop_last());
        match y.checked_rem(x) {
            Some(v) => op_ok(pushed(e2, v)),
            None => op_err(e2, "Invalid operands for mod"@),
        }
    }
}

pub open spec fn spec_and(e: EnvModel) -> OpOut {
    spec_binop(e, "and"@, |x: i32, y: i32| x & y)
}

pub open spec fn spec_or(e: EnvModel) -> OpOut {
    spec_binop(e, "or"@, |x: i32, y: i32| x | y)
}

/// Bitwise complement of one popped value.
pub open spec fn spec_invert(e: EnvModel) -> OpOut {
    if e.stack.len() == 0 {
        op_err(e, "Empty stack for invert"@)
    } else {
        op_ok(with_stack(e, e.stack.drop_last().push(!e.stack.last())))
    }
}

pub open spec fn spec_eq(e: EnvModel) -> OpOut {
    spec_boolop(e, "="@, |x: i32, y: i32| x == y)
}

pub open spec fn spec_not_eq(e: EnvModel) -> OpOut {
    spec_boolop(e, "!="@, |x: i32, y: i32| x != y)
}

pub open spec fn spec_lt(e: EnvModel) -> OpOut {
    spec_boolop(e, "<"@, |x: i32, y: i32| y < x)
}

pub open spec fn spec_gt(e: EnvModel) -> OpOut {
    spec_boolop(e, ">"@, |x: i32, y: i32| y > x)
}

pub open spec fn spec_lt_eq(e: EnvModel) -> OpOut {
    spec_boolop(e, "<="@, |x: i32, y: i32| y <= x)
}

pub open spec fn spec_gt_eq(e: EnvModel) -> OpOut {
    spec_boolop(e, ">="@, |x: i32, y: i32| y >= x)
}

/// Duplicate the top of the stack.
pub open spec fn spec_dup(e: EnvModel) -> OpOut {
    if e.stack.len() == 0 {
        op_err(e, "Empty stack for dup"@)
    } else {
        op_ok(pushed(e, e.stack.last()))
    }
}

/// Pop the top of the stack and print it as a decimal number.
pub open spec fn spec_print_num(e: EnvModel) -> OpOut {
    if e.stack.len() == 0 {
        op_err(e, "Empty stack for ."@)
    } else {
        op_ok(emit_out(popped(e), OutModel::Num(e.stack.last())))
    }
}

/// Drop the top of the stack.
pub open spec fn spec_drop(e: EnvModel) -> OpOut {
    if e.stack.len() == 0 {
        op_err(e, "Empty stack for drop"@)
    } else {
        op_ok(popped(e))
    }
}

/// Swap the top two stack values.
pub open spec fn spec_swap(e: EnvModel) -> OpOut {
    if e.stack.len() == 0 {
        op_err(e, "Empty stack for first element in swap"@)
    } else if e.stack.len() == 1 {
        op_err(popped(e), "Empty stack for second element in swap"@)
    } else {
        let x = e.stack.last();
        let y = e.stack[e.stack.len() - 2];
        op_ok(with_stack(e, e.stack.drop_last().drop_last().push(x).push(y)))
    }
}

/// Copy the second-from-top to the top.
pub open spec fn spec_over(e: EnvModel) -> OpOut {
    if e.stack.len() == 0 {
        op_err(e, "Empty stack for first element in over"@)
    } else if e.stack.len() == 1 {
        op_err(popped(e), "Empty stack for second element in over"@)
    } else {
        let x = e.stack.last();
        let y = e.stack[e.stack.len() - 2];
        op_ok(with_stack(e, e.stack.drop_last().drop_last().push(y).push(x).push(y)))
    }
}

/// Rotate the third-from-top to the top.
pub open spec fn spec_rot(e: EnvModel) -> OpOut {
    if e.stack.len() == 0 {
        op_err(e, "Empty stack for first element in rot"@)
    } else if e.stack.len() == 1 {
        op_err(popped(e), "Empty stack for second element in rot"@)
    } else if e.stack.len() == 2 {
        op_err(popped(popped(e)), "Empty stack for third element in rot"@)
    } else {
        let x = e.stack.last();
        let y = e.stack[e.stack.len() - 2];
        let z = e.stack[e.stack.len() - 3];
        op_ok(
            with_stack(
                e,
                e.stack.drop_last().drop_last().drop_last().push(y).push(x).push(z),
            ),
        )
    }
}

/// Pop the top of the stack and print its low byte as a character.
pub open spec fn spec_emit(e: EnvModel) -> OpOut {
    if e.stack.len() == 0 {
        op_err(e, "Empty stack for emit"@)
    } else {
        op_ok(emit_out(popped(e), OutModel::Chr(e.stack.last() as u8)))
    }
}

/// Print a line break.
pub open spec fn spec_cr(e: EnvModel) -> OpOut {
    op_ok(emit_out(e, OutModel::Newline))
}

/// Print the stack (a diagnostic; no stack effect).
pub open spec fn spec_print_stack(e: EnvModel) -> OpOut {
    op_ok(emit_out(e, OutModel::StackDump(e.stack)))
}

/// Print the word dictionary (a diagnostic; no stack effect).
pub open spec fn spec_print_func(e: EnvModel) -> OpOut {
    op_ok(emit_out(e, OutModel::FuncDump(e.funcs)))
}

/// Print the variable table (a diagnostic; no stack effect).
pub open spec fn spec_print_vars(e: EnvModel) -> OpOut {
    op_ok(emit_out(e, OutModel::VarDump(e.vars)))
}

/// The fixed builtin operator table: what the operator named `t` does, or
/// `None` when no builtin has that name.
pub open spec fn spec_builtin(e: EnvModel, t: Tok) -> Option<OpOut> {
    if t == "+"@ {
        Some(spec_add(e))
    } else if t == "-"@ {
        Some(spec_subtract(e))
    } else if t == "*"@ {
        Some(spec_mul(e))
    } else if t == "/"@ {
        Some(spec_div(e))
    } else if t == "mod"@ {
        Some(spec_modulus(e))
    } else if t == "and"@ {
        Some(spec_and(e))
    } else if t == "or"@ {
        Some(spec_or(e))
    } else if t == "p"@ {
        Some(spec_print_stack(e))
    } else if t == "d"@ {
        Some(spec_print_func(e))
    } else if t == "v"@ {
        Some(spec_print_vars(e))
    } else if t == "dup"@ {
        Some(spec_dup(e))
    } else if t == "."@ {
        Some(spec_print_num(e))
    } else if t == "drop"@ {
        Some(spec_drop(e))
    } else if t == "swap"@ {
        Some(spec_swap(e))
    } else if t == "over"@ {
        Some(spec_over(e))
    } else if t == "rot"@ {
        Some(spec_rot(e))
    } else if t == "emit"@ {
        Some(spec_emit(e))
    } else if t == "cr"@ {
        Some(spec_cr(e))
    } else if t == "="@ {
        Some(spec_eq(e))
    } else if t == "!="@ {
        Some(spec_not_eq(e))
    } else if t == "<"@ {
        Some(spec_lt(e))
    } else if t == ">"@ {
        Some(spec_gt(e))
    } else if t == "<="@ {
        Some(spec_lt_eq(e))
    } else if t == ">="@ {
        Some(spec_gt_eq(e))
    } else if t == "invert"@ {
        Some(spec_invert(e))
    } else {
        None
    }
}

/// Index of the first occurrence of token `t`, if any.
pub open spec fn find_tok(toks: Seq<Tok>, t: Tok) -> Option<int>
    decreases toks.len(),
{
    if toks.len() == 0 {
        None
    } else if toks[0] == t {
        Some(0int)
    } else {
        match find_tok(toks.drop_first(), t) {
            None => None,
            Some(i) => Some(i + 1),
        }
    }
}

/// The first in-bounds occurrence of `t` is what `find_tok` finds.
pub proof fn lemma_find_tok_found(toks: Seq<Tok>, t: Tok, i: int)
    requires
        0 <= i < toks.len(),
        toks[i] == t,
        forall|j: int| 0 <= j < i ==> toks[j] != t,
    ensures
        find_tok(toks, t) == Some(i),
    decreases i,
{
    if i > 0 {
        lemma_find_tok_found(toks.drop_first(), t, i - 1);
    }
}

/// With no occurrence of `t`, `find_tok` finds nothing.
pub proof fn lemma_find_tok_none(toks: Seq<Tok>, t: Tok)
    requires
        forall|j: int| 0 <= j < toks.len() ==> toks[j] != t,
    ensures
        find_tok(toks, t) is None,
    decreases toks.len(),
{
    if toks.len() > 0 {
        lemma_find_tok_none(toks.drop_first(), t);
    }
}

/// A token that terminates a string literal: a lone quote, or any token
/// whose last character is a quote.
pub open spec fn is_str_end(t: Tok) -> bool {
    t == "\""@ || (t.len() > 0 && t.last() == '"')
}

/// Index of the first token that terminates a string literal, if any.
pub open spec fn find_str_end(toks: Seq<Tok>) -> Option<int>
    decreases toks.len(),
{
    if toks.len() == 0 {
        None
    } else if is_str_end(toks[0]) {
        Some(0int)
    } else {
        match find_str_end(toks.drop_first()) {
            None => None,
            Some(i) => Some(i + 1),
        }
    }
}

/// The first in-bounds terminator is what `find_str_end` finds.
pub proof fn lemma_find_str_end_found(toks: Seq<Tok>, i: int)
    requires
        0 <= i < toks.len(),
        is_str_end(toks[i]),
        forall|j: int| 0 <= j < i ==> !is_str_end(#[trigger] toks[j]),
    ensures
        find_str_end(toks) == Some(i),
    decreases i,
{
    if i > 0 {
        lemma_find_str_end_found(toks.drop_first(), i - 1);
    }
}

/// With no terminator, `find_str_end` finds nothing.
pub proof fn lemma_find_str_end_none(toks: Seq<Tok>)
    requires
        forall|j: int| 0 <= j < toks.len() ==> !is_str_end(#[trigger] toks[j]),
    ensures
        find_str_end(toks) is None,
    decreases toks.len(),
{
    if toks.len() > 0 {
        lemma_find_str_end_none(toks.drop_first());
    }
}

/// The tokens joined back into text, each followed by a single space.
pub open spec fn joined(toks: Seq<Tok>) -> Seq<char>
    decreases toks.len(),
{
    if toks.len() == 0 {
        Seq::empty()
    } else {
        joined(toks.drop_last()) + toks.last() + seq![' ']
    }
}

/// The text of a string literal read from `toks`, and how many tokens it
/// takes, terminator included.  Tokens are joined with single spaces; a
/// terminating token other than a lone quote contributes itself with the
/// trailing quote stripped.  `None` when no terminator is found.
pub open spec fn spec_parse_string(toks: Seq<Tok>) -> Option<(Seq<char>, int)> {
    match find_str_end(toks) {
        None => None,
        Some(j) => {
            let head = joined(toks.take(j));
            let m = if toks[j] == "\""@ {
                head
            } else {
                head + toks[j].drop_last()
            };
            Some((m, j + 1))
        },
    }
}

/// The tokens with every `else` dropped.
pub open spec fn drop_else(toks: Seq<Tok>) -> Seq<Tok>
    decreases toks.len(),
{
    if toks.len() == 0 {
        toks
    } else {
        let rest = drop_else(toks.drop_last());
        if toks.last() == "else"@ {
            rest
        } else {
            rest.push(toks.last())
        }
    }
}

/// The two branches of a conditional body: the tokens before the first
/// `else`, and the tokens after it with every further `else` dropped.
pub open spec fn spec_split_else(body: Seq<Tok>) -> (Seq<Tok>, Seq<Tok>) {
    match find_tok(body, "else"@) {
        None => (body, Seq::empty()),
        Some(k) => (body.take(k), drop_else(body.skip(k + 1))),
    }
}

/// A word definition: `:` name body `;`.  The body is stored verbatim,
/// unevaluated; an existing word of the same name is overwritten.  Fails
/// when the name or the terminating `;` is missing.
pub open spec fn spec_form_def(e: EnvModel, toks: Seq<Tok>) -> StepOut {
    let rest = toks.skip(1);
    if rest.len() == 0 {
        step_halt(e, "Invalid function"@)
    } else {
        let name = rest[0];
        match find_tok(rest.skip(1), ";"@) {
            None => step_halt(e, "Invalid function"@),
            Some(j) => step_cont(
                EnvModel { funcs: assoc_set(e.funcs, name, rest.skip(1).take(j)), ..e },
                3 + j,
            ),
        }
    }
}

/// A string literal: `."` ... `"`.  The text is emitted at once.  Fails
/// when no terminator is found.
pub open spec fn spec_form_str(e: EnvModel, toks: Seq<Tok>) -> StepOut {
    match spec_parse_string(toks.skip(1)) {
        None => step_halt(e, "Nonterminated string"@),
        Some((m, k)) => step_cont(emit_out(e, OutModel::Text(m)), 1 + k),
    }
}

/// A conditional: `if` ... [`else` ...] `then`.  Pops the condition;
/// evaluates the before-`else` branch when it is non-zero, the after-`else`
/// branch when it is zero.  Fails on an empty stack, a missing `then`, an
/// empty before-branch, or an `else` with an empty after-branch.
pub open spec fn spec_form_if(e: EnvModel, toks: Seq<Tok>, fuel: nat) -> StepOut
    decreases fuel, 0nat, 0nat, toks.len(),
{
    if e.stack.len() == 0 {
        step_halt(e, "Empty stack for condition in if"@)
    } else {
        let cond = e.stack.last();
        let e1 = popped(e);
        let rest = toks.skip(1);
        match find_tok(rest, "then"@) {
            None => step_halt(e1, "Nonterminated conditional"@),
            Some(j) => {
                let body = rest.take(j);
                let consumed = 2 + j;
                let (before, after) = spec_split_else(body);
                if before.len() == 0 {
                    step_halt(e1, "Empty statement for then clause"@)
                } else if find_tok(body, "else"@) is Some && after.len() == 0 {
                    step_halt(e1, "Empty statement for then clause after else"@)
                } else {
                    let branch = if cond != 0 {
                        before
                    } else {
                        after
                    };
                    if branch.len() == 0 {
                        step_cont(e1, consumed)
                    } else if fuel == 0 {
                        step_halt(e1, "Evaluation depth exceeded"@)
                    } else {
                        step_cont(spec_eval_toks(e1, branch, (fuel - 1) as nat), consumed)
                    }
                }
            },
        }
    }
}

/// An indirect read, `@`: pop the top variable reference and push the
/// scalar's value, or the array element at the reference's pending index.
pub open spec fn spec_form_var_get(e: EnvModel) -> StepOut {
    if e.var_refs.len() == 0 {
        step_halt(e, "No variable reference found to get value"@)
    } else {
        let r = e.var_refs.last();
        let e1 = EnvModel { var_refs: e.var_refs.drop_last(), ..e };
        match r {
            RefModel::Var(name) => match assoc_get(e1.vars, name) {
                Some(VarModel::Var(v)) => step_cont(pushed(e1, v), 1),
                Some(VarModel::Array(_)) => step_halt(
                    e1,
                    "Unexpected array found when variable expected: "@ + name,
                ),
                None => step_halt(e1, "No such variable: "@ + name),
            },
            RefModel::Array(name, pos) => match assoc_get(e1.vars, name) {
                Some(VarModel::Array(a)) => if 0 <= pos < a.len() {
                    step_cont(pushed(e1, a[pos as int]), 1)
                } else {
                    step_halt(e1, "Array index out of bounds: "@ + name)
                },
                Some(VarModel::Var(_)) => step_halt(
                    e1,
                    "Unexpected variable found when array expected: "@ + name,
                ),
                None => step_halt(e1, "No such array: "@ + name),
            },
        }
    }
}

/// What setting one array slot does to the variable table: the new table,
/// and the error when the name is unknown, not an array, or the index is
/// outside the array.
pub open spec fn spec_array_set(
    vars: Seq<(Tok, VarModel)>,
    name: Tok,
    pos: i32,
    value: i32,
) -> (Seq<(Tok, VarModel)>, Option<Seq<char>>) {
    match assoc_get(vars, name) {
        None => (vars, Some("No such array variable: "@ + name)),
        Some(VarModel::Var(_)) => (vars, Some("Variable is not an array: "@ + name)),
        Some(VarModel::Array(a)) => if 0 <= pos < a.len() {
            (assoc_set(vars, name, VarModel::Array(a.update(pos as int, value))), None)
        } else {
            (vars, Some("Cannot set at that position: "@ + name))
        },
    }
}

/// An indirect write, `!`: pop the top variable reference, pop one value,
/// and write it to the scalar or the referenced array slot.
pub open spec fn spec_form_var_set(e: EnvModel) -> StepOut {
    if e.var_refs.len() == 0 {
        step_halt(e, "No variable reference found to set value"@)
    } else {
        let r = e.var_refs.last();
        let e1 = EnvModel { var_refs: e.var_refs.drop_last(), ..e };
        match r {
            RefModel::Var(name) => if e1.stack.len() == 0 {
                step_halt(e1, "Stack empty to set variable value"@)
            } else {
                let x = e1.stack.last();
                let e2 = popped(e1);
                match assoc_get(e2.vars, name) {
                    Some(VarModel::Var(v)) => step_cont(
                        EnvModel { vars: assoc_set(e2.vars, name, VarModel::Var(x)), ..e2 },
                        1,
                    ),
                    Some(VarModel::Array(_)) => step_halt(
                        e2,
                        "Unexpected array found when variable expected: "@ + name,
                    ),
                    None => step_halt(e2, "No such variable: "@ + name),
                }
            },
            RefModel::Array(name, pos) => if e1.stack.len() == 0 {
                step_halt(e1, "Stack empty to set array value"@)
            } else {
                let x = e1.stack.last();
                let e2 = popped(e1);
                let (nv, em) = spec_array_set(e2.vars, name, pos, x);
                match em {
                    None => step_cont(EnvModel { vars: nv, ..e2 }, 1),
                    Some(m) => step_halt(e2, m),
                }
            },
        }
    }
}

/// `variable` name: declare a zero-valued scalar (overwriting any variable
/// of that name) and push a reference to it.
pub open spec fn spec_form_intro_var(e: EnvModel, toks: Seq<Tok>) -> StepOut {
    if toks.len() < 2 {
        step_halt(e, "Variable name not found"@)
    } else {
        let name = toks[1];
        step_cont(
            EnvModel {
                vars: assoc_set(e.vars, name, VarModel::Var(0)),
                var_refs: e.var_refs.push(RefModel::Var(name)),
                ..e
            },
            2,
        )
    }
}

/// `constant` name: pop one value and bind it to the name, overwriting any
/// constant of that name.
pub open spec fn spec_form_intro_const(e: EnvModel, toks: Seq<Tok>) -> StepOut {
    if toks.len() < 2 {
        step_halt(e, "Constant name not found"@)
    } else if e.stack.len() == 0 {
        step_halt(e, "Stack empty to set constant"@)
    } else {
        let name = toks[1];
        step_cont(
            EnvModel {
                stack: e.stack.drop_last(),
                constants: assoc_set(e.constants, name, e.stack.last()),
                ..e
            },
            2,
        )
    }
}

/// `cells`: a no-op that requires a non-empty stack.
pub open spec fn spec_form_cells(e: EnvModel) -> StepOut {
    if e.stack.len() == 0 {
        step_halt(e, "Empty stack to evaluate cells"@)
    } else {
        step_cont(e, 1)
    }
}

/// `allot`: pop the pending variable reference and a length, and convert
/// the referenced scalar into a zero-initialized array of that length.
/// Fails without a pending reference, on an empty stack, on a negative
/// length, and when the variable is already an array.
pub open spec fn spec_form_allot(e: EnvModel) -> StepOut {
    if e.var_refs.len() == 0 {
        step_halt(e, "No variable found to allocate as an array"@)
    } else {
        let r = e.var_refs.last();
        let e1 = EnvModel { var_refs: e.var_refs.drop_last(), ..e };
        match r {
            RefModel::Array(name, _) => step_halt(e1, "Already an array: "@ + name),
            RefModel::Var(name) => if e1.stack.len() == 0 {
                step_halt(e1, "Stack empty to allot array"@)
            } else {
                let len = e1.stack.last();
                let e2 = popped(e1);
                if len < 0 {
                    step_halt(e2, "Invalid array length for allot"@)
                } else {
                    match assoc_get(e2.vars, name) {
                        Some(VarModel::Var(v)) => step_cont(
                            EnvModel {
                                vars: assoc_set(
                                    e2.vars,
                                    name,
                                    VarModel::Array(Seq::new(len as nat, |i: int| 0i32)),
                                ),
                                ..e2
                            },
                            1,
                        ),
                        Some(VarModel::Array(_)) => step_halt(e2, "Already an array: "@ + name),
                        None => step_halt(e2, "No such variable: "@ + name),
                    }
                }
            },
        }
    }
}

/// The iterations of a counted loop: for each index from `i` up to (not
/// including) `end`, bind the register `i` and evaluate the body.
pub open spec fn spec_do_iters(e: EnvModel, body: Seq<Tok>, i: int, end: int, fuel: nat) -> EnvModel
    decreases fuel, 3nat, end - i, 0nat,
{
    if i >= end {
        e
    } else {
        let e1 = EnvModel { specials: assoc_set(e.specials, "i"@, i as i32), ..e };
        let e2 = spec_eval_toks(e1, body, fuel);
        spec_do_iters(e2, body, i + 1, end, fuel)
    }
}

/// A counted loop: `do` body `loop`.  Pops the exclusive end bound first,
/// then the inclusive start bound, runs the body once per index with the
/// register `i` bound, and removes the register when the construct
/// finishes.  A start not below the end runs zero iterations.  Fails on a
/// missing `loop`, an empty body, or missing bounds.
pub open spec fn spec_form_do(e: EnvModel, toks: Seq<Tok>, fuel: nat) -> StepOut
    decreases fuel, 0nat, 0nat, 0nat,
{
    let rest = toks.skip(1);
    match find_tok(rest, "loop"@) {
        None => step_halt(e, "Nonterminated do loop"@),
        Some(j) => {
            let body = rest.take(j);
            let consumed = 2 + j;
            if body.len() == 0 {
                step_halt(e, "Empty loop body"@)
            } else if e.stack.len() == 0 {
                step_halt(e, "Empty stack for end of do loop"@)
            } else if e.stack.len() == 1 {
                step_halt(popped(e), "Empty stack for start of do loop"@)
            } else {
                let end = e.stack.last();
                let start = e.stack[e.stack.len() - 2];
                let e2 = popped(popped(e));
                if start >= end {
                    step_cont(EnvModel { specials: assoc_remove(e2.specials, "i"@), ..e2 }, consumed)
                } else if fuel == 0 {
                    step_halt(e2, "Evaluation depth exceeded"@)
                } else {
                    let e3 = spec_do_iters(e2, body, start as int, end as int, (fuel - 1) as nat);
                    step_cont(
                        EnvModel { specials: assoc_remove(e3.specials, "i"@), ..e3 },
                        consumed,
                    )
                }
            }
        },
    }
}

/// `+` with a pending variable reference: with an array reference on top,
/// pop an offset and make it the reference's pending index; with a scalar
/// reference on top, fail.
pub open spec fn spec_form_plus_ref(e: EnvModel) -> StepOut {
    let r = e.var_refs.last();
    match r {
        RefModel::Var(name) => step_halt(e, "Cannot set slot on normal variable: "@ + name),
        RefModel::Array(name, _) => if e.stack.len() == 0 {
            step_halt(e, "Stack empty to set slot value for array"@)
        } else {
            let newpos = e.stack.last();
            step_cont(
                EnvModel {
                    stack: e.stack.drop_last(),
                    var_refs: e.var_refs.drop_last().push(RefModel::Array(name, newpos)),
                    ..e
                },
                1,
            )
        },
    }
}

/// One evaluation step on the first token of `toks`: the priority order of
/// the language.  Blank tokens are skipped; then special forms, loop
/// registers, builtins, user words, numeric literals, constants and bare
/// variable names are tried in turn; an unresolvable token is an error.
pub open spec fn spec_step(e: EnvModel, toks: Seq<Tok>, fuel: nat) -> StepOut
    decreases fuel, 1nat, 0nat, toks.len(),
{
    let t = toks[0];
    if is_blank(t) {
        step_cont(e, 1)
    } else if t == ":"@ {
        spec_form_def(e, toks)
    } else if t == ".\""@ {
        spec_form_str(e, toks)
    } else if t == "if"@ {
        spec_form_if(e, toks, fuel)
    } else if t == "@"@ {
        spec_form_var_get(e)
    } else if t == "!"@ {
        spec_form_var_set(e)
    } else if t == "variable"@ {
        spec_form_intro_var(e, toks)
    } else if t == "constant"@ {
        spec_form_intro_const(e, toks)
    } else if t == "cells"@ {
        spec_form_cells(e)
    } else if t == "allot"@ {
        spec_form_allot(e)
    } else if t == "do"@ {
        spec_form_do(e, toks, fuel)
    } else if t == "+"@ && e.var_refs.len() > 0 {
        spec_form_plus_ref(e)
    } else if assoc_get(e.specials, t) is Some {
        match assoc_get(e.specials, t) {
            Some(v) => step_cont(pushed(e, v), 1),
            None => step_cont(e, 1),
        }
    } else if spec_builtin(e, t) is Some {
        match spec_builtin(e, t) {
            Some(o) => match o.err {
                None => step_cont(o.env, 1),
                Some(m) => StepOut { env: fail(o.env, m), consumed: 1, halt: true },
            },
            None => step_cont(e, 1),
        }
    } else if assoc_get(e.funcs, t) is Some {
        match assoc_get(e.funcs, t) {
            Some(body) => if fuel == 0 {
                step_halt(e, "Evaluation depth exceeded"@)
            } else {
                step_cont(spec_eval_toks(e, body, (fuel - 1) as nat), 1)
            },
            None => step_cont(e, 1),
        }
    } else if spec_parse_i32(t) is Some {
        match spec_parse_i32(t) {
            Some(n) => step_cont(pushed(e, n), 1),
            None => step_cont(e, 1),
        }
    } else if assoc_get(e.constants, t) is Some {
        match assoc_get(e.constants, t) {
            Some(v) => step_cont(pushed(e, v), 1),
            None => step_cont(e, 1),
        }
    } else if assoc_get(e.vars, t) is Some {
        match assoc_get(e.vars, t) {
            Some(VarModel::Var(_)) => step_cont(
                EnvModel { var_refs: e.var_refs.push(RefModel::Var(t)), ..e },
                1,
            ),
            Some(VarModel::Array(_)) => step_cont(
                EnvModel { var_refs: e.var_refs.push(RefModel::Array(t, 0)), ..e },
                1,
            ),
            None => step_cont(e, 1),
        }
    } else {
        StepOut { env: fail(e, "Invalid token: "@ + t), consumed: 1, halt: true }
    }
}

/// Evaluate a token sequence: step through the tokens until they are
/// exhausted or a step halts.  A step always consumes at least the token
/// it looked at (the bound on `c` below only keeps the recursion
/// well-founded; every step stays within it).
pub open spec fn spec_eval_toks(e: EnvModel, toks: Seq<Tok>, fuel: nat) -> EnvModel
    decreases fuel, 2nat, 0nat, toks.len(),
{
    if toks.len() == 0 {
        e
    } else {
        let s = spec_step(e, toks, fuel);
        let c = if 1 <= s.consumed <= toks.len() {
            s.consumed
        } else {
            1
        };
        if s.halt {
            s.env
        } else {
            spec_eval_toks(s.env, toks.skip(c), fuel)
        }
    }
}

/// Evaluate a whole program text: tokenize, then evaluate the tokens.
pub open spec fn spec_eval(e: EnvModel, text: Seq<char>, fuel: nat) -> EnvModel {
    spec_eval_toks(e, spec_tokenize(text), fuel)
}

} // verus!
