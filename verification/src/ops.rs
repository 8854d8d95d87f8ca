//! The builtin operators.
//!
//! Each operator is a function over the environment; its contract states
//! exactly what the corresponding function of the mathematical interpreter
//! returns.  A failing operator returns its diagnostic, and any operand it
//! popped before failing stays popped: the evaluator records the message
//! and halts the current evaluation, not the enclosing ones.

use vstd::prelude::*;

use crate::inter::{ForthEnv, ForthResult, OutputItem};
use crate::semantics::{
    msg_arg1, msg_arg2, spec_add, spec_and, spec_cr, spec_div, spec_drop, spec_dup, spec_emit,
    spec_eq, spec_gt, spec_gt_eq, spec_invert, spec_lt, spec_lt_eq, spec_modulus, spec_mul,
    spec_not_eq, spec_or, spec_print_func, spec_print_num, spec_print_stack, spec_print_vars,
    spec_subtract, spec_swap, spec_over, spec_rot, popped, with_stack,
};

verus! {

/// The diagnostic of a failed first pop for the operator named `name`.
fn msg1(name: &str) -> (m: String)
    ensures
        m@ == msg_arg1(name@),
{
    let mut m: String = "Empty stack: for first argument for ".to_owned();
    m.append(name);
    m
}

/// The diagnostic of a failed second pop for the operator named `name`.
fn msg2(name: &str) -> (m: String)
    ensures
        m@ == msg_arg2(name@),
{
    let mut m: String = "Empty stack: for second argument for ".to_owned();
    m.append(name);
    m
}

/// Pop the two operands of a binary operator named `name`: first `x` (the
/// top), then `y`.  On failure the diagnostic names the missing operand,
/// and an operand already popped stays popped.
fn pop2(env: &mut ForthEnv, name: &str) -> (r: ForthResult<(i32, i32)>)
    ensures
        old(env)@.stack.len() >= 2 ==> final(env)@ == with_stack(
            old(env)@,
            old(env)@.stack.drop_last().drop_last(),
        ) && r is Ok && r->Ok_0 == (
            old(env)@.stack.last(),
            old(env)@.stack[old(env)@.stack.len() - 2],
        ),
        old(env)@.stack.len() == 1 ==> final(env)@ == popped(old(env)@) && r is Err && r->Err_0@
            == msg_arg2(name@),
        old(env)@.stack.len() == 0 ==> final(env)@ == old(env)@ && r is Err && r->Err_0@
            == msg_arg1(name@),
{
    let x = match env.pop(msg1(name)) {
        Ok(x) => x,
        Err(e) => {
            return Err(e);
        },
    };
    let y = match env.pop(msg2(name)) {
        Ok(y) => y,
        Err(e) => {
            return Err(e);
        },
    };
    proof {
        assert(env@ =~= with_stack(old(env)@, old(env)@.stack.drop_last().drop_last()));
    }
    Ok((x, y))
}

/// `+`: pop `x`, pop `y`, push `x + y` (wrapping).
pub fn add(env: &mut ForthEnv) -> (r: ForthResult<()>)
    ensures
        final(env)@ == spec_add(old(env)@).env,
        (r is Ok) == (spec_add(old(env)@).err is None),
        r is Err ==> Some(r->Err_0@) == spec_add(old(env)@).err,
{
    match pop2(env, "+") {
        Ok((x, y)) => {
            env.push(x.wrapping_add(y));
            proof {
                assert(env@ =~= spec_add(old(env)@).env);
            }
            Ok(())
        },
        Err(e) => Err(e),
    }
}

/// `-`: pop `x`, pop `y`, push `y - x` (wrapping).
pub fn subtract(env: &mut ForthEnv) -> (r: ForthResult<()>)
    ensures
        final(env)@ == spec_subtract(old(env)@).env,
        (r is Ok) == (spec_subtract(old(env)@).err is None),
        r is Err ==> Some(r->Err_0@) == spec_subtract(old(env)@).err,
{
    match pop2(env, "-") {
        Ok((x, y)) => {
            env.push(y.wrapping_sub(x));
            proof {
                assert(env@ =~= spec_subtract(old(env)@).env);
            }
            Ok(())
        },
        Err(e) => Err(e),
    }
}

/// `*`: pop `x`, pop `y`, push `y * x` (wrapping).
pub fn mul(env: &mut ForthEnv) -> (r: ForthResult<()>)
    ensures
        final(env)@ == spec_mul(old(env)@).env,
        (r is Ok) == (spec_mul(old(env)@).err is None),
        r is Err ==> Some(r->Err_0@) == spec_mul(old(env)@).err,
{
    match pop2(env, "*") {
        Ok((x, y)) => {
            env.push(y.wrapping_mul(x));
            proof {
                assert(env@ =~= spec_mul(old(env)@).env);
            }
            Ok(())
        },
        Err(e) => Err(e),
    }
}

/// `/`: pop `x`, pop `y`, push `y / x` (truncating); a zero divisor or an
/// overflowing quotient is an error.
pub fn div(env: &mut ForthEnv) -> (r: ForthResult<()>)
    ensures
        final(env)@ == spec_div(old(env)@).env,
        (r is Ok) == (spec_div(old(env)@).err is None),
        r is Err ==> Some(r->Err_0@) == spec_div(old(env)@).err,
{
    match pop2(env, "/") {
        Ok((x, y)) => match y.checked_div(x) {
            Some(v) => {
                env.push(v);
                proof {
                    assert(env@ =~= spec_div(old(env)@).env);
                }
                Ok(())
            },
            None => Err("Invalid operands for /".to_owned()),
        },
        Err(e) => Err(e),
    }
}

/// `mod`: pop `x`, pop `y`, push `y % x` (truncating); a zero divisor or
/// an overflowing remainder is an error.
pub fn modulus(env: &mut ForthEnv) -> (r: ForthResult<()>)
    ensures
        final(env)@ == spec_modulus(old(env)@).env,
        (r is Ok) == (spec_modulus(old(env)@).err is None),
        r is Err ==> Some(r->Err_0@) == spec_modulus(old(env)@).err,
{
    match pop2(env, "mod") {
        Ok((x, y)) => match y.checked_rem(x) {
            Some(v) => {
                env.push(v);
                proof {
                    assert(env@ =~= spec_modulus(old(env)@).env);
                }
                Ok(())
            },
            None => Err("Invalid operands for mod".to_owned()),
        },
        Err(e) => Err(e),
    }
}

/// `and`: pop `x`, pop `y`, push the bitwise and.
pub fn and(env: &mut ForthEnv) -> (r: ForthResult<()>)
    ensures
        final(env)@ == spec_and(old(env)@).env,
        (r is Ok) == (spec_and(old(env)@).err is None),
        r is Err ==> Some(r->Err_0@) == spec_and(old(env)@).err,
{
    match pop2(env, "and") {
        Ok((x, y)) => {
            env.push(x & y);
            proof {
                assert(env@ =~= spec_and(old(env)@).env);
            }
            Ok(())
        },
        Err(e) => Err(e),
    }
}

/// `or`: pop `x`, pop `y`, push the bitwise or.
pub fn or(env: &mut ForthEnv) -> (r: ForthResult<()>)
    ensures
        final(env)@ == spec_or(old(env)@).env,
        (r is Ok) == (spec_or(old(env)@).err is None),
        r is Err ==> Some(r->Err_0@) == spec_or(old(env)@).err,
{
    match pop2(env, "or") {
        Ok((x, y)) => {
            env.push(x | y);
            proof {
                assert(env@ =~= spec_or(old(env)@).env);
            }
            Ok(())
        },
        Err(e) => Err(e),
    }
}

/// `invert`: pop one value, push its bitwise complement.
pub fn invert(env: &mut ForthEnv) -> (r: ForthResult<()>)
    ensures
        final(env)@ == spec_invert(old(env)@).env,
        (r is Ok) == (spec_invert(old(env)@).err is None),
        r is Err ==> Some(r->Err_0@) == spec_invert(old(env)@).err,
{
    let x = match env.pop("Empty stack for invert".to_owned()) {
        Ok(x) => x,
        Err(e) => {
            return Err(e);
        },
    };
    env.push(!x);
    proof {
        assert(env@ =~= spec_invert(old(env)@).env);
    }
    Ok(())
}

/// `dup`: duplicate the top of the stack.
pub fn dup(env: &mut ForthEnv) -> (r: ForthResult<()>)
    ensures
        final(env)@ == spec_dup(old(env)@).env,
        (r is Ok) == (spec_dup(old(env)@).err is None),
        r is Err ==> Some(r->Err_0@) == spec_dup(old(env)@).err,
{
    let x = match env.pop("Empty stack for dup".to_owned()) {
        Ok(x) => x,
        Err(e) => {
            return Err(e);
        },
    };
    env.push(x);
    env.push(x);
    proof {
        assert(env@ =~= spec_dup(old(env)@).env);
    }
    Ok(())
}

/// `.`: pop the top of the stack and print it as a decimal number.
pub fn pop(env: &mut ForthEnv) -> (r: ForthResult<()>)
    ensures
        final(env)@ == spec_print_num(old(env)@).env,
        (r is Ok) == (spec_print_num(old(env)@).err is None),
        r is Err ==> Some(r->Err_0@) == spec_print_num(old(env)@).err,
{
    let x = match env.pop("Empty stack for .".to_owned()) {
        Ok(x) => x,
        Err(e) => {
            return Err(e);
        },
    };
    env.out_push(OutputItem::Num(x));
    proof {
        assert(env@ =~= spec_print_num(old(env)@).env);
    }
    Ok(())
}

/// `drop`: pop the top of the stack.
pub fn drop(env: &mut ForthEnv) -> (r: ForthResult<()>)
    ensures
        final(env)@ == spec_drop(old(env)@).env,
        (r is Ok) == (spec_drop(old(env)@).err is None),
        r is Err ==> Some(r->Err_0@) == spec_drop(old(env)@).err,
{
    match env.pop("Empty stack for drop".to_owned()) {
        Ok(_) => Ok(()),
        Err(e) => Err(e),
    }
}

/// `swap`: exchange the top two stack values.
pub fn swap(env: &mut ForthEnv) -> (r: ForthResult<()>)
    ensures
        final(env)@ == spec_swap(old(env)@).env,
        (r is Ok) == (spec_swap(old(env)@).err is None),
        r is Err ==> Some(r->Err_0@) == spec_swap(old(env)@).err,
{
    let x = match env.pop("Empty stack for first element in swap".to_owned()) {
        Ok(x) => x,
        Err(e) => {
            return Err(e);
        },
    };
    let y = match env.pop("Empty stack for second element in swap".to_owned()) {
        Ok(y) => y,
        Err(e) => {
            return Err(e);
        },
    };
    env.push(x);
    env.push(y);
    proof {
        assert(env@ =~= spec_swap(old(env)@).env);
    }
    Ok(())
}

/// `over`: copy the second-from-top to the top.
pub fn over(env: &mut ForthEnv) -> (r: ForthResult<()>)
    ensures
        final(env)@ == spec_over(old(env)@).env,
        (r is Ok) == (spec_over(old(env)@).err is None),
        r is Err ==> Some(r->Err_0@) == spec_over(old(env)@).err,
{
    let x = match env.pop("Empty stack for first element in over".to_owned()) {
        Ok(x) => x,
        Err(e) => {
            return Err(e);
        },
    };
    let y = match env.pop("Empty stack for second element in over".to_owned()) {
        Ok(y) => y,
        Err(e) => {
            return Err(e);
        },
    };
    env.push(y);
    env.push(x);
    env.push(y);
    proof {
        assert(env@ =~= spec_over(old(env)@).env);
    }
    Ok(())
}

/// `rot`: rotate the third-from-top to the top.
pub fn rot(env: &mut ForthEnv) -> (r: ForthResult<()>)
    ensures
        final(env)@ == spec_rot(old(env)@).env,
        (r is Ok) == (spec_rot(old(env)@).err is None),
        r is Err ==> Some(r->Err_0@) == spec_rot(old(env)@).err,
{
    let x = match env.pop("Empty stack for first element in rot".to_owned()) {
        Ok(x) => x,
        Err(e) => {
            return Err(e);
        },
    };
    let y = match env.pop("Empty stack for second element in rot".to_owned()) {
        Ok(y) => y,
        Err(e) => {
            return Err(e);
        },
    };
    let z = match env.pop("Empty stack for third element in rot".to_owned()) {
        Ok(z) => z,
        Err(e) => {
            return Err(e);
        },
    };
    env.push(y);
    env.push(x);
    env.push(z);
    proof {
        assert(env@ =~= spec_rot(old(env)@).env);
    }
    Ok(())
}

/// `emit`: pop the top of the stack and print its low byte as a character.
pub fn emit(env: &mut ForthEnv) -> (r: ForthResult<()>)
    ensures
        final(env)@ == spec_emit(old(env)@).env,
        (r is Ok) == (spec_emit(old(env)@).err is None),
        r is Err ==> Some(r->Err_0@) == spec_emit(old(env)@).err,
{
    let x = match env.pop("Empty stack for emit".to_owned()) {
        Ok(x) => x,
        Err(e) => {
            return Err(e);
        },
    };
    let b: u8 = #[verifier::truncate] (x as u8);
    env.out_push(OutputItem::Chr(b));
    proof {
        assert(env@ =~= spec_emit(old(env)@).env);
    }
    Ok(())
}

/// `cr`: print a line break.
pub fn cr(env: &mut ForthEnv) -> (r: ForthResult<()>)
    ensures
        final(env)@ == spec_cr(old(env)@).env,
        (r is Ok) == (spec_cr(old(env)@).err is None),
        r is Err ==> Some(r->Err_0@) == spec_cr(old(env)@).err,
{
    env.out_push(OutputItem::Newline);
    proof {
        assert(env@ =~= spec_cr(old(env)@).env);
    }
    Ok(())
}

/// `p`: print the stack (a diagnostic).
pub fn print_stack(env: &mut ForthEnv) -> (r: ForthResult<()>)
    ensures
        final(env)@ == spec_print_stack(old(env)@).env,
        (r is Ok) == (spec_print_stack(old(env)@).err is None),
        r is Err ==> Some(r->Err_0@) == spec_print_stack(old(env)@).err,
{
    env.print_stack();
    Ok(())
}

/// `d`: print the word dictionary (a diagnostic).
pub fn print_func(env: &mut ForthEnv) -> (r: ForthResult<()>)
    ensures
        final(env)@ == spec_print_func(old(env)@).env,
        (r is Ok) == (spec_print_func(old(env)@).err is None),
        r is Err ==> Some(r->Err_0@) == spec_print_func(old(env)@).err,
{
    env.print_func();
    Ok(())
}

/// `v`: print the variable table (a diagnostic).
pub fn print_vars(env: &mut ForthEnv) -> (r: ForthResult<()>)
    ensures
        final(env)@ == spec_print_vars(old(env)@).env,
        (r is Ok) == (spec_print_vars(old(env)@).err is None),
        r is Err ==> Some(r->Err_0@) == spec_print_vars(old(env)@).err,
{
    env.print_vars();
    Ok(())
}

/// `=`: pop `x`, pop `y`, push `-1` when `x == y`, else `0`.
pub fn eq(env: &mut ForthEnv) -> (r: ForthResult<()>)
    ensures
        final(env)@ == spec_eq(old(env)@).env,
        (r is Ok) == (spec_eq(old(env)@).err is None),
        r is Err ==> Some(r->Err_0@) == spec_eq(old(env)@).err,
{
    match pop2(env, "=") {
        Ok((x, y)) => {
            env.push(if x == y { -1 } else { 0 });
            proof {
                assert(env@ =~= spec_eq(old(env)@).env);
            }
            Ok(())
        },
        Err(e) => Err(e),
    }
}

/// `!=`: pop `x`, pop `y`, push `-1` when `x != y`, else `0`.
pub fn not_eq(env: &mut ForthEnv) -> (r: ForthResult<()>)
    ensures
        final(env)@ == spec_not_eq(old(env)@).env,
        (r is Ok) == (spec_not_eq(old(env)@).err is None),
        r is Err ==> Some(r->Err_0@) == spec_not_eq(old(env)@).err,
{
    match pop2(env, "!=") {
        Ok((x, y)) => {
            env.push(if x != y { -1 } else { 0 });
            proof {
                assert(env@ =~= spec_not_eq(old(env)@).env);
            }
            Ok(())
        },
        Err(e) => Err(e),
    }
}

/// `<`: pop `x`, pop `y`, push `-1` when `y < x`, else `0`.
pub fn lt(env: &mut ForthEnv) -> (r: ForthResult<()>)
    ensures
        final(env)@ == spec_lt(old(env)@).env,
        (r is Ok) == (spec_lt(old(env)@).err is None),
        r is Err ==> Some(r->Err_0@) == spec_lt(old(env)@).err,
{
    match pop2(env, "<") {
        Ok((x, y)) => {
            env.push(if y < x { -1 } else { 0 });
            proof {
                assert(env@ =~= spec_lt(old(env)@).env);
            }
            Ok(())
        },
        Err(e) => Err(e),
    }
}

/// `>`: pop `x`, pop `y`, push `-1` when `y > x`, else `0`.
pub fn gt(env: &mut ForthEnv) -> (r: ForthResult<()>)
    ensures
        final(env)@ == spec_gt(old(env)@).env,
        (r is Ok) == (spec_gt(old(env)@).err is None),
        r is Err ==> Some(r->Err_0@) == spec_gt(old(env)@).err,
{
    match pop2(env, ">") {
        Ok((x, y)) => {
            env.push(if y > x { -1 } else { 0 });
            proof {
                assert(env@ =~= spec_gt(old(env)@).env);
            }
            Ok(())
        },
        Err(e) => Err(e),
    }
}

/// `<=`: pop `x`, pop `y`, push `-1` when `y <= x`, else `0`.
pub fn lt_eq(env: &mut ForthEnv) -> (r: ForthResult<()>)
    ensures
        final(env)@ == spec_lt_eq(old(env)@).env,
        (r is Ok) == (spec_lt_eq(old(env)@).err is None),
        r is Err ==> Some(r->Err_0@) == spec_lt_eq(old(env)@).err,
{
    match pop2(env, "<=") {
        Ok((x, y)) => {
            env.push(if y <= x { -1 } else { 0 });
            proof {
                assert(env@ =~= spec_lt_eq(old(env)@).env);
            }
            Ok(())
        },
        Err(e) => Err(e),
    }
}

/// `>=`: pop `x`, pop `y`, push `-1` when `y >= x`, else `0`.
pub fn gt_eq(env: &mut ForthEnv) -> (r: ForthResult<()>)
    ensures
        final(env)@ == spec_gt_eq(old(env)@).env,
        (r is Ok) == (spec_gt_eq(old(env)@).err is None),
        r is Err ==> Some(r->Err_0@) == spec_gt_eq(old(env)@).err,
{
    match pop2(env, ">=") {
        Ok((x, y)) => {
            env.push(if y >= x { -1 } else { 0 });
            proof {
                assert(env@ =~= spec_gt_eq(old(env)@).env);
            }
            Ok(())
        },
        Err(e) => Err(e),
    }
}

} // verus!
