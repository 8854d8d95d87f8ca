use forth::inter::{ForthEnv, Interpreter, OutputItem};

fn run(program: &str) -> ForthEnv {
    let interp = Interpreter::new();
    let mut env = ForthEnv::empty();
    interp.eval(&mut env, program);
    env
}

fn nums(env: &ForthEnv) -> Vec<i32> {
    let mut out = Vec::new();
    for item in &env.output {
        if let OutputItem::Num(x) = item {
            out.push(*x);
        }
    }
    out
}

fn errors(env: &ForthEnv) -> Vec<String> {
    let mut out = Vec::new();
    for item in &env.output {
        if let OutputItem::Error(m) = item {
            out.push(m.clone());
        }
    }
    out
}

#[test]
fn subtract_applies_second_minus_top() {
    let env = run("5 2 -");
    assert_eq!(env.stack, vec![3]);
    assert!(errors(&env).is_empty());
}

#[test]
fn add_mul_div_mod() {
    assert_eq!(run("1 2 +").stack, vec![3]);
    assert_eq!(run("3 4 *").stack, vec![12]);
    assert_eq!(run("7 2 /").stack, vec![3]);
    assert_eq!(run("7 2 mod").stack, vec![1]);
    assert_eq!(run("2 7 mod").stack, vec![2]);
}

#[test]
fn division_by_zero_reports_error() {
    let env = run("5 0 /");
    assert!(env.stack.is_empty());
    assert_eq!(errors(&env), vec!["Invalid operands for /".to_string()]);
}

#[test]
fn arithmetic_wraps_around() {
    assert_eq!(run("2147483647 1 +").stack, vec![i32::MIN]);
    assert_eq!(run("-2147483648 1 -").stack, vec![i32::MAX]);
}

#[test]
fn comparisons_apply_second_op_top() {
    assert_eq!(run("1 2 <").stack, vec![-1]);
    assert_eq!(run("2 1 <").stack, vec![0]);
    assert_eq!(run("2 1 >").stack, vec![-1]);
    assert_eq!(run("1 1 <=").stack, vec![-1]);
    assert_eq!(run("1 1 >=").stack, vec![-1]);
    assert_eq!(run("2 1 <=").stack, vec![0]);
    assert_eq!(run("1 1 =").stack, vec![-1]);
    assert_eq!(run("1 2 =").stack, vec![0]);
    assert_eq!(run("1 2 !=").stack, vec![-1]);
}

#[test]
fn bitwise_and_or_invert() {
    assert_eq!(run("6 3 and").stack, vec![2]);
    assert_eq!(run("6 3 or").stack, vec![7]);
    assert_eq!(run("0 invert").stack, vec![-1]);
    assert_eq!(run("-1 invert").stack, vec![0]);
}

#[test]
fn dup_then_drop_restores_stack() {
    assert_eq!(run("7 dup").stack, vec![7, 7]);
    assert_eq!(run("7 dup drop").stack, vec![7]);
}

#[test]
fn swap_twice_is_identity() {
    assert_eq!(run("1 2 swap").stack, vec![2, 1]);
    assert_eq!(run("1 2 swap swap").stack, vec![1, 2]);
}

#[test]
fn over_copies_second_from_top() {
    assert_eq!(run("1 2 over").stack, vec![1, 2, 1]);
}

#[test]
fn rot_brings_third_to_top() {
    assert_eq!(run("1 2 3 rot").stack, vec![2, 3, 1]);
}

#[test]
fn stack_underflow_reports_and_keeps_partial_pop() {
    let env = run("1 +");
    // the one operand is popped before the failing second pop
    assert!(env.stack.is_empty());
    assert_eq!(
        errors(&env),
        vec!["Empty stack: for second argument for +".to_string()]
    );
}

#[test]
fn counted_loop_prints_each_index() {
    let env = run("0 5 do i . loop");
    assert_eq!(nums(&env), vec![0, 1, 2, 3, 4]);
    assert!(env.stack.is_empty());
    assert!(errors(&env).is_empty());
}

#[test]
fn counted_loop_with_equal_bounds_runs_zero_times() {
    let env = run("5 5 do i . loop");
    assert!(nums(&env).is_empty());
    assert!(env.stack.is_empty());
    assert!(errors(&env).is_empty());
}

#[test]
fn loop_register_is_cleared_after_the_loop() {
    let env = run("0 1 do i . loop i");
    assert_eq!(nums(&env), vec![0]);
    assert_eq!(errors(&env), vec!["Invalid token: i".to_string()]);
}

#[test]
fn empty_loop_body_is_an_error() {
    let env = run("1 2 do loop");
    assert_eq!(errors(&env), vec!["Empty loop body".to_string()]);
    // the bounds are still on the stack: the body check comes first
    assert_eq!(env.stack, vec![1, 2]);
}

#[test]
fn unterminated_loop_is_an_error() {
    let env = run("0 5 do i .");
    assert_eq!(errors(&env), vec!["Nonterminated do loop".to_string()]);
}

#[test]
fn word_body_reads_current_state_on_each_call() {
    let interp = Interpreter::new();
    let mut env = ForthEnv::empty();
    interp.eval(&mut env, ": show x @ . ; variable x 42 x ! show");
    interp.eval(&mut env, "7 x ! show");
    assert_eq!(nums(&env), vec![42, 7]);
    assert!(errors(&env).is_empty());
}

#[test]
fn word_definition_and_call() {
    assert_eq!(run(": sq dup * ; 4 sq").stack, vec![16]);
}

#[test]
fn word_redefinition_overwrites() {
    assert_eq!(run(": f 1 ; : f 2 ; f").stack, vec![2]);
}

#[test]
fn self_recursive_word_stops_at_the_depth_bound() {
    let env = run(": f f ; 9 f");
    assert_eq!(env.stack, vec![9]);
    let errs = errors(&env);
    assert_eq!(errs, vec!["Evaluation depth exceeded".to_string()]);
}

#[test]
fn unterminated_definition_is_an_error() {
    let env = run(": f 1 2");
    assert_eq!(errors(&env), vec!["Invalid function".to_string()]);
    assert!(env.stack.is_empty());
}

#[test]
fn array_slot_write_and_read_round_trip() {
    let env = run("variable arr 3 cells allot 5 arr 1 + ! arr 1 + @");
    assert_eq!(env.stack, vec![5]);
    assert!(errors(&env).is_empty());
}

#[test]
fn array_read_out_of_bounds_keeps_stack() {
    let env = run("variable arr 3 cells allot 5 arr 1 + ! 9 arr 3 + @");
    assert_eq!(
        errors(&env),
        vec!["Array index out of bounds: arr".to_string()]
    );
    // the value pushed before the failed read is still there
    assert_eq!(env.stack, vec![9]);
}

#[test]
fn array_write_out_of_bounds_keeps_variables() {
    let interp = Interpreter::new();
    let mut env = ForthEnv::empty();
    interp.eval(&mut env, "variable arr 2 cells allot 7 arr 5 + !");
    assert_eq!(
        errors(&env),
        vec!["Cannot set at that position: arr".to_string()]
    );
    // the value was popped before the failure; nothing was written
    assert!(env.stack.is_empty());
    interp.eval(&mut env, "arr 0 + @ arr 1 + @");
    assert_eq!(env.stack, vec![0, 0]);
}

#[test]
fn allot_of_an_array_is_an_error() {
    let env = run("variable x 2 cells allot x 3 allot");
    assert_eq!(errors(&env), vec!["Already an array: x".to_string()]);
}

#[test]
fn scalar_variable_set_and_get() {
    let env = run("variable n 13 n ! n @");
    assert_eq!(env.stack, vec![13]);
}

#[test]
fn stale_scalar_reference_to_an_array_is_an_error() {
    let env = run("variable x x 3 allot @");
    assert_eq!(
        errors(&env),
        vec!["Unexpected array found when variable expected: x".to_string()]
    );
}

#[test]
fn plus_with_pending_scalar_reference_is_an_error() {
    let env = run("variable x 1 2 +");
    assert_eq!(
        errors(&env),
        vec!["Cannot set slot on normal variable: x".to_string()]
    );
    assert_eq!(env.stack, vec![1, 2]);
}

#[test]
fn indirection_without_reference_is_an_error() {
    let env = run("@");
    assert_eq!(
        errors(&env),
        vec!["No variable reference found to get value".to_string()]
    );
    let env = run("!");
    assert_eq!(
        errors(&env),
        vec!["No variable reference found to set value".to_string()]
    );
}

#[test]
fn cells_requires_a_value_on_the_stack() {
    let env = run("cells");
    assert_eq!(
        errors(&env),
        vec!["Empty stack to evaluate cells".to_string()]
    );
    let env = run("3 cells");
    assert!(errors(&env).is_empty());
    assert_eq!(env.stack, vec![3]);
}

#[test]
fn conditional_picks_branch_by_condition() {
    assert_eq!(run("0 if 1 else 2 then").stack, vec![2]);
    assert_eq!(run("7 if 1 else 2 then").stack, vec![1]);
    assert_eq!(run("-1 if 1 else 2 then").stack, vec![1]);
}

#[test]
fn conditional_without_else_is_legal() {
    let env = run("1 if 8 then");
    assert_eq!(env.stack, vec![8]);
    assert!(errors(&env).is_empty());
    let env = run("0 if 8 then");
    assert!(env.stack.is_empty());
    assert!(errors(&env).is_empty());
}

#[test]
fn conditional_with_empty_before_branch_is_an_error() {
    let env = run("1 if then");
    assert_eq!(
        errors(&env),
        vec!["Empty statement for then clause".to_string()]
    );
}

#[test]
fn conditional_with_empty_else_branch_is_an_error() {
    let env = run("1 if 2 else then");
    assert_eq!(
        errors(&env),
        vec!["Empty statement for then clause after else".to_string()]
    );
}

#[test]
fn conditional_on_empty_stack_is_an_error() {
    let env = run("if 1 then");
    assert_eq!(
        errors(&env),
        vec!["Empty stack for condition in if".to_string()]
    );
}

#[test]
fn unterminated_conditional_is_an_error() {
    let env = run("1 if 2");
    assert_eq!(errors(&env), vec!["Nonterminated conditional".to_string()]);
}

#[test]
fn unknown_token_halts_and_keeps_pushed_values() {
    let env = run("1 2 foo 4");
    assert_eq!(errors(&env), vec!["Invalid token: foo".to_string()]);
    // the tokens after the failure were not evaluated
    assert_eq!(env.stack, vec![1, 2]);
}

#[test]
fn constants_bind_and_rebind() {
    assert_eq!(run("5 constant five five five +").stack, vec![10]);
    assert_eq!(run("5 constant c 6 constant c c").stack, vec![6]);
}

#[test]
fn constant_without_value_is_an_error() {
    let env = run("constant c");
    assert_eq!(errors(&env), vec!["Stack empty to set constant".to_string()]);
}

#[test]
fn string_literal_is_emitted() {
    let env = run(".\" hello world \"");
    assert_eq!(
        env.output,
        vec![OutputItem::Text("hello world ".to_string())]
    );
    let env = run(".\" hi\"");
    assert_eq!(env.output, vec![OutputItem::Text("hi".to_string())]);
}

#[test]
fn unterminated_string_is_an_error() {
    let env = run(".\" hello");
    assert_eq!(errors(&env), vec!["Nonterminated string".to_string()]);
}

#[test]
fn emit_and_cr_produce_output() {
    let env = run("65 emit cr");
    assert_eq!(
        env.output,
        vec![OutputItem::Chr(65), OutputItem::Newline]
    );
}

#[test]
fn print_ops_dump_diagnostics() {
    let env = run("1 2 p");
    assert_eq!(env.stack, vec![1, 2]);
    assert_eq!(env.output, vec![OutputItem::StackDump(vec![1, 2])]);
    let env = run(": f 1 ; d");
    assert_eq!(
        env.output,
        vec![OutputItem::FuncDump(vec![(
            "f".to_string(),
            vec!["1".to_string()]
        )])]
    );
}

#[test]
fn numeric_literals_parse_signs_and_bounds() {
    assert_eq!(run("-5").stack, vec![-5]);
    assert_eq!(run("+7").stack, vec![7]);
    assert_eq!(run("2147483647").stack, vec![i32::MAX]);
    assert_eq!(run("-2147483648").stack, vec![i32::MIN]);
    let env = run("2147483648");
    assert_eq!(errors(&env), vec!["Invalid token: 2147483648".to_string()]);
}

#[test]
fn whitespace_only_tokens_are_skipped() {
    let env = run("  1   2  ");
    assert_eq!(env.stack, vec![1, 2]);
    assert!(errors(&env).is_empty());
}

#[test]
fn a_halt_in_a_nested_body_does_not_abort_the_caller() {
    // the word's body fails, but the tokens after the call still run
    let env = run(": f foo ; f 5");
    assert_eq!(errors(&env), vec!["Invalid token: foo".to_string()]);
    assert_eq!(env.stack, vec![5]);
}

#[test]
fn definitions_accumulate_across_evaluations() {
    let interp = Interpreter::new();
    let mut env = ForthEnv::empty();
    interp.eval(&mut env, ": twice 2 * ;");
    interp.eval(&mut env, "21 twice");
    assert_eq!(env.stack, vec![42]);
}

#[test]
fn redefining_an_inner_word_changes_the_outer_word() {
    // bodies are re-read on every call: no pre-compilation
    let interp = Interpreter::new();
    let mut env = ForthEnv::empty();
    interp.eval(&mut env, ": inner 1 ; : outer inner ; outer");
    interp.eval(&mut env, ": inner 2 ; outer");
    assert_eq!(env.stack, vec![1, 2]);
}

#[test]
fn string_output_inside_a_word() {
    let env = run(": greet .\" hi \" ; greet greet");
    assert_eq!(
        env.output,
        vec![
            OutputItem::Text("hi ".to_string()),
            OutputItem::Text("hi ".to_string())
        ]
    );
}

#[test]
fn variables_dump_shows_arrays_and_scalars() {
    let env = run("variable n 5 n ! v");
    assert_eq!(
        env.output,
        vec![OutputItem::VarDump(vec![(
            "n".to_string(),
            forth::inter::ForthVar::Var(5)
        )])]
    );
}
