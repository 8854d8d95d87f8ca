use forth::inter::{ForthEnv, ForthVar, Interpreter, OutputItem, VarRef};
use forth::lex::{parse_i32, tokenize, valid_forth_name};

#[test]
fn fresh_environment_is_empty() {
    let env = ForthEnv::empty();
    assert!(env.stack.is_empty());
    assert!(env.funcs.is_empty());
    assert!(env.vars.is_empty());
    assert!(env.var_refs.is_empty());
    assert!(env.constants.is_empty());
    assert!(env.specials.is_empty());
    assert!(env.output.is_empty());
}

#[test]
fn push_pop_top_on_the_stack() {
    let mut env = ForthEnv::empty();
    env.push(3);
    env.push(4);
    assert_eq!(env.top("empty".to_string()), Ok(4));
    assert_eq!(env.pop("empty".to_string()), Ok(4));
    assert_eq!(env.pop("empty".to_string()), Ok(3));
    assert_eq!(env.pop("gone".to_string()), Err("gone".to_string()));
    assert_eq!(env.top("gone".to_string()), Err("gone".to_string()));
}

#[test]
fn special_registers_set_get_clear() {
    let mut env = ForthEnv::empty();
    assert_eq!(env.get_special("i"), None);
    assert_eq!(env.set_special("i", 4), None);
    assert_eq!(env.get_special("i"), Some(4));
    assert_eq!(env.set_special("i", 9), Some(4));
    assert_eq!(env.clear_special("i"), Some(9));
    assert_eq!(env.get_special("i"), None);
    assert_eq!(env.clear_special("i"), None);
}

#[test]
fn allot_array_and_array_set() {
    let mut env = ForthEnv::empty();
    env.add_variable("a", ForthVar::Var(0));
    env.allot_array("a", 3);
    assert_eq!(
        env.get_variable("a"),
        Some(ForthVar::Array(vec![0, 0, 0]))
    );
    assert_eq!(env.array_set("a", 1, 8), Ok(()));
    assert_eq!(
        env.get_variable("a"),
        Some(ForthVar::Array(vec![0, 8, 0]))
    );
    assert_eq!(
        env.array_set("a", 3, 1),
        Err("Cannot set at that position: a".to_string())
    );
    assert_eq!(
        env.array_set("a", -1, 1),
        Err("Cannot set at that position: a".to_string())
    );
    assert_eq!(
        env.array_set("b", 0, 1),
        Err("No such array variable: b".to_string())
    );
    env.add_variable("s", ForthVar::Var(5));
    assert_eq!(
        env.array_set("s", 0, 1),
        Err("Variable is not an array: s".to_string())
    );
}

#[test]
fn variable_references_push_and_pop() {
    let mut env = ForthEnv::empty();
    assert_eq!(env.pop_variable_ref(), None);
    env.push_variable_ref(VarRef::Var("x".to_string()));
    env.push_variable_ref(VarRef::Array("y".to_string(), 2));
    assert_eq!(
        env.top_variable_ref(),
        Some(VarRef::Array("y".to_string(), 2))
    );
    assert_eq!(
        env.pop_variable_ref(),
        Some(VarRef::Array("y".to_string(), 2))
    );
    assert_eq!(env.pop_variable_ref(), Some(VarRef::Var("x".to_string())));
}

#[test]
fn constants_and_functions_lookup() {
    let mut env = ForthEnv::empty();
    assert_eq!(env.get_constant("k"), None);
    env.add_constant("k", 5);
    assert_eq!(env.get_constant("k"), Some(5));
    env.add_constant("k", 6);
    assert_eq!(env.get_constant("k"), Some(6));
    assert_eq!(env.get_function("w"), None);
    env.add_function("w", vec!["1".to_string(), "+".to_string()]);
    assert_eq!(
        env.get_function("w"),
        Some(vec!["1".to_string(), "+".to_string()])
    );
}

#[test]
fn clear_output_discards_collected_items() {
    let interp = Interpreter::new();
    let mut env = ForthEnv::empty();
    interp.eval(&mut env, "1 . 2");
    assert_eq!(env.output, vec![OutputItem::Num(1)]);
    env.clear_output();
    assert!(env.output.is_empty());
    assert_eq!(env.stack, vec![2]);
}

fn toks(v: &[&str]) -> Vec<String> {
    v.iter().map(|s| s.to_string()).collect()
}

#[test]
fn tokenize_splits_on_spaces_and_trims() {
    assert_eq!(tokenize("1 2 +"), toks(&["1", "2", "+"]));
    assert_eq!(tokenize(" a  b "), toks(&["", "a", "", "b", ""]));
    assert_eq!(tokenize(""), toks(&[""]));
    assert_eq!(tokenize("1 2\n"), toks(&["1", "2"]));
    assert_eq!(tokenize("\tx"), toks(&["x"]));
}

#[test]
fn parse_i32_accepts_signed_decimals_in_range() {
    assert_eq!(parse_i32(&"0".to_string()), Some(0));
    assert_eq!(parse_i32(&"007".to_string()), Some(7));
    assert_eq!(parse_i32(&"-12".to_string()), Some(-12));
    assert_eq!(parse_i32(&"+12".to_string()), Some(12));
    assert_eq!(parse_i32(&"2147483647".to_string()), Some(i32::MAX));
    assert_eq!(parse_i32(&"-2147483648".to_string()), Some(i32::MIN));
    assert_eq!(parse_i32(&"2147483648".to_string()), None);
    assert_eq!(parse_i32(&"-2147483649".to_string()), None);
    assert_eq!(parse_i32(&"99999999999999999999999".to_string()), None);
    assert_eq!(parse_i32(&"".to_string()), None);
    assert_eq!(parse_i32(&"-".to_string()), None);
    assert_eq!(parse_i32(&"1x".to_string()), None);
    assert_eq!(parse_i32(&" 1".to_string()), None);
}

#[test]
fn valid_forth_name_rejects_numbers() {
    assert!(valid_forth_name(&"sq".to_string()));
    assert!(valid_forth_name(&"x1".to_string()));
    assert!(!valid_forth_name(&"42".to_string()));
    assert!(!valid_forth_name(&"-3".to_string()));
}
