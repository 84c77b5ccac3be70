use rush::assign::Assign;
use rush::calc_builder::CalcBuilder;
use rush::error::EvalError;
use rush::rule_builder::ExprEngine;
use rush::rush::Rush;
use rush::std_tool::StdFunctions;
use rush::task_pool::MulMsg;
use rush::task_pool::MultiRush;
use rush::value::Value;

fn obj(pairs: Vec<(&str, Value)>) -> Value {
    Value::Object(pairs.into_iter().map(|(k, v)| (k.to_string(), v)).collect())
}

fn s(x: &str) -> Value {
    Value::Str(x.to_string())
}

fn get<'a>(v: &'a Value, k: &str) -> Option<&'a Value> {
    match v {
        Value::Object(fields) => fields.iter().find(|p| p.0 == k).map(|p| &p.1),
        _ => None,
    }
}

fn holds(expr: &str) -> bool {
    let calc = CalcBuilder::new(expr).build().unwrap();
    calc.when(&StdFunctions::new(), &Value::Null).unwrap()
}

#[test]
fn law_bit_operators() {
    assert!(holds("1 << 2 == 4"));
    assert!(holds("2 >> 1 == 1"));
    assert!(holds("1 | 2 == 3"));
    assert!(holds("3 & 2 == 2"));
    assert!(holds("1 ^ 2 == 3"));
    assert!(holds("~1 == -2"));
}

#[test]
fn law_mixed_arithmetic_is_float() {
    let calc = CalcBuilder::new("1 + 2.5").build().unwrap();
    let v = calc.value(&StdFunctions::new(), &Value::Null).unwrap();
    assert!(matches!(v, Value::Float(_)));

    let calc = CalcBuilder::new("2.5 * 2").build().unwrap();
    let v = calc.value(&StdFunctions::new(), &Value::Null).unwrap();
    assert!(matches!(v, Value::Float(_)));
}

#[test]
fn law_float_arithmetic_through_the_engine() {
    assert!(holds("1.5 + 2 == 3.5"));
    assert!(holds("2.5 > 2"));
    assert!(holds("1 < 1.5"));
    assert!(holds("3.5 - 0.5 == 3.0"));
    assert!(holds("2.5 <= 2.5"));
    assert!(holds("2 >= 1.5"));
    assert!(!holds("1.5 == 1"));
}

#[test]
fn law_age_rule_matches_nineteen_not_eighteen() {
    let mut ee = ExprEngine::new();
    ee.register_rule(
        "rule AGE
        when
            age > 18
        then
            hit = 'yes'
        ",
    )
    .unwrap();
    let rh = Rush::from_engine(StdFunctions::new(), ee);
    let res = rh.flow_value(&obj(vec![("age", Value::Int(19))])).unwrap();
    assert_eq!(get(&res, "hit"), Some(&s("yes")));
    let res = rh.flow_value(&obj(vec![("age", Value::Int(18))])).unwrap();
    assert_eq!(get(&res, "hit"), None);
}

#[test]
fn law_missing_field_skips_the_rule() {
    let mut ee = ExprEngine::new();
    ee.register_rule(
        "rule COUNTRY
        when
            country == '\u{7f8e}\u{56fd}'
        then
            hit = 'yes'
        ",
    )
    .unwrap();
    let rh = Rush::from_engine(StdFunctions::new(), ee);
    let res = rh.flow_value(&obj(vec![("age", Value::Int(17))])).unwrap();
    assert_eq!(res, Value::Object(vec![]));
}

#[test]
fn law_assignment_builds_nested_output() {
    let assign = Assign::from_text("data.message = 'success'").unwrap();
    let mut out = Value::Object(vec![]);
    assign.execute(&StdFunctions::new(), &Value::Null, &mut out).unwrap();
    assert_eq!(out, obj(vec![("data", obj(vec![("message", s("success"))]))]));
}

#[test]
fn law_missing_field_in_function_argument_is_an_error() {
    let mut ee = ExprEngine::new();
    ee.register_rule(
        "rule ENVARG
        when
            env(country) == 'x'
        then
            hit = 'yes'
        ",
    )
    .unwrap();
    let rh = Rush::from_engine(StdFunctions::new(), ee);
    let res = rh.flow_value(&obj(vec![("age", Value::Int(17))]));
    assert!(matches!(res, Err(EvalError::ArgNotFoundField(_))));
}

#[test]
fn law_concurrent_flow_agrees_with_sequential() {
    let mut ee = ExprEngine::new();
    ee.register_rule(
        "rule A
        when
            age > 18
        then
            a = 'yes'; shared = 'from_a'
        ",
    )
    .unwrap();
    ee.register_rule(
        "rule B
        when
            age > 10
        then
            b = 'yes'; shared = 'from_b'
        ",
    )
    .unwrap();
    ee.register_rule(
        "rule C
        when
            missing == 1
        then
            c = 'yes'
        ",
    )
    .unwrap();
    let sequential = Rush::from_engine(StdFunctions::new(), ee);
    let input = obj(vec![("age", Value::Int(20))]);
    let expected = sequential.flow_value(&input).unwrap();

    let mr = MultiRush::new(sequential);
    // one truthful outcome message per rule, collected here in
    // reversed arrival order
    let mut msgs: Vec<MulMsg> = Vec::new();
    let n = mr.rush().rule_count();
    for i in 0..n {
        let name = mr.rush().rule_name(i);
        let outcome = mr.rush().when_rule(i, &input);
        msgs.push(MulMsg::new(outcome, name));
    }
    msgs.reverse();
    let concurrent = mr.conclude(&input, &msgs).unwrap();

    assert_eq!(concurrent, expected);
    assert_eq!(get(&expected, "a"), Some(&s("yes")));
    assert_eq!(get(&expected, "b"), Some(&s("yes")));
    assert_eq!(get(&expected, "c"), None);
    assert_eq!(get(&expected, "shared"), Some(&s("from_b")));
}

#[test]
fn evaluation_errors_by_kind() {
    let fs = StdFunctions::new();
    let run = |expr: &str| CalcBuilder::new(expr).build().unwrap().value(&fs, &Value::Null);
    assert!(matches!(run("1 / 0"), Err(EvalError::DivideByZero)));
    assert!(matches!(run("1 % 0"), Err(EvalError::DivideByZero)));
    assert!(matches!(run("1 << 64"), Err(EvalError::ShiftOutOfRange)));
    assert!(matches!(run("'a' + 1"), Err(EvalError::CannotCoerce)));
    assert!(matches!(run("1.5 & 1"), Err(EvalError::BadFloatOperand)));
    assert!(matches!(run("nosuch(1)"), Err(EvalError::FunctionNotFound(_))));
    assert!(matches!(run("1 / 0.0"), Err(EvalError::BadFloatOperand)));
}

#[test]
fn field_resolution_walks_nested_mappings() {
    let calc = CalcBuilder::new("a.b.c == 3").build().unwrap();
    let input = obj(vec![("a", obj(vec![("b", obj(vec![("c", Value::Int(3))]))]))]);
    assert!(calc.when(&StdFunctions::new(), &input).unwrap());

    // a non-mapping in the middle of the path is a hard error
    let calc = CalcBuilder::new("a.b.c == 3").build().unwrap();
    let input = obj(vec![("a", Value::Int(1))]);
    assert!(matches!(
        calc.when(&StdFunctions::new(), &input),
        Err(EvalError::NotObject(_))
    ));
}

#[test]
fn deleted_rule_no_longer_fires() {
    let mut ee = ExprEngine::new();
    ee.register_rule(
        "rule GONE
        when
        then
            hit = 'yes'
        ",
    )
    .unwrap();
    let mut rh = Rush::from_engine(StdFunctions::new(), ee);
    let res = rh.flow_value(&Value::Null).unwrap();
    assert_eq!(get(&res, "hit"), Some(&s("yes")));
    rh.delete_rule("GONE");
    let res = rh.flow_value(&Value::Null).unwrap();
    assert_eq!(res, Value::Object(vec![]));
}

#[test]
fn equality_is_structural_across_kinds() {
    assert!(!holds("'1' == 1"));
    assert!(holds("'1' != 1"));
    assert!(holds("[1,2] == [1,2]"));
    assert!(!holds("[1,2] == [2,1]"));
    assert!(holds("null == null"));
}

#[test]
fn or_short_circuits_and_and_does_not() {
    // the right side of || is never evaluated when the left is true
    let fs = StdFunctions::new();
    let calc = CalcBuilder::new("true || nosuch(1)").build().unwrap();
    assert!(calc.when(&fs, &Value::Null).unwrap());
    // && evaluates both sides, so the bad right side aborts
    let calc = CalcBuilder::new("false && nosuch(1)").build().unwrap();
    assert!(matches!(calc.when(&fs, &Value::Null), Err(EvalError::FunctionNotFound(_))));
}

#[test]
fn float_negation_and_remainder() {
    assert!(holds("-1.5 == 0 - 1.5"));
    assert!(holds("5.5 % 2 == 1.5"));
    assert!(holds("7.5 / 2.5 == 3.0"));
}

#[test]
fn mapping_equality_ignores_key_order() {
    let a = obj(vec![("a", Value::Int(1)), ("b", Value::Int(2))]);
    let b = obj(vec![("b", Value::Int(2)), ("a", Value::Int(1))]);
    assert!(rush::value::val_eq(&a, &b));
    let c = obj(vec![("a", Value::Int(1)), ("b", Value::Int(3))]);
    assert!(!rush::value::val_eq(&a, &c));
}

#[test]
fn duplicate_copies_deeply() {
    let f = serde_json::Number::from_f64(1.5).unwrap();
    let v = obj(vec![
        ("a", Value::Array(vec![Value::Int(1), s("x"), Value::Float(f)])),
        ("b", obj(vec![("c", Value::Bool(true))])),
    ]);
    let w = v.duplicate();
    assert_eq!(v, w);
}

#[test]
fn stripping_comment_free_text_is_identity() {
    let t = "hello world".to_string();
    let r = rush::calc::Calc::parse_remove_annotation(t).unwrap();
    assert_eq!(r, "hello world");
    let r2 = rush::calc::Calc::parse_remove_annotation(r).unwrap();
    assert_eq!(r2, "hello world");
}

#[test]
fn scripted_rule_header_selects_a_loader() {
    let rule = "
    rule LUA_RULE _ lua
    lua_script:
    return 1
    ";
    let (name, body) = rush::lua_runtime_builder::LuaRuntimeFactory::check_engine(rule).unwrap();
    assert_eq!(name, "_");
    let f = rush::lua_runtime_builder::LuaRuntimeFactory::new();
    assert_eq!(f.select_loader(body.as_str()), Some("lua_script:".to_string()));
}

#[test]
fn bytecode_rule_header_selects_a_loader() {
    let rule = "
    rule WASM_RULE _ wasm
    wasm_file: example.wasm
    ";
    let (name, body) = rush::wasm_runtime_build::WasmRuntimeFactory::check_engine(rule).unwrap();
    assert_eq!(name, "_");
    let f = rush::wasm_runtime_build::WasmRuntimeFactory::new();
    assert_eq!(f.select_loader(body.as_str()), Some("wasm_file:".to_string()));
}

#[test]
fn zero_floats_coerce_to_false() {
    assert!(!holds("0.0"));
    assert!(holds("0.1"));
    assert!(holds("1.5"));
}

#[test]
fn failed_assignment_keeps_earlier_writes() {
    let assign = Assign::from_text("a = 1; a.b = 2").unwrap();
    let mut out = Value::Object(vec![]);
    let r = assign.execute(&StdFunctions::new(), &Value::Null, &mut out);
    assert!(matches!(r, Err(EvalError::OutputNotObject)));
    assert_eq!(out, obj(vec![("a", Value::Int(1))]));
}
