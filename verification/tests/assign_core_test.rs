use rush::assign::Assign;
use rush::multiple_rush::CalcNode;
use rush::multiple_rush::MultipleRush;
use rush::multiple_rush::Rule;
use rush::value::Value;

#[test]
fn rule_test_assign_new() {
    let a = Assign::from_text("data.message='success'").expect("new Assign failed");
    println!("--->{:?}", a);
}

#[test]
fn assign_test_assign_new() {
    let exec_expression = r#"
        data.message = 'success';
        data.code = 0;
        data.value1 = [1,2,3];
        data.value2 = args1 + args2;
        data.value3 = !args3;
        data.value4 = str_len('hello world');
        data.value5 = 1>>2;
        "#;
    let a = Assign::from_text(exec_expression).expect("new Assign failed");
    println!("--->{:?}", a);
}

struct CalcNodeImpl;

impl CalcNode for CalcNodeImpl {
    fn when(&self, _input: &Value) -> bool {
        true
    }
}

struct RuleImpl;

impl Rule for RuleImpl {
    fn execute(&self, _input: &Value, _output: &mut Value) {}
}

#[test]
fn multiple_rush_test_simple() {
    let mr: MultipleRush<CalcNodeImpl, RuleImpl> = MultipleRush::new();
    let result = mr.flow_value(&Value::Object(vec![(
        "name".to_string(),
        Value::Str("hello world".to_string()),
    )]));
    println!("result ---> {result:?}");
    assert_eq!(result, Value::Object(vec![]));
}

struct FlagNode;

impl CalcNode for FlagNode {
    fn when(&self, input: &Value) -> bool {
        match input {
            Value::Str(s) => s == "true",
            _ => false,
        }
    }
}

struct MarkRule;

impl Rule for MarkRule {
    fn execute(&self, _input: &Value, output: &mut Value) {
        if let Value::Object(fields) = output {
            fields.push(("result".to_string(), Value::Str("success".to_string())));
        }
    }
}

#[test]
fn test_custom_calc_exec() {
    let mr: MultipleRush<FlagNode, MarkRule> =
        MultipleRush::new().register_rule("custom_rule".to_string(), vec![FlagNode], MarkRule);
    let res = mr.flow_value(&Value::Str("true".to_string()));
    assert_eq!(
        res,
        Value::Object(vec![("result".to_string(), Value::Str("success".to_string()))])
    );

    let res = mr.flow_value(&Value::Str("false".to_string()));
    assert_eq!(res, Value::Object(vec![]));
}
