use rush::error::EvalError;
use rush::eval::CallResult;
use rush::eval::FunctionSet;
use rush::rule_builder::ExprEngine;
use rush::rush::Rush;
use rush::std_tool::Env;
use rush::std_tool::StdFunctions;
use rush::value::Value;

fn obj(pairs: Vec<(&str, Value)>) -> Value {
    Value::Object(pairs.into_iter().map(|(k, v)| (k.to_string(), v)).collect())
}

fn s(x: &str) -> Value {
    Value::Str(x.to_string())
}

fn get<'a>(v: &'a Value, k: &str) -> Option<&'a Value> {
    match v {
        Value::Object(fields) => fields.iter().find(|p| p.0 == k).map(|p| &p.1),
        _ => None,
    }
}

fn engine_from(rules: Vec<&str>) -> Rush<StdFunctions> {
    let mut ee = ExprEngine::new();
    for r in rules {
        ee.register_rule(r).unwrap();
    }
    Rush::from_engine(StdFunctions::new(), ee)
}

const SIMPLE_RULE: &'static str = "
    rule SIMPLE_RULE
    when
        age > 18
    then
        stage = '\u{6210}\u{4eba}'
    ";

#[test]
fn test_simple_rule() {
    let rh = engine_from(vec![SIMPLE_RULE]);

    let res = rh.flow_value(&obj(vec![("age", Value::Int(19))])).unwrap();
    assert_eq!(get(&res, "stage"), Some(&s("\u{6210}\u{4eba}")));

    let res = rh.flow_value(&obj(vec![("age", Value::Int(18))])).unwrap();
    assert_eq!(get(&res, "stage"), None);
}

struct OrderFunctions {
    std: StdFunctions,
}

fn amount_sum(args: &Vec<Value>) -> Result<Value, EvalError> {
    let items = match args.get(0) {
        Some(Value::Array(items)) => items,
        _ => return Err(EvalError::Custom("want an array".to_string())),
    };
    let mut total: i64 = 0;
    for it in items {
        let q = match get(it, "quantity") {
            Some(Value::Int(q)) => *q,
            _ => return Err(EvalError::Custom("want quantity".to_string())),
        };
        let p = match get(it, "price") {
            Some(Value::Int(p)) => *p,
            _ => return Err(EvalError::Custom("want price".to_string())),
        };
        total += q * p;
    }
    Ok(Value::Int(total))
}

impl FunctionSet for OrderFunctions {
    fn call_function(&self, name: &str, args: Vec<Value>) -> CallResult {
        match name {
            "product_total_amount" | "coupon_discount_amount" => match amount_sum(&args) {
                Ok(v) => CallResult::Done(v),
                Err(e) => CallResult::Fail(e),
            },
            _ => self.std.call_function(name, args),
        }
    }
}

fn order_input() -> Value {
    obj(vec![
        ("order_id", s("78135346576251344")),
        ("shop_channel", s("eleme")),
        ("status", Value::Int(2)),
        ("logistic_type", s("\u{5802}\u{98df}")),
        ("store_id", s("78135346875149325")),
        ("mobile", s("187****1234")),
        ("remark", s("\u{4e0d}\u{653e}\u{7cd6}")),
        (
            "payment",
            obj(vec![
                ("total_amount", Value::Int(1000)),
                ("real_pay_amount", Value::Int(800)),
                ("discount_amount", Value::Int(200)),
            ]),
        ),
        (
            "products",
            Value::Array(vec![
                obj(vec![
                    ("name", s("\u{9171}\u{9999}\u{62ff}\u{94c1}")),
                    ("spu_id", s("78135346576987856")),
                    ("sku_id", s("78135346587513154")),
                    ("quantity", Value::Int(2)),
                    ("price", Value::Int(250)),
                ]),
                obj(vec![
                    ("name", s("\u{9ed1}\u{51e4}\u{68a8}")),
                    ("spu_id", s("78135346658764184")),
                    ("sku_id", s("78135346784318321")),
                    ("quantity", Value::Int(1)),
                    ("price", Value::Int(500)),
                ]),
            ]),
        ),
        (
            "coupons",
            Value::Array(vec![obj(vec![
                ("name", s("\u{4f1a}\u{5458}\u{4e13}\u{5c5e}\u{516b}\u{6298}\u{5238}")),
                ("code", s("DE34-DFAS-13KD-XX34")),
                ("quantity", Value::Int(1)),
                ("price", Value::Int(200)),
            ])]),
        ),
    ])
}

const COMPLEX_RULE: &'static str = "
    rule COMPLEX_RULE
    when
        shop_channel == 'eleme';
        status == 2; /*\u{652f}\u{4ed8}\u{5b8c}\u{6210}*/
        logistic_type == '\u{5802}\u{98df}';
        payment.total_amount == payment.real_pay_amount + payment.discount_amount;
        payment.real_pay_amount ==  payment.total_amount - payment.discount_amount;
        - payment.total_amount ==  1000 - 2000;
        payment.discount_amount * 2 == 400;
        payment.discount_amount / 2 == 100;
        payment.total_amount == product_total_amount(products);
        payment.discount_amount == coupon_discount_amount(coupons);
        2>>1 == 1;
        1<<2 == 4;
        1 | 2 == 3;
        3 & 2 == 2;
        contain([1,2,3,4],status) && !contain([5],status);
        sub([1,2,3,4],[1]) && !sub([1,2,3,4],[5]);
        1 ^ 2 == 3;
        ~ 1 == -2;
        true;
        true || false;
    then
        message = 'success'
    ";

#[test]
fn test_complex_rule() {
    let mut ee = ExprEngine::new();
    ee.register_rule(COMPLEX_RULE).unwrap();
    let rh = Rush::from_engine(OrderFunctions { std: StdFunctions::new() }, ee);

    let res = rh.flow_value(&order_input()).unwrap();
    assert_eq!(get(&res, "message"), Some(&s("success")));
}

const NULL_EXPR_RULE: &'static str = "
rule NULL_EXPR_RULE
when
then
";

#[test]
fn null_rule_test_null_success() {
    let rh = engine_from(vec![NULL_EXPR_RULE]);
    let val = rh.flow_value(&Value::Null).unwrap();
    assert_eq!(val, Value::Object(vec![]), "if when is null,then all always success");
}

#[test]
fn simple_test_test_null_success() {
    let rh = engine_from(vec![NULL_EXPR_RULE]);
    let val = rh.flow_value(&Value::Null).unwrap();
    assert_eq!(val, Value::Object(vec![]), "if when is null,then all always success");
}

const NULL_WHEN_ONE_EXEC: &'static str = "
rule NULL_WHEN_ONE_EXEC
when
then
    message = 'success'
";

#[test]
#[should_panic]
fn null_rule_test_null_failed() {
    let rh = engine_from(vec![NULL_WHEN_ONE_EXEC]);
    let val = rh.flow_value(&Value::Null).unwrap();
    assert_eq!(val, Value::Object(vec![]), "if when is null,then all always success");
}

#[test]
#[should_panic]
fn simple_test_test_null_failed() {
    let rh = engine_from(vec![NULL_WHEN_ONE_EXEC]);
    let val = rh.flow_value(&Value::Null).unwrap();
    assert_eq!(val, Value::Object(vec![]), "if when is null,then all always success");
}

const MANY_RULE_ONE: &'static str = "
    rule MANY_RULE_ONE
    when
        country == '\u{7f8e}\u{56fd}';
        age <= 18;
    then
        tag = '\u{7f8e}\u{56fd}\u{7684}\u{5e74}\u{8f7b}\u{4eba}'
    ";

const MANY_RULE_TWO: &'static str = "
    rule MANY_RULE_TWO
    when
        country == '\u{7f8e}\u{56fd}';
        age > 18 && age < 30;
    then
        tag = '\u{7f8e}\u{56fd}\u{7684}\u{9752}\u{5e74}\u{4eba}'
    ";

const MANY_RULE_THREE: &'static str = "
    rule MANY_RULE_THREE
    when
        country == '\u{4e2d}\u{56fd}';
        age <= 18;
    then
        tag = '\u{4e2d}\u{56fd}\u{7684}\u{5e74}\u{8f7b}\u{4eba}'
    ";

const MANY_RULE_FOUR: &'static str = "
    rule MANY_RULE_FOUR
    when
        country == '\u{4e2d}\u{56fd}';
        age > 18 && age < 30;
    then
        tag = '\u{4e2d}\u{56fd}\u{7684}\u{9752}\u{5e74}\u{4eba}'
    ";

fn tag_of(res: &Value) -> String {
    match get(res, "tag") {
        Some(Value::Str(t)) => t.clone(),
        _ => String::new(),
    }
}

#[test]
fn test_many_test() {
    let rh = engine_from(vec![MANY_RULE_ONE, MANY_RULE_TWO, MANY_RULE_THREE, MANY_RULE_FOUR]);

    let res = rh
        .flow_value(&obj(vec![("country", s("\u{7f8e}\u{56fd}")), ("age", Value::Int(17))]))
        .unwrap();
    assert_eq!(
        tag_of(&res),
        "\u{7f8e}\u{56fd}\u{7684}\u{5e74}\u{8f7b}\u{4eba}",
        "case : {{\"country\":\"\u{7f8e}\u{56fd}\",\"age\":17}} failed"
    );
    let res = rh
        .flow_value(&obj(vec![("country", s("\u{7f8e}\u{56fd}")), ("age", Value::Int(19))]))
        .unwrap();
    assert_eq!(
        tag_of(&res),
        "\u{7f8e}\u{56fd}\u{7684}\u{9752}\u{5e74}\u{4eba}",
        "case : {{\"country\":\"\u{7f8e}\u{56fd}\",\"age\":19}} failed"
    );
    let res = rh
        .flow_value(&obj(vec![("country", s("\u{4e2d}\u{56fd}")), ("age", Value::Int(17))]))
        .unwrap();
    assert_eq!(
        tag_of(&res),
        "\u{4e2d}\u{56fd}\u{7684}\u{5e74}\u{8f7b}\u{4eba}",
        "case : {{\"country\":\"\u{4e2d}\u{56fd}\",\"age\":17}} failed"
    );
    let res = rh
        .flow_value(&obj(vec![("country", s("\u{4e2d}\u{56fd}")), ("age", Value::Int(19))]))
        .unwrap();
    assert_eq!(
        tag_of(&res),
        "\u{4e2d}\u{56fd}\u{7684}\u{9752}\u{5e74}\u{4eba}",
        "case : {{\"country\":\"\u{4e2d}\u{56fd}\",\"age\":19}} failed"
    );

    let res = rh.flow_value(&obj(vec![("age", Value::Int(17))])).unwrap();
    assert_eq!(tag_of(&res), "", "case: country is null failed");
    let res = rh.flow_value(&obj(vec![("country", s("\u{7f8e}\u{56fd}"))])).unwrap();
    assert_eq!(tag_of(&res), "", "case: age is null failed");
}

#[test]
fn test_custom_expr() {
    let calc = rush::calc_builder::CalcBuilder::new("status == 2").build().unwrap();
    let assign = rush::assign::Assign::from_text("message = 'success'").unwrap();

    let rh = Rush::new(StdFunctions::new()).register_rule("custom_rule", vec![calc], assign);
    let res = rh.flow_value(&obj(vec![("status", Value::Int(2))])).unwrap();
    assert_eq!(get(&res, "message"), Some(&s("success")));

    let res = rh.flow_value(&obj(vec![("status", Value::Int(1))])).unwrap();
    assert_eq!(get(&res, "result"), None);
}

const ARRAY_RULE: &'static str = "
    rule ARRAY_RULE
    when
        contain([1,2,3,4],status) && !contain([5],status);
        contain([2,3.1,'hello',true,2>>1],1) && !contain([2,3.1,'hello',true,2>>1],3.1) /*\u{6d6e}\u{70b9}\u{6570}\u{65e0}\u{6cd5}\u{5224}\u{65ad}\u{5305}\u{542b}*/;
        sub([1,2,3,4],[1]) && !sub([1,2,3,4],[5]);
        sub([2,3.1,'hello',true,2>>1],[1,'world']) && !contain([2,3.1,'hello',true,2>>1],[3.1]) /*\u{6d6e}\u{70b9}\u{6570}\u{65e0}\u{6cd5}\u{5224}\u{65ad}\u{5b50}\u{96c6}*/;
    then
        message = 'success'
    ";

#[test]
fn test_array_rule() {
    let rh = engine_from(vec![ARRAY_RULE]);

    let res = rh.flow_value(&obj(vec![("status", Value::Int(2))])).unwrap();
    assert_eq!(get(&res, "message"), Some(&s("success")));
}

const ENV_RULE_DISCOUNT: &'static str = "
    rule ENV_RULE_DISCOUNT
    when
        env('ACTIVITY_DISCOUNT_TYPE') == type
    then
        type = '\u{6253}\u{6298}\u{6d3b}\u{52a8}'
    ";

const ENV_RULE_COUPON: &'static str = "
    rule ENV_RULE_COUPON
    when
        env('ACTIVITY_COUPON_TYPE') == type
    then
        type = '\u{5361}\u{5238}\u{6d3b}\u{52a8}'
    ";

#[test]
fn test_env_rule() {
    let mut env = Env::new();
    env.add_env_variable("ACTIVITY_DISCOUNT_TYPE", "discount");
    env.add_env_variable("ACTIVITY_COUPON_TYPE", "coupon");

    let mut ee = ExprEngine::new();
    ee.register_rule(ENV_RULE_DISCOUNT).unwrap();
    ee.register_rule(ENV_RULE_COUPON).unwrap();
    let rh = Rush::from_engine(StdFunctions::new(), ee).set_env(env);

    let res = rh.flow_value(&obj(vec![("type", s("discount"))])).unwrap();
    assert_eq!(get(&res, "type"), Some(&s("\u{6253}\u{6298}\u{6d3b}\u{52a8}")));
    let res = rh.flow_value(&obj(vec![("type", s("coupon"))])).unwrap();
    assert_eq!(get(&res, "type"), Some(&s("\u{5361}\u{5238}\u{6d3b}\u{52a8}")));
}

struct PeopleFunctions {
    std: StdFunctions,
}

impl FunctionSet for PeopleFunctions {
    fn call_function(&self, name: &str, args: Vec<Value>) -> CallResult {
        match name {
            "str_rev" => match args.into_iter().next() {
                Some(Value::Str(t)) => {
                    CallResult::Done(Value::Str(t.chars().rev().collect::<String>()))
                },
                _ => CallResult::Fail(EvalError::Custom("want a string".to_string())),
            },
            "str_splice" => {
                let mut res = String::new();
                for a in args {
                    if !res.is_empty() {
                        res.push(' ');
                    }
                    if let Value::Str(t) = a {
                        res += t.as_str();
                    }
                }
                CallResult::Done(Value::Str(res))
            },
            "abs" => match args.into_iter().next() {
                Some(Value::Int(i)) => CallResult::Done(Value::Int(i.abs())),
                _ => CallResult::Fail(EvalError::Custom("want an integer".to_string())),
            },
            _ => self.std.call_function(name, args),
        }
    }
}

const FUNCTION_RULE: &'static str = "
    rule FUNCTION_RULE
    when
        str_rev(country)=='\u{52a0}\u{62ff}\u{5927}';
        str_splice(str_rev(country),city)=='\u{52a0}\u{62ff}\u{5927} \u{591a}\u{4f26}\u{591a}';
        abs(revenue.low) < 100 && abs(revenue.high) > 1000;
    then
        message = str_splice(str_rev(country),city,'\u{8d2b}\u{5bcc}\u{5dee}\u{8ddd}\u{5927}');
        revenue.avg = abs(revenue.low) + abs(revenue.high) / 2;
    ";

fn people(country: &str, city: &str, low: i64, high: i64) -> Value {
    obj(vec![
        ("country", s(country)),
        ("city", s(city)),
        ("revenue", obj(vec![("low", Value::Int(low)), ("high", Value::Int(high))])),
    ])
}

#[test]
fn test_function() {
    let mut ee = ExprEngine::new();
    ee.register_rule(FUNCTION_RULE).unwrap();
    let rh = Rush::from_engine(PeopleFunctions { std: StdFunctions::new() }, ee);

    let res = rh
        .flow_value(&people("\u{5927}\u{62ff}\u{52a0}", "\u{591a}\u{4f26}\u{591a}", -10, 1002))
        .unwrap();
    assert_eq!(
        get(&res, "message"),
        Some(&s(
            "\u{52a0}\u{62ff}\u{5927} \u{591a}\u{4f26}\u{591a} \u{8d2b}\u{5bcc}\u{5dee}\u{8ddd}\u{5927}"
        ))
    );
    let avg = get(&res, "revenue").and_then(|r| get(r, "avg"));
    assert_eq!(avg, Some(&Value::Int(506)));

    let res = rh
        .flow_value(&people("\u{52a0}\u{62ff}\u{5927}", "\u{591a}\u{4f26}\u{591a}", -10, 1002))
        .unwrap();
    assert_eq!(get(&res, "message"), None);
    assert_eq!(get(&res, "revenue"), None);

    let res = rh
        .flow_value(&people("\u{5927}\u{62ff}\u{52a0}", "\u{6e29}\u{54e5}\u{534e}", -10, 1002))
        .unwrap();
    assert_eq!(get(&res, "message"), None);

    let res = rh
        .flow_value(&people("\u{52a0}\u{62ff}\u{5927}", "\u{591a}\u{4f26}\u{591a}", -100, 1002))
        .unwrap();
    assert_eq!(get(&res, "message"), None);
}

#[test]
fn rush_test_simple() {
    let rh = Rush::new(StdFunctions::new());
    let result = rh.flow_value(&obj(vec![("name", s("hello world"))])).expect("input failed");
    println!("result ---> {result:?}");
    assert_eq!(result, Value::Object(vec![]));
}

#[test]
fn test_expr_engine_from() {
    let rule1 = "rule rule1 \u{7b2c}\u{4e00}\u{6761}\u{89c4}\u{5219}\
        when
            a > b || d < c;
            tag == '\u{4fbf}\u{7b7e}1';
        then
            data.code = 0
        ";

    let rule2 = "rule rule2 \u{7b2c}\u{4e8c}\u{6761}\u{89c4}\u{5219}\
        when
            tag == '\u{4fbf}\u{7b7e}2'
        then
            data.message = 'success';
            data.total = len(request.list);
        ";

    let mut ee = ExprEngine::new();
    ee.register_rule(rule1).unwrap();
    ee.register_rule(rule2).unwrap();
    for (name, cs, a) in ee.into_rules() {
        println!("---> rule {}", name);
        println!("when");
        for i in cs {
            println!("    {}", i.to_string());
        }
        println!("then");
        println!("    {:?}", a);
        println!("<--- over");
    }
}
