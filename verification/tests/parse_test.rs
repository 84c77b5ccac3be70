use rush::calc::Calc;
use rush::calc::Opt;
use rush::calc_builder::CalcBuilder;
use rush::error::ParseError;

#[test]
fn test_parse_remove_annotation() {
    let data = "/*start*/he/*\n*/llo /**/wo/**/rld/* *//*end*/".to_string();
    let s = Calc::parse_remove_annotation(data).unwrap();
    assert_eq!(s, "hello world");
}

#[test]
#[should_panic]
fn test_parse_remove_annotation_error() {
    let data = "/*/".to_string();
    Calc::parse_remove_annotation(data).unwrap();
}

#[test]
fn test_parse_split() {
    let data = "/*\u{6ce8}\u{91ca}1*/ a+b/*\u{6ce8}\u{91ca}2*/> c ||\
         b &/*\u{6ce8}\u{91ca}3*/& c > ab * ( strlen( a ,b , c) ) /*\u{6ce8}\u{91ca}4*/ \n\
         || (\"asdd\" > 10 < a * 0.12) || s < [1,2,3]";
    let deq = Calc::expression_split(data.to_string()).unwrap();
    println!("test expression --> {data}");
    let mut shown = String::from("split result -->");
    for i in deq.iter() {
        shown += format!("_{}_", i.to_string()).as_str();
    }
    println!("{shown} <--- over")
}

#[test]
fn test_expression_parse() {
    let expr =
        "a > b || c <= d || eft > strlen(\"hello\",\"world\",2) || true || ~x >> y > -z || (n && m < n*m) || in(a,[1>2,3,\"123\"])";
    let calc = Calc::expression_parse(expr.to_string()).unwrap();
    println!("--->{}", calc.to_string());
}

#[test]
fn test_expression_simple() {
    let expr = "age > 18 && native_place == \"\u{4e2d}\u{56fd}\"";
    let calc = Calc::expression_parse(expr.to_string()).unwrap();
    println!("--->{}", calc.to_string());
}

#[test]
fn test_calc_parse() {
    let calc = CalcBuilder::new("a > b || c < d").build().unwrap();
    println!("---> {}", calc.to_string());
}

#[test]
fn test_calc_show() {
    let calc = Calc::Operator(
        Opt::GE,
        vec![
            Calc::Number(32),
            Calc::Function("str_len".to_string(), vec![Calc::String("hello world".to_string())]),
        ],
    );
    println!("result ===> {}", calc.to_string());
}

#[test]
fn law_parse_integer() {
    let calc = CalcBuilder::new("1").build().unwrap();
    assert_eq!(calc, Calc::Number(1));
}

#[test]
fn law_logical_binds_looser_than_relational() {
    let calc = CalcBuilder::new("a > b || c < d").build().unwrap();
    let expected = Calc::Operator(
        Opt::OT,
        vec![
            Calc::Operator(
                Opt::GT,
                vec![Calc::Field("a".to_string()), Calc::Field("b".to_string())],
            ),
            Calc::Operator(
                Opt::LT,
                vec![Calc::Field("c".to_string()), Calc::Field("d".to_string())],
            ),
        ],
    );
    assert_eq!(calc, expected);
}

#[test]
fn law_same_class_groups_left_to_right() {
    let calc = CalcBuilder::new("a > b > c").build().unwrap();
    let expected = Calc::Operator(
        Opt::GT,
        vec![
            Calc::Operator(
                Opt::GT,
                vec![Calc::Field("a".to_string()), Calc::Field("b".to_string())],
            ),
            Calc::Field("c".to_string()),
        ],
    );
    assert_eq!(calc, expected);
}

#[test]
fn strict_comment_stripping_builds() {
    let calc = CalcBuilder::new("a &/*note*/& b")
        .disable_fast_parse_annotation()
        .build()
        .unwrap();
    let expected = Calc::Operator(
        Opt::AT,
        vec![Calc::Field("a".to_string()), Calc::Field("b".to_string())],
    );
    assert_eq!(calc, expected);
}

#[test]
fn lex_errors_are_refused() {
    assert!(matches!(
        Calc::expression_parse("\"abc".to_string()),
        Err(ParseError::UnterminatedString)
    ));
    assert!(matches!(
        Calc::expression_parse("_hidden".to_string()),
        Err(ParseError::ReservedUnderscore)
    ));
    assert!(matches!(Calc::expression_parse("a ? b".to_string()), Err(ParseError::UnknownChar)));
    assert!(matches!(
        Calc::expression_parse("99999999999999999999".to_string()),
        Err(ParseError::BadNumber)
    ));
    assert!(matches!(Calc::expression_parse("/* a".to_string()), Err(ParseError::CommentMismatch)));
}

#[test]
fn parse_errors_are_refused() {
    assert!(matches!(Calc::expression_parse("".to_string()), Err(ParseError::EmptyExpression)));
    assert!(matches!(
        Calc::expression_parse("* 2".to_string()),
        Err(ParseError::MissingLeftOperand)
    ));
    assert!(matches!(Calc::expression_parse("( a".to_string()), Err(ParseError::BracketMismatch)));
    assert!(matches!(Calc::expression_parse(") a".to_string()), Err(ParseError::BracketMismatch)));
    assert!(matches!(Calc::expression_parse("{ }".to_string()), Err(ParseError::ReservedBrace)));
    assert!(matches!(Calc::expression_parse("a , b".to_string()), Err(ParseError::StrayComma)));
    assert!(matches!(
        Calc::expression_parse("1 f(2)".to_string()),
        Err(ParseError::DanglingValue)
    ));
}

#[test]
fn float_literal_renders_two_decimals() {
    let calc = CalcBuilder::new("3.1").build().unwrap();
    assert_eq!(calc.to_string(), "3.10");
}

#[test]
fn test_calc_simple() {
    let expr = "age > 18 || native_place == \"\u{4e2d}\u{56fd}\"";
    let calc = Calc::expression_parse(expr.to_string()).unwrap();
    println!("calc--->{}", calc.to_string());
    let input = rush::value::Value::Object(vec![
        ("age".to_string(), rush::value::Value::Int(19)),
        ("native_place".to_string(), rush::value::Value::Str("japan".to_string())),
    ]);
    let fs = rush::std_tool::StdFunctions::new();
    let result = calc.when(&fs, &input).expect("when error===>");
    println!("result ---> {result}");
    assert!(result);
}

#[test]
fn rendering_is_exact() {
    let calc = Calc::Operator(
        Opt::GE,
        vec![
            Calc::Number(32),
            Calc::Function("str_len".to_string(), vec![Calc::String("hello world".to_string())]),
        ],
    );
    assert_eq!(calc.to_string(), "(32 >= str_len(\"hello world\"))");
    assert_eq!(Calc::Number(-120).to_string(), "-120");
    assert_eq!(Calc::Number(0).to_string(), "0");
    let calc = CalcBuilder::new("a > b || c < d").build().unwrap();
    assert_eq!(calc.to_string(), "((a > b) || (c < d))");
    let calc = CalcBuilder::new("[1,true,null]").build().unwrap();
    assert_eq!(calc.to_string(), "[1,true,null]");
    let calc = CalcBuilder::new("!x").build().unwrap();
    assert_eq!(calc.to_string(), "(! x)");
}
