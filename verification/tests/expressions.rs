use baux2::expr::{
    evaluate_alone, evaluate_expression, evaluate_operand, evaluate_operator, known_operand,
    read_number, Pause,
};
use baux2::{Environment, Operator, Reply, Request, Value};

const ONE: u64 = 0x3FF0_0000_0000_0000;

fn chars(text: &str) -> Vec<char> {
    text.chars().collect()
}

#[test]
fn one_and_zero_are_the_bits_of_the_floats() {
    assert_eq!(baux2::value::ONE, 1.0f64.to_bits());
    assert_eq!(baux2::value::ZERO, 0.0f64.to_bits());
}

#[test]
fn truth_literal_counts_as_one_or_zero() {
    let variables = Environment::new();
    assert_eq!(evaluate_operand(&chars("FLUFFY"), &variables, &vec![], 0), Ok((ONE, 0)));
    assert_eq!(evaluate_operand(&chars("FUZZY"), &variables, &vec![], 0), Ok((0, 0)));
}

#[test]
fn literal_comes_before_a_variable_of_its_name() {
    let mut variables = Environment::new();
    variables.insert("FLUFFY", Value::Num(5.0f64.to_bits()));
    assert_eq!(evaluate_operand(&chars("FLUFFY"), &variables, &vec![], 0), Ok((ONE, 0)));
}

#[test]
fn variable_operand_gives_its_number() {
    let mut variables = Environment::new();
    variables.insert("n", Value::Num(42));
    variables.insert("t", Value::Bool(true));
    variables.insert("f", Value::Bool(false));
    variables.insert("s", Value::Str("text".to_string()));
    assert_eq!(evaluate_operand(&chars("n"), &variables, &vec![], 0), Ok((42, 0)));
    assert_eq!(evaluate_operand(&chars("t"), &variables, &vec![], 3), Ok((ONE, 3)));
    assert_eq!(evaluate_operand(&chars("f"), &variables, &vec![], 0), Ok((0, 0)));
    assert_eq!(
        evaluate_operand(&chars("s"), &variables, &vec![], 0),
        Err(Pause::Fail("[ERROR: InvalidValue]: Variable not found or invalid type".to_string()))
    );
}

#[test]
fn other_operand_is_for_the_host_to_read() {
    let variables = Environment::new();
    assert_eq!(
        evaluate_operand(&chars("12"), &variables, &vec![], 0),
        Err(Pause::Ask(Request::Parse("12".to_string())))
    );
    assert_eq!(evaluate_operand(&chars("12"), &variables, &vec![Reply::Number(7)], 0), Ok((7, 1)));
    assert_eq!(
        evaluate_operand(&chars("12"), &variables, &vec![Reply::Number(7)], 1),
        Err(Pause::Ask(Request::Parse("12".to_string())))
    );
    assert_eq!(
        evaluate_operand(&chars("x"), &variables, &vec![Reply::Invalid], 0),
        Err(Pause::Fail("[ERROR: InvalidValue]: 'x' is an invalid number".to_string()))
    );
}

#[test]
fn operator_result_is_a_number_or_a_truth_value() {
    assert_eq!(
        evaluate_operator(Operator::Add, 1, 2, &vec![], 0),
        Err(Pause::Ask(Request::Binary(Operator::Add, 1, 2)))
    );
    assert_eq!(evaluate_operator(Operator::Add, 1, 2, &vec![Reply::Number(3)], 0), Ok(Value::Num(3)));
    assert_eq!(
        evaluate_operator(Operator::Less, 1, 2, &vec![Reply::Truth(true)], 0),
        Ok(Value::Bool(true))
    );
    let failed = Err(Pause::Fail("[ERROR: InvalidValue]: The operation has no result".to_string()));
    assert_eq!(evaluate_operator(Operator::Add, 1, 2, &vec![Reply::Truth(true)], 0), failed);
    assert_eq!(evaluate_operator(Operator::Less, 1, 2, &vec![Reply::Number(3)], 0), failed);
    assert_eq!(evaluate_operator(Operator::Mul, 1, 2, &vec![Reply::Invalid], 0), failed);
}

#[test]
fn every_comparison_compares() {
    for op in [Operator::Add, Operator::Sub, Operator::Mul, Operator::Div, Operator::Rem] {
        assert!(!op.is_comparison());
    }
    for op in [
        Operator::Equal,
        Operator::Unequal,
        Operator::Greater,
        Operator::Less,
        Operator::AtLeast,
        Operator::AtMost,
    ] {
        assert!(op.is_comparison());
    }
}

#[test]
fn expression_asks_for_its_parts_from_left_to_right() {
    let variables = Environment::new();
    let text = chars(" 2 *  3 ");
    assert_eq!(
        evaluate_expression(&text, &variables, &vec![]),
        Err(Pause::Ask(Request::Parse("2".to_string())))
    );
    assert_eq!(
        evaluate_expression(&text, &variables, &vec![Reply::Number(20)]),
        Err(Pause::Ask(Request::Parse("3".to_string())))
    );
    assert_eq!(
        evaluate_expression(&text, &variables, &vec![Reply::Number(20), Reply::Number(30)]),
        Err(Pause::Ask(Request::Binary(Operator::Mul, 20, 30)))
    );
    assert_eq!(
        evaluate_expression(&text, &variables, &vec![Reply::Number(20), Reply::Number(30), Reply::Number(60)]),
        Ok(Value::Num(60))
    );
}

#[test]
fn every_operator_is_read() {
    let mut variables = Environment::new();
    variables.insert("a", Value::Num(1));
    variables.insert("b", Value::Num(2));
    let cases = [
        ("+", Operator::Add),
        ("-", Operator::Sub),
        ("*", Operator::Mul),
        ("/", Operator::Div),
        ("%", Operator::Rem),
        ("==", Operator::Equal),
        ("!=", Operator::Unequal),
        (">", Operator::Greater),
        ("<", Operator::Less),
        (">=", Operator::AtLeast),
        ("<=", Operator::AtMost),
    ];
    for (sign, operator) in cases {
        let text = chars(&format!("a {} b", sign));
        assert_eq!(
            evaluate_expression(&text, &variables, &vec![]),
            Err(Pause::Ask(Request::Binary(operator, 1, 2)))
        );
    }
}

#[test]
fn operands_fail_before_the_operator_does() {
    let variables = Environment::new();
    assert_eq!(
        evaluate_expression(&chars("x ^ 2"), &variables, &vec![Reply::Invalid]),
        Err(Pause::Fail("[ERROR: InvalidValue]: 'x' is an invalid number".to_string()))
    );
    assert_eq!(
        evaluate_expression(&chars("1 ^ 2"), &variables, &vec![Reply::Number(1), Reply::Number(2)]),
        Err(Pause::Fail("[ERROR: InvalidOperator]: Operator is not supported".to_string()))
    );
}

#[test]
fn expression_of_two_or_four_parts_fails() {
    let variables = Environment::new();
    let failed =
        Err(Pause::Fail("[ERROR: InvalidExpression]: Expecting 'value operator value'".to_string()));
    assert_eq!(evaluate_expression(&chars("1 +"), &variables, &vec![]), failed);
    assert_eq!(evaluate_expression(&chars("1 + 2 3"), &variables, &vec![]), failed);
    assert_eq!(evaluate_expression(&chars(""), &variables, &vec![]), failed);
}

#[test]
fn single_operand_is_its_own_value() {
    let mut variables = Environment::new();
    variables.insert("n", Value::Num(9));
    assert_eq!(evaluate_expression(&chars("n"), &variables, &vec![]), Ok(Value::Num(9)));
    assert_eq!(evaluate_expression(&chars("FLUFFY"), &variables, &vec![]), Ok(Value::Num(ONE)));
    assert_eq!(evaluate_expression(&chars("4"), &variables, &vec![Reply::Number(4)]), Ok(Value::Num(4)));
}

#[test]
fn lone_operand_has_a_message_of_its_own() {
    let mut variables = Environment::new();
    variables.insert("s", Value::Str("text".to_string()));
    assert_eq!(
        evaluate_expression(&chars("abc"), &variables, &vec![]),
        Err(Pause::Ask(Request::Parse("abc".to_string())))
    );
    assert_eq!(
        evaluate_expression(&chars("abc"), &variables, &vec![Reply::Invalid]),
        Err(Pause::Fail("[ERROR: InvalidValue]: Invalid number/expression".to_string()))
    );
    assert_eq!(
        evaluate_alone(&chars("abc"), &variables, &vec![Reply::Invalid]),
        Err(Pause::Fail("[ERROR: InvalidValue]: Invalid number/expression".to_string()))
    );
    assert_eq!(evaluate_alone(&chars("7"), &variables, &vec![Reply::Number(7)]), Ok(7));
    assert_eq!(
        evaluate_expression(&chars("s"), &variables, &vec![]),
        Err(Pause::Fail("[ERROR: InvalidValue]: Variable not found or invalid type".to_string()))
    );
}

#[test]
fn operand_is_known_without_the_host_or_left_to_it() {
    let mut variables = Environment::new();
    variables.insert("n", Value::Num(9));
    variables.insert("s", Value::Str("text".to_string()));
    assert_eq!(known_operand(&chars("n"), &variables), Some(Ok(9)));
    assert_eq!(known_operand(&chars("FLUFFY"), &variables), Some(Ok(ONE)));
    assert_eq!(
        known_operand(&chars("s"), &variables),
        Some(Err(Pause::Fail(
            "[ERROR: InvalidValue]: Variable not found or invalid type".to_string()
        )))
    );
    assert_eq!(known_operand(&chars("12"), &variables), None);
}

#[test]
fn number_is_taken_from_the_reply_at_its_place() {
    let replies = vec![Reply::Number(4), Reply::Invalid];
    assert_eq!(read_number(&chars("12"), &replies, 0), Ok((4, 1)));
    assert_eq!(read_number(&chars("12"), &replies, 1), Err(None));
    assert_eq!(
        read_number(&chars("12"), &replies, 2),
        Err(Some(Request::Parse("12".to_string())))
    );
}
