use baux2::{run_interpreter, Environment, Machine, Operator, Reply, Request, Value};

fn number(n: f64) -> Value {
    Value::Num(n.to_bits())
}

fn perform(request: &Request) -> Reply {
    match request {
        Request::Done => Reply::Invalid,
        Request::Parse(text) => match text.parse::<f64>() {
            Ok(n) => Reply::Number(n.to_bits()),
            Err(_) => Reply::Invalid,
        },
        Request::Binary(op, left, right) => {
            let a = f64::from_bits(*left);
            let b = f64::from_bits(*right);
            match op {
                Operator::Add => Reply::Number((a + b).to_bits()),
                Operator::Sub => Reply::Number((a - b).to_bits()),
                Operator::Mul => Reply::Number((a * b).to_bits()),
                Operator::Div => Reply::Number((a / b).to_bits()),
                Operator::Rem => Reply::Number((a % b).to_bits()),
                Operator::Equal => Reply::Truth((a - b).abs() < f64::EPSILON),
                Operator::Unequal => Reply::Truth((a - b).abs() >= f64::EPSILON),
                Operator::Greater => Reply::Truth(a > b),
                Operator::Less => Reply::Truth(a < b),
                Operator::AtLeast => Reply::Truth(a >= b),
                Operator::AtMost => Reply::Truth(a <= b),
            }
        }
        Request::Render(bits) => Reply::Text(format!("{}", f64::from_bits(*bits))),
        Request::Truncate(bits) => Reply::Integer(f64::from_bits(*bits) as i64),
        Request::Widen(n) => Reply::Number((*n as f64).to_bits()),
    }
}

fn run(code: &str, variables: &mut Environment, output: &mut String) {
    let mut machine = Machine::new(code);
    loop {
        let request = run_interpreter(&mut machine, variables, output);
        if request == Request::Done {
            break;
        }
        assert!(machine.answer(perform(&request)));
    }
}

fn output_of(code: &str) -> String {
    let mut variables = Environment::new();
    let mut output = String::new();
    run(code, &mut variables, &mut output);
    output
}

#[test]
fn declared_number_is_printed_on_one_line() {
    assert_eq!(output_of("WA MOE n = 3\nBAU n"), "3\n");
}

#[test]
fn declared_number_is_bound() {
    let mut variables = Environment::new();
    let mut output = String::new();
    run("WA MOE n = 2.5", &mut variables, &mut output);
    assert_eq!(variables.get("n"), Some(number(2.5)));
    assert_eq!(output, "");
}

#[test]
fn true_literal_prints_true() {
    assert_eq!(output_of("WA BAULEAN b = FLUFFY\nBAU b"), "true\n");
}

#[test]
fn false_literal_prints_false() {
    assert_eq!(output_of("WA BAULEAN b = FUZZY\nBAU b"), "false\n");
}

#[test]
fn text_is_declared_and_printed() {
    assert_eq!(output_of("WA KIRA s = \"Bau Bau World!\"\nBAU s"), "Bau Bau World!\n");
}

#[test]
fn quoted_string_is_printed_without_quotes() {
    assert_eq!(output_of("BAU \"Bau Bau World!\""), "Bau Bau World!\n");
}

#[test]
fn text_variable_rejects_a_number() {
    let mut variables = Environment::new();
    let mut output = String::new();
    run("WA KIRA s = \"hi\"\nCO s = 5\nBAU s", &mut variables, &mut output);
    assert_eq!(output, "[ERROR: IncompatibleType]: CO requires matching type (KIRA)\nhi\n");
    assert_eq!(variables.get("s"), Some(Value::Str("hi".to_string())));
}

#[test]
fn truth_variable_rejects_a_number() {
    let mut variables = Environment::new();
    let mut output = String::new();
    run("WA BAULEAN b = FLUFFY\nCO b = 5", &mut variables, &mut output);
    assert_eq!(output, "[ERROR: IncompatibleType]: CO requires matching type (BAULEAN)\n");
    assert_eq!(variables.get("b"), Some(Value::Bool(true)));
}

#[test]
fn number_variable_rejects_text() {
    let mut variables = Environment::new();
    let mut output = String::new();
    run("WA MOE n = 1\nCO n = \"one\"", &mut variables, &mut output);
    assert_eq!(output, "[ERROR: IncompatibleType]: CO requires matching type (MOE)\n");
    assert_eq!(variables.get("n"), Some(number(1.0)));
}

#[test]
fn reassignment_keeps_the_type() {
    let mut variables = Environment::new();
    let mut output = String::new();
    run(
        "WA MOE n = 1\nCO n = 7\nWA KIRA s = \"a\"\nCO s = \"b\"\nWA BAULEAN t = FUZZY\nCO t = FLUFFY",
        &mut variables,
        &mut output,
    );
    assert_eq!(output, "");
    assert_eq!(variables.get("n"), Some(number(7.0)));
    assert_eq!(variables.get("s"), Some(Value::Str("b".to_string())));
    assert_eq!(variables.get("t"), Some(Value::Bool(true)));
}

#[test]
fn reassignment_of_an_unbound_name_fails() {
    let mut variables = Environment::new();
    let mut output = String::new();
    run("CO ghost = 1", &mut variables, &mut output);
    assert_eq!(output, "[ERROR: VanishValue]: Variable could not be found in scope: ghost\n");
    assert!(!variables.contains("ghost"));
}

#[test]
fn variables_are_copied_by_declaration() {
    let mut variables = Environment::new();
    let mut output = String::new();
    run(
        "WA MOE n = 4\nWA MOE m = n\nWA KIRA s = \"x\"\nWA KIRA t = s\nWA BAULEAN a = FLUFFY\nWA BAULEAN b = a",
        &mut variables,
        &mut output,
    );
    assert_eq!(output, "");
    assert_eq!(variables.get("m"), Some(number(4.0)));
    assert_eq!(variables.get("t"), Some(Value::Str("x".to_string())));
    assert_eq!(variables.get("b"), Some(Value::Bool(true)));
}

#[test]
fn first_branch_runs_alone_when_all_conditions_hold() {
    let code = "FUWA FLUFFY BAU \"a\" FUWAMOCO FLUFFY BAU \"b\" MOCO BAU \"c\"";
    assert_eq!(output_of(code), "a\n");
}

#[test]
fn second_branch_runs_when_the_first_condition_fails() {
    let code = "FUWA FUZZY BAU \"a\" FUWAMOCO FLUFFY BAU \"b\" MOCO BAU \"c\"";
    assert_eq!(output_of(code), "b\n");
}

#[test]
fn last_branch_runs_when_no_condition_holds() {
    let code = "FUWA FUZZY BAU \"a\" FUWAMOCO FUZZY BAU \"b\" MOCO BAU \"c\"";
    assert_eq!(output_of(code), "c\n");
}

#[test]
fn first_branch_runs_when_only_its_condition_holds() {
    let code = "FUWA FLUFFY BAU \"a\" FUWAMOCO FUZZY BAU \"b\" MOCO BAU \"c\"";
    assert_eq!(output_of(code), "a\n");
}

#[test]
fn condition_may_be_a_variable_or_a_comparison() {
    let code = "WA BAULEAN t = FLUFFY\nWA MOE n = 3\nFUWA t BAU \"yes\"\nFUWA <n == 3> BAU \"three\"\nFUWA <n != 3> BAU \"other\"";
    assert_eq!(output_of(code), "yes\nthree\n");
}

#[test]
fn only_the_innermost_condition_gates() {
    let code = "FUWA FUZZY BAU \"outer\" FUWA FLUFFY BAU \"inner\"";
    assert_eq!(output_of(code), "inner\n");
}

#[test]
fn condition_that_is_no_truth_value_counts_as_false() {
    let code = "WA MOE n = 1\nFUWA n BAU \"a\" MOCO BAU \"b\"";
    assert_eq!(
        output_of(code),
        "[ERROR: IncompatibleType]: A condition requires a BAULEAN value\nb\n"
    );
}

#[test]
fn closing_a_class_drops_all_conditions() {
    let code = "FUWA FUZZY BAU \"a\" PEROPERO BAU \"b\"";
    assert_eq!(output_of(code), "b\n");
}

#[test]
fn loop_prints_each_number_of_its_range() {
    assert_eq!(output_of("PONDE i 1..3 { BAU i }"), "1\n2\n3\n");
}

#[test]
fn reversed_range_runs_no_pass() {
    let mut variables = Environment::new();
    let mut output = String::new();
    run("PONDE i 5..1 { BAU i }\nBAU \"after\"", &mut variables, &mut output);
    assert_eq!(output, "after\n");
    assert!(!variables.contains("i"));
}

#[test]
fn loop_over_one_number_runs_once() {
    assert_eq!(output_of("PONDE i 2..2 { BAU i }"), "2\n");
}

#[test]
fn loop_bounds_are_cut_to_integers() {
    assert_eq!(output_of("PONDE i 1.7..3.2 { BAU i }"), "1\n2\n3\n");
}

#[test]
fn loop_variable_stays_bound_after_the_loop() {
    let mut variables = Environment::new();
    let mut output = String::new();
    run("PONDE i 1..3 { }", &mut variables, &mut output);
    assert_eq!(variables.get("i"), Some(number(3.0)));
}

#[test]
fn counter_stands_for_the_pass_in_a_loop_body() {
    let code = "PONDE i 1..3 { WA MOE sq = <counter * counter> BAU sq }";
    assert_eq!(output_of(code), "1\n4\n9\n");
}

#[test]
fn loop_body_reads_and_writes_outer_variables() {
    let code = "WA MOE sum = 0\nPONDE i 1..4 { CO sum = <sum + i> }\nBAU sum";
    assert_eq!(output_of(code), "10\n");
}

#[test]
fn loop_without_closing_brace_runs_no_pass() {
    assert_eq!(
        output_of("PONDE i 1..3 { BAU i"),
        "[ERROR: Syntax]: Could not find closing '}' for loop\n"
    );
}

#[test]
fn loop_without_opening_brace_fails() {
    assert_eq!(
        output_of("PONDE i 1..3 BAU i } BAU \"after\""),
        "[ERROR: Syntax]: Expected '{' to begin the loop\nafter\n"
    );
}

#[test]
fn loop_with_a_bad_range_fails() {
    assert_eq!(
        output_of("PONDE i 13 { BAU i } BAU \"after\""),
        "[ERROR: Syntax]: Invalid range. Expected 'startInt..endInt'\nafter\n"
    );
    assert_eq!(
        output_of("PONDE i 1..2..3 { BAU i }"),
        "[ERROR: Syntax]: Invalid range. Expected 'startInt..endInt'\n"
    );
    assert_eq!(
        output_of("PONDE i a..3 { BAU i }"),
        "[ERROR: InvalidRange]: Start value must be an integer\n"
    );
    assert_eq!(
        output_of("PONDE i 1..b { BAU i }"),
        "[ERROR: InvalidRange]: End value must be an integer\n"
    );
}

#[test]
fn loop_in_a_loop_is_refused() {
    assert_eq!(
        output_of("PONDE i 1..2 { PONDE j 1..2 { BAU j } }"),
        "[ERROR: Syntax]: A loop cannot stand inside a loop\n[ERROR: Syntax]: A loop cannot stand inside a loop\n[ERROR: UnknownToken]: Unknown token: }\n"
    );
}

#[test]
fn skipped_loop_runs_no_pass() {
    assert_eq!(output_of("FUWA FUZZY PONDE i 1..3 { BAU i } MOCO BAU \"b\""), "b\n");
}

#[test]
fn unbound_variable_is_reported_and_the_run_goes_on() {
    assert_eq!(
        output_of("BAU ghost\nBAU \"after\""),
        "[ERROR: VanishValue]: Variable couldn't be found: ghost\nafter\n"
    );
}

#[test]
fn bindings_persist_from_one_run_to_the_next() {
    let mut variables = Environment::new();
    let mut output = String::new();
    run("WA MOE n = 3", &mut variables, &mut output);
    output.clear();
    run("BAU n", &mut variables, &mut output);
    assert_eq!(output, "3\n");
}

#[test]
fn output_is_appended_to_what_the_buffer_holds() {
    let mut variables = Environment::new();
    let mut output = String::from("before\n");
    run("BAU \"x\"", &mut variables, &mut output);
    assert_eq!(output, "before\nx\n");
}

#[test]
fn arithmetic_gives_numbers() {
    assert_eq!(output_of("WA MOE x = <1 + 2>\nBAU x"), "3\n");
    assert_eq!(output_of("WA MOE x = <7 - 10>\nBAU x"), "-3\n");
    assert_eq!(output_of("WA MOE x = <3 * 2.5>\nBAU x"), "7.5\n");
    assert_eq!(output_of("WA MOE x = <1 / 4>\nBAU x"), "0.25\n");
    assert_eq!(output_of("WA MOE x = <7 % 4>\nBAU x"), "3\n");
    assert_eq!(output_of("WA MOE x = <1 / 0>\nBAU x"), "inf\n");
}

#[test]
fn operands_may_be_variables_and_truth_values() {
    assert_eq!(output_of("WA MOE n = 4\nWA MOE x = <n * n>\nBAU x"), "16\n");
    assert_eq!(output_of("WA MOE x = <FLUFFY + FLUFFY>\nBAU x"), "2\n");
    assert_eq!(output_of("WA MOE x = <FUZZY + 1>\nBAU x"), "1\n");
    assert_eq!(output_of("WA BAULEAN t = FLUFFY\nWA MOE x = <t + 1>\nBAU x"), "2\n");
}

#[test]
fn single_operand_passes_through() {
    assert_eq!(output_of("WA MOE x = <5>\nBAU x"), "5\n");
    assert_eq!(output_of("WA MOE n = 4\nWA MOE x = <n>\nBAU x"), "4\n");
}

#[test]
fn malformed_expressions_fail() {
    assert_eq!(
        output_of("WA MOE x = <1 +>"),
        "[ERROR: InvalidExpression]: Expecting 'value operator value'\n"
    );
    assert_eq!(
        output_of("WA MOE x = <1 + 2 + 3>"),
        "[ERROR: InvalidExpression]: Expecting 'value operator value'\n"
    );
    assert_eq!(
        output_of("WA MOE x = <1 ^ 2>"),
        "[ERROR: InvalidOperator]: Operator is not supported\n"
    );
    assert_eq!(
        output_of("WA MOE x = <one + 2>"),
        "[ERROR: InvalidValue]: 'one' is an invalid number\n"
    );
    assert_eq!(
        output_of("WA KIRA s = \"a\"\nWA MOE x = <s + 2>"),
        "[ERROR: InvalidValue]: Variable not found or invalid type\n"
    );
    assert_eq!(
        output_of("WA MOE x = <1 == 1>"),
        "[ERROR: InvalidOperator]: Operator is not supported\n"
    );
}

#[test]
fn mismatched_initializers_fail() {
    assert_eq!(
        output_of("WA KIRA s = 5"),
        "[ERROR: IncompatibleType]: KIRA does not support a nonstring\n"
    );
    assert_eq!(
        output_of("WA BAULEAN b = 5"),
        "[ERROR: IncompatibleType]: BAULEAN requires FLUFFY/FUZZY or a declared BAULEAN-type variable\n"
    );
    assert_eq!(
        output_of("WA MOE n = five"),
        "[ERROR: InvalidValue]: Invalid number/arithmetic expression\n"
    );
    assert_eq!(output_of("WA INU n = 5"), "[ERROR: UnknownType]: Unknown type: INU\n");
}

#[test]
fn missing_sign_fails() {
    assert_eq!(
        output_of("WA MOE n is 5 BAU \"after\""),
        "[ERROR: Syntax]: Expected '=' after variable name\nafter\n"
    );
    assert_eq!(
        output_of("WA MOE n = 1 CO n to 5 BAU n"),
        "[ERROR: Syntax]: Expected '=' in a reassignment\n1\n"
    );
}

#[test]
fn names_that_no_variable_can_have_are_refused() {
    assert_eq!(
        output_of("WA MOE FLUFFY = 5"),
        "[ERROR: InvalidTarget]: Cannot assign to: FLUFFY\n"
    );
    assert_eq!(
        output_of("WA MOE \"n\" = 5"),
        "[ERROR: InvalidTarget]: Cannot assign to: \"n\"\n"
    );
}

#[test]
fn statement_cut_short_by_the_end_is_reported() {
    assert_eq!(output_of("WA MOE n ="), "[ERROR: Incomplete]: Statement is not complete: WA\n");
    assert_eq!(output_of("BAU"), "[ERROR: Incomplete]: Statement is not complete: BAU\n");
    assert_eq!(output_of("CO n"), "[ERROR: Incomplete]: Statement is not complete: CO\n");
    assert_eq!(output_of("FUWA"), "[ERROR: Incomplete]: Statement is not complete: FUWA\n");
    assert_eq!(output_of("PONDE i"), "[ERROR: Incomplete]: Statement is not complete: PONDE\n");
}

#[test]
fn unknown_token_is_reported_and_passed_over() {
    assert_eq!(
        output_of("WOOF BAU \"after\""),
        "[ERROR: UnknownToken]: Unknown token: WOOF\nafter\n"
    );
}

#[test]
fn unknown_token_in_a_closed_branch_is_silent() {
    assert_eq!(output_of("FUWA FUZZY WOOF"), "");
}

#[test]
fn end_statement_stops_the_run() {
    assert_eq!(output_of("BAU \"a\" BAUBAU BAU \"b\""), "a\n[END]: Program terminated\n");
}

#[test]
fn end_statement_in_a_closed_branch_is_skipped() {
    assert_eq!(output_of("FUWA FUZZY BAUBAU MOCO BAU \"b\""), "b\n");
}

#[test]
fn end_statement_stops_a_loop() {
    assert_eq!(
        output_of("PONDE i 1..3 { BAU i BAUBAU } BAU \"after\""),
        "1\n[END]: Program terminated\n"
    );
}

#[test]
fn classes_are_announced_only_behind_the_flag() {
    assert_eq!(
        output_of("CHIHUAHUA PERO Dog BAU \"in\" PEROPERO"),
        "[CLASS]: Dog\nin\n[CLASS]: end\n"
    );
    assert_eq!(output_of("PERO Dog BAU \"in\" PEROPERO"), "in\n");
}

#[test]
fn comments_are_passed_over() {
    assert_eq!(output_of("; a comment\nBAU \"x\" ; another\nBAU \"y\""), "x\ny\n");
}

#[test]
fn empty_program_is_done_at_once() {
    let mut machine = Machine::new("");
    let mut variables = Environment::new();
    let mut output = String::new();
    assert_eq!(run_interpreter(&mut machine, &mut variables, &mut output), Request::Done);
    assert_eq!(run_interpreter(&mut machine, &mut variables, &mut output), Request::Done);
    assert_eq!(output, "");
}

#[test]
fn machine_asks_for_a_number_to_be_read() {
    let mut machine = Machine::new("WA MOE n = 3");
    let mut variables = Environment::new();
    let mut output = String::new();
    let request = run_interpreter(&mut machine, &mut variables, &mut output);
    assert_eq!(request, Request::Parse("3".to_string()));
    assert!(machine.is_waiting());
    assert_eq!(run_interpreter(&mut machine, &mut variables, &mut output), request);
    assert!(machine.answer(Reply::Number(3.0f64.to_bits())));
    assert!(!machine.answer(Reply::Number(4.0f64.to_bits())));
    assert_eq!(run_interpreter(&mut machine, &mut variables, &mut output), Request::Done);
    assert_eq!(variables.get("n"), Some(number(3.0)));
}

#[test]
fn machine_asks_for_each_part_of_an_expression_in_turn() {
    let mut machine = Machine::new("WA MOE n = <2 * 3>");
    let mut variables = Environment::new();
    let mut output = String::new();
    let two = 2.0f64.to_bits();
    let three = 3.0f64.to_bits();
    assert_eq!(
        run_interpreter(&mut machine, &mut variables, &mut output),
        Request::Parse("2".to_string())
    );
    machine.answer(Reply::Number(two));
    assert_eq!(
        run_interpreter(&mut machine, &mut variables, &mut output),
        Request::Parse("3".to_string())
    );
    machine.answer(Reply::Number(three));
    assert_eq!(
        run_interpreter(&mut machine, &mut variables, &mut output),
        Request::Binary(Operator::Mul, two, three)
    );
    machine.answer(Reply::Number(6.0f64.to_bits()));
    assert_eq!(run_interpreter(&mut machine, &mut variables, &mut output), Request::Done);
    assert_eq!(variables.get("n"), Some(number(6.0)));
}

#[test]
fn request_that_the_host_does_not_meet_is_reported() {
    let mut machine = Machine::new("WA MOE n = 3 BAU n BAU \"after\"");
    let mut variables = Environment::new();
    variables.insert("n", number(1.0));
    let mut output = String::new();
    loop {
        match run_interpreter(&mut machine, &mut variables, &mut output) {
            Request::Done => break,
            Request::Parse(_) => machine.answer(Reply::Number(3.0f64.to_bits())),
            _ => machine.answer(Reply::Invalid),
        };
    }
    assert_eq!(output, "[ERROR: InvalidValue]: The operation has no result\nafter\n");
}

#[test]
fn step_takes_one_statement_at_a_time() {
    let mut machine = Machine::new("BAU \"a\" BAU \"b\"");
    let mut variables = Environment::new();
    let mut output = String::new();
    assert_eq!(machine.step(&mut variables, &mut output), None);
    assert_eq!(output, "a\n");
    assert_eq!(machine.step(&mut variables, &mut output), None);
    assert_eq!(output, "a\nb\n");
    assert_eq!(machine.step(&mut variables, &mut output), Some(Request::Done));
}

#[test]
fn loop_over_a_count_runs_that_many_times() {
    assert_eq!(output_of("PON 3 BAU \"x\" DE BAU \"after\""), "x\nx\nx\nafter\n");
}

#[test]
fn truth_value_counts_as_one_or_none() {
    assert_eq!(output_of("PON FLUFFY BAU \"x\" DE"), "x\n");
    assert_eq!(output_of("PON FUZZY BAU \"x\" DE"), "");
    assert_eq!(output_of("WA BAULEAN t = FLUFFY PON t BAU \"x\" DE"), "x\n");
    assert_eq!(output_of("WA BAULEAN t = FUZZY PON t BAU \"x\" DE"), "");
}

#[test]
fn count_may_be_a_variable() {
    assert_eq!(output_of("WA MOE n = 2 PON n BAU \"x\" DE"), "x\nx\n");
}

#[test]
fn count_is_cut_to_an_integer() {
    assert_eq!(output_of("PON 2.9 BAU \"x\" DE"), "x\nx\n");
    assert_eq!(output_of("PON 0 BAU \"x\" DE"), "");
    assert_eq!(output_of("PON -4 BAU \"x\" DE"), "");
}

#[test]
fn count_that_is_no_number_fails() {
    assert_eq!(
        output_of("PON many BAU \"x\" DE BAU \"after\""),
        "[ERROR: InvalidValue]: A count must be a number or a BAULEAN value\nafter\n"
    );
    assert_eq!(
        output_of("WA KIRA s = \"3\" PON s BAU \"x\" DE"),
        "[ERROR: InvalidValue]: A count must be a number or a BAULEAN value\n"
    );
}

#[test]
fn loop_over_a_count_without_end_runs_no_pass() {
    assert_eq!(
        output_of("PON 3 BAU \"x\""),
        "[ERROR: Syntax]: Could not find closing 'DE' for loop\n"
    );
}

#[test]
fn counter_is_no_word_of_a_loop_over_a_count() {
    assert_eq!(
        output_of("PON 1 WA MOE x = <counter + 1> DE"),
        "[ERROR: InvalidValue]: 'counter' is an invalid number\n"
    );
}

#[test]
fn loop_over_a_range_in_a_loop_over_a_count_is_refused() {
    assert_eq!(
        output_of("PON 2 PONDE i 1..2 { BAU i } DE"),
        "[ERROR: Syntax]: A loop cannot stand inside a loop\n[ERROR: Syntax]: A loop cannot stand inside a loop\n"
    );
}

#[test]
fn loop_over_a_count_changes_outer_variables() {
    assert_eq!(output_of("WA MOE n = 1 PON 3 CO n = <n * 2> DE BAU n"), "8\n");
}

#[test]
fn conditions_gate_statements_in_a_loop_body() {
    let code = "PONDE i 1..3 { FUWA <i == 2> BAU \"two\" MOCO BAU i }";
    assert_eq!(output_of(code), "1\ntwo\n3\n");
}

#[test]
fn number_is_printed_as_the_host_writes_it() {
    assert_eq!(output_of("WA MOE x = 0.1 BAU x"), "0.1\n");
    assert_eq!(output_of("WA MOE x = 1e3 BAU x"), "1000\n");
    assert_eq!(output_of("WA MOE x = -0 BAU x"), "-0\n");
    assert_eq!(output_of("WA MOE x = <0 / 0> BAU x"), "NaN\n");
}

fn run_with(code: &str, host: fn(&Request) -> Reply) -> String {
    let mut machine = Machine::new(code);
    let mut variables = Environment::new();
    let mut output = String::new();
    loop {
        let request = run_interpreter(&mut machine, &mut variables, &mut output);
        if request == Request::Done {
            break;
        }
        machine.answer(host(&request));
    }
    output
}

fn no_widening(request: &Request) -> Reply {
    match request {
        Request::Widen(_) => Reply::Invalid,
        other => perform(other),
    }
}

fn no_truncating(request: &Request) -> Reply {
    match request {
        Request::Truncate(_) => Reply::Text("3".to_string()),
        other => perform(other),
    }
}

fn no_comparing(request: &Request) -> Reply {
    match request {
        Request::Binary(_, _, _) => Reply::Number(0),
        other => perform(other),
    }
}

#[test]
fn loop_is_left_when_the_host_gives_no_number_for_a_pass() {
    assert_eq!(
        run_with("PONDE i 1..3 { BAU \"x\" } BAU \"after\"", no_widening),
        "[ERROR: InvalidValue]: The operation has no result\nafter\n"
    );
}

#[test]
fn loop_fails_when_the_host_gives_no_integer() {
    assert_eq!(
        run_with("PONDE i 1..3 { BAU \"x\" } BAU \"after\"", no_truncating),
        "[ERROR: InvalidValue]: The operation has no result\nafter\n"
    );
    assert_eq!(
        run_with("PON 2 BAU \"x\" DE BAU \"after\"", no_truncating),
        "[ERROR: InvalidValue]: The operation has no result\nafter\n"
    );
}

#[test]
fn comparison_fails_when_the_host_gives_a_number() {
    assert_eq!(
        run_with("FUWA <1 == 1> BAU \"a\" MOCO BAU \"b\"", no_comparing),
        "[ERROR: InvalidValue]: The operation has no result\nb\n"
    );
}

#[test]
fn lone_operand_that_is_no_number_fails() {
    assert_eq!(
        output_of("WA MOE x = <abc>"),
        "[ERROR: InvalidValue]: Invalid number/expression\n"
    );
    assert_eq!(
        output_of("WA KIRA s = \"a\" WA MOE x = <s>"),
        "[ERROR: InvalidValue]: Variable not found or invalid type\n"
    );
}

#[test]
fn failure_of_an_expression_is_written_as_one_line() {
    assert_eq!(
        output_of("WA MOE x = <1 ^ 2> BAU \"after\""),
        "[ERROR: InvalidOperator]: Operator is not supported\nafter\n"
    );
    assert_eq!(
        output_of("WA MOE n = 1 CO n = <a + 1> BAU n"),
        "[ERROR: InvalidValue]: 'a' is an invalid number\n1\n"
    );
    assert_eq!(
        output_of("FUWA <1 + 2 + 3> BAU \"a\" MOCO BAU \"b\""),
        "[ERROR: InvalidExpression]: Expecting 'value operator value'\nb\n"
    );
    assert_eq!(
        output_of("FUWA <1 + 2> BAU \"a\" MOCO BAU \"b\""),
        "[ERROR: IncompatibleType]: A condition requires a BAULEAN value\nb\n"
    );
}
