use rust_calc::calculator::{AngleMode, CalcError, Calculator, EvalOutcome, HistoryEntry};

/// Drives one calculation the way the application does: the library prepares
/// the text, `meval` evaluates it, and the library takes the outcome back.
fn calculate(calc: &mut Calculator) -> Result<f64, String> {
    let expr = match calc.evaluation_input() {
        Ok(None) => return Ok(0.0),
        Ok(Some(expr)) => expr,
        Err(e) => return Err(e.message()),
    };
    let (outcome, value) = match meval::eval_str(&expr) {
        Err(e) => (EvalOutcome::Rejected(e.to_string()), 0.0),
        Ok(v) if v.is_nan() => (EvalOutcome::NotANumber, v),
        Ok(v) if v.is_infinite() => (EvalOutcome::Infinite, v),
        Ok(v) => (EvalOutcome::Value(result_text(v)), v),
    };
    calc.finish_calculation(outcome).map_err(|e| e.message())?;
    Ok(value)
}

fn result_text(value: f64) -> String {
    if value.fract() == 0.0 && value.abs() < 1e12 {
        format!("{}", value as i64)
    } else {
        let formatted = format!("{:.10}", value);
        formatted.trim_end_matches('0').trim_end_matches('.').to_string()
    }
}

#[test]
fn test_default_state() {
    let calc = Calculator::default();
    assert_eq!(calc.display, "0");
    assert!(calc.expression.is_empty());
    assert_eq!(calc.open_parens, 0);
    assert_eq!(calc.angle_mode, AngleMode::Degrees);
}

#[test]
fn test_input_digit() {
    let mut calc = Calculator::default();
    calc.input_digit("5");
    assert_eq!(calc.display, "5");
    assert_eq!(calc.expression, "5");

    calc.input_digit("3");
    assert_eq!(calc.display, "53");
    assert_eq!(calc.expression, "53");
}

#[test]
fn test_input_decimal() {
    let mut calc = Calculator::default();
    calc.input_digit("3");
    calc.input_decimal();
    calc.input_digit("1");
    calc.input_digit("4");
    assert_eq!(calc.expression, "3.14");

    calc.input_decimal();
    assert_eq!(calc.expression, "3.14");
}

#[test]
fn test_basic_addition() {
    let mut calc = Calculator::default();
    calc.input_digit("2");
    calc.input_operator("+");
    calc.input_digit("3");
    let result = calculate(&mut calc).unwrap();
    assert_eq!(result, 5.0);
}

#[test]
fn test_basic_subtraction() {
    let mut calc = Calculator::default();
    calc.input_digit("1");
    calc.input_digit("0");
    calc.input_operator("−");
    calc.input_digit("4");
    let result = calculate(&mut calc).unwrap();
    assert_eq!(result, 6.0);
}

#[test]
fn test_basic_multiplication() {
    let mut calc = Calculator::default();
    calc.input_digit("6");
    calc.input_operator("×");
    calc.input_digit("7");
    let result = calculate(&mut calc).unwrap();
    assert_eq!(result, 42.0);
}

#[test]
fn test_basic_division() {
    let mut calc = Calculator::default();
    calc.input_digit("2");
    calc.input_digit("0");
    calc.input_operator("÷");
    calc.input_digit("4");
    let result = calculate(&mut calc).unwrap();
    assert_eq!(result, 5.0);
}

#[test]
fn test_power() {
    let mut calc = Calculator::default();
    calc.input_digit("2");
    calc.input_power();
    calc.input_digit("1");
    calc.input_digit("0");
    let result = calculate(&mut calc).unwrap();
    assert_eq!(result, 1024.0);
}

#[test]
fn test_square() {
    let mut calc = Calculator::default();
    calc.input_digit("9");
    calc.input_square();
    let result = calculate(&mut calc).unwrap();
    assert_eq!(result, 81.0);
}

#[test]
fn test_parentheses() {
    let mut calc = Calculator::default();
    calc.input_open_paren();
    calc.input_digit("2");
    calc.input_operator("+");
    calc.input_digit("3");
    calc.input_close_paren();
    calc.input_operator("×");
    calc.input_digit("4");
    let result = calculate(&mut calc).unwrap();
    assert_eq!(result, 20.0);
}

#[test]
fn test_sqrt_function() {
    let mut calc = Calculator::default();
    calc.input_function("sqrt");
    calc.input_digit("1");
    calc.input_digit("4");
    calc.input_digit("4");
    calc.input_close_paren();
    let result = calculate(&mut calc).unwrap();
    assert_eq!(result, 12.0);
}

#[test]
fn test_pi_constant() {
    let mut calc = Calculator::default();
    calc.input_constant("π");
    let result = calculate(&mut calc).unwrap();
    assert!((result - std::f64::consts::PI).abs() < 1e-10);
}

#[test]
fn test_e_constant() {
    let mut calc = Calculator::default();
    calc.input_constant("e");
    let result = calculate(&mut calc).unwrap();
    assert!((result - std::f64::consts::E).abs() < 1e-10);
}

#[test]
fn test_sin_degrees() {
    let mut calc = Calculator::default();
    calc.angle_mode = AngleMode::Degrees;
    calc.input_function("sin");
    calc.input_digit("3");
    calc.input_digit("0");
    calc.input_close_paren();
    let result = calculate(&mut calc).unwrap();
    assert!((result - 0.5).abs() < 1e-10);
}

#[test]
fn test_cos_degrees() {
    let mut calc = Calculator::default();
    calc.angle_mode = AngleMode::Degrees;
    calc.input_function("cos");
    calc.input_digit("6");
    calc.input_digit("0");
    calc.input_close_paren();
    let result = calculate(&mut calc).unwrap();
    assert!((result - 0.5).abs() < 1e-10);
}

#[test]
fn test_clear() {
    let mut calc = Calculator::default();
    calc.input_digit("1");
    calc.input_digit("2");
    calc.input_digit("3");
    calc.clear();
    assert_eq!(calc.display, "0");
    assert!(calc.expression.is_empty());
}

#[test]
fn test_clear_entry() {
    let mut calc = Calculator::default();
    calc.input_digit("1");
    calc.input_digit("2");
    calc.input_digit("3");
    calc.clear_entry();
    assert_eq!(calc.expression, "12");
    calc.clear_entry();
    assert_eq!(calc.expression, "1");
    calc.clear_entry();
    assert_eq!(calc.display, "0");
}

#[test]
fn test_history() {
    let mut calc = Calculator::default();
    calc.input_digit("5");
    calc.input_operator("+");
    calc.input_digit("5");
    calculate(&mut calc).unwrap();

    assert_eq!(calc.history.len(), 1);
    assert_eq!(calc.history[0].result, "10");
}

#[test]
fn test_percent() {
    let mut calc = Calculator::default();
    calc.input_digit("5");
    calc.input_digit("0");
    calc.input_percent();
    let result = calculate(&mut calc).unwrap();
    assert_eq!(result, 0.5);
}

#[test]
fn test_toggle_angle_mode() {
    let mut calc = Calculator::default();
    assert_eq!(calc.angle_mode, AngleMode::Degrees);
    calc.toggle_angle_mode();
    assert_eq!(calc.angle_mode, AngleMode::Radians);
    calc.toggle_angle_mode();
    assert_eq!(calc.angle_mode, AngleMode::Degrees);
}

#[test]
fn test_division_by_zero() {
    let mut calc = Calculator::default();
    calc.input_digit("1");
    calc.input_operator("÷");
    calc.input_digit("0");
    let result = calculate(&mut calc);
    assert!(result.is_err() || result.unwrap().is_infinite());
}

#[test]
fn test_empty_expression() {
    let mut calc = Calculator::default();
    let result = calculate(&mut calc).unwrap();
    assert_eq!(result, 0.0);
}

#[test]
fn test_incomplete_expression() {
    let mut calc = Calculator::default();
    calc.input_digit("5");
    calc.input_operator("+");
    let result = calculate(&mut calc);
    assert!(result.is_err());
}

#[test]
fn test_implicit_multiplication() {
    let mut calc = Calculator::default();
    calc.input_digit("2");
    calc.input_constant("π");
    let result = calculate(&mut calc).unwrap();
    assert!((result - 2.0 * std::f64::consts::PI).abs() < 1e-10);
}

#[test]
fn test_nested_parentheses() {
    let mut calc = Calculator::default();
    calc.input_open_paren();
    calc.input_open_paren();
    calc.input_digit("2");
    calc.input_operator("+");
    calc.input_digit("3");
    calc.input_close_paren();
    calc.input_operator("×");
    calc.input_digit("2");
    calc.input_close_paren();
    let result = calculate(&mut calc).unwrap();
    assert_eq!(result, 10.0);
}

#[test]
fn test_exp_function() {
    let mut calc = Calculator::default();
    calc.expression = "exp(0)".to_string();
    calc.display = calc.expression.clone();
    let result = calculate(&mut calc).unwrap();
    assert!((result - 1.0).abs() < 1e-10);
}

#[test]
fn test_ln_function() {
    let mut calc = Calculator::default();
    calc.input_function("ln");
    calc.input_constant("e");
    calc.input_close_paren();
    let result = calculate(&mut calc).unwrap();
    assert!((result - 1.0).abs() < 1e-10);
}

#[test]
fn digits_keep_display_and_expression_equal() {
    let mut calc = Calculator::default();
    for d in ["0", "0", "7", "0", "9"] {
        calc.input_digit(d);
        assert_eq!(calc.display, calc.expression);
    }
    assert_eq!(calc.expression, "709");
}

#[test]
fn zero_then_digit_replaces_zero_in_both_buffers() {
    let mut calc = Calculator::default();
    calc.input_digit("0");
    calc.input_digit("5");
    assert_eq!(calc.expression, "5");
    assert_eq!(calc.display, "5");
}

#[test]
fn decimal_twice_gives_one_point() {
    let mut calc = Calculator::default();
    calc.input_decimal();
    calc.input_decimal();
    assert_eq!(calc.expression, "0.");
    assert_eq!(calc.display, "0.");
}

#[test]
fn decimal_after_operator_is_zero_point() {
    let mut calc = Calculator::default();
    calc.input_digit("1");
    calc.input_decimal();
    calc.input_digit("5");
    calc.input_operator("−");
    calc.input_decimal();
    assert_eq!(calc.expression, "1.5−0.");
    calc.input_decimal();
    assert_eq!(calc.expression, "1.5−0.");
}

#[test]
fn second_operator_replaces_first() {
    let mut a = Calculator::default();
    a.input_digit("4");
    a.input_operator("+");
    a.input_operator("×");
    let mut b = Calculator::default();
    b.input_digit("4");
    b.input_operator("×");
    assert_eq!(a.expression, b.expression);
    assert_eq!(a.display, b.display);
    assert_eq!(a.expression, "4×");
}

#[test]
fn operator_on_empty_only_minus() {
    let mut calc = Calculator::default();
    calc.input_operator("+");
    assert_eq!(calc.expression, "");
    assert_eq!(calc.display, "0");
    calc.input_operator("−");
    assert_eq!(calc.expression, "−");
    assert_eq!(calc.display, "−");
}

#[test]
fn operator_after_open_paren_only_minus() {
    let mut calc = Calculator::default();
    calc.input_open_paren();
    calc.input_operator("×");
    assert_eq!(calc.expression, "(");
    calc.input_operator("−");
    assert_eq!(calc.expression, "(−");
}

#[test]
fn close_paren_guards() {
    let mut calc = Calculator::default();
    calc.input_close_paren();
    assert_eq!(calc.expression, "");
    assert_eq!(calc.open_parens, 0);
    calc.input_open_paren();
    calc.input_close_paren();
    assert_eq!(calc.expression, "(");
    assert_eq!(calc.open_parens, 1);
    calc.input_digit("2");
    calc.input_operator("+");
    calc.input_close_paren();
    assert_eq!(calc.expression, "(2+");
    calc.input_digit("1");
    calc.input_close_paren();
    assert_eq!(calc.expression, "(2+1)");
    assert_eq!(calc.get_open_parens(), 0);
    calc.input_close_paren();
    assert_eq!(calc.expression, "(2+1)");
    assert_eq!(calc.get_open_parens(), 0);
}

#[test]
fn clear_entry_until_empty_with_wide_glyphs() {
    let mut calc = Calculator::default();
    calc.input_digit("2");
    calc.input_constant("π");
    calc.input_function("sqrt");
    calc.input_digit("9");
    calc.input_operator("÷");
    calc.input_open_paren();
    assert_eq!(calc.expression, "2×π×sqrt(9÷(");
    assert_eq!(calc.open_parens, 2);
    while !calc.expression.is_empty() {
        calc.clear_entry();
    }
    assert_eq!(calc.display, "0");
    assert_eq!(calc.open_parens, 0);
}

#[test]
fn clear_entry_restores_depth_of_closed_group() {
    let mut calc = Calculator::default();
    calc.input_open_paren();
    calc.input_digit("1");
    calc.input_close_paren();
    assert_eq!(calc.open_parens, 0);
    calc.clear_entry();
    assert_eq!(calc.expression, "(1");
    assert_eq!(calc.open_parens, 1);
}

#[test]
fn round_trip_chains_results() {
    let mut calc = Calculator::default();
    calc.input_digit("2");
    calc.input_operator("+");
    calc.input_digit("3");
    assert_eq!(calculate(&mut calc).unwrap(), 5.0);
    assert_eq!(calc.expression, "5");
    assert_eq!(calc.display, "5");
    assert_eq!(calc.open_parens, 0);
    calc.input_operator("+");
    calc.input_digit("5");
    assert_eq!(calculate(&mut calc).unwrap(), 10.0);
    assert_eq!(calc.history.len(), 2);
    assert_eq!(calc.history[0].expression, "2+3");
    assert_eq!(calc.history[1].expression, "5+5");
}

#[test]
fn sin_in_radians_via_pi_over_six() {
    let mut calc = Calculator::default();
    calc.toggle_angle_mode();
    calc.input_function("sin");
    calc.input_constant("π");
    calc.input_operator("÷");
    calc.input_digit("6");
    calc.input_close_paren();
    let result = calculate(&mut calc).unwrap();
    assert!((result - 0.5).abs() < 1e-10);
}

#[test]
fn history_evicts_oldest_after_limit() {
    let mut calc = Calculator::default();
    for i in 0..101 {
        calc.clear();
        for d in format!("{}", i).chars() {
            calc.input_digit(&d.to_string());
        }
        calc.input_operator("+");
        calc.input_digit("1");
        calculate(&mut calc).unwrap();
        assert!(calc.history.len() <= 100);
    }
    assert_eq!(calc.history.len(), 100);
    assert_eq!(calc.history[0].expression, "1+1");
    assert_eq!(calc.history[99].expression, "100+1");
    assert_eq!(calc.history[99].result, "101");
}

#[test]
fn empty_calculation_keeps_history() {
    let mut calc = Calculator::default();
    assert_eq!(calc.evaluation_input(), Ok(None));
    assert_eq!(calculate(&mut calc).unwrap(), 0.0);
    assert!(calc.history.is_empty());
}

#[test]
fn incomplete_leaves_state_unchanged() {
    let mut calc = Calculator::default();
    calc.input_digit("5");
    calc.input_operator("×");
    assert_eq!(calc.evaluation_input(), Err(CalcError::Incomplete));
    assert_eq!(calculate(&mut calc), Err("Incomplete".to_string()));
    assert_eq!(calc.expression, "5×");
    assert_eq!(calc.display, "5×");
    assert!(calc.history.is_empty());
}

#[test]
fn incomplete_after_open_paren() {
    let mut calc = Calculator::default();
    calc.input_open_paren();
    assert_eq!(calc.evaluation_input(), Err(CalcError::Incomplete));
}

#[test]
fn normalized_text_for_degrees() {
    let mut calc = Calculator::default();
    calc.input_digit("2");
    calc.input_function("sin");
    calc.input_digit("3");
    calc.input_digit("0");
    let text = calc.evaluation_input().unwrap().unwrap();
    assert_eq!(text, "2*sin((30)*0.017453292519943295)");
    calc.toggle_angle_mode();
    let text = calc.evaluation_input().unwrap().unwrap();
    assert_eq!(text, "2*sin(30)");
}

#[test]
fn square_and_percent_glyphs() {
    let mut calc = Calculator::default();
    calc.input_square();
    assert_eq!(calc.expression, "");
    calc.input_digit("9");
    calc.input_square();
    assert_eq!(calc.expression, "9^2");
    assert_eq!(calc.display, "9²");
    calc.input_operator("+");
    calc.input_percent();
    assert_eq!(calc.expression, "9^2+");
    calc.input_digit("5");
    calc.input_percent();
    assert_eq!(calc.expression, "9^2+5/100");
    assert_eq!(calc.display, "9²+5%");
}

#[test]
fn toggle_sign_round_trip() {
    let mut calc = Calculator::default();
    calc.toggle_sign();
    assert_eq!(calc.expression, "");
    calc.input_digit("5");
    calc.input_operator("+");
    calc.input_digit("3");
    calc.toggle_sign();
    assert_eq!(calc.expression, "5+−3");
    assert_eq!(calc.display, "5+−3");
    calc.toggle_sign();
    assert_eq!(calc.expression, "5+3");
    calc.clear();
    calc.input_digit("7");
    calc.toggle_sign();
    assert_eq!(calc.expression, "−7");
    calc.toggle_sign();
    assert_eq!(calc.expression, "7");
}

#[test]
fn use_history_replaces_zero_or_appends() {
    let mut calc = Calculator::default();
    calc.use_history("42");
    assert_eq!(calc.expression, "42");
    assert_eq!(calc.display, "42");
    calc.input_operator("+");
    calc.use_history("8");
    assert_eq!(calc.expression, "42+8");
    assert_eq!(calculate(&mut calc).unwrap(), 50.0);
}

#[test]
fn outcomes_map_to_errors() {
    let mut calc = Calculator::default();
    calc.input_digit("1");
    assert_eq!(calc.finish_calculation(EvalOutcome::NotANumber), Err(CalcError::Undefined));
    assert_eq!(calc.finish_calculation(EvalOutcome::Infinite), Err(CalcError::Infinity));
    assert_eq!(calc.finish_calculation(EvalOutcome::Aborted), Err(CalcError::Error));
    assert_eq!(
        calc.finish_calculation(EvalOutcome::Rejected("Parse error: bad".to_string())),
        Err(CalcError::SyntaxError)
    );
    assert_eq!(calc.expression, "1");
    assert!(calc.history.is_empty());
    assert_eq!(calc.finish_calculation(EvalOutcome::Value("7".to_string())), Ok(()));
    assert_eq!(calc.expression, "7");
    let entry: &HistoryEntry = &calc.history[0];
    assert_eq!(entry.expression, "1");
    assert_eq!(entry.result, "7");
}

#[test]
fn error_messages() {
    assert_eq!(CalcError::Incomplete.message(), "Incomplete");
    assert_eq!(CalcError::Undefined.message(), "Undefined");
    assert_eq!(CalcError::Infinity.message(), "Infinity");
    assert_eq!(CalcError::SyntaxError.message(), "Syntax error");
    assert_eq!(CalcError::MissingParen.message(), "Missing )");
    assert_eq!(CalcError::Error.message(), "Error");
}

#[test]
fn zero_over_zero_is_undefined() {
    let mut calc = Calculator::default();
    calc.input_digit("0");
    calc.input_operator("÷");
    calc.input_digit("0");
    assert_eq!(calculate(&mut calc), Err("Undefined".to_string()));
}

#[test]
fn refused_operator_after_minus_leaves_paren() {
    let mut a = Calculator::default();
    a.input_open_paren();
    a.input_operator("−");
    a.input_operator("+");
    let mut b = Calculator::default();
    b.input_open_paren();
    b.input_operator("+");
    assert_eq!(a.expression, "(");
    assert_eq!(a.expression, b.expression);
    assert_eq!(a.display, b.display);
}

#[test]
fn refused_operator_after_leading_minus_empties() {
    let mut calc = Calculator::default();
    calc.input_operator("−");
    calc.input_operator("×");
    assert_eq!(calc.expression, "");
    assert_eq!(calc.display, "0");
}

#[test]
fn ascii_minus_of_result_is_no_operator() {
    let mut calc = Calculator::default();
    calc.input_digit("5");
    calc.input_operator("×");
    calc.use_history("-");
    calc.input_operator("+");
    assert_eq!(calc.expression, "5×-+");
    calc.clear();
    calc.input_open_paren();
    calc.input_digit("5");
    calc.use_history("-");
    calc.input_close_paren();
    assert_eq!(calc.expression, "(5-)");
    assert_eq!(calc.open_parens, 0);
}

#[test]
fn toggle_removes_leading_ascii_minus() {
    let mut calc = Calculator::default();
    calc.use_history("-100");
    calc.toggle_sign();
    assert_eq!(calc.expression, "100");
    calc.toggle_sign();
    assert_eq!(calc.expression, "−100");
}

#[test]
fn log10_reaches_evaluator_intact() {
    let mut calc = Calculator::default();
    calc.input_function("log10");
    calc.input_digit("1");
    calc.input_digit("0");
    calc.input_digit("0");
    calc.input_close_paren();
    assert_eq!(calc.evaluation_input().unwrap().unwrap(), "log10(100)");
    // meval knows no log10, so its refusal comes back as the generic error
    // and the expression stays for editing.
    assert!(meval::eval_str("log10(100)").is_err());
    assert_eq!(calculate(&mut calc), Err("Error".to_string()));
    assert_eq!(calc.expression, "log10(100)");
}

#[test]
fn malformed_value_text_is_an_error() {
    let mut calc = Calculator::default();
    calc.input_digit("1");
    assert_eq!(calc.finish_calculation(EvalOutcome::Value(String::new())), Err(CalcError::Error));
    assert_eq!(
        calc.finish_calculation(EvalOutcome::Value("(2".to_string())),
        Err(CalcError::Error)
    );
    assert_eq!(calc.expression, "1");
    assert!(calc.history.is_empty());
}
