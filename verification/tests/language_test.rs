// The statements, the errors and the host-call interface, case by case.

use nek::err::InterpreterError;
use nek::interp::Interpreter;
use nek::lexeme::Comparison;
use nek::lexeme::Lexeme;

fn output_of(source: &str) -> String {
    let mut interpreter = Interpreter::new();
    interpreter.run(source).unwrap();
    interpreter.output_text()
}

fn error_of(source: &str) -> (InterpreterError, String) {
    let mut interpreter = Interpreter::new();
    let e = interpreter.run(source).unwrap_err();
    (e, interpreter.output_text())
}

#[test]
fn test_redeclare_overwrites() {
    assert_eq!(output_of("var x 1 var x 2 print x"), "2\n");
}

#[test]
fn test_print_twice_identical() {
    assert_eq!(output_of("var x 4 print x print x"), "4\n4\n");
}

#[test]
fn test_div_truncates_toward_zero() {
    assert_eq!(output_of("var x -7 var y 2 div x y print x"), "-3\n");
    assert_eq!(output_of("var x 7 var y 2 div x y print x"), "3\n");
}

#[test]
fn test_div_by_zero_prints_nothing() {
    let (e, out) = error_of("var x 3 var y 0 div x y print x");
    assert!(matches!(e, InterpreterError::DivisionByZero));
    assert_eq!(out, "");
}

#[test]
fn test_sub_and_mul() {
    assert_eq!(output_of("var a 10 var b 4 sub a b print a"), "6\n");
    assert_eq!(output_of("var a 10 var b 4 mul a b print a"), "40\n");
}

#[test]
fn test_sqrt_truncates() {
    assert_eq!(output_of("var a 10 sqrt a print a"), "3\n");
    assert_eq!(output_of("var a 16 sqrt a print a"), "4\n");
}

#[test]
fn test_sqrt_negative_fails() {
    let (e, _) = error_of("var a 0 var b 5 sub a b sqrt a");
    assert!(matches!(e, InterpreterError::InvalidOperand));
}

#[test]
fn test_abs() {
    assert_eq!(output_of("var a 0 var b 5 sub a b abs a print a"), "5\n");
    assert_eq!(output_of("var a 5 abs a print a"), "5\n");
}

#[test]
fn test_pow() {
    assert_eq!(output_of("var a 2 var b 10 pow a b print a"), "1024\n");
    assert_eq!(output_of("var a 3 var b 0 pow a b print a"), "1\n");
}

#[test]
fn test_pow_negative_exponent_fails() {
    let (e, _) = error_of("var a 2 var b -1 pow a b");
    assert!(matches!(e, InterpreterError::InvalidOperand));
}

#[test]
fn test_add_overflow_fails() {
    let (e, _) = error_of("var a 2147483647 var b 1 add a b");
    assert!(matches!(e, InterpreterError::InvalidOperand));
}

#[test]
fn test_array_prints_each_element() {
    assert_eq!(
        output_of("array arr 3 5 6 7 print arr"),
        "arr[0] = 5\narr[1] = 6\narr[2] = 7\n"
    );
}

#[test]
fn test_struct_field_order_and_update() {
    assert_eq!(output_of("struct s a 1 b 2 endstruct print s"), "s.a = 1\ns.b = 2\n");
    assert_eq!(output_of("struct s a 1 a 2 endstruct print s"), "s.a = 2\n");
}

#[test]
fn test_float_arithmetic() {
    assert_eq!(output_of("float a 7.5 float b 2.5 sub_f a b print a"), "5\n");
    assert_eq!(output_of("float a 7.5 float b 2.5 mul_f a b print a"), "18.75\n");
    assert_eq!(output_of("float a 7.5 float b 2.5 div_f a b print a"), "3\n");
}

#[test]
fn test_float_literal_round_trip() {
    assert_eq!(output_of("float x 0.5 print x"), "0.5\n");
    assert_eq!(output_of("float x -2.25 print x"), "-2.25\n");
}

#[test]
fn test_print_probes_integer_before_string() {
    assert_eq!(output_of("var x 1 string x hello endstring print x"), "1\n");
}

#[test]
fn test_if_then_and_else() {
    assert_eq!(output_of("var x 5 if x > 3 print x else var y 1 print y end print x"), "5\n5\n");
    assert_eq!(output_of("var x 1 if x > 3 var z 9 print z else print x end"), "1\n");
}

#[test]
fn test_loop_counts_up() {
    assert_eq!(output_of("var x 0 var y 1 loop x < 5 add x y end end print x"), "5\n");
}

#[test]
fn test_nested_if_inside_loop() {
    let source = "
        var x 0
        var one 1
        var seen 0
        loop x < 3
            if x == 2
                var seen 1
            end
            add x one
        end
        print seen
    ";
    assert_eq!(output_of(source), "1\n");
}

#[test]
fn test_stray_end_is_no_op() {
    assert_eq!(output_of("end var x 1 print x end"), "1\n");
}

#[test]
fn test_unknown_command_fails_without_output() {
    let (e, out) = error_of("frobnicate 1");
    assert!(matches!(e, InterpreterError::UnknownCommand(t) if t == "frobnicate"));
    assert_eq!(out, "");
}

#[test]
fn test_unknown_command_later_also_fails_whole_run() {
    let (e, out) = error_of("var x 1 print x frobnicate");
    assert!(matches!(e, InterpreterError::UnknownCommand(_)));
    assert_eq!(out, "");
}

#[test]
fn test_missing_operand() {
    let (e, _) = error_of("var x");
    assert!(matches!(e, InterpreterError::MissingOperand));
}

#[test]
fn test_unterminated_string_fails() {
    let (e, _) = error_of("string x hello");
    assert!(matches!(e, InterpreterError::MissingOperand));
}

#[test]
fn test_parse_literal() {
    let (e, _) = error_of("var x abc");
    assert!(matches!(e, InterpreterError::ParseLiteral));
}

#[test]
fn test_undefined_name() {
    let (e, _) = error_of("print nope");
    assert!(matches!(e, InterpreterError::UndefinedName));
}

#[test]
fn test_call_arity_mismatch() {
    let (e, _) = error_of("function f a with print a end call f 1 2");
    assert!(matches!(e, InterpreterError::ArityMismatch));
}

#[test]
fn test_call_undefined_function() {
    let (e, _) = error_of("call nothing");
    assert!(matches!(e, InterpreterError::UndefinedName));
}

#[test]
fn test_function_parameter_binding() {
    assert_eq!(output_of("function f x with print x end call f 10"), "10\n");
}

#[test]
fn test_function_local_declaration() {
    assert_eq!(output_of("function f with var a 10 print a end call f"), "10\n");
}

#[test]
fn test_function_local_scope_is_discarded() {
    // the local a dies with the call; the outer a is untouched
    assert_eq!(
        output_of("var a 1 function f with var a 9 print a end call f print a"),
        "9\n1\n"
    );
}

#[test]
fn test_call_function_from_host() {
    let mut interpreter = Interpreter::new();
    interpreter.run("function f x with print x end").unwrap();
    interpreter.call_function("f", &[42]).unwrap();
    assert_eq!(interpreter.output_text(), "42\n");
}

#[test]
fn test_call_function_arity_from_host() {
    let mut interpreter = Interpreter::new();
    interpreter.run("function f x with print x end").unwrap();
    let e = interpreter.call_function("f", &[1, 2]).unwrap_err();
    assert!(matches!(e, InterpreterError::ArityMismatch));
}

#[test]
fn test_output_lines() {
    let mut interpreter = Interpreter::new();
    interpreter.run("var x 3 print x print x").unwrap();
    let lines = interpreter.output_lines();
    assert_eq!(lines.len(), 2);
    assert_eq!(lines[0], "3");
    assert_eq!(lines[1], "3");
}

#[test]
fn test_keyword_lookup() {
    assert!(matches!(Lexeme::from_str("var"), Lexeme::Var));
    assert!(matches!(Lexeme::from_str("endstruct"), Lexeme::Endstruct));
    assert!(matches!(Comparison::from_str("<="), Comparison::LessThanOrEqual));
    assert!(nek::lexeme::keyword_of("frobnicate").is_none());
    assert!(nek::lexeme::cmp_of("=<").is_none());
}

#[test]
fn test_runtime_error_keeps_earlier_output() {
    let (e, out) = error_of("var x 1 print x var y 0 div x y");
    assert!(matches!(e, InterpreterError::DivisionByZero));
    assert_eq!(out, "1\n");
}
