// Whole-program runs checked against their printed output.

use nek::interp::Interpreter;

/// Runs `source_code` on a fresh interpreter and compares the whole output.
fn check_input_output_eq(source_code: &str, expected_output: &str) {
    let mut interpreter = Interpreter::new();
    interpreter.run(source_code).unwrap();
    assert_eq!(expected_output, interpreter.output_text());
}

/// Runs `source_code` and checks that the output holds `expected_part`.
fn check_input_output_contains(source_code: &str, expected_part: &str) {
    let mut interpreter = Interpreter::new();
    interpreter.run(source_code).unwrap();
    assert!(interpreter.output_text().contains(expected_part));
}

#[test]
pub fn test_create_variables() {
    let source_code = "
        var integer_var 5
        float real_var 6.83
        string string_var I am a string endstring
        print integer_var
        print real_var
        print string_var
    ";

    let expected_output = "5\n6.83\nI am a string\n";

    check_input_output_eq(source_code, expected_output)
}

#[test]
pub fn test_add_variables() {
    let source_code = "
        var integer_a 7
        var integer_b 9
        add integer_a integer_b
        print integer_a
        float real_a 13.6
        float real_b 14.9
        add_f real_a real_b
        print real_a
    ";

    let expected_output = "16\n28.5\n";

    check_input_output_eq(source_code, expected_output)
}

#[test]
pub fn test_function_without_parameters() {
    let source_code = "
        function sum_5_6 with
            var a 5
            var b 6
            add a b
            print a
        end
        call sum_5_6
    ";

    let expected_output = "11\n";

    check_input_output_eq(source_code, expected_output)
}

#[test]
pub fn test_struct() {
    let source_code = "
        struct game_scores
            team_a 5
            team_b 3
        endstruct

        print game_scores
    ";

    let expected_output_a = "game_scores.team_a = 5\n";
    let expected_output_b = "game_scores.team_b = 3\n";

    check_input_output_contains(source_code, expected_output_a);
    check_input_output_contains(source_code, expected_output_b);
}

#[test]
pub fn test_loop() {
    // The loop body runs for a equal to 15 down through 11 and stops as soon
    // as the condition fails, so a is 10 when printed: the body is captured
    // once and never rescanned after the loop ends.
    let source_code = "
        var a 15
        var a_add -1
        loop a > 10
            add a a_add
            end
        end
        print a
    ";

    let expected_output = "10\n";

    check_input_output_eq(source_code, expected_output)
}
