//! End-to-end scenarios: source text in, output bytes and outcome out.

use riku::error::{ErrorType, Stop};
use riku::interp::{run_source, RunResult};

fn run(src: &str, inputs: &[&str]) -> RunResult {
    let source: Vec<char> = src.chars().collect();
    let input: Vec<Vec<char>> = inputs.iter().map(|l| l.chars().collect()).collect();
    run_source(source, input, 1_000_000).expect("program should lex and parse")
}

fn out_of(r: &RunResult) -> String {
    r.output.iter().collect()
}

fn assert_finished(r: &RunResult) {
    assert!(matches!(r.outcome, Ok(())));
}

fn expect_reject(src: &str) -> riku::error::RunError {
    match run_source(src.chars().collect(), Vec::new(), 1000) {
        Err(e) => e,
        Ok(_) => panic!("expected the source to be rejected"),
    }
}

fn fatal_kind(r: &RunResult) -> ErrorType {
    match &r.outcome {
        Err(Stop::Fatal(e)) => e.kind,
        other => panic!("expected a fatal outcome, got {:?}", other),
    }
}

#[test]
fn adds_two_numbers() {
    let r = run("let a = 1; let b = 2; print(a + b)", &[]);
    assert_eq!(out_of(&r), "3\n");
    assert_finished(&r);
    assert!(r.diags.is_empty());
}

#[test]
fn else_branch_runs_when_condition_fails() {
    let r = run("if 1 > 2 { print(\"x\") } else { print(\"y\") }", &[]);
    assert_eq!(out_of(&r), "y\n");
    assert_finished(&r);
}

#[test]
fn while_loop_counts() {
    let r = run("let i = 0; while i < 3 { print(i); i = i + 1 }", &[]);
    assert_eq!(out_of(&r), "0\n1\n2\n");
    assert_finished(&r);
}

#[test]
fn closure_retains_mutable_state() {
    let src = "function make() { let n = 0; function inc() { n = n + 1; print(n) } return inc } let f = make(); f(); f()";
    let r = run(src, &[]);
    assert_eq!(out_of(&r), "1\n2\n");
    assert_finished(&r);
}

#[test]
fn int_of_bad_string_is_fatal_and_prints_nothing() {
    let r = run("int(\"abc\")", &[]);
    assert_eq!(out_of(&r), "");
    assert_eq!(fatal_kind(&r), ErrorType::TypeError);
}

#[test]
fn subtraction_is_left_associative() {
    let r = run("print(1 - 2 - 3)", &[]);
    assert_eq!(out_of(&r), "-4\n");
}

#[test]
fn multiplication_binds_tighter_than_addition() {
    let r = run("print(1 + 2 * 3)", &[]);
    assert_eq!(out_of(&r), "7\n");
}

#[test]
fn grouping_overrides_precedence() {
    let r = run("print((1 + 2) * 3)", &[]);
    assert_eq!(out_of(&r), "9\n");
}

#[test]
fn block_binding_is_not_visible_after_block() {
    let r = run("let a = 1\n{ let b = 2\n}\nprint(b)", &[]);
    assert_eq!(out_of(&r), "");
    assert_eq!(fatal_kind(&r), ErrorType::UndefinedVariable);
}

#[test]
fn assign_to_undefined_name_is_fatal() {
    let r = run("b = 1", &[]);
    assert_eq!(fatal_kind(&r), ErrorType::UndefinedVariable);
}

#[test]
fn assign_in_block_mutates_enclosing_binding() {
    let r = run("let a = 1\n{ a = 5\n}\nprint(a)", &[]);
    assert_eq!(out_of(&r), "5\n");
    assert_finished(&r);
}

#[test]
fn shadowing_in_block_leaves_outer_binding_alone() {
    let r = run("let a = 1\n{ let a = 9\nprint(a)\n}\nprint(a)", &[]);
    assert_eq!(out_of(&r), "9\n1\n");
    assert_finished(&r);
}

#[test]
fn break_terminates_loop() {
    let r = run("let i = 0\nwhile true { if i > 2 { break }\ni = i + 1\n}\nprint(i)", &[]);
    assert_eq!(out_of(&r), "3\n");
    assert_finished(&r);
}

#[test]
fn continue_skips_rest_of_iteration() {
    let src = "let i = 0\nlet s = 0\nwhile i < 5 { i = i + 1\nif i == 3 { continue }\ns = s + i\n}\nprint(s)";
    let r = run(src, &[]);
    assert_eq!(out_of(&r), "12\n");
    assert_finished(&r);
}

#[test]
fn return_propagates_out_of_loop() {
    let src = "function f() { let i = 0\nwhile true { i = i + 1\nif i == 4 { return i }\n}\n} print(f())";
    let r = run(src, &[]);
    assert_eq!(out_of(&r), "4\n");
    assert_finished(&r);
}

#[test]
fn top_level_return_is_discarded() {
    let r = run("return 5\nprint(1)", &[]);
    assert_eq!(out_of(&r), "1\n");
    assert_finished(&r);
}

#[test]
fn input_reads_a_trimmed_line_after_prompt() {
    let r = run("let x = input(\"? \")\nprint(x)", &["  hello  "]);
    assert_eq!(out_of(&r), "? \nhello\n");
    assert_finished(&r);
}

#[test]
fn input_past_end_of_stream_reads_empty() {
    let r = run("let x = input()\nprint(x, \"!\")", &[]);
    assert_eq!(out_of(&r), "\n!\n");
    assert_finished(&r);
}

#[test]
fn builtin_print_family_returns_argument_count() {
    let r = run("let c = println(\"a\", \"b\")\nprint(c)", &[]);
    assert_eq!(out_of(&r), "ab\n2\n");
    assert_finished(&r);
}

#[test]
fn builtin_println_appends_newline() {
    let src = "let p = println\np(\"a\", 1)";
    let r = run(src, &[]);
    assert_eq!(out_of(&r), "a1\n");
    assert_finished(&r);
}

#[test]
fn builtin_str_renders_values() {
    let r = run("let s = str\nprint(s(12), s(true))", &[]);
    assert_eq!(out_of(&r), "12true\n");
    assert_finished(&r);
}

#[test]
fn int_construct_parses_strings_and_maps_bools() {
    let r = run("print(int(\"42\") + 1)\nprint(int(true))", &[]);
    assert_eq!(out_of(&r), "43\n1\n");
    assert_finished(&r);
}

#[test]
fn cross_type_comparison_reports_and_yields_false() {
    let r = run("print(1 == \"1\")", &[]);
    assert_eq!(out_of(&r), "false\n");
    assert_finished(&r);
    assert_eq!(r.diags.len(), 1);
    assert_eq!(r.diags[0].kind, ErrorType::TypeError);
}

#[test]
fn arithmetic_on_non_numbers_reports_and_substitutes_zero() {
    let r = run("print(\"a\" + 1)", &[]);
    assert_eq!(out_of(&r), "0\n");
    assert_finished(&r);
    assert_eq!(r.diags.len(), 1);
}

#[test]
fn unary_minus_on_non_number_reports_and_substitutes_zero() {
    let r = run("print(-\"x\")", &[]);
    assert_eq!(out_of(&r), "0\n");
    assert_eq!(r.diags.len(), 1);
}

#[test]
fn double_negation_is_identity() {
    let r = run("print(--2)\nprint(!false)", &[]);
    assert_eq!(out_of(&r), "2\ntrue\n");
    assert_finished(&r);
}

#[test]
fn condition_of_wrong_type_counts_as_false() {
    let r = run("if \"s\" { print(1) } else { print(2) }", &[]);
    assert_eq!(out_of(&r), "2\n");
    assert_eq!(r.diags.len(), 1);
}

#[test]
fn numeric_truthiness_is_greater_than_zero() {
    let r = run("if 1 { print(\"a\") }\nif 0 { print(\"b\") }\nif -1 { print(\"c\") }", &[]);
    assert_eq!(out_of(&r), "a\n");
    assert_finished(&r);
}

#[test]
fn calling_a_non_function_is_fatal() {
    let r = run("let a = 1\na(2)", &[]);
    assert_eq!(fatal_kind(&r), ErrorType::TypeError);
}

#[test]
fn wrong_arity_is_fatal() {
    let r = run("function f(a) { return a } f(1, 2)", &[]);
    assert_eq!(fatal_kind(&r), ErrorType::RuntimeError);
}

#[test]
fn undefined_variable_read_is_fatal() {
    let r = run("print(nope)", &[]);
    assert_eq!(fatal_kind(&r), ErrorType::UndefinedVariable);
}

#[test]
fn string_order_is_lexicographic() {
    let r = run("print(\"abc\" < \"abd\")\nprint(\"b\" <= \"a\")", &[]);
    assert_eq!(out_of(&r), "true\nfalse\n");
}

#[test]
fn string_conjunction_goes_by_non_emptiness() {
    let r = run("print(\"a\" & \"\")\nprint(\"a\" | \"\")", &[]);
    assert_eq!(out_of(&r), "false\ntrue\n");
}

#[test]
fn false_orders_below_true() {
    let r = run("print(false < true)", &[]);
    assert_eq!(out_of(&r), "true\n");
}

#[test]
fn exact_division_stays_integral() {
    let r = run("print(6 / 2)\nprint(7 % 2)\nprint(0 - 7 % 2)", &[]);
    assert_eq!(out_of(&r), "3\n1\n-1\n");
}

#[test]
fn inexact_division_goes_through_ieee() {
    let r = run("print(1 / 2)", &[]);
    assert_eq!(out_of(&r), "0.5\n");
}

#[test]
fn fractional_arithmetic_round_trips_to_integers() {
    let r = run("print(0.5 * 4)\nprint(1.5 - 0.5)\nprint(0.5 + 0.5)", &[]);
    assert_eq!(out_of(&r), "2\n1\n1\n");
}

#[test]
fn fractional_results_render_in_decimal() {
    let r = run("print(0.5 + 0.25)\nprint(3 / 2)\nprint(2.5 % 1)", &[]);
    assert_eq!(out_of(&r), "0.75\n1.5\n0.5\n");
}

#[test]
fn fractional_comparison_orders_correctly() {
    let r = run("print(0.5 < 0.75)\nprint(0.5 == 0.5)", &[]);
    assert_eq!(out_of(&r), "true\ntrue\n");
}

#[test]
fn nan_compares_unequal_to_itself() {
    let r = run("print(0 / 0 == 0 / 0)\nprint(0 / 0 < 1)", &[]);
    assert_eq!(out_of(&r), "false\nfalse\n");
}

#[test]
fn number_with_two_dots_is_a_syntax_error() {
    let e = expect_reject("print(1.2.3)");
    assert_eq!(e.kind, ErrorType::SyntaxError);
}

#[test]
fn number_with_trailing_dot_is_a_syntax_error() {
    let e = expect_reject("print(1.)");
    assert_eq!(e.kind, ErrorType::SyntaxError);
}

#[test]
fn zero_results_keep_their_ieee_sign() {
    let r = run(
        "print(1 / ((0 - 1) * 0) < 0)\nprint(1 / (0 / (0 - 2)) < 0)\nprint(1 / ((0 - 4) % 2) < 0)",
        &[],
    );
    assert_eq!(out_of(&r), "true\ntrue\ntrue\n");
    assert_finished(&r);
}

#[test]
fn int_construct_on_a_function_reports_and_substitutes_zero() {
    let r = run("function f() { } print(int(f))", &[]);
    assert_eq!(out_of(&r), "0\n");
    assert_finished(&r);
    assert_eq!(r.diags.len(), 1);
    assert_eq!(r.diags[0].kind, ErrorType::TypeError);
}

#[test]
fn redefining_a_name_overwrites_it() {
    let r = run("let a = 1\nlet a = 2\nprint(a)", &[]);
    assert_eq!(out_of(&r), "2\n");
}

#[test]
fn empty_program_finishes_silently() {
    let r = run("", &[]);
    assert_eq!(out_of(&r), "");
    assert_finished(&r);
    assert!(r.diags.is_empty());
}

#[test]
fn print_concatenates_arguments_without_separator() {
    let r = run("print(1, \"x\", true)", &[]);
    assert_eq!(out_of(&r), "1xtrue\n");
}

#[test]
fn chained_calls_apply_left_to_right() {
    let src = "function add(a) { function inner(b) { return a + b } return inner } print(add(2)(3))";
    let r = run(src, &[]);
    assert_eq!(out_of(&r), "5\n");
}

#[test]
fn unterminated_string_is_a_syntax_error() {
    let e = expect_reject("let a = \"abc");
    assert_eq!(e.kind, ErrorType::SyntaxError);
    assert_eq!(e.line, Some(1));
}

#[test]
fn unexpected_character_is_a_syntax_error_with_its_text() {
    let e = expect_reject("let a = 1\n@@@ 2");
    assert_eq!(e.kind, ErrorType::SyntaxError);
    assert_eq!(e.line, Some(2));
    let ctx: String = e.ctx.iter().collect();
    assert_eq!(ctx, "@@@");
}

#[test]
fn missing_closing_brace_is_blamed_on_the_open_brace_line() {
    let e = expect_reject("let a = 1\n{ let b = 2\n");
    assert_eq!(e.kind, ErrorType::SyntaxError);
    assert_eq!(e.line, Some(2));
}

#[test]
fn missing_closing_paren_is_a_syntax_error() {
    let e = expect_reject("print((1 + 2)");
    assert_eq!(e.kind, ErrorType::SyntaxError);
}

#[test]
fn let_without_name_is_a_syntax_error() {
    let e = expect_reject("let = 3");
    assert_eq!(e.kind, ErrorType::SyntaxError);
}

#[test]
fn runaway_loop_runs_out_of_fuel() {
    let source: Vec<char> = "while true { }".chars().collect();
    let r = run_source(source, Vec::new(), 1000).unwrap();
    assert!(matches!(r.outcome, Err(Stop::OutOfFuel)));
}

#[test]
fn statements_separated_by_semicolons_and_newlines_mix() {
    let r = run("let a = 1; let b = 2\n\n;;print(a)\nprint(b)", &[]);
    assert_eq!(out_of(&r), "1\n2\n");
}

#[test]
fn trailing_comma_in_argument_list_is_accepted() {
    let r = run("print(1, 2,)", &[]);
    assert_eq!(out_of(&r), "12\n");
}

#[test]
fn function_display_form_names_it() {
    let r = run("function f() { return 1 } print(f)", &[]);
    assert_eq!(out_of(&r), "<function f>\n");
}

#[test]
fn nil_prints_as_nil() {
    let r = run("function f() { } print(f())", &[]);
    assert_eq!(out_of(&r), "nil\n");
}
