use lox::environment::Environment;
use lox::error::Error;
use lox::interpreter::Interpreter;
use lox::pipeline::run;

struct Outcome {
    printed: Vec<String>,
    diagnostics: Vec<String>,
    result: Result<(), Error>,
}

fn run_source(source: &str) -> Outcome {
    let mut interpreter = Interpreter::new(Environment::new(None));
    let (diagnostics, result) = run(source, &mut interpreter);
    let printed = interpreter.take_output();
    Outcome { printed, diagnostics, result }
}

fn runtime_message(result: &Result<(), Error>) -> String {
    match result {
        Err(Error::RuntimeError { message, .. }) => message.clone(),
        _ => panic!("expected a runtime error"),
    }
}

#[test]
fn precedence_of_factor_over_term() {
    let o = run_source("print 1+2*3;");
    assert_eq!(o.printed, vec!["7"]);
    let o = run_source("print (1+2)*3;");
    assert_eq!(o.printed, vec!["9"]);
}

#[test]
fn equality_without_coercion() {
    let o = run_source("print 1 == 1; print 1 == \"1\"; print nil == false; print \"a\" != \"a\";");
    assert_eq!(o.printed, vec!["true", "false", "false", "false"]);
    assert!(o.result.is_ok());
}

#[test]
fn division_by_zero_is_an_error() {
    let o = run_source("print 1/0;");
    assert!(o.printed.is_empty());
    assert_eq!(runtime_message(&o.result), "Divide by zero.");
}

#[test]
fn truthiness_of_nil_zero_false() {
    let o = run_source("print !nil; print !0; print !false; print !\"\";");
    assert_eq!(o.printed, vec!["true", "false", "true", "false"]);
}

#[test]
fn mixed_plus_concatenates() {
    let o = run_source("print 1 + \"a\";");
    assert_eq!(o.printed, vec!["1a"]);
    let o = run_source("print \"x\" + true + nil;");
    assert_eq!(o.printed, vec!["xtruenil"]);
}

#[test]
fn block_shadowing_and_restoration() {
    let o = run_source("var x=1; { var x=2; print x; } print x;");
    assert_eq!(o.printed, vec!["2", "1"]);
}

#[test]
fn outer_mutation_through_block() {
    let o = run_source("var a; { a = 5; } print a;");
    assert_eq!(o.printed, vec!["5"]);
}

#[test]
fn for_loop_counts() {
    let o = run_source("for (var i=0; i<3; i=i+1) print i;");
    assert_eq!(o.printed, vec!["0", "1", "2"]);
    assert!(o.result.is_ok());
}

#[test]
fn multiple_parse_errors_recover() {
    let o = run_source("1 + ; var ; print 3;");
    assert_eq!(o.diagnostics.len(), 2);
    assert_eq!(o.printed, vec!["3"]);
    assert!(matches!(o.result, Err(Error::ParseError)));
}

#[test]
fn uninitialized_read_fails() {
    let o = run_source("var x; print x;");
    assert_eq!(runtime_message(&o.result), "Variable not initialized.");
}

#[test]
fn undefined_reference_fails() {
    let o = run_source("print y;");
    assert_eq!(runtime_message(&o.result), "Undefined variable 'y'.");
}

#[test]
fn undefined_assignment_fails() {
    let o = run_source("z = 1;");
    assert_eq!(runtime_message(&o.result), "Undefined variable 'z'.");
}

#[test]
fn runtime_error_stops_the_run() {
    let o = run_source("print 1; print -\"a\"; print 2;");
    assert_eq!(o.printed, vec!["1"]);
    assert_eq!(runtime_message(&o.result), "Operand(s) must be a number.");
}

#[test]
fn comparison_needs_numbers() {
    let o = run_source("print 1 < \"2\";");
    assert_eq!(runtime_message(&o.result), "Operand(s) must be a number.");
}

#[test]
fn comparisons_of_numbers() {
    let o = run_source("print 1 < 2; print 2 <= 2; print 3 > 4; print 4 >= 5; print 0.5 == 1/2;");
    assert_eq!(o.printed, vec!["true", "true", "false", "false", "true"]);
}

#[test]
fn logical_operators_short_circuit() {
    let o = run_source("print nil or \"yes\"; print 0 and 7; print false and x; print 1 or x;");
    assert_eq!(o.printed, vec!["yes", "7", "false", "1"]);
    assert!(o.result.is_ok());
}

#[test]
fn chained_assignment_shares_value() {
    let o = run_source("var a; var b; a = b = 2; print a; print b;");
    assert_eq!(o.printed, vec!["2", "2"]);
}

#[test]
fn invalid_assignment_target_is_reported() {
    let o = run_source("var a = 1; a + 1 = 2; print a;");
    assert_eq!(o.diagnostics, vec!["[line 1] Error at '=': Invalid assignment target."]);
    assert_eq!(o.printed, vec!["1"]);
}

#[test]
fn if_else_and_while() {
    let o = run_source("var n = 0; while (n < 3) { if (n == 1) print \"one\"; else print n; n = n + 1; }");
    assert_eq!(o.printed, vec!["0", "one", "2"]);
}

#[test]
fn dangling_else_binds_nearest_if() {
    let o = run_source("if (true) if (false) print 1; else print 2;");
    assert_eq!(o.printed, vec!["2"]);
}

#[test]
fn fractions_print_as_decimals() {
    let o = run_source("print 1/3; print 0.1 + 0.2; print 7/2; print -1/2; print 2.50; print 6/3;");
    assert_eq!(
        o.printed,
        vec!["0.3333333333333333", "0.3", "3.5", "-0.5", "2.5", "2"]
    );
}

#[test]
fn arithmetic_overflow_is_reported() {
    let o = run_source("print 9223372036854775807 * 10;");
    assert_eq!(runtime_message(&o.result), "Number out of range.");
}

#[test]
fn step_limit_ends_endless_loop() {
    let mut interpreter = Interpreter::with_step_limit(Environment::new(None), 5);
    let (_, result) = run("var i = 0; while (true) i = i + 1;", &mut interpreter);
    assert!(matches!(result, Err(Error::StepLimit)));
}

#[test]
fn lexical_error_stops_before_running() {
    let o = run_source("print 1; @");
    assert!(matches!(o.result, Err(Error::ScanError)));
    assert!(o.printed.is_empty());
    assert_eq!(o.diagnostics, vec!["[line 1] Error: Unexpected character"]);
}

#[test]
fn environment_persists_between_runs() {
    let mut interpreter = Interpreter::new(Environment::new(None));
    let _ = run("var a = 1;", &mut interpreter);
    let _ = run("a = a + 1; print a;", &mut interpreter);
    assert_eq!(interpreter.take_output(), vec!["2"]);
}
