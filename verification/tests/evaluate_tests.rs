use lisp_interpreter::interpreter::{evaluate, DelimiterFault, InterpretError};

fn value(input: &str) -> String {
    evaluate(input).unwrap()
}

#[test]
fn adds_two_numbers() {
    assert_eq!(evaluate("(+ 3 4)"), Ok("7".to_string()));
}

#[test]
fn multiplies_a_nested_sum() {
    assert_eq!(evaluate("(* (+ 5 4) 2)"), Ok("18".to_string()));
}

#[test]
fn compares_two_numbers() {
    assert_eq!(evaluate("(<= 3 4)"), Ok("true".to_string()));
}

#[test]
fn negates_a_single_operand() {
    assert_eq!(evaluate("(- 5)"), Ok("-5".to_string()));
}

#[test]
fn calls_a_defined_function() {
    assert_eq!(evaluate("(define square (x) (* x x)) (square 5)"), Ok("25".to_string()));
}

#[test]
fn a_call_with_too_few_arguments_is_an_unexpected_end() {
    assert_eq!(
        evaluate("(define square (x) (* x x)) (square)"),
        Err(InterpretError::UnexpectedEnd)
    );
    assert_eq!(
        evaluate("(define both (x y) (+ x y)) (both 1)"),
        Err(InterpretError::UnexpectedEnd)
    );
}

#[test]
fn a_call_leaves_further_expressions_alone() {
    assert_eq!(value("(define square (x) (* x x)) (square 5 6)"), "25");
}

#[test]
fn division_by_zero_is_an_arithmetic_error() {
    assert_eq!(evaluate("(/ 4 0)"), Err(InterpretError::ArithmeticError));
    assert_eq!(evaluate("(/ 0 0)"), Err(InterpretError::ArithmeticError));
}

#[test]
fn unmatched_close_is_named() {
    assert_eq!(
        evaluate("(+ 1 2))"),
        Err(InterpretError::UnbalancedDelimiter(DelimiterFault::UnmatchedClose))
    );
    assert_eq!(
        evaluate(")(+ 1 2)"),
        Err(InterpretError::UnbalancedDelimiter(DelimiterFault::UnmatchedClose))
    );
    assert_eq!(
        evaluate("(+ 1 (* 2 3)) 4 ) 5"),
        Err(InterpretError::UnbalancedDelimiter(DelimiterFault::UnmatchedClose))
    );
}

#[test]
fn unclosed_list_is_named() {
    assert_eq!(
        evaluate("(+ 1 2"),
        Err(InterpretError::UnbalancedDelimiter(DelimiterFault::UnclosedList))
    );
}

#[test]
fn arithmetic_on_two_operands() {
    assert_eq!(value("(+ 20 22)"), "42");
    assert_eq!(value("(- 20 22)"), "-2");
    assert_eq!(value("(* 6 7)"), "42");
    assert_eq!(value("(/ 42 5)"), "8");
}

#[test]
fn division_rounds_toward_zero() {
    assert_eq!(value("(/ 7 2)"), "3");
    assert_eq!(value("(/ (- 7) 2)"), "-3");
    assert_eq!(value("(/ 7 (- 2))"), "-3");
    assert_eq!(value("(/ (- 7) (- 2))"), "3");
}

#[test]
fn overflow_is_an_arithmetic_error() {
    assert_eq!(evaluate("(+ 2147483647 1)"), Err(InterpretError::ArithmeticError));
    assert_eq!(evaluate("(* 65536 32768)"), Err(InterpretError::ArithmeticError));
    assert_eq!(evaluate("(- (- 2147483647) 2)"), Err(InterpretError::ArithmeticError));
    assert_eq!(evaluate("(- (- (- 2147483647) 1))"), Err(InterpretError::ArithmeticError));
    assert_eq!(
        evaluate("(/ (- (- 2147483647) 1) (- 1))"),
        Err(InterpretError::ArithmeticError)
    );
}

#[test]
fn the_ends_of_the_range_are_reached() {
    assert_eq!(value("(+ 2147483646 1)"), "2147483647");
    assert_eq!(value("(- (- 2147483647) 1)"), "-2147483648");
    assert_eq!(value("(* 65536 32767)"), "2147418112");
    assert_eq!(value("(/ (- (- 2147483647) 1) 1)"), "-2147483648");
}

#[test]
fn a_literal_that_does_not_fit_is_a_parse_failure() {
    assert_eq!(evaluate("(+ 2147483648 1)"), Err(InterpretError::ParseFailure));
}

#[test]
fn comparisons_are_those_of_signed_integers() {
    let numbers = [-2147483647, -5, -1, 0, 1, 2, 7, 2147483647];
    for a in numbers {
        for b in numbers {
            let write = |n: i32| if n < 0 { format!("(- {})", -n) } else { format!("{}", n) };
            let (x, y) = (write(a), write(b));
            assert_eq!(value(&format!("(< {} {})", x, y)), (a < b).to_string());
            assert_eq!(value(&format!("(<= {} {})", x, y)), (a <= b).to_string());
            assert_eq!(value(&format!("(> {} {})", x, y)), (a > b).to_string());
            assert_eq!(value(&format!("(>= {} {})", x, y)), (a >= b).to_string());
            assert_eq!(value(&format!("(== {} {})", x, y)), (a == b).to_string());
        }
    }
}

#[test]
fn comparison_at_the_lowest_integer() {
    assert_eq!(value("(< (- (- 2147483647) 1) 2147483647)"), "true");
    assert_eq!(value("(> (- (- 2147483647) 1) 2147483647)"), "false");
}

#[test]
fn boolean_connectives() {
    assert_eq!(value("(& true false)"), "false");
    assert_eq!(value("(& true true)"), "true");
    assert_eq!(value("(| true false)"), "true");
    assert_eq!(value("(| false false)"), "false");
    assert_eq!(value("(& (< 1 2) (> 3 2))"), "true");
}

#[test]
fn a_connective_on_anything_but_booleans_is_a_parse_failure() {
    assert_eq!(evaluate("(& true 1)"), Err(InterpretError::ParseFailure));
    assert_eq!(evaluate("(| yes false)"), Err(InterpretError::ParseFailure));
    assert_eq!(evaluate("(& True false)"), Err(InterpretError::ParseFailure));
}

#[test]
fn logical_not_takes_a_boolean_only() {
    assert_eq!(value("(! true)"), "false");
    assert_eq!(value("(! (< 2 1))"), "true");
    assert_eq!(evaluate("(! 5)"), Err(InterpretError::ParseFailure));
}

#[test]
fn arithmetic_on_anything_but_integers_is_a_parse_failure() {
    assert_eq!(evaluate("(+ a 1)"), Err(InterpretError::ParseFailure));
    assert_eq!(evaluate("(+ 1 true)"), Err(InterpretError::ParseFailure));
    assert_eq!(evaluate("(< 1 \"x\")"), Err(InterpretError::ParseFailure));
    assert_eq!(evaluate("(- a)"), Err(InterpretError::ParseFailure));
}

#[test]
fn an_operator_outside_its_table_is_unknown() {
    assert_eq!(evaluate("(% 4 2)"), Err(InterpretError::UnknownOperator("%".to_string())));
    assert_eq!(evaluate("(** 4 2)"), Err(InterpretError::UnknownOperator("**".to_string())));
    assert_eq!(evaluate("(!= 4 2)"), Err(InterpretError::UnknownOperator("!=".to_string())));
    assert_eq!(evaluate("(= 4 2)"), Err(InterpretError::UnknownOperator("=".to_string())));
    assert_eq!(evaluate("(format 4)"), Err(InterpretError::UnknownOperator("format".to_string())));
}

#[test]
fn only_minus_falls_back_to_a_unary_operator() {
    assert_eq!(evaluate("(+ 5)"), Err(InterpretError::UnknownOperator("+".to_string())));
    assert_eq!(evaluate("(* 5)"), Err(InterpretError::UnknownOperator("*".to_string())));
    assert_eq!(value("(+ 1 - 5)"), "-4");
}

#[test]
fn a_missing_operand_is_an_unexpected_end() {
    assert_eq!(evaluate("(+)"), Err(InterpretError::UnexpectedEnd));
    assert_eq!(evaluate("(< 1)"), Err(InterpretError::UnexpectedEnd));
    assert_eq!(evaluate("(!)"), Err(InterpretError::UnexpectedEnd));
    assert_eq!(evaluate("()"), Err(InterpretError::UnexpectedEnd));
    assert_eq!(evaluate("(if true 1)"), Err(InterpretError::UnexpectedEnd));
    assert_eq!(evaluate("(if false 1)"), Err(InterpretError::UnexpectedEnd));
    assert_eq!(evaluate("(define)"), Err(InterpretError::UnexpectedEnd));
}

#[test]
fn literals_evaluate_to_their_text() {
    assert_eq!(value("12"), "12");
    assert_eq!(value("007"), "7");
    assert_eq!(value("true"), "true");
    assert_eq!(value("false"), "false");
    assert_eq!(value("\"Hello, World\""), "Hello, World");
    assert_eq!(value("\"\""), "");
}

#[test]
fn a_free_identifier_evaluates_to_itself() {
    assert_eq!(value("x"), "x");
    assert_eq!(value("(fib)"), "fib");
}

#[test]
fn results_are_joined_with_single_spaces() {
    assert_eq!(value("1 2 3"), "1 2 3");
    assert_eq!(value("(+ 1 2) x \"a b\" (< 1 2)"), "3 x a b true");
    assert_eq!(value(""), "");
}

#[test]
fn empty_results_take_no_place_in_the_output() {
    assert_eq!(value("(define one () 1)"), "");
    assert_eq!(value("1 (define one () 1) 2 \"\" 3"), "1 2 3");
}

#[test]
fn a_list_gives_the_value_of_its_first_expression() {
    assert_eq!(value("(1 2 3)"), "1");
    assert_eq!(value("((+ 1 2) (/ 1 0))"), "3");
}

#[test]
fn the_first_failure_ends_the_program() {
    assert_eq!(evaluate("1 (/ 1 0) 2"), Err(InterpretError::ArithmeticError));
    assert_eq!(
        evaluate("(+ 1 2) (% 1 2) (/ 1 0)"),
        Err(InterpretError::UnknownOperator("%".to_string()))
    );
}

#[test]
fn a_condition_selects_a_branch() {
    assert_eq!(value("(if true 1 2)"), "1");
    assert_eq!(value("(if false 1 2)"), "2");
    assert_eq!(value("(if (> 11 10) \"big\" \"small\")"), "big");
    assert_eq!(value("(if (> 9 10) \"big\" \"small\")"), "small");
}

#[test]
fn only_the_selected_branch_is_evaluated() {
    assert_eq!(value("(if true 1 (/ 1 0))"), "1");
    assert_eq!(value("(if false (/ 1 0) 2)"), "2");
    assert_eq!(value("(if false (define a () 1) 2) a"), "2 a");
}

#[test]
fn a_condition_that_is_no_boolean_is_a_parse_failure() {
    assert_eq!(evaluate("(if 1 2 3)"), Err(InterpretError::ParseFailure));
    assert_eq!(evaluate("(if x 2 3)"), Err(InterpretError::ParseFailure));
}

#[test]
fn recursion_reaches_its_base_case() {
    let fib = "(define fib (n) (if (< n 2) n (+ (fib (- n 1)) (fib (- n 2)))))";
    assert_eq!(value(&format!("{} (fib 7)", fib)), "13");
    assert_eq!(value(&format!("{} (fib 0) (fib 1) (fib 2) (fib 10)", fib)), "0 1 1 55");
    let fact = "(define fact (n) (if (<= n 1) 1 (* n (fact (- n 1)))))";
    assert_eq!(value(&format!("{} (fact 5)", fact)), "120");
    assert_eq!(value(&format!("{} (fact 12)", fact)), "479001600");
    assert_eq!(evaluate(&format!("{} (fact 13)", fact)), Err(InterpretError::ArithmeticError));
}

#[test]
fn functions_call_each_other() {
    assert_eq!(
        value(
            "(define doublen (n) (* n 2))
             (define fib (n) (if (< n 2) n (+ (fib (- n 1)) (fib (- n 2)))))
             (define fact (n) (if (<= n 1) 1 (* n (fact (- n 1)))))
             (doublen 5) (fib 7) (fact 5) (fib (fact 3))"
        ),
        "10 13 120 8"
    );
}

#[test]
fn endless_recursion_is_a_recursion_limit() {
    assert_eq!(evaluate("(define f () (f)) (f)"), Err(InterpretError::RecursionLimit));
    assert_eq!(
        evaluate("(define down (n) (down (- n 1))) (down 0)"),
        Err(InterpretError::RecursionLimit)
    );
}

#[test]
fn a_function_without_parameters() {
    assert_eq!(
        value("(define hello () \"Hello, Coding Challenge World\") (hello)"),
        "Hello, Coding Challenge World"
    );
    assert_eq!(value("(define five () 5) (+ five five)"), "10");
}

#[test]
fn parameters_are_bound_in_order() {
    assert_eq!(value("(define minus (a b) (- a b)) (minus 10 3)"), "7");
    assert_eq!(value("(define pick (a b c) b) (pick 1 2 3)"), "2");
}

#[test]
fn a_single_atom_names_the_one_parameter() {
    assert_eq!(value("(define twice x (* x 2)) (twice 21)"), "42");
}

#[test]
fn arguments_are_evaluated_before_the_call() {
    assert_eq!(value("(define square (x) (* x x)) (square (+ 1 2))"), "9");
    assert_eq!(
        evaluate("(define first (a b) a) (first 1 (/ 1 0))"),
        Err(InterpretError::ArithmeticError)
    );
}

#[test]
fn a_parameter_hides_an_outer_definition() {
    assert_eq!(value("(define x () 1) (define f (x) (+ x 1)) (f 10) (x)"), "11 1");
}

#[test]
fn a_body_sees_the_enclosing_definitions() {
    assert_eq!(value("(define ten () 10) (define f (n) (+ n (ten))) (f 5)"), "15");
}

#[test]
fn a_definition_in_a_body_ends_with_the_call() {
    assert_eq!(value("(define f () (define g () 1)) (f) (g)"), "g");
}

#[test]
fn the_scope_is_closed_after_a_failed_call() {
    assert_eq!(
        evaluate("(define f (x) (/ x 0)) (f 1)"),
        Err(InterpretError::ArithmeticError)
    );
}

#[test]
fn a_later_definition_replaces_an_earlier_one() {
    assert_eq!(value("(define f () 1) (define f () 2) (f)"), "2");
}

#[test]
fn the_value_of_a_body_is_that_of_its_last_expression() {
    assert_eq!(value("(define f (x) (1 2 x)) (f 9)"), "9");
}
