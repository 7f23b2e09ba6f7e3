use lisp_interpreter::interpreter::{
    binary, binary_on_texts, create_binary_map, create_logic_map, create_unary_map,
    find_operation, literal_text, logical_bool, logical_bool_on_texts, logical_int,
    logical_int_on_texts, operation_symbol, parse_bool, unary, unary_on_text, Environment,
    Function, Interpret, InterpretError, Interpreter, Operation, MAX_DEPTH,
};
use lisp_interpreter::parser::{my_parser, Element, Kind, ParserResult};

fn number(value: &str) -> ParserResult {
    ParserResult::Atom(Element { kind: Kind::Literal, value: value.to_string() })
}

fn constant(value: &str) -> Function {
    Function::new(vec![], vec![number(value)], Environment::empty())
}

#[test]
fn the_binary_table() {
    assert_eq!(
        create_binary_map(),
        vec![
            ("+", Operation::Add),
            ("*", Operation::Mul),
            ("/", Operation::Div),
            ("-", Operation::Sub),
        ]
    );
}

#[test]
fn the_logic_table() {
    assert_eq!(
        create_logic_map(),
        vec![
            ("<", Operation::Lt),
            ("<=", Operation::Lte),
            (">", Operation::Gt),
            (">=", Operation::Gte),
            ("&", Operation::And),
            ("|", Operation::Or),
            ("==", Operation::Equ),
        ]
    );
}

#[test]
fn the_unary_table() {
    assert_eq!(create_unary_map(), vec![("-", Operation::Neg), ("!", Operation::Not)]);
}

#[test]
fn find_operation_gives_the_entry_or_nothing() {
    assert_eq!(find_operation(&create_binary_map(), "/"), Some(Operation::Div));
    assert_eq!(find_operation(&create_binary_map(), "<"), None);
    assert_eq!(find_operation(&create_logic_map(), "<="), Some(Operation::Lte));
    assert_eq!(find_operation(&create_unary_map(), "-"), Some(Operation::Neg));
    assert_eq!(find_operation(&create_unary_map(), ""), None);
}

#[test]
fn every_operation_has_its_symbol() {
    assert_eq!(operation_symbol(Operation::Add), "+");
    assert_eq!(operation_symbol(Operation::Mul), "*");
    assert_eq!(operation_symbol(Operation::Div), "/");
    assert_eq!(operation_symbol(Operation::Sub), "-");
    assert_eq!(operation_symbol(Operation::Lt), "<");
    assert_eq!(operation_symbol(Operation::Lte), "<=");
    assert_eq!(operation_symbol(Operation::Gt), ">");
    assert_eq!(operation_symbol(Operation::Gte), ">=");
    assert_eq!(operation_symbol(Operation::And), "&");
    assert_eq!(operation_symbol(Operation::Or), "|");
    assert_eq!(operation_symbol(Operation::Equ), "==");
    assert_eq!(operation_symbol(Operation::Neg), "-");
    assert_eq!(operation_symbol(Operation::Not), "!");
}

#[test]
fn binary_gives_the_exact_result() {
    assert_eq!(binary(Operation::Add, 3, 4), Ok(7));
    assert_eq!(binary(Operation::Sub, 3, 4), Ok(-1));
    assert_eq!(binary(Operation::Mul, -3, 4), Ok(-12));
    assert_eq!(binary(Operation::Div, 9, 2), Ok(4));
    assert_eq!(binary(Operation::Div, -9, 2), Ok(-4));
    assert_eq!(binary(Operation::Div, 9, -2), Ok(-4));
    assert_eq!(binary(Operation::Div, -9, -2), Ok(4));
    assert_eq!(binary(Operation::Div, i32::MIN, 1), Ok(i32::MIN));
    assert_eq!(binary(Operation::Add, i32::MAX, 0), Ok(i32::MAX));
    assert_eq!(binary(Operation::Sub, i32::MIN, 0), Ok(i32::MIN));
    assert_eq!(binary(Operation::Mul, i32::MIN, 1), Ok(i32::MIN));
}

#[test]
fn binary_fails_on_overflow_and_on_a_zero_divisor() {
    assert_eq!(binary(Operation::Add, i32::MAX, 1), Err(InterpretError::ArithmeticError));
    assert_eq!(binary(Operation::Add, i32::MIN, -1), Err(InterpretError::ArithmeticError));
    assert_eq!(binary(Operation::Sub, i32::MIN, 1), Err(InterpretError::ArithmeticError));
    assert_eq!(binary(Operation::Sub, 0, i32::MIN), Err(InterpretError::ArithmeticError));
    assert_eq!(binary(Operation::Mul, i32::MAX, 2), Err(InterpretError::ArithmeticError));
    assert_eq!(binary(Operation::Mul, i32::MIN, -1), Err(InterpretError::ArithmeticError));
    assert_eq!(binary(Operation::Mul, i32::MIN, i32::MIN), Err(InterpretError::ArithmeticError));
    assert_eq!(binary(Operation::Div, i32::MIN, -1), Err(InterpretError::ArithmeticError));
    assert_eq!(binary(Operation::Div, 4, 0), Err(InterpretError::ArithmeticError));
    assert_eq!(binary(Operation::Div, 0, 0), Err(InterpretError::ArithmeticError));
}

#[test]
fn binary_knows_the_four_arithmetic_operations_only() {
    assert_eq!(binary(Operation::Lt, 1, 2), Err(InterpretError::UnknownOperator("<".to_string())));
    assert_eq!(binary(Operation::Not, 1, 2), Err(InterpretError::UnknownOperator("!".to_string())));
}

#[test]
fn unary_negates_an_integer() {
    assert_eq!(unary(Operation::Neg, 5), Ok(-5));
    assert_eq!(unary(Operation::Neg, -5), Ok(5));
    assert_eq!(unary(Operation::Neg, 0), Ok(0));
    assert_eq!(unary(Operation::Neg, i32::MAX), Ok(-i32::MAX));
    assert_eq!(unary(Operation::Neg, i32::MIN), Err(InterpretError::ArithmeticError));
    assert_eq!(unary(Operation::Not, 1), Err(InterpretError::ParseFailure));
    assert_eq!(unary(Operation::Add, 1), Err(InterpretError::UnknownOperator("+".to_string())));
}

#[test]
fn logical_int_compares() {
    assert_eq!(logical_int(Operation::Lt, 1, 2), Ok(true));
    assert_eq!(logical_int(Operation::Lt, 2, 2), Ok(false));
    assert_eq!(logical_int(Operation::Lte, 2, 2), Ok(true));
    assert_eq!(logical_int(Operation::Gt, 2, 2), Ok(false));
    assert_eq!(logical_int(Operation::Gt, 3, 2), Ok(true));
    assert_eq!(logical_int(Operation::Gte, 2, 2), Ok(true));
    assert_eq!(logical_int(Operation::Equ, 2, 2), Ok(true));
    assert_eq!(logical_int(Operation::Equ, 2, -2), Ok(false));
    assert_eq!(logical_int(Operation::Lt, i32::MIN, i32::MAX), Ok(true));
    assert_eq!(logical_int(Operation::Gt, i32::MIN, i32::MAX), Ok(false));
    assert_eq!(
        logical_int(Operation::And, 1, 2),
        Err(InterpretError::UnknownOperator("&".to_string()))
    );
}

#[test]
fn logical_bool_joins() {
    assert_eq!(logical_bool(Operation::And, true, true), Ok(true));
    assert_eq!(logical_bool(Operation::And, true, false), Ok(false));
    assert_eq!(logical_bool(Operation::Or, false, true), Ok(true));
    assert_eq!(logical_bool(Operation::Or, false, false), Ok(false));
    assert_eq!(
        logical_bool(Operation::Lt, true, false),
        Err(InterpretError::UnknownOperator("<".to_string()))
    );
}

#[test]
fn parse_bool_takes_the_two_words_only() {
    assert_eq!(parse_bool("true"), Ok(true));
    assert_eq!(parse_bool("false"), Ok(false));
    assert_eq!(parse_bool("True"), Err("Error converting to boolean".to_string()));
    assert_eq!(parse_bool(""), Err("Error converting to boolean".to_string()));
    assert_eq!(parse_bool("true "), Err("Error converting to boolean".to_string()));
}

#[test]
fn operations_on_texts() {
    assert_eq!(binary_on_texts(Operation::Add, "-3", "+4"), Ok("1".to_string()));
    assert_eq!(binary_on_texts(Operation::Add, "3", "x"), Err(InterpretError::ParseFailure));
    assert_eq!(binary_on_texts(Operation::Div, "3", "0"), Err(InterpretError::ArithmeticError));
    assert_eq!(unary_on_text(Operation::Neg, "12"), Ok("-12".to_string()));
    assert_eq!(unary_on_text(Operation::Not, "false"), Ok("true".to_string()));
    assert_eq!(unary_on_text(Operation::Not, "0"), Err(InterpretError::ParseFailure));
    assert_eq!(unary_on_text(Operation::Neg, "true"), Err(InterpretError::ParseFailure));
    assert_eq!(logical_int_on_texts(Operation::Gte, "-1", "-2"), Ok("true".to_string()));
    assert_eq!(logical_int_on_texts(Operation::Lt, "a", "2"), Err(InterpretError::ParseFailure));
    assert_eq!(logical_bool_on_texts(Operation::Or, "true", "false"), Ok("true".to_string()));
    assert_eq!(
        logical_bool_on_texts(Operation::And, "1", "false"),
        Err(InterpretError::ParseFailure)
    );
}

#[test]
fn literal_text_reads_numbers_and_strips_quotes() {
    assert_eq!(literal_text("42"), Ok("42".to_string()));
    assert_eq!(literal_text("0042"), Ok("42".to_string()));
    assert_eq!(literal_text("2147483648"), Err(InterpretError::ParseFailure));
    assert_eq!(literal_text("\"a b\""), Ok("a b".to_string()));
    assert_eq!(literal_text("\""), Ok("\"".to_string()));
    assert_eq!(literal_text("true"), Ok("true".to_string()));
    assert_eq!(literal_text("-7"), Ok("-7".to_string()));
    assert_eq!(literal_text(""), Ok("".to_string()));
}

#[test]
fn lookup_finds_nothing_in_a_new_environment() {
    let env = Environment::new();
    assert_eq!(env.scopes.len(), 1);
    assert!(env.lookup("x").is_none());
    assert_eq!(Environment::empty().scopes.len(), 0);
}

#[test]
fn define_makes_a_scope_where_there_is_none() {
    let mut env = Environment::empty();
    env.define("x".to_string(), constant("1"));
    assert_eq!(env.scopes.len(), 1);
    assert_eq!(env.lookup("x").unwrap().body, vec![number("1")]);
}

#[test]
fn lookup_walks_from_the_innermost_scope_outward() {
    let mut env = Environment::new();
    env.define("x".to_string(), constant("1"));
    env.define("y".to_string(), constant("2"));
    env.push_scope();
    env.define("x".to_string(), constant("3"));
    assert_eq!(env.lookup("x").unwrap().body, vec![number("3")]);
    assert_eq!(env.lookup("y").unwrap().body, vec![number("2")]);
    assert!(env.lookup("z").is_none());
    env.pop_scope();
    assert_eq!(env.lookup("x").unwrap().body, vec![number("1")]);
}

#[test]
fn the_latest_definition_of_a_name_wins() {
    let mut env = Environment::new();
    env.define("x".to_string(), constant("1"));
    env.define("x".to_string(), constant("2"));
    assert_eq!(env.lookup("x").unwrap().body, vec![number("2")]);
}

#[test]
fn pop_scope_on_no_scope_changes_nothing() {
    let mut env = Environment::empty();
    env.pop_scope();
    assert_eq!(env.scopes.len(), 0);
    env.push_scope();
    env.push_scope();
    env.pop_scope();
    assert_eq!(env.scopes.len(), 1);
}

#[test]
fn a_function_captures_the_environment_of_its_definition() {
    let mut env = Environment::new();
    let trees = my_parser("(define one () 1) (define two () 2)").unwrap();
    let mut interpreter = Interpreter::new(trees, &mut env);
    assert_eq!(interpreter.interpret(), Ok(()));
    let one = env.lookup("one").unwrap();
    assert_eq!(one.closure.scopes.len(), 1);
    assert_eq!(one.closure.scopes[0].len(), 0);
    let two = env.lookup("two").unwrap();
    assert_eq!(two.closure.scopes[0].len(), 1);
    assert_eq!(two.closure.scopes[0][0].name, "one");
    assert!(two.closure.lookup("two").is_none());
}

#[test]
fn a_clone_of_an_environment_is_a_snapshot() {
    let mut env = Environment::new();
    env.define("x".to_string(), constant("1"));
    let snapshot = env.clone();
    env.define("y".to_string(), constant("2"));
    assert!(snapshot.lookup("x").is_some());
    assert!(snapshot.lookup("y").is_none());
    assert!(env.lookup("y").is_some());
    let copy = env.lookup("x").unwrap().clone();
    assert_eq!(copy.body, vec![number("1")]);
}

#[test]
fn a_new_interpreter_stands_at_the_start() {
    let mut env = Environment::new();
    let trees = my_parser("(+ 1 2)").unwrap();
    let interpreter = Interpreter::new(trees.clone(), &mut env);
    assert_eq!(interpreter.tokens, trees);
    assert_eq!(interpreter.position, 0);
    assert_eq!(interpreter.result, "");
    assert_eq!(interpreter.budget, MAX_DEPTH);
}

#[test]
fn get_result_runs_the_program() {
    let mut env = Environment::new();
    let trees = my_parser("(define square (x) (* x x)) (square 5) (square 6)").unwrap();
    let mut interpreter = Interpreter::new(trees, &mut env);
    assert_eq!(interpreter.get_result(), "25 36");
    assert_eq!(interpreter.position, 3);
    assert_eq!(interpreter.get_result(), "25 36");
    assert!(env.lookup("square").is_some());
}

#[test]
fn get_result_is_empty_after_a_failure() {
    let mut env = Environment::new();
    let trees = my_parser("1 (/ 1 0) 2").unwrap();
    let mut interpreter = Interpreter::new(trees, &mut env);
    assert_eq!(interpreter.get_result(), "");
    assert_eq!(interpreter.position, 2);
}

#[test]
fn interpret_expression_moves_the_cursor() {
    let mut env = Environment::new();
    let trees = my_parser("(+ 1 2) x").unwrap();
    let mut interpreter = Interpreter::new(trees, &mut env);
    assert_eq!(interpreter.interpret_expression(), Ok("3".to_string()));
    assert_eq!(interpreter.position, 1);
    assert_eq!(interpreter.interpret_expression(), Ok("x".to_string()));
    assert_eq!(interpreter.position, 2);
    assert_eq!(interpreter.interpret_expression(), Err(InterpretError::UnexpectedEnd));
    assert_eq!(interpreter.position, 2);
    assert_eq!(interpreter.result, "");
}

#[test]
fn the_environment_outlives_its_interpreter() {
    let mut env = Environment::new();
    let first = my_parser("(define ten () 10)").unwrap();
    assert_eq!(Interpreter::new(first, &mut env).get_result(), "");
    let second = my_parser("(+ (ten) 1)").unwrap();
    assert_eq!(Interpreter::new(second, &mut env).get_result(), "11");
    assert_eq!(env.scopes.len(), 1);
}

#[test]
fn the_budget_bounds_the_nesting() {
    let mut env = Environment::new();
    let trees = my_parser("(+ 1 (+ 2 (+ 3 4)))").unwrap();
    let mut interpreter = Interpreter::new(trees.clone(), &mut env);
    interpreter.budget = 6;
    assert_eq!(interpreter.interpret_expression(), Err(InterpretError::RecursionLimit));
    let mut interpreter = Interpreter::new(trees.clone(), &mut env);
    interpreter.budget = 7;
    assert_eq!(interpreter.interpret_expression(), Ok("10".to_string()));
    let mut interpreter = Interpreter::new(trees, &mut env);
    interpreter.budget = 0;
    assert_eq!(interpreter.interpret_expression(), Err(InterpretError::RecursionLimit));
}

#[test]
fn scopes_are_closed_after_a_failed_call() {
    let mut env = Environment::new();
    let trees = my_parser("(define f (x) (/ x 0)) (f 1)").unwrap();
    let mut interpreter = Interpreter::new(trees, &mut env);
    assert_eq!(interpreter.interpret(), Err(InterpretError::ArithmeticError));
    assert_eq!(env.scopes.len(), 1);
    assert!(env.lookup("x").is_none());
}

#[test]
fn a_hand_built_separator_is_an_unknown_operator() {
    let mut env = Environment::new();
    let trees =
        vec![ParserResult::Atom(Element { kind: Kind::Separator, value: "(".to_string() })];
    let mut interpreter = Interpreter::new(trees, &mut env);
    assert_eq!(
        interpreter.interpret_expression(),
        Err(InterpretError::UnknownOperator("(".to_string()))
    );
}

#[test]
fn a_hand_built_unary_minus_negates() {
    let mut env = Environment::new();
    let trees = vec![
        ParserResult::Atom(Element { kind: Kind::Unary, value: "-".to_string() }),
        number("5"),
    ];
    let mut interpreter = Interpreter::new(trees, &mut env);
    assert_eq!(interpreter.interpret_expression(), Ok("-5".to_string()));
}
