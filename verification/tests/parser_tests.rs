use lisp_interpreter::interpreter::{DelimiterFault, InterpretError};
use lisp_interpreter::parser::{
    atom as atom_at, convert, display_tree, kind_of, my_parser, parse_list, tokens_of, Element,
    Kind, ParserResult,
};

fn atom(kind: Kind, value: &str) -> ParserResult {
    ParserResult::Atom(Element { kind, value: value.to_string() })
}

fn name(value: &str) -> ParserResult {
    atom(Kind::Identifier, value)
}

fn number(value: &str) -> ParserResult {
    atom(Kind::Literal, value)
}

fn list(items: Vec<ParserResult>) -> ParserResult {
    ParserResult::Expression(items)
}

fn words(items: &[&str]) -> Vec<String> {
    items.iter().map(|s| s.to_string()).collect()
}

#[test]
fn test_fib_parsing() {
    let input = "(defun fib (n) (if (< n 2) n (+ (fib (- n 1)) (fib (- n 2)))))";

    let expected = list(vec![
        name("defun"),
        name("fib"),
        list(vec![name("n")]),
        list(vec![
            atom(Kind::Condition, "if"),
            list(vec![atom(Kind::LogicalInt, "<"), name("n"), number("2")]),
            name("n"),
            list(vec![
                atom(Kind::Binary, "+"),
                list(vec![
                    name("fib"),
                    list(vec![atom(Kind::Binary, "-"), name("n"), number("1")]),
                ]),
                list(vec![
                    name("fib"),
                    list(vec![atom(Kind::Binary, "-"), name("n"), number("2")]),
                ]),
            ]),
        ]),
    ]);

    let parse_result = my_parser(input);
    assert!(parse_result.is_ok());

    let parsed = parse_result.unwrap();
    assert_eq!(parsed, vec![expected]);
}

#[test]
fn test_fact_parsing() {
    let input = "(defun fact (n) (if (<= n 1) 1 (* n (fact (- n 1)))))";

    let expected = list(vec![
        name("defun"),
        name("fact"),
        list(vec![name("n")]),
        list(vec![
            atom(Kind::Condition, "if"),
            list(vec![atom(Kind::LogicalInt, "<="), name("n"), number("1")]),
            number("1"),
            list(vec![
                atom(Kind::Binary, "*"),
                name("n"),
                list(vec![
                    name("fact"),
                    list(vec![atom(Kind::Binary, "-"), name("n"), number("1")]),
                ]),
            ]),
        ]),
    ]);

    let parse_result = my_parser(input);
    assert!(parse_result.is_ok());

    let parsed = parse_result.unwrap();
    assert_eq!(parsed, vec![expected]);
}

#[test]
fn test_nested_expressions() {
    let input = "(fib (fact 3))";

    let expected = list(vec![name("fib"), list(vec![name("fact"), number("3")])]);

    let parse_result = my_parser(input);
    assert!(parse_result.is_ok());

    let parsed = parse_result.unwrap();
    assert_eq!(parsed, vec![expected]);
}

#[test]
fn classifies_each_kind_of_atom() {
    assert_eq!(kind_of("define"), Kind::Function);
    assert_eq!(kind_of("if"), Kind::Condition);
    assert_eq!(kind_of("format"), Kind::Format);
    assert_eq!(kind_of("("), Kind::Separator);
    assert_eq!(kind_of(")"), Kind::Separator);
    for op in ["<", "<=", ">", ">=", "==", "=", "!="] {
        assert_eq!(kind_of(op), Kind::LogicalInt);
    }
    for op in ["+", "-", "*", "/", "**", "%"] {
        assert_eq!(kind_of(op), Kind::Binary);
    }
    assert_eq!(kind_of("&"), Kind::LogicalBool);
    assert_eq!(kind_of("|"), Kind::LogicalBool);
    assert_eq!(kind_of("!"), Kind::Unary);
    assert_eq!(kind_of("true"), Kind::Literal);
    assert_eq!(kind_of("false"), Kind::Literal);
    assert_eq!(kind_of("42"), Kind::Literal);
    assert_eq!(kind_of("\"big\""), Kind::Literal);
    assert_eq!(kind_of("x1"), Kind::Identifier);
    assert_eq!(kind_of("-5"), Kind::Identifier);
}

#[test]
fn minus_is_always_binary() {
    let trees = parse_list(&words(&["(", "-", "5", ")"])).unwrap();
    assert_eq!(trees, vec![list(vec![atom(Kind::Binary, "-"), number("5")])]);
}

#[test]
fn lookahead_joins_two_token_operators() {
    let trees = parse_list(&words(&["<", "=", ">", "=", "=", "=", "!", "=", "*", "*"])).unwrap();
    assert_eq!(
        trees,
        vec![
            atom(Kind::LogicalInt, "<="),
            atom(Kind::LogicalInt, ">="),
            atom(Kind::LogicalInt, "=="),
            atom(Kind::LogicalInt, "!="),
            atom(Kind::Binary, "**"),
        ]
    );
}

#[test]
fn lookahead_falls_back_to_the_single_token() {
    let trees = parse_list(&words(&["<", "1", "=", "!", "*", "2"])).unwrap();
    assert_eq!(
        trees,
        vec![
            atom(Kind::LogicalInt, "<"),
            number("1"),
            atom(Kind::LogicalInt, "="),
            atom(Kind::Unary, "!"),
            atom(Kind::Binary, "*"),
            number("2"),
        ]
    );
}

#[test]
fn lookahead_joins_from_the_left() {
    let trees = parse_list(&words(&["=", "=", "="])).unwrap();
    assert_eq!(trees, vec![atom(Kind::LogicalInt, "=="), atom(Kind::LogicalInt, "=")]);
}

#[test]
fn top_level_expressions_come_in_order() {
    let trees = parse_list(&words(&["(", "a", ")", "b", "(", ")"])).unwrap();
    assert_eq!(trees, vec![list(vec![name("a")]), name("b"), list(vec![])]);
}

#[test]
fn empty_input_has_no_expressions() {
    assert_eq!(parse_list(&[]), Ok(vec![]));
}

#[test]
fn close_without_open_is_unmatched() {
    assert_eq!(
        parse_list(&words(&["(", "a", ")", ")", "("])),
        Err(InterpretError::UnbalancedDelimiter(DelimiterFault::UnmatchedClose))
    );
    assert_eq!(
        parse_list(&words(&[")"])),
        Err(InterpretError::UnbalancedDelimiter(DelimiterFault::UnmatchedClose))
    );
}

#[test]
fn input_that_ends_in_a_list_is_unclosed() {
    assert_eq!(
        parse_list(&words(&["(", "a", "(", "b", ")"])),
        Err(InterpretError::UnbalancedDelimiter(DelimiterFault::UnclosedList))
    );
}

#[test]
fn my_parser_reports_the_class_of_imbalance() {
    assert_eq!(
        my_parser("(fib (fact 3)))"),
        Err(InterpretError::UnbalancedDelimiter(DelimiterFault::UnmatchedClose))
    );
    assert_eq!(
        my_parser("(fib (fact 3)"),
        Err(InterpretError::UnbalancedDelimiter(DelimiterFault::UnclosedList))
    );
}

#[test]
fn my_parser_passes_on_a_tokenizer_failure() {
    assert_eq!(my_parser("(\"open"), Err(InterpretError::UnexpectedEnd));
    assert_eq!(my_parser("(+ 1 99999999999)"), Err(InterpretError::ParseFailure));
}

#[test]
fn my_parser_hands_numbers_over_without_quotes() {
    assert_eq!(
        my_parser("(+ 3 \"4\")").unwrap(),
        vec![list(vec![atom(Kind::Binary, "+"), number("3"), number("\"4\"")])]
    );
}

#[test]
fn convert_gives_the_expressions_or_nothing() {
    assert_eq!(convert(&words(&["(", "a", ")"])), vec![list(vec![name("a")])]);
    assert_eq!(convert(&words(&["(", "a"])), vec![]);
    assert_eq!(convert(&words(&["a", ")"])), vec![]);
}

#[test]
fn round_trip_gives_the_same_tree() {
    let inputs = [
        "(define fib (n) (if (< n 2) n (+ (fib (- n 1)) (fib (- n 2)))))",
        "(<= 1 2) (** 2 3) (!= a b) (== 1 1) (>= 2 1)",
        "() (()) ((a) b \"c d\" 12)",
        "",
    ];
    for input in inputs {
        let trees = my_parser(input).unwrap();
        let again = parse_list(&tokens_of(&trees)).unwrap();
        assert_eq!(again, trees);
    }
}

#[test]
fn round_trip_of_raw_tokens() {
    let raw = words(&["(", "<", "<", "=", "=", "*", "*", "*", ")", "!", "="]);
    let trees = parse_list(&raw).unwrap();
    assert_eq!(
        tokens_of(&trees),
        words(&["(", "<", "<=", "=", "**", "*", ")", "!="])
    );
    assert_eq!(parse_list(&tokens_of(&trees)).unwrap(), trees);
}

#[test]
fn tokens_of_writes_the_parentheses_back() {
    let trees = vec![list(vec![name("f"), list(vec![]), number("1")]), name("x")];
    assert_eq!(tokens_of(&trees), words(&["(", "f", "(", ")", "1", ")", "x"]));
}

#[test]
fn to_string_joins_with_single_spaces() {
    assert_eq!(name("abc").to_string(), "abc");
    assert_eq!(list(vec![]).to_string(), "");
    assert_eq!(list(vec![name("a")]).to_string(), "a");
    assert_eq!(
        list(vec![name("a"), list(vec![name("b"), number("1")]), name("c")]).to_string(),
        "a b 1 c"
    );
}

#[test]
fn clone_copies_the_whole_tree() {
    let tree = list(vec![name("a"), list(vec![number("1"), list(vec![])])]);
    assert_eq!(tree.clone(), tree);
}

#[test]
fn display_tree_indents_four_spaces_a_level() {
    let trees = vec![list(vec![name("a"), list(vec![number("1")])]), name("b")];
    assert_eq!(
        display_tree(&trees, 0),
        vec![
            "(".to_string(),
            "    a".to_string(),
            "    (".to_string(),
            "        1".to_string(),
            "    )".to_string(),
            ")".to_string(),
            "b".to_string(),
        ]
    );
    assert_eq!(display_tree(&[name("x")], 2), vec!["        x".to_string()]);
    assert_eq!(display_tree(&[], 3), Vec::<String>::new());
}

#[test]
fn atom_reads_one_token_at_a_place() {
    let input = "(<= n1 12) \"a b\"";
    assert_eq!(atom_at(input, 0), Some(("(".to_string(), 1)));
    assert_eq!(atom_at(input, 1), Some(("<=".to_string(), 3)));
    assert_eq!(atom_at(input, 3), None);
    assert_eq!(atom_at(input, 4), Some(("n1".to_string(), 6)));
    assert_eq!(atom_at(input, 7), Some(("12".to_string(), 9)));
    assert_eq!(atom_at(input, 9), Some((")".to_string(), 10)));
    assert_eq!(atom_at(input, 11), Some(("\"a b\"".to_string(), 16)));
    assert_eq!(atom_at(input, 16), None);
    assert_eq!(atom_at(input, 99), None);
    assert_eq!(atom_at("\"open", 0), None);
    assert_eq!(atom_at("99999999999", 0), None);
}
