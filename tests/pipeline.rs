use ohm::interpreter::{EvalError, Interpreter, Resolved};
use ohm::lexer::{lex, LexError, Numeral, Token};
use ohm::parser::{Expression, Literal, Multiplier, Operand, ParseError, Parser, AST};

fn num(int_digits: Vec<u8>, frac_digits: Vec<u8>) -> Numeral {
    Numeral { int_digits, frac_digits }
}

fn whole(digits: Vec<u8>) -> Numeral {
    num(digits, vec![])
}

fn number_expr(digits: Vec<u8>) -> Expression {
    Expression::Literal(Literal::Number(whole(digits)))
}

fn parse_text(text: &str) -> Result<Vec<AST>, ParseError> {
    Parser::parse(lex(text).unwrap())
}

fn single_expression(text: &str) -> Expression {
    let mut program = parse_text(text).unwrap();
    assert_eq!(program.len(), 1);
    match program.pop().unwrap() {
        AST::Eval(e) => e,
        AST::Bind { .. } => panic!("expected an evaluation"),
    }
}

fn run_binding(interpreter: &mut Interpreter, text: &str, value: u64) {
    let mut program = parse_text(text).unwrap();
    match program.pop().unwrap() {
        AST::Bind { identifier, expression } => {
            interpreter.resolve(&expression).unwrap();
            interpreter.bind(identifier, value);
        }
        AST::Eval(_) => panic!("expected a binding"),
    }
}

#[test]
fn lex_operators_and_punctuation() {
    let tokens = lex("? = ->(1, //(2, 2))").unwrap();
    assert_eq!(
        tokens,
        vec![
            Token::Evaluator,
            Token::Equal,
            Token::Series,
            Token::LeftParenthesis,
            Token::Number(whole(vec![1])),
            Token::Comma,
            Token::Parallel,
            Token::LeftParenthesis,
            Token::Number(whole(vec![2])),
            Token::Comma,
            Token::Number(whole(vec![2])),
            Token::RightParenthesis,
            Token::RightParenthesis,
        ]
    );
}

#[test]
fn lex_skips_blanks() {
    assert_eq!(lex(" \t\r").unwrap(), vec![]);
    assert_eq!(lex("").unwrap(), vec![]);
}

#[test]
fn lex_newline_gives_end_of_line() {
    let tokens = lex("x = 1\n? = x").unwrap();
    assert_eq!(tokens[3], Token::EndOfLine);
    assert_eq!(tokens.len(), 7);
}

#[test]
fn lex_suffix_is_its_own_token() {
    let tokens = lex("? = 47k").unwrap();
    assert_eq!(
        tokens,
        vec![
            Token::Evaluator,
            Token::Equal,
            Token::Number(whole(vec![4, 7])),
            Token::Multiplier("k".to_string()),
        ]
    );
}

#[test]
fn lex_fraction() {
    let tokens = lex("12.25").unwrap();
    assert_eq!(tokens, vec![Token::Number(num(vec![1, 2], vec![2, 5]))]);
}

#[test]
fn lex_fraction_with_suffix() {
    let tokens = lex("1.5k").unwrap();
    assert_eq!(
        tokens,
        vec![Token::Number(num(vec![1], vec![5])), Token::Multiplier("k".to_string())]
    );
}

#[test]
fn lex_point_without_digits() {
    assert_eq!(lex("3.").unwrap(), vec![Token::Number(num(vec![3], vec![]))]);
}

#[test]
fn lex_nine_and_last_letters() {
    let tokens = lex("z9_Z = 9").unwrap();
    assert_eq!(
        tokens,
        vec![Token::Identifier("z9_Z".to_string()), Token::Equal, Token::Number(whole(vec![9]))]
    );
}

#[test]
fn lex_identifier_after_suffix() {
    let tokens = lex("5kx").unwrap();
    assert_eq!(
        tokens,
        vec![
            Token::Number(whole(vec![5])),
            Token::Multiplier("k".to_string()),
            Token::Identifier("x".to_string()),
        ]
    );
}

#[test]
fn lex_bare_minus_reports_its_line() {
    assert_eq!(lex("? = -(1)"), Err(LexError { line: 1 }));
    assert_eq!(lex("x = 1\n\n? = -(1, 2)"), Err(LexError { line: 3 }));
    assert_eq!(lex("-"), Err(LexError { line: 1 }));
}

#[test]
fn lex_single_slash_is_an_error() {
    assert_eq!(lex("x = 1\n? = /(1)"), Err(LexError { line: 2 }));
}

#[test]
fn lex_unknown_character_is_an_error() {
    assert_eq!(lex("? = #"), Err(LexError { line: 1 }));
    assert_eq!(lex("? = 1.2.3"), Err(LexError { line: 1 }));
}

#[test]
fn parse_plain_number() {
    assert_eq!(single_expression("? = 5"), number_expr(vec![5]));
}

#[test]
fn parse_number_with_suffix() {
    assert_eq!(
        single_expression("? = 2.2k"),
        Expression::Literal(Literal::NumberAndMultiplier {
            number: num(vec![2], vec![2]),
            multiplier: Multiplier::K,
        })
    );
}

#[test]
fn parse_nested_combination() {
    assert_eq!(
        single_expression("? = ->(1, //(2, 2))"),
        Expression::Expression {
            operand: Operand::Series,
            args: vec![
                number_expr(vec![1]),
                Expression::Expression {
                    operand: Operand::Parallel,
                    args: vec![number_expr(vec![2]), number_expr(vec![2])],
                },
            ],
        }
    );
}

#[test]
fn parse_binding() {
    let program = parse_text("r1 = //(x, 10k)").unwrap();
    assert_eq!(
        program,
        vec![AST::Bind {
            identifier: "r1".to_string(),
            expression: Expression::Expression {
                operand: Operand::Parallel,
                args: vec![
                    Expression::Identifier("x".to_string()),
                    Expression::Literal(Literal::NumberAndMultiplier {
                        number: whole(vec![1, 0]),
                        multiplier: Multiplier::K,
                    }),
                ],
            },
        }]
    );
}

#[test]
fn parse_many_arguments() {
    match single_expression("? = ->(1, 2, 3, 4)") {
        Expression::Expression { operand, args } => {
            assert_eq!(operand, Operand::Series);
            assert_eq!(args.len(), 4);
            assert_eq!(args[3], number_expr(vec![4]));
        }
        _ => panic!("expected a combination"),
    }
}

#[test]
fn parse_missing_closing_parenthesis() {
    assert_eq!(parse_text("? = ->(1,2"), Err(ParseError::MissingRightParenthesis(Operand::Series)));
}

#[test]
fn parse_missing_opening_parenthesis() {
    assert_eq!(parse_text("? = //1, 2)"), Err(ParseError::MissingLeftParenthesis(Operand::Parallel)));
}

#[test]
fn parse_empty_argument_list() {
    assert_eq!(parse_text("? = ->()"), Err(ParseError::ExpectedExpression));
}

#[test]
fn parse_bad_statement_start() {
    assert_eq!(parse_text("= 5"), Err(ParseError::ExpectedStatement));
    assert_eq!(parse_text("5 = 5"), Err(ParseError::ExpectedStatement));
}

#[test]
fn parse_empty_input() {
    assert_eq!(parse_text(""), Err(ParseError::ExpectedStatement));
}

#[test]
fn parse_missing_equal() {
    assert_eq!(parse_text("x 5"), Err(ParseError::ExpectedEqual));
    assert_eq!(parse_text("? ->(1)"), Err(ParseError::ExpectedEqual));
}

#[test]
fn parse_missing_expression() {
    assert_eq!(parse_text("? = )"), Err(ParseError::ExpectedExpression));
    assert_eq!(parse_text("x ="), Err(ParseError::ExpectedExpression));
}

#[test]
fn parse_statements_need_separators() {
    assert_eq!(parse_text("x = 1 y = 2"), Err(ParseError::ExpectedEndOfLine));
}

#[test]
fn parse_unknown_multiplier() {
    let tokens = vec![
        Token::Evaluator,
        Token::Equal,
        Token::Number(whole(vec![1])),
        Token::Multiplier("M".to_string()),
    ];
    assert_eq!(Parser::parse(tokens), Err(ParseError::UnknownMultiplier));
}

#[test]
fn parse_blank_lines_and_trailing_newline() {
    let program = parse_text("\n\nx = 1\n? = x\n").unwrap();
    assert_eq!(program.len(), 2);
    assert_eq!(program[1], AST::Eval(Expression::Identifier("x".to_string())));
}

#[test]
fn parse_two_trailing_newlines_is_an_error() {
    assert_eq!(parse_text("x = 1\n\n"), Err(ParseError::ExpectedStatement));
}

#[test]
fn multiplier_scales_by_a_thousand() {
    assert_eq!(Multiplier::K.decimal_exponent(), 3);
}

#[test]
fn binding_then_reading_back() {
    let five = 5.0f64.to_bits();
    let mut interpreter = Interpreter::new();
    run_binding(&mut interpreter, "x = 5", five);
    let e = single_expression("? = x");
    assert_eq!(interpreter.resolve(&e), Ok(Resolved::Value(five)));
    assert_eq!(interpreter.lookup(&"x".to_string()), Some(five));
}

#[test]
fn rebinding_keeps_the_last_value() {
    let mut interpreter = Interpreter::new();
    run_binding(&mut interpreter, "x = 5", 5.0f64.to_bits());
    run_binding(&mut interpreter, "x = 7", 7.0f64.to_bits());
    let e = single_expression("? = x");
    assert_eq!(interpreter.resolve(&e), Ok(Resolved::Value(7.0f64.to_bits())));
}

#[test]
fn names_are_case_sensitive_and_independent() {
    let mut interpreter = Interpreter::new();
    interpreter.bind("a".to_string(), 1);
    interpreter.bind("A".to_string(), 2);
    interpreter.bind("b".to_string(), 3);
    interpreter.bind("a".to_string(), 4);
    assert_eq!(interpreter.lookup(&"a".to_string()), Some(4));
    assert_eq!(interpreter.lookup(&"A".to_string()), Some(2));
    assert_eq!(interpreter.lookup(&"b".to_string()), Some(3));
    assert_eq!(interpreter.lookup(&"c".to_string()), None);
}

#[test]
fn undefined_variable_is_an_error() {
    let interpreter = Interpreter::new();
    let e = single_expression("? = y");
    assert_eq!(interpreter.resolve(&e), Err(EvalError::UndefinedVariable("y".to_string())));
}

#[test]
fn first_undefined_variable_from_the_left() {
    let mut interpreter = Interpreter::new();
    interpreter.bind("b".to_string(), 9);
    let e = single_expression("? = ->(b, //(c, 1), d)");
    assert_eq!(interpreter.resolve(&e), Err(EvalError::UndefinedVariable("c".to_string())));
}

#[test]
fn resolve_replaces_names_by_values() {
    let mut interpreter = Interpreter::new();
    interpreter.bind("r".to_string(), 42);
    let e = single_expression("? = //(r, 1k)");
    assert_eq!(
        interpreter.resolve(&e),
        Ok(Resolved::Combination {
            operand: Operand::Parallel,
            args: vec![
                Resolved::Value(42),
                Resolved::Literal(Literal::NumberAndMultiplier {
                    number: whole(vec![1]),
                    multiplier: Multiplier::K,
                }),
            ],
        })
    );
}

#[test]
fn failed_parse_leaves_bindings_alone() {
    let mut interpreter = Interpreter::new();
    interpreter.bind("x".to_string(), 5);
    assert!(parse_text("x = ->(1,2").is_err());
    assert_eq!(interpreter.lookup(&"x".to_string()), Some(5));
}
