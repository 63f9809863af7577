use krypton::parser::ParseError;
use krypton::parser::Parser;
use krypton::parser::Tree;
use krypton::tokenize::Token;
use krypton::tokenize::Tokenizer;

fn parse(src: &str) -> Result<Vec<Tree>, ParseError> {
    let tokens = Tokenizer::new(src.to_string()).tokenize();
    Parser::new(&tokens).parse_tokens()
}

fn parse_err(src: &str) -> ParseError {
    parse(src).expect_err("expected a parse failure")
}

#[test]
fn parses_let_with_literal() {
    assert_eq!(
        parse("let x = 1").unwrap(),
        vec![Tree::Let("x".to_string(), Box::new(Tree::Number(1)))]
    );
}

#[test]
fn multiplication_binds_tighter_than_addition() {
    assert_eq!(
        parse("exit (1 + 2 * 3)").unwrap(),
        vec![Tree::Exit(Box::new(Tree::BinOp(
            Box::new(Tree::Number(1)),
            Token::Plus,
            Box::new(Tree::BinOp(
                Box::new(Tree::Number(2)),
                Token::Multiply,
                Box::new(Tree::Number(3)),
            )),
        )))]
    );
}

#[test]
fn expression_operators_are_left_associative() {
    assert_eq!(
        parse("exit (1 - 2 + 3)").unwrap(),
        vec![Tree::Exit(Box::new(Tree::BinOp(
            Box::new(Tree::BinOp(
                Box::new(Tree::Number(1)),
                Token::Minus,
                Box::new(Tree::Number(2)),
            )),
            Token::Plus,
            Box::new(Tree::Number(3)),
        )))]
    );
}

#[test]
fn comparison_shares_the_expression_level() {
    assert_eq!(
        parse("exit (1 + 2 < 3)").unwrap(),
        vec![Tree::Exit(Box::new(Tree::CmpOp(
            Box::new(Tree::BinOp(
                Box::new(Tree::Number(1)),
                Token::Plus,
                Box::new(Tree::Number(2)),
            )),
            Token::Less,
            Box::new(Tree::Number(3)),
        )))]
    );
}

#[test]
fn unary_minus_desugars_to_zero_minus() {
    assert_eq!(
        parse("exit -5").unwrap(),
        vec![Tree::Exit(Box::new(Tree::BinOp(
            Box::new(Tree::Number(0)),
            Token::Minus,
            Box::new(Tree::Number(5)),
        )))]
    );
}

#[test]
fn unary_plus_is_dropped() {
    assert_eq!(parse("exit +5").unwrap(), vec![Tree::Exit(Box::new(Tree::Number(5)))]);
}

#[test]
fn empty_parens_are_the_empty_expression() {
    assert_eq!(parse("exit ()").unwrap(), vec![Tree::Exit(Box::new(Tree::Empty))]);
}

#[test]
fn assignment_increment_and_decrement() {
    assert_eq!(
        parse("x = 2 y++ z--").unwrap(),
        vec![
            Tree::Assign("x".to_string(), Box::new(Tree::Number(2))),
            Tree::Inc("y".to_string()),
            Tree::Dec("z".to_string()),
        ]
    );
}

#[test]
fn if_labels_are_allocated_after_the_body() {
    let trees = parse("if (1 < 2) { } ").unwrap();
    assert_eq!(
        trees,
        vec![Tree::If {
            expr: Box::new(Tree::CmpOp(
                Box::new(Tree::Number(1)),
                Token::Less,
                Box::new(Tree::Number(2)),
            )),
            body: vec![],
            last_case: 1,
            next_case: 1,
            els: None,
            els_ifs: vec![],
        }]
    );
}

#[test]
fn if_elsif_els_chain_labels() {
    let trees = parse("if (1 < 2) { } elsif (3 < 4) { } els { }").unwrap();
    assert_eq!(
        trees,
        vec![Tree::If {
            expr: Box::new(Tree::CmpOp(
                Box::new(Tree::Number(1)),
                Token::Less,
                Box::new(Tree::Number(2)),
            )),
            body: vec![],
            last_case: 3,
            next_case: 1,
            els: Some(vec![]),
            els_ifs: vec![Tree::ElsIf {
                curr_case: 1,
                expr: Box::new(Tree::CmpOp(
                    Box::new(Tree::Number(3)),
                    Token::Less,
                    Box::new(Tree::Number(4)),
                )),
                body: vec![],
                next_case: 2,
            }],
        }]
    );
}

#[test]
fn while_allocates_start_before_and_test_after_body() {
    assert_eq!(
        parse("while (1 < 2) { }").unwrap(),
        vec![Tree::While {
            expr: Box::new(Tree::CmpOp(
                Box::new(Tree::Number(1)),
                Token::Less,
                Box::new(Tree::Number(2)),
            )),
            start: 1,
            body: vec![],
            end: 2,
        }]
    );
}

#[test]
fn for_arrow_form_parses_to_for_node() {
    assert_eq!(
        parse("for i -> 5 { }").unwrap(),
        vec![Tree::For {
            var: "i".to_string(),
            expr: Box::new(Tree::Number(5)),
            body: vec![],
        }]
    );
}

#[test]
fn for_paren_form_desugars_to_while() {
    assert_eq!(
        parse("for (1 < 2) { }").unwrap(),
        vec![Tree::While {
            expr: Box::new(Tree::CmpOp(
                Box::new(Tree::Number(1)),
                Token::Less,
                Box::new(Tree::Number(2)),
            )),
            start: 1,
            body: vec![],
            end: 2,
        }]
    );
}

#[test]
fn syscall_arguments_keep_their_order() {
    assert_eq!(
        parse("syscall(60, 5, 7)").unwrap(),
        vec![Tree::SysCall(vec![Tree::Number(60), Tree::Number(5), Tree::Number(7)])]
    );
}

#[test]
fn parsing_twice_yields_the_same_labels() {
    let src = "if (1 < 2) { while (3 < 4) { } } els { } while (5 < 6) { }";
    let tokens = Tokenizer::new(src.to_string()).tokenize();
    let first = Parser::new(&tokens).parse_tokens().unwrap();
    let second = Parser::new(&tokens).parse_tokens().unwrap();
    assert_eq!(first, second);
}

#[test]
fn reusing_one_parser_still_restarts_label_numbering() {
    let tokens = Tokenizer::new("while (1 < 2) { }".to_string()).tokenize();
    let mut parser = Parser::new(&tokens);
    let first = parser.parse_tokens().unwrap();
    let second = parser.parse_tokens().unwrap();
    assert_eq!(first, second);
}

#[test]
fn error_unexpected_end() {
    assert_eq!(parse_err("exit"), ParseError::UnexpectedEnd);
}

#[test]
fn error_invalid_factor() {
    assert_eq!(parse_err("*"), ParseError::InvalidFactor);
}

#[test]
fn error_dangling_else() {
    assert_eq!(parse_err("els { }"), ParseError::DanglingElse);
    assert_eq!(parse_err("elsif (1 < 2) { }"), ParseError::DanglingElse);
}

#[test]
fn error_excessive_else() {
    assert_eq!(parse_err("if (1 < 2) { } els { } els { }"), ParseError::ExcessiveElse);
}

#[test]
fn error_expected_open_paren() {
    assert_eq!(parse_err("while 1 { }"), ParseError::ExpectedOpenParen);
    assert_eq!(parse_err("syscall 9"), ParseError::ExpectedOpenParen);
}

#[test]
fn error_expected_close_paren() {
    assert_eq!(parse_err("(1"), ParseError::ExpectedCloseParen);
    assert_eq!(parse_err("if (1 < 2 { }"), ParseError::ExpectedCloseParen);
}

#[test]
fn error_expected_open_brace() {
    assert_eq!(parse_err("if (1 < 2) 3"), ParseError::ExpectedOpenBrace);
}

#[test]
fn error_expected_close_brace() {
    assert_eq!(parse_err("if (1 < 2) { let x = 1"), ParseError::ExpectedCloseBrace);
}

#[test]
fn error_let_without_identifier() {
    assert_eq!(parse_err("let 5 = 3"), ParseError::ExpectedLetIdent);
    assert_eq!(parse_err("let"), ParseError::ExpectedLetIdent);
}

#[test]
fn error_let_without_equals() {
    assert_eq!(parse_err("let x 3"), ParseError::ExpectedLetEquals);
}

#[test]
fn error_for_without_arrow() {
    assert_eq!(parse_err("for x 3"), ParseError::ExpectedForArrow);
}

#[test]
fn error_for_bad_header() {
    assert_eq!(parse_err("for * 3"), ParseError::ExpectedForHeader);
    assert_eq!(parse_err("for"), ParseError::ExpectedForHeader);
}

#[test]
fn empty_token_stream_parses_to_empty_program() {
    assert_eq!(parse("").unwrap(), Vec::<Tree>::new());
}
