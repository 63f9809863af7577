use krypton::tokenize::Token;
use krypton::tokenize::Tokenizer;

fn scan(src: &str) -> Vec<Token> {
    Tokenizer::new(src.to_string()).tokenize()
}

#[test]
fn scans_let_statement() {
    assert_eq!(
        scan("let x = 3"),
        vec![
            Token::Let,
            Token::Ident("x".to_string()),
            Token::Equal,
            Token::Number(3),
        ]
    );
}

#[test]
fn scans_keywords_and_identifiers() {
    assert_eq!(
        scan("exit let if els elsif while for syscall exits _a b2"),
        vec![
            Token::Exit,
            Token::Let,
            Token::If,
            Token::Els,
            Token::ElsIf,
            Token::While,
            Token::For,
            Token::SysCall,
            Token::Ident("exits".to_string()),
            Token::Ident("_a".to_string()),
            Token::Ident("b2".to_string()),
        ]
    );
}

#[test]
fn scans_operators_and_punctuation() {
    assert_eq!(
        scan("+ ++ - -- -> * / = == ! != > >= < <= . .. , ; ( ) { }"),
        vec![
            Token::Plus,
            Token::DPlue,
            Token::Minus,
            Token::DMinus,
            Token::ThinArrow,
            Token::Multiply,
            Token::Divide,
            Token::Equal,
            Token::EquEqu,
            Token::ExMark,
            Token::NotEqu,
            Token::Greater,
            Token::GreatEqu,
            Token::Less,
            Token::LessEqu,
            Token::Dot,
            Token::DDot,
            Token::Comma,
            Token::Semi,
            Token::OpenParen,
            Token::CloseParen,
            Token::OpenCurly,
            Token::CloseCurly,
        ]
    );
}

#[test]
fn scans_two_char_operators_without_spaces() {
    assert_eq!(
        scan("a++b"),
        vec![
            Token::Ident("a".to_string()),
            Token::DPlue,
            Token::Ident("b".to_string()),
        ]
    );
    assert_eq!(scan("1==2"), vec![Token::Number(1), Token::EquEqu, Token::Number(2)]);
}

#[test]
fn scans_operator_at_end_of_input() {
    // one-character lookahead at the end of input falls back to the
    // single-character token
    assert_eq!(scan("+"), vec![Token::Plus]);
    assert_eq!(scan("-"), vec![Token::Minus]);
    assert_eq!(scan("/"), vec![Token::Divide]);
    assert_eq!(scan("."), vec![Token::Dot]);
    assert_eq!(scan("<"), vec![Token::Less]);
}

#[test]
fn scans_string_literal() {
    assert_eq!(
        scan("\"hi there\" x"),
        vec![Token::Str("hi there".to_string()), Token::Ident("x".to_string())]
    );
}

#[test]
fn unterminated_string_consumes_rest_of_input() {
    assert_eq!(scan("\"abc def"), vec![Token::Str("abc def".to_string())]);
}

#[test]
fn line_comment_produces_no_token() {
    assert_eq!(scan("1 // skip this\n2"), vec![Token::Number(1), Token::Number(2)]);
    // a comment at the end of input, with no newline, is also consumed
    assert_eq!(scan("1 // skip"), vec![Token::Number(1)]);
}

#[test]
fn unknown_characters_are_silently_skipped() {
    assert_eq!(
        scan("a @ # b"),
        vec![Token::Ident("a".to_string()), Token::Ident("b".to_string())]
    );
}

#[test]
fn scans_maximal_digit_runs() {
    assert_eq!(scan("007 42"), vec![Token::Number(7), Token::Number(42)]);
}

#[test]
fn oversized_number_saturates_at_word_size() {
    assert_eq!(
        scan("99999999999999999999999999999999999999"),
        vec![Token::Number(usize::MAX)]
    );
}

#[test]
fn tokenizing_twice_gives_identical_sequences() {
    let src = "let x = 3 if (x > 1) { exit (x + 2) } els { exit 0 } // done";
    let first = scan(src);
    let second = scan(src);
    assert_eq!(first, second);
}

#[test]
fn empty_source_gives_no_tokens() {
    assert_eq!(scan(""), Vec::<Token>::new());
}
