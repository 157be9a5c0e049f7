use rlox::{LoxError, Scanner, Token, TokenType};

fn scanned(source: &str) -> (Scanner, Result<(), LoxError>) {
    let mut scanner = Scanner::new(source.to_string());
    let outcome = scanner.scan_tokens();
    (scanner, outcome)
}

fn tokens_of(source: &str) -> Vec<Token> {
    let (scanner, outcome) = scanned(source);
    assert_eq!(outcome, Ok(()));
    scanner.print_tokens()
}

fn kinds_of(source: &str) -> Vec<TokenType> {
    tokens_of(source).into_iter().map(|t| t.typ).collect()
}

fn text(s: &str) -> String {
    s.to_string()
}

#[test]
fn empty_source_has_no_tokens_and_no_error() {
    let (scanner, outcome) = scanned("");
    assert_eq!(outcome, Ok(()));
    assert_eq!(scanner.len(), 0);
    assert_eq!(scanner.print_tokens(), vec![]);
}

#[test]
fn a_fresh_scanner_holds_no_tokens() {
    let scanner = Scanner::new(text("1 + 2"));
    assert_eq!(scanner.len(), 0);
}

#[test]
fn white_space_alone_has_no_tokens() {
    assert_eq!(kinds_of(" \t\r\n \n"), vec![]);
}

#[test]
fn punctuation_is_one_token_each() {
    assert_eq!(
        kinds_of("(){},.-+;*"),
        vec![
            TokenType::LParen,
            TokenType::RParen,
            TokenType::LBrace,
            TokenType::RBrace,
            TokenType::Comma,
            TokenType::Dot,
            TokenType::Minus,
            TokenType::Plus,
            TokenType::Semicolon,
            TokenType::Star,
        ]
    );
}

#[test]
fn an_operator_takes_the_equal_sign_that_follows_it() {
    assert_eq!(
        kinds_of("! != = == < <= > >="),
        vec![
            TokenType::Bang,
            TokenType::BangEqual,
            TokenType::Equal,
            TokenType::EqualEqual,
            TokenType::Less,
            TokenType::LessEqual,
            TokenType::Greater,
            TokenType::GreaterEqual,
        ]
    );
}

#[test]
fn only_one_character_of_lookahead_is_used() {
    assert_eq!(
        kinds_of("==="),
        vec![TokenType::EqualEqual, TokenType::Equal]
    );
    assert_eq!(
        kinds_of("!=="),
        vec![TokenType::BangEqual, TokenType::Equal]
    );
    assert_eq!(
        kinds_of("<=>"),
        vec![TokenType::LessEqual, TokenType::Greater]
    );
    assert_eq!(kinds_of("= ="), vec![TokenType::Equal, TokenType::Equal]);
}

#[test]
fn an_operator_at_the_end_of_the_source_stands_alone() {
    assert_eq!(kinds_of("!"), vec![TokenType::Bang]);
    assert_eq!(kinds_of("1 <"), vec![TokenType::Number(text("1")), TokenType::Less]);
}

#[test]
fn a_slash_alone_is_division() {
    assert_eq!(
        kinds_of("8 / 2"),
        vec![
            TokenType::Number(text("8")),
            TokenType::Slash,
            TokenType::Number(text("2")),
        ]
    );
    assert_eq!(kinds_of("/"), vec![TokenType::Slash]);
}

#[test]
fn a_comment_runs_to_the_end_of_its_line() {
    let tokens = tokens_of("1 // two + three\n4");
    assert_eq!(
        tokens,
        vec![
            Token::new(1, TokenType::Number(text("1"))),
            Token::new(2, TokenType::Number(text("4"))),
        ]
    );
}

#[test]
fn a_comment_may_end_the_source() {
    assert_eq!(kinds_of("+ // the rest"), vec![TokenType::Plus]);
    assert_eq!(kinds_of("//"), vec![]);
}

#[test]
fn string_literal_keeps_its_contents_without_the_quotes() {
    let tokens = tokens_of("\"hello\"");
    assert_eq!(tokens, vec![Token::new(1, TokenType::String(text("hello")))]);
    assert_eq!(tokens[0].print(), "\"hello\"");
}

#[test]
fn an_empty_string_literal_is_a_token() {
    assert_eq!(kinds_of("\"\""), vec![TokenType::String(text(""))]);
}

#[test]
fn a_string_literal_is_taken_verbatim() {
    assert_eq!(
        kinds_of("\"a\\nb // c\""),
        vec![TokenType::String(text("a\\nb // c"))]
    );
}

#[test]
fn a_string_literal_may_hold_any_character() {
    assert_eq!(
        kinds_of("\"caf\u{e9} \u{4e16}\u{754c}\""),
        vec![TokenType::String(text("caf\u{e9} \u{4e16}\u{754c}"))]
    );
}

#[test]
fn a_string_over_several_lines_lies_on_the_line_it_closes_on() {
    let tokens = tokens_of("\"one\ntwo\nthree\" +\n1");
    assert_eq!(
        tokens,
        vec![
            Token::new(3, TokenType::String(text("one\ntwo\nthree"))),
            Token::new(3, TokenType::Plus),
            Token::new(4, TokenType::Number(text("1"))),
        ]
    );
}

#[test]
fn unterminated_string_is_an_error() {
    let (scanner, outcome) = scanned("\"abc");
    assert_eq!(
        outcome,
        Err(LoxError {
            msg: text("Unclosed string"),
            line_no: 1,
        })
    );
    assert_eq!(scanner.len(), 0);
}

#[test]
fn an_unterminated_string_is_reported_on_the_line_the_source_ends_on() {
    let (scanner, outcome) = scanned("1\n\"abc\ndef\n");
    assert_eq!(
        outcome,
        Err(LoxError {
            msg: text("Unclosed string"),
            line_no: 4,
        })
    );
    assert_eq!(
        scanner.print_tokens(),
        vec![Token::new(1, TokenType::Number(text("1")))]
    );
}

#[test]
fn unrecognized_character_is_named_with_its_line() {
    let (_, outcome) = scanned("@");
    assert_eq!(
        outcome,
        Err(LoxError {
            msg: text("Unrecognized character '@'"),
            line_no: 1,
        })
    );
    let (_, outcome) = scanned("1 +\n2 #");
    assert_eq!(
        outcome,
        Err(LoxError {
            msg: text("Unrecognized character '#'"),
            line_no: 2,
        })
    );
}

#[test]
fn a_character_outside_ascii_is_unrecognized() {
    let (_, outcome) = scanned("1 + \u{e9}");
    assert_eq!(
        outcome,
        Err(LoxError {
            msg: text("Unrecognized character '\u{e9}'"),
            line_no: 1,
        })
    );
}

#[test]
fn the_tokens_before_an_error_are_kept() {
    let (scanner, outcome) = scanned("1 + @ 2");
    assert!(outcome.is_err());
    assert_eq!(
        scanner.print_tokens(),
        vec![
            Token::new(1, TokenType::Number(text("1"))),
            Token::new(1, TokenType::Plus),
        ]
    );
}

#[test]
fn a_scan_after_an_error_goes_on_behind_it() {
    let (mut scanner, outcome) = scanned("1 @ 2 $ 3");
    assert_eq!(
        outcome,
        Err(LoxError {
            msg: text("Unrecognized character '@'"),
            line_no: 1,
        })
    );
    assert_eq!(scanner.len(), 1);
    assert_eq!(
        scanner.scan_tokens(),
        Err(LoxError {
            msg: text("Unrecognized character '$'"),
            line_no: 1,
        })
    );
    assert_eq!(scanner.len(), 2);
    assert_eq!(scanner.scan_tokens(), Ok(()));
    assert_eq!(
        scanner.print_tokens(),
        vec![
            Token::new(1, TokenType::Number(text("1"))),
            Token::new(1, TokenType::Number(text("2"))),
            Token::new(1, TokenType::Number(text("3"))),
        ]
    );
}

#[test]
fn a_scan_after_a_finished_scan_changes_nothing() {
    let (mut scanner, outcome) = scanned("1 + 2");
    assert_eq!(outcome, Ok(()));
    let before = scanner.print_tokens();
    assert_eq!(scanner.scan_tokens(), Ok(()));
    assert_eq!(scanner.print_tokens(), before);
    assert_eq!(scanner.len(), 3);
}

#[test]
fn a_number_is_a_run_of_digits() {
    assert_eq!(kinds_of("123"), vec![TokenType::Number(text("123"))]);
    assert_eq!(kinds_of("0"), vec![TokenType::Number(text("0"))]);
    assert_eq!(kinds_of("007"), vec![TokenType::Number(text("007"))]);
}

#[test]
fn a_number_may_have_a_fraction() {
    assert_eq!(kinds_of("12.5"), vec![TokenType::Number(text("12.5"))]);
    assert_eq!(kinds_of("3.14159"), vec![TokenType::Number(text("3.14159"))]);
}

#[test]
fn a_trailing_dot_is_not_part_of_a_number() {
    assert_eq!(
        kinds_of("1."),
        vec![TokenType::Number(text("1")), TokenType::Dot]
    );
    assert_eq!(
        kinds_of("1.x"),
        vec![
            TokenType::Number(text("1")),
            TokenType::Dot,
            TokenType::Identifier(text("x")),
        ]
    );
}

#[test]
fn a_leading_dot_is_not_part_of_a_number() {
    assert_eq!(
        kinds_of(".5"),
        vec![TokenType::Dot, TokenType::Number(text("5"))]
    );
}

#[test]
fn a_number_has_at_most_one_decimal_point() {
    assert_eq!(
        kinds_of("1.2.3"),
        vec![
            TokenType::Number(text("1.2")),
            TokenType::Dot,
            TokenType::Number(text("3")),
        ]
    );
}

#[test]
fn a_number_ends_where_a_letter_begins() {
    assert_eq!(
        kinds_of("12ab"),
        vec![
            TokenType::Number(text("12")),
            TokenType::Identifier(text("ab")),
        ]
    );
}

#[test]
fn every_reserved_word_is_recognized() {
    assert_eq!(
        kinds_of(
            "and class else false fun for if nil or print return super this true var while"
        ),
        vec![
            TokenType::And,
            TokenType::Class,
            TokenType::Else,
            TokenType::False,
            TokenType::Fun,
            TokenType::For,
            TokenType::If,
            TokenType::Nil,
            TokenType::Or,
            TokenType::Print,
            TokenType::Return,
            TokenType::Super,
            TokenType::This,
            TokenType::True,
            TokenType::Var,
            TokenType::While,
        ]
    );
}

#[test]
fn a_reserved_word_is_matched_whole_and_in_its_case() {
    assert_eq!(
        kinds_of("orchid andy fo classes"),
        vec![
            TokenType::Identifier(text("orchid")),
            TokenType::Identifier(text("andy")),
            TokenType::Identifier(text("fo")),
            TokenType::Identifier(text("classes")),
        ]
    );
    assert_eq!(
        kinds_of("Or TRUE Nil"),
        vec![
            TokenType::Identifier(text("Or")),
            TokenType::Identifier(text("TRUE")),
            TokenType::Identifier(text("Nil")),
        ]
    );
}

#[test]
fn an_identifier_is_a_letter_and_what_letters_and_digits_follow() {
    assert_eq!(
        kinds_of("x y2 Zed99"),
        vec![
            TokenType::Identifier(text("x")),
            TokenType::Identifier(text("y2")),
            TokenType::Identifier(text("Zed99")),
        ]
    );
}

#[test]
fn an_underscore_begins_an_identifier_and_ends_the_one_before() {
    assert_eq!(kinds_of("_x1"), vec![TokenType::Identifier(text("_x1"))]);
    assert_eq!(kinds_of("_"), vec![TokenType::Identifier(text("_"))]);
    assert_eq!(
        kinds_of("foo_bar"),
        vec![
            TokenType::Identifier(text("foo")),
            TokenType::Identifier(text("_bar")),
        ]
    );
    assert_eq!(
        kinds_of("__"),
        vec![
            TokenType::Identifier(text("_")),
            TokenType::Identifier(text("_")),
        ]
    );
}

#[test]
fn a_reserved_word_before_an_underscore_is_still_reserved() {
    assert_eq!(
        kinds_of("if_"),
        vec![TokenType::If, TokenType::Identifier(text("_"))]
    );
}

#[test]
fn each_token_carries_its_line() {
    let tokens = tokens_of("1\n+ 2\r\n\n* 3");
    assert_eq!(
        tokens,
        vec![
            Token::new(1, TokenType::Number(text("1"))),
            Token::new(2, TokenType::Plus),
            Token::new(2, TokenType::Number(text("2"))),
            Token::new(4, TokenType::Star),
            Token::new(4, TokenType::Number(text("3"))),
        ]
    );
}

#[test]
fn scanning_one_source_twice_gives_the_same_tokens() {
    let source = "(1 + 2) * \"three\" >= four // five\n!6.50";
    let first = tokens_of(source);
    let second = tokens_of(source);
    assert_eq!(first, second);
    assert_eq!(first.len(), 11);
    let (_, bad_first) = scanned("1 + @");
    let (_, bad_second) = scanned("1 + @");
    assert_eq!(bad_first, bad_second);
}

#[test]
fn token_at_gives_the_tokens_in_order() {
    let (scanner, _) = scanned("1 + two");
    assert_eq!(scanner.len(), 3);
    assert_eq!(
        scanner.token_at(0),
        &Token::new(1, TokenType::Number(text("1")))
    );
    assert_eq!(scanner.token_at(1), &Token::new(1, TokenType::Plus));
    assert_eq!(
        scanner.token_at(2),
        &Token::new(1, TokenType::Identifier(text("two")))
    );
}

#[test]
fn print_source_gives_the_source_back() {
    let source = "1 + \"caf\u{e9}\"\n// done";
    let (scanner, _) = scanned(source);
    assert_eq!(scanner.print_source(), source);
    assert_eq!(Scanner::new(String::new()).print_source(), "");
}

#[test]
fn print_tokens_gives_every_token_found() {
    let (scanner, _) = scanned("1 + 2");
    let tokens = scanner.print_tokens();
    assert_eq!(tokens.len(), scanner.len());
    for (i, token) in tokens.iter().enumerate() {
        assert_eq!(token, scanner.token_at(i));
    }
}

#[test]
fn a_full_line_of_source_is_scanned_token_by_token() {
    assert_eq!(
        kinds_of("var total = (price * 1.08) >= 100; // taxed"),
        vec![
            TokenType::Var,
            TokenType::Identifier(text("total")),
            TokenType::Equal,
            TokenType::LParen,
            TokenType::Identifier(text("price")),
            TokenType::Star,
            TokenType::Number(text("1.08")),
            TokenType::RParen,
            TokenType::GreaterEqual,
            TokenType::Number(text("100")),
            TokenType::Semicolon,
        ]
    );
}
