use rlox::parser::variant_eq;
use rlox::{Expr, ParseError, Parser, Scanner, Token, TokenType};

fn parser_for(source: &str) -> Parser {
    let mut scanner = Scanner::new(source.to_string());
    assert_eq!(scanner.scan_tokens(), Ok(()));
    Parser::new(scanner)
}

fn parsed(source: &str) -> Result<Expr, ParseError> {
    parser_for(source).parse()
}

fn printed(source: &str) -> String {
    parsed(source).expect("an expression").print()
}

fn failure(source: &str) -> ParseError {
    parsed(source).expect_err("a parse error")
}

fn number(line: usize, digits: &str) -> Token {
    Token::new(line, TokenType::Number(digits.to_string()))
}

fn literal(line: usize, digits: &str) -> Box<Expr> {
    Box::new(Expr::Literal(number(line, digits)))
}

#[test]
fn multiplication_binds_tighter_than_addition() {
    assert_eq!(printed("1 + 2 * 3"), "(+ 1 (* 2 3))");
    assert_eq!(printed("1 * 2 + 3"), "(+ (* 1 2) 3)");
}

#[test]
fn grouping_overrides_precedence() {
    assert_eq!(printed("(1 + 2) * 3"), "(* (group (+ 1 2)) 3)");
    assert_eq!(printed("1 * (2 + 3)"), "(* 1 (group (+ 2 3)))");
}

#[test]
fn binary_operators_group_from_the_left() {
    assert_eq!(printed("1 - 2 - 3"), "(- (- 1 2) 3)");
    assert_eq!(printed("8 / 4 / 2"), "(/ (/ 8 4) 2)");
    assert_eq!(printed("1 + 2 - 3 + 4"), "(+ (- (+ 1 2) 3) 4)");
    assert_eq!(printed("1 * 2 / 3 * 4"), "(* (/ (* 1 2) 3) 4)");
    assert_eq!(printed("1 < 2 <= 3 > 4 >= 5"), "(>= (> (<= (< 1 2) 3) 4) 5)");
    assert_eq!(printed("1 == 2 != 3 == 4"), "(== (!= (== 1 2) 3) 4)");
}

#[test]
fn unary_chains_group_from_the_right() {
    assert_eq!(printed("- - 3"), "(- (- 3))");
    assert_eq!(printed("!!true"), "(! (! true))");
    assert_eq!(printed("!-!1"), "(! (- (! 1)))");
}

#[test]
fn a_prefix_operator_binds_tighter_than_any_binary_one() {
    assert_eq!(printed("-1 * 2"), "(* (- 1) 2)");
    assert_eq!(printed("1 - -2"), "(- 1 (- 2))");
    assert_eq!(printed("!true == false"), "(== (! true) false)");
    assert_eq!(printed("-(1 + 2)"), "(- (group (+ 1 2)))");
}

#[test]
fn comparison_and_equality_bind_looser_than_arithmetic() {
    assert_eq!(
        printed("1 + 2 < 3 * 4 == true"),
        "(== (< (+ 1 2) (* 3 4)) true)"
    );
    assert_eq!(printed("1 == 2 < 3"), "(== 1 (< 2 3))");
    assert_eq!(printed("1 < 2 + 3"), "(< 1 (+ 2 3))");
    assert_eq!(printed("1 != 2 - 3 / 4"), "(!= 1 (- 2 (/ 3 4)))");
}

#[test]
fn every_level_of_the_grammar_in_one_expression() {
    assert_eq!(
        printed("!(1 + 2 * -3 >= 4) != (\"a\" == nil)"),
        "(!= (! (group (>= (+ 1 (* 2 (- 3))) 4))) (group (== \"a\" nil)))"
    );
}

#[test]
fn a_literal_is_an_expression() {
    assert_eq!(printed("42"), "42");
    assert_eq!(printed("\"hello\""), "\"hello\"");
    assert_eq!(printed("true"), "true");
    assert_eq!(printed("false"), "false");
    assert_eq!(printed("nil"), "nil");
}

#[test]
fn groupings_nest() {
    assert_eq!(printed("((1))"), "(group (group 1))");
    assert_eq!(
        printed("((1 + 2) * (3 - 4))"),
        "(group (* (group (+ 1 2)) (group (- 3 4))))"
    );
}

#[test]
fn numbers_print_in_their_natural_decimal_form() {
    assert_eq!(printed("1.50 + 007"), "(+ 1.5 7)");
    assert_eq!(printed("2.0 * 0.250"), "(* 2 0.25)");
}

#[test]
fn the_tree_holds_the_tokens_with_their_lines() {
    let tree = parsed("1 +\n2").expect("an expression");
    assert_eq!(
        tree,
        Expr::Binary(
            literal(1, "1"),
            Token::new(1, TokenType::Plus),
            literal(2, "2")
        )
    );
    let tree = parsed("-(\n3)").expect("an expression");
    assert_eq!(
        tree,
        Expr::Unary(
            Token::new(1, TokenType::Minus),
            Box::new(Expr::Grouping(literal(2, "3")))
        )
    );
}

#[test]
fn parsing_no_tokens_is_a_parse_error() {
    assert_eq!(
        failure(""),
        ParseError {
            msg: "Expected expression".to_string(),
            line_no: 1,
        }
    );
    assert_eq!(
        failure("// nothing but a comment\n\n"),
        ParseError {
            msg: "Expected expression".to_string(),
            line_no: 1,
        }
    );
}

#[test]
fn a_missing_operand_is_a_parse_error_on_the_last_line() {
    assert_eq!(
        failure("1 +"),
        ParseError {
            msg: "Expected expression".to_string(),
            line_no: 1,
        }
    );
    assert_eq!(
        failure("1\n*\n"),
        ParseError {
            msg: "Expected expression".to_string(),
            line_no: 2,
        }
    );
    assert_eq!(
        failure("-"),
        ParseError {
            msg: "Expected expression".to_string(),
            line_no: 1,
        }
    );
}

#[test]
fn a_token_that_begins_no_expression_is_a_parse_error_on_its_line() {
    assert_eq!(
        failure("*"),
        ParseError {
            msg: "Expected expression".to_string(),
            line_no: 1,
        }
    );
    assert_eq!(
        failure("1 +\n\n* 2"),
        ParseError {
            msg: "Expected expression".to_string(),
            line_no: 3,
        }
    );
    assert_eq!(
        failure(")"),
        ParseError {
            msg: "Expected expression".to_string(),
            line_no: 1,
        }
    );
    assert_eq!(
        failure("()"),
        ParseError {
            msg: "Expected expression".to_string(),
            line_no: 1,
        }
    );
}

#[test]
fn an_identifier_or_another_reserved_word_begins_no_expression() {
    assert_eq!(
        failure("a + 1"),
        ParseError {
            msg: "Expected expression".to_string(),
            line_no: 1,
        }
    );
    assert_eq!(
        failure("1 +\nprint"),
        ParseError {
            msg: "Expected expression".to_string(),
            line_no: 2,
        }
    );
}

#[test]
fn a_missing_closing_parenthesis_is_a_parse_error() {
    assert_eq!(
        failure("(1 + 2"),
        ParseError {
            msg: "Expected ')' after expression".to_string(),
            line_no: 1,
        }
    );
    assert_eq!(
        failure("(1 + 2\n3)"),
        ParseError {
            msg: "Expected ')' after expression".to_string(),
            line_no: 2,
        }
    );
    assert_eq!(
        failure("((1)\n"),
        ParseError {
            msg: "Expected ')' after expression".to_string(),
            line_no: 1,
        }
    );
}

#[test]
fn tokens_after_the_expression_are_left_unread() {
    let mut parser = parser_for("1 2 + 3");
    assert_eq!(parser.parse().expect("the first").print(), "1");
    assert_eq!(parser.parse().expect("the second").print(), "(+ 2 3)");
    assert_eq!(
        parser.parse(),
        Err(ParseError {
            msg: "Expected expression".to_string(),
            line_no: 1,
        })
    );
    assert_eq!(printed("1 + 2 )"), "(+ 1 2)");
    assert_eq!(printed("1 ; 2"), "1");
}

#[test]
fn at_end_tells_whether_tokens_are_left() {
    let mut parser = parser_for("1 + 2 3");
    assert!(!parser.at_end());
    assert!(parser.parse().is_ok());
    assert!(!parser.at_end());
    assert!(parser.parse().is_ok());
    assert!(parser.at_end());
    assert!(parser.parse().is_err());
    assert!(parser.at_end());
    assert!(parser_for("").at_end());
}

#[test]
fn parsing_the_same_tokens_twice_gives_the_same_tree() {
    let source = "!(1 + 2 * -3 >= 4) != (\"a\" == nil)";
    let first = parsed(source).expect("an expression");
    let second = parsed(source).expect("an expression");
    assert_eq!(first, second);
    assert_eq!(failure("(1 +"), failure("(1 +"));
}

#[test]
fn the_parser_reads_the_tokens_of_its_scanner() {
    let parser = parser_for("1 + 2");
    assert_eq!(
        parser.print_tokens(),
        vec![
            number(1, "1"),
            Token::new(1, TokenType::Plus),
            number(1, "2"),
        ]
    );
}

#[test]
fn a_parser_may_read_the_tokens_found_before_a_lexical_error() {
    let mut scanner = Scanner::new("1 + 2 @".to_string());
    assert!(scanner.scan_tokens().is_err());
    let mut parser = Parser::new(scanner);
    assert_eq!(parser.parse().expect("an expression").print(), "(+ 1 2)");
}

#[test]
fn synchronize_skips_to_the_token_after_a_semicolon() {
    let mut parser = parser_for("+ * ; 1 + 2");
    assert!(parser.parse().is_err());
    parser.synchronize();
    assert_eq!(parser.parse().expect("an expression").print(), "(+ 1 2)");
}

#[test]
fn synchronize_stops_before_a_word_that_begins_a_statement() {
    for word in ["class", "fun", "var", "for", "if", "while", "print", "return"] {
        let mut parser = parser_for(&format!("* +\n{}\n7", word));
        parser.synchronize();
        assert_eq!(
            parser.parse(),
            Err(ParseError {
                msg: "Expected expression".to_string(),
                line_no: 2,
            })
        );
    }
}

#[test]
fn synchronize_passes_other_reserved_words() {
    for word in ["and", "else", "or", "super", "this"] {
        let mut parser = parser_for(&format!("* + {} ; 7", word));
        parser.synchronize();
        assert_eq!(parser.parse().expect("an expression").print(), "7");
    }
}

#[test]
fn synchronize_always_passes_the_token_it_starts_on() {
    let mut parser = parser_for("print\nprint\n5");
    parser.synchronize();
    assert_eq!(
        parser.parse(),
        Err(ParseError {
            msg: "Expected expression".to_string(),
            line_no: 2,
        })
    );
    let mut parser = parser_for("print ; 5");
    parser.synchronize();
    assert_eq!(parser.parse().expect("an expression").print(), "5");
    let mut parser = parser_for("; 5");
    parser.synchronize();
    assert_eq!(parser.parse().expect("an expression").print(), "5");
    let mut parser = parser_for("; ; 5");
    parser.synchronize();
    assert!(parser.parse().is_err());
}

#[test]
fn synchronize_stops_at_the_end() {
    let mut parser = parser_for("+ * /");
    parser.synchronize();
    assert!(parser.parse().is_err());
    parser.synchronize();
    parser.synchronize();
    assert_eq!(
        parser.parse(),
        Err(ParseError {
            msg: "Expected expression".to_string(),
            line_no: 1,
        })
    );
    let mut parser = parser_for("");
    parser.synchronize();
    assert!(parser.parse().is_err());
}

#[test]
fn variant_eq_compares_the_variant_alone() {
    assert!(variant_eq(&TokenType::RParen, &TokenType::RParen));
    assert!(!variant_eq(&TokenType::RParen, &TokenType::LParen));
    assert!(!variant_eq(&TokenType::Less, &TokenType::LessEqual));
    assert!(variant_eq(
        &TokenType::Number("1".to_string()),
        &TokenType::Number("2.5".to_string())
    ));
    assert!(variant_eq(
        &TokenType::String("a".to_string()),
        &TokenType::String("b".to_string())
    ));
    assert!(variant_eq(
        &TokenType::Identifier("a".to_string()),
        &TokenType::Identifier("a".to_string())
    ));
    assert!(!variant_eq(
        &TokenType::String("a".to_string()),
        &TokenType::Identifier("a".to_string())
    ));
    assert!(!variant_eq(
        &TokenType::Number("1".to_string()),
        &TokenType::String("1".to_string())
    ));
    assert!(variant_eq(&TokenType::While, &TokenType::While));
    assert!(!variant_eq(&TokenType::True, &TokenType::False));
}
