use rlox::{Expr, LoxError, ParseError, Token, TokenType};

fn spelled(kind: TokenType) -> String {
    Token::new(1, kind).print()
}

fn number_text(digits: &str) -> String {
    spelled(TokenType::Number(digits.to_string()))
}

#[test]
fn new_keeps_the_line_and_the_kind() {
    let token = Token::new(7, TokenType::Identifier("x".to_string()));
    assert_eq!(token.line_no, 7);
    assert_eq!(token.typ, TokenType::Identifier("x".to_string()));
}

#[test]
fn a_clone_equals_the_value_it_copies() {
    let token = Token::new(3, TokenType::String("text".to_string()));
    assert_eq!(token.clone(), token);
    let word = TokenType::While;
    assert_eq!(word.clone(), word);
    let number = TokenType::Number("1.5".to_string());
    assert_eq!(number.clone(), number);
    let lexical = LoxError {
        msg: "Unclosed string".to_string(),
        line_no: 2,
    };
    assert_eq!(lexical.clone(), lexical);
    let syntactic = ParseError {
        msg: "Expected expression".to_string(),
        line_no: 5,
    };
    assert_eq!(syntactic.clone(), syntactic);
}

#[test]
fn punctuation_prints_as_it_is_written() {
    assert_eq!(spelled(TokenType::LParen), "(");
    assert_eq!(spelled(TokenType::RParen), ")");
    assert_eq!(spelled(TokenType::LBrace), "{");
    assert_eq!(spelled(TokenType::RBrace), "}");
    assert_eq!(spelled(TokenType::Comma), ",");
    assert_eq!(spelled(TokenType::Dot), ".");
    assert_eq!(spelled(TokenType::Minus), "-");
    assert_eq!(spelled(TokenType::Plus), "+");
    assert_eq!(spelled(TokenType::Semicolon), ";");
    assert_eq!(spelled(TokenType::Slash), "/");
    assert_eq!(spelled(TokenType::Star), "*");
}

#[test]
fn operators_print_as_they_are_written() {
    assert_eq!(spelled(TokenType::Bang), "!");
    assert_eq!(spelled(TokenType::BangEqual), "!=");
    assert_eq!(spelled(TokenType::Equal), "=");
    assert_eq!(spelled(TokenType::EqualEqual), "==");
    assert_eq!(spelled(TokenType::Greater), ">");
    assert_eq!(spelled(TokenType::GreaterEqual), ">=");
    assert_eq!(spelled(TokenType::Less), "<");
    assert_eq!(spelled(TokenType::LessEqual), "<=");
}

#[test]
fn reserved_words_print_as_they_are_written() {
    assert_eq!(spelled(TokenType::And), "and");
    assert_eq!(spelled(TokenType::Class), "class");
    assert_eq!(spelled(TokenType::Else), "else");
    assert_eq!(spelled(TokenType::False), "false");
    assert_eq!(spelled(TokenType::Fun), "fun");
    assert_eq!(spelled(TokenType::For), "for");
    assert_eq!(spelled(TokenType::If), "if");
    assert_eq!(spelled(TokenType::Nil), "nil");
    assert_eq!(spelled(TokenType::Or), "or");
    assert_eq!(spelled(TokenType::Print), "print");
    assert_eq!(spelled(TokenType::Return), "return");
    assert_eq!(spelled(TokenType::Super), "super");
    assert_eq!(spelled(TokenType::This), "this");
    assert_eq!(spelled(TokenType::True), "true");
    assert_eq!(spelled(TokenType::Var), "var");
    assert_eq!(spelled(TokenType::While), "while");
}

#[test]
fn an_identifier_prints_as_its_name() {
    assert_eq!(spelled(TokenType::Identifier("total".to_string())), "total");
    assert_eq!(spelled(TokenType::Identifier("_x1".to_string())), "_x1");
}

#[test]
fn a_string_prints_between_double_quotes() {
    assert_eq!(spelled(TokenType::String("hello".to_string())), "\"hello\"");
    assert_eq!(spelled(TokenType::String(String::new())), "\"\"");
    assert_eq!(
        spelled(TokenType::String("two\nlines".to_string())),
        "\"two\nlines\""
    );
}

#[test]
fn a_whole_number_prints_without_leading_zeros() {
    assert_eq!(number_text("1"), "1");
    assert_eq!(number_text("42"), "42");
    assert_eq!(number_text("007"), "7");
    assert_eq!(number_text("100"), "100");
    assert_eq!(number_text("0"), "0");
    assert_eq!(number_text("000"), "0");
}

#[test]
fn a_fraction_prints_without_trailing_zeros() {
    assert_eq!(number_text("1.5"), "1.5");
    assert_eq!(number_text("1.50"), "1.5");
    assert_eq!(number_text("3.14159"), "3.14159");
    assert_eq!(number_text("0.05"), "0.05");
    assert_eq!(number_text("0.250"), "0.25");
    assert_eq!(number_text("00.5"), "0.5");
    assert_eq!(number_text("10.01"), "10.01");
}

#[test]
fn a_fraction_of_zeros_is_not_printed() {
    assert_eq!(number_text("1.0"), "1");
    assert_eq!(number_text("7.000"), "7");
    assert_eq!(number_text("0.0"), "0");
    assert_eq!(number_text("120.00"), "120");
}

#[test]
fn a_literal_expression_prints_as_its_token() {
    let tree = Expr::Literal(Token::new(1, TokenType::Number("2.50".to_string())));
    assert_eq!(tree.print(), "2.5");
    let tree = Expr::Literal(Token::new(1, TokenType::Nil));
    assert_eq!(tree.print(), "nil");
}

#[test]
fn a_tree_prints_in_prefix_form() {
    let one = Expr::Literal(Token::new(1, TokenType::Number("1".to_string())));
    let two = Expr::Literal(Token::new(1, TokenType::Number("2".to_string())));
    let sum = Expr::Binary(
        Box::new(one),
        Token::new(1, TokenType::Plus),
        Box::new(two),
    );
    assert_eq!(sum.print(), "(+ 1 2)");
    let group = Expr::Grouping(Box::new(sum));
    assert_eq!(group.print(), "(group (+ 1 2))");
    let negated = Expr::Unary(Token::new(1, TokenType::Minus), Box::new(group));
    assert_eq!(negated.print(), "(- (group (+ 1 2)))");
    let text = Expr::Literal(Token::new(2, TokenType::String("a b".to_string())));
    let compared = Expr::Binary(
        Box::new(negated),
        Token::new(2, TokenType::BangEqual),
        Box::new(text),
    );
    assert_eq!(compared.print(), "(!= (- (group (+ 1 2))) \"a b\")");
}
