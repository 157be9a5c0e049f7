//! The parser: reads the tokens a scanner has found as one expression, by
//! recursive descent with one function for each level of the grammar.

use crate::expr::{Expr, ExprView};
use crate::grammar::{
    boundary_from, extend, fault_line, fits, lemma_parse_at_iff, parse_at, Fault, Level,
};
use crate::lerror::ParseError;
use crate::lexical::remaining;
use crate::scanner::Scanner;
use crate::token::{Token, TokenType, TokenView};
use vstd::prelude::*;

verus! {

/// A parser over the tokens of one scanner.
pub struct Parser {
    scanner: Scanner,
    current: usize,
}

/// The mathematical value of a [`Parser`]: the tokens it reads and the
/// position of the next token it will read.
pub struct ParserView {
    pub tokens: Seq<TokenView>,
    pub current: nat,
}

impl ParserView {
    /// Whether the position is one a parser can be at: a position of a token,
    /// or the end.
    pub open spec fn valid(self) -> bool {
        self.current <= self.tokens.len()
    }
}

/// Decides whether `a` and `b` are the same variant, whatever text they
/// carry.
pub fn variant_eq(a: &TokenType, b: &TokenType) -> (r: bool)
    ensures
        r == a@.same_variant(b@),
{
    match (a, b) {
        (TokenType::LParen, TokenType::LParen) => true,
        (TokenType::RParen, TokenType::RParen) => true,
        (TokenType::LBrace, TokenType::LBrace) => true,
        (TokenType::RBrace, TokenType::RBrace) => true,
        (TokenType::Comma, TokenType::Comma) => true,
        (TokenType::Dot, TokenType::Dot) => true,
        (TokenType::Minus, TokenType::Minus) => true,
        (TokenType::Plus, TokenType::Plus) => true,
        (TokenType::Semicolon, TokenType::Semicolon) => true,
        (TokenType::Slash, TokenType::Slash) => true,
        (TokenType::Star, TokenType::Star) => true,
        (TokenType::Bang, TokenType::Bang) => true,
        (TokenType::BangEqual, TokenType::BangEqual) => true,
        (TokenType::Equal, TokenType::Equal) => true,
        (TokenType::EqualEqual, TokenType::EqualEqual) => true,
        (TokenType::Greater, TokenType::Greater) => true,
        (TokenType::GreaterEqual, TokenType::GreaterEqual) => true,
        (TokenType::Less, TokenType::Less) => true,
        (TokenType::LessEqual, TokenType::LessEqual) => true,
        (TokenType::And, TokenType::And) => true,
        (TokenType::Class, TokenType::Class) => true,
        (TokenType::Else, TokenType::Else) => true,
        (TokenType::False, TokenType::False) => true,
        (TokenType::Fun, TokenType::Fun) => true,
        (TokenType::For, TokenType::For) => true,
        (TokenType::If, TokenType::If) => true,
        (TokenType::Nil, TokenType::Nil) => true,
        (TokenType::Or, TokenType::Or) => true,
        (TokenType::Print, TokenType::Print) => true,
        (TokenType::Return, TokenType::Return) => true,
        (TokenType::Super, TokenType::Super) => true,
        (TokenType::This, TokenType::This) => true,
        (TokenType::True, TokenType::True) => true,
        (TokenType::Var, TokenType::Var) => true,
        (TokenType::While, TokenType::While) => true,
        (TokenType::Identifier(_), TokenType::Identifier(_)) => true,
        (TokenType::String(_), TokenType::String(_)) => true,
        (TokenType::Number(_), TokenType::Number(_)) => true,
        _ => false,
    }
}

/// Whether the result `r` and the parser `after` are what reading an
/// expression at `level` with the parser `before` gives. The tokens stay as
/// they are. Where they are read as a tree, `r` holds that tree and the parser
/// has passed the tokens of the tree. Where they are not, `r` holds the
/// diagnostic of the fault and the parser rests at the fault.
pub open spec fn reads(
    before: ParserView,
    level: Level,
    after: ParserView,
    r: Result<Expr, ParseError>,
) -> bool {
    &&& after.tokens == before.tokens
    &&& match parse_at(before.tokens, before.current, level) {
        Ok(tree) => {
            &&& r matches Ok(e)
            &&& e@ == tree
            &&& after.current == before.current + tree.width()
        },
        Err(fault) => {
            &&& r matches Err(e)
            &&& e@ == fault.diagnostic(before.tokens)
            &&& after.current == fault.at
        },
    }
}

/// Reading is repeatable: whatever two parsers at one position of the same
/// tokens read at one level, they read the same tree, or report the same
/// fault, and come to rest at the same position.
pub proof fn lemma_reads_unique(
    before: ParserView,
    level: Level,
    after1: ParserView,
    r1: Result<Expr, ParseError>,
    after2: ParserView,
    r2: Result<Expr, ParseError>,
)
    requires
        reads(before, level, after1, r1),
        reads(before, level, after2, r2),
    ensures
        after1 == after2,
        r1 is Ok <==> r2 is Ok,
        r1 is Ok ==> r1->Ok_0@ == r2->Ok_0@,
        r1 is Err ==> r1->Err_0@ == r2->Err_0@,
{
}

impl Parser {
    #[verifier::type_invariant]
    spec fn inv(self) -> bool {
        self.current <= self.scanner@.tokens.len()
    }

    /// The state of the parser.
    pub closed spec fn state(&self) -> ParserView {
        ParserView { tokens: self.scanner@.tokens, current: self.current as nat }
    }

    /// A parser that is about to read the first of the tokens that `scn` has
    /// found.
    pub fn new(scn: Scanner) -> (p: Parser)
        ensures
            p@ == (ParserView { tokens: scn@.tokens, current: 0 }),
            p@.valid(),
    {
        Parser { scanner: scn, current: 0 }
    }

    /// Reads one expression from the current position on, as far as it
    /// reaches. Tokens after the expression are left unread.
    ///
    /// The expression read is the one tree of the grammar that is written with
    /// the tokens from the current position on and is followed by no binary
    /// operator. Where there is no such tree the result is an error.
    pub fn parse(&mut self) -> (r: Result<Expr, ParseError>)
        ensures
            reads(old(self)@, Level::Equality, final(self)@, r),
            final(self)@.valid(),
            r matches Ok(e) ==> fits(e@, old(self)@.tokens, old(self)@.current, Level::Equality),
            r is Ok <==> exists|t: ExprView|
                #[trigger] fits(t, old(self)@.tokens, old(self)@.current, Level::Equality),
    {
        let r = self.expression();
        proof {
            use_type_invariant(&*self);
            let tree = if r is Ok {
                r->Ok_0@
            } else {
                arbitrary()
            };
            lemma_parse_at_iff(old(self)@.tokens, old(self)@.current, Level::Equality, tree);
        }
        r
    }

    /// Passes the token at the current position, if there is one.
    fn advance(&mut self)
        ensures
            final(self).current == if old(self).current < old(self).scanner@.tokens.len() {
                old(self).current + 1
            } else {
                old(self).current as int
            },
            final(self).scanner == old(self).scanner,
    {
        if self.current < self.scanner.len() {
            self.current += 1;
        }
    }

    /// The token before the current position, if there is one.
    fn previous(&self) -> (r: Option<Token>)
        ensures
            self.current == 0 ==> r is None,
            self.current > 0 ==> (r matches Some(t) && t@ == self@.tokens[self.current - 1]),
    {
        proof {
            use_type_invariant(self);
        }
        match self.current {
            0 => None,
            _ => Some(self.scanner.token_at(self.current - 1).clone()),
        }
    }

    /// The token at the current position.
    fn peek(&self) -> (t: &Token)
        requires
            self.current < self.scanner@.tokens.len(),
        ensures
            t@ == self@.tokens[self.current as int],
    {
        self.scanner.token_at(self.current)
    }

    /// Passes the token at the current position if it is of the same variant
    /// as `tp`, and says whether it did.
    fn consume(&mut self, tp: TokenType) -> (r: bool)
        ensures
            r == (old(self)@.current < old(self)@.tokens.len() && tp@.same_variant(
                old(self)@.tokens[old(self)@.current as int].kind,
            )),
            final(self)@.tokens == old(self)@.tokens,
            final(self)@.current == if r {
                old(self)@.current + 1
            } else {
                old(self)@.current
            },
    {
        if !self.at_end() && variant_eq(&tp, &self.peek().typ) {
            self.advance();
            return true;
        }
        false
    }

    /// Whether every token has been read.
    pub fn at_end(&self) -> (r: bool)
        ensures
            r == (self@.current == self@.tokens.len()),
            self@.valid(),
    {
        proof {
            use_type_invariant(self);
        }
        return self.current == self.scanner.len();
    }

    /// The error that reports that `expected` is missing at the current
    /// position.
    fn fault(&self, expected: &str) -> (e: ParseError)
        ensures
            e.msg@ == expected@,
            e.line_no == fault_line(self@.tokens, self@.current),
    {
        proof {
            use_type_invariant(self);
        }
        let line: usize = if !self.at_end() {
            self.peek().line_no
        } else if self.current > 0 {
            self.scanner.token_at(self.current - 1).line_no
        } else {
            1
        };
        ParseError { msg: String::from_str(expected), line_no: line }
    }

    /// An expression.
    fn expression(&mut self) -> (r: Result<Expr, ParseError>)
        ensures
            reads(old(self)@, Level::Equality, final(self)@, r),
        decreases remaining(old(self)@.tokens.len(), old(self)@.current), 7nat,
    {
        self.equality()
    }

    /// An equality: comparisons joined by `!=` or `==`, grouped from the left.
    fn equality(&mut self) -> (r: Result<Expr, ParseError>)
        ensures
            reads(old(self)@, Level::Equality, final(self)@, r),
        decreases remaining(old(self)@.tokens.len(), old(self)@.current), 6nat,
    {
        let mut ret: Expr = match self.comparison() {
            Ok(first) => first,
            Err(e) => {
                return Err(e);
            },
        };
        loop
            invariant
                self@.tokens == old(self)@.tokens,
                self@.current == old(self)@.current + ret@.width(),
                parse_at(old(self)@.tokens, old(self)@.current, Level::Equality) == extend(
                    self@.tokens,
                    self@.current,
                    Level::Equality,
                    ret@,
                ),
            ensures
                self@.tokens == old(self)@.tokens,
                parse_at(old(self)@.tokens, old(self)@.current, Level::Equality) == Ok::<
                    ExprView,
                    Fault,
                >(ret@),
                self@.current == old(self)@.current + ret@.width(),
            decreases remaining(self@.tokens.len(), self@.current),
        {
            if self.at_end() {
                break ;
            }
            match self.peek().typ {
                TokenType::BangEqual | TokenType::EqualEqual => {
                    self.advance();
                    let operator: Token = self.previous().unwrap();
                    let right: Expr = match self.comparison() {
                        Ok(right) => right,
                        Err(e) => {
                            return Err(e);
                        },
                    };
                    ret = Expr::Binary(Box::new(ret), operator, Box::new(right));
                },
                _ => {
                    break ;
                },
            }
        }
        Ok(ret)
    }

    /// A comparison: terms joined by `>`, `>=`, `<` or `<=`, grouped from the left.
    fn comparison(&mut self) -> (r: Result<Expr, ParseError>)
        ensures
            reads(old(self)@, Level::Comparison, final(self)@, r),
        decreases remaining(old(self)@.tokens.len(), old(self)@.current), 5nat,
    {
        let mut ret: Expr = match self.term() {
            Ok(first) => first,
            Err(e) => {
                return Err(e);
            },
        };
        loop
            invariant
                self@.tokens == old(self)@.tokens,
                self@.current == old(self)@.current + ret@.width(),
                parse_at(old(self)@.tokens, old(self)@.current, Level::Comparison) == extend(
                    self@.tokens,
                    self@.current,
                    Level::Comparison,
                    ret@,
                ),
            ensures
                self@.tokens == old(self)@.tokens,
                parse_at(old(self)@.tokens, old(self)@.current, Level::Comparison) == Ok::<
                    ExprView,
                    Fault,
                >(ret@),
                self@.current == old(self)@.current + ret@.width(),
            decreases remaining(self@.tokens.len(), self@.current),
        {
            if self.at_end() {
                break ;
            }
            match self.peek().typ {
                TokenType::Greater
                | TokenType::GreaterEqual
                | TokenType::Less
                | TokenType::LessEqual => {
                    self.advance();
                    let operator: Token = self.previous().unwrap();
                    let right: Expr = match self.term() {
                        Ok(right) => right,
                        Err(e) => {
                            return Err(e);
                        },
                    };
                    ret = Expr::Binary(Box::new(ret), operator, Box::new(right));
                },
                _ => {
                    break ;
                },
            }
        }
        Ok(ret)
    }

    /// A term: factors joined by `-` or `+`, grouped from the left.
    fn term(&mut self) -> (r: Result<Expr, ParseError>)
        ensures
            reads(old(self)@, Level::Term, final(self)@, r),
        decreases remaining(old(self)@.tokens.len(), old(self)@.current), 4nat,
    {
        let mut ret: Expr = match self.factor() {
            Ok(first) => first,
            Err(e) => {
                return Err(e);
            },
        };
        loop
            invariant
                self@.tokens == old(self)@.tokens,
                self@.current == old(self)@.current + ret@.width(),
                parse_at(old(self)@.tokens, old(self)@.current, Level::Term) == extend(
                    self@.tokens,
                    self@.current,
                    Level::Term,
                    ret@,
                ),
            ensures
                self@.tokens == old(self)@.tokens,
                parse_at(old(self)@.tokens, old(self)@.current, Level::Term) == Ok::<
                    ExprView,
                    Fault,
                >(ret@),
                self@.current == old(self)@.current + ret@.width(),
            decreases remaining(self@.tokens.len(), self@.current),
        {
            if self.at_end() {
                break ;
            }
            match self.peek().typ {
                TokenType::Minus | TokenType::Plus => {
                    self.advance();
                    let operator: Token = self.previous().unwrap();
                    let right: Expr = match self.factor() {
                        Ok(right) => right,
                        Err(e) => {
                            return Err(e);
                        },
                    };
                    ret = Expr::Binary(Box::new(ret), operator, Box::new(right));
                },
                _ => {
                    break ;
                },
            }
        }
        Ok(ret)
    }

    /// A factor: unary expressions joined by `/` or `*`, grouped from the left.
    fn factor(&mut self) -> (r: Result<Expr, ParseError>)
        ensures
            reads(old(self)@, Level::Factor, final(self)@, r),
        decreases remaining(old(self)@.tokens.len(), old(self)@.current), 3nat,
    {
        let mut ret: Expr = match self.unary() {
            Ok(first) => first,
            Err(e) => {
                return Err(e);
            },
        };
        loop
            invariant
                self@.tokens == old(self)@.tokens,
                self@.current == old(self)@.current + ret@.width(),
                parse_at(old(self)@.tokens, old(self)@.current, Level::Factor) == extend(
                    self@.tokens,
                    self@.current,
                    Level::Factor,
                    ret@,
                ),
            ensures
                self@.tokens == old(self)@.tokens,
                parse_at(old(self)@.tokens, old(self)@.current, Level::Factor) == Ok::<
                    ExprView,
                    Fault,
                >(ret@),
                self@.current == old(self)@.current + ret@.width(),
            decreases remaining(self@.tokens.len(), self@.current),
        {
            if self.at_end() {
                break ;
            }
            match self.peek().typ {
                TokenType::Slash | TokenType::Star => {
                    self.advance();
                    let operator: Token = self.previous().unwrap();
                    let right: Expr = match self.unary() {
                        Ok(right) => right,
                        Err(e) => {
                            return Err(e);
                        },
                    };
                    ret = Expr::Binary(Box::new(ret), operator, Box::new(right));
                },
                _ => {
                    break ;
                },
            }
        }
        Ok(ret)
    }

    /// A unary expression: a primary behind any number of `!` and `-`, each
    /// applied to all that follows it.
    fn unary(&mut self) -> (r: Result<Expr, ParseError>)
        ensures
            reads(old(self)@, Level::Unary, final(self)@, r),
        decreases remaining(old(self)@.tokens.len(), old(self)@.current), 2nat,
    {
        if self.at_end() {
            return self.primary();
        }
        match self.peek().typ {
            TokenType::Bang | TokenType::Minus => {
                self.advance();
                let operator: Token = self.previous().unwrap();
                let right: Expr = match self.unary() {
                    Ok(right) => right,
                    Err(e) => {
                        return Err(e);
                    },
                };
                return Ok(Expr::Unary(operator, Box::new(right)));
            },
            _ => self.primary(),
        }
    }

    /// A primary: a literal, or an expression in parentheses.
    fn primary(&mut self) -> (r: Result<Expr, ParseError>)
        ensures
            reads(old(self)@, Level::Primary, final(self)@, r),
        decreases remaining(old(self)@.tokens.len(), old(self)@.current), 1nat,
    {
        if self.at_end() {
            return Err(self.fault("Expected expression"));
        }
        let ret: Expr;
        match self.peek().typ {
            TokenType::False
            | TokenType::True
            | TokenType::Nil
            | TokenType::String(_)
            | TokenType::Number(_) => {
                ret = Expr::Literal(self.peek().clone());
                self.advance();
            },
            TokenType::LParen => {
                self.advance();
                let e: Expr = match self.expression() {
                    Ok(e) => e,
                    Err(e) => {
                        return Err(e);
                    },
                };
                ret = Expr::Grouping(Box::new(e));
                if !self.consume(TokenType::RParen) {
                    return Err(self.fault("Expected ')' after expression"));
                }
            },
            _ => {
                return Err(self.fault("Expected expression"));
            },
        }
        Ok(ret)
    }

    /// Skips to where the next statement may begin, to go on after an error:
    /// passes the token at the current position and then every token up to
    /// the first position that follows a `;`, holds a reserved word that
    /// begins a statement, or is the end. At the end it does nothing.
    pub fn synchronize(&mut self)
        ensures
            final(self)@.tokens == old(self)@.tokens,
            final(self)@.current == if old(self)@.current < old(self)@.tokens.len() {
                boundary_from(old(self)@.tokens, old(self)@.current + 1)
            } else {
                old(self)@.current
            },
            final(self)@.valid(),
    {
        proof {
            use_type_invariant(&*self);
        }
        if self.at_end() {
            return ;
        }
        self.advance();
        while !self.at_end()
            invariant
                self@.tokens == old(self)@.tokens,
                self@.current > 0,
                old(self)@.current < old(self)@.tokens.len(),
                boundary_from(self@.tokens, self@.current) == boundary_from(
                    old(self)@.tokens,
                    old(self)@.current + 1,
                ),
            decreases remaining(self@.tokens.len(), self@.current),
        {
            match self.previous().unwrap().typ {
                TokenType::Semicolon => {
                    proof {
                        use_type_invariant(&*self);
                    }
                    return ;
                },
                _ => {},
            }
            match self.peek().typ {
                TokenType::Class
                | TokenType::Fun
                | TokenType::Var
                | TokenType::For
                | TokenType::If
                | TokenType::While
                | TokenType::Print
                | TokenType::Return => {
                    proof {
                        use_type_invariant(&*self);
                    }
                    return ;
                },
                _ => {},
            }
            self.advance();
        }
        proof {
            use_type_invariant(&*self);
        }
    }

    /// The tokens the parser reads, in order, each an independent copy.
    pub fn print_tokens(&self) -> (v: Vec<Token>)
        ensures
            crate::token::token_views(v@) == self@.tokens,
    {
        self.scanner.print_tokens()
    }
}

impl View for Parser {
    type V = ParserView;

    open spec fn view(&self) -> ParserView {
        self.state()
    }
}

} // verus!
