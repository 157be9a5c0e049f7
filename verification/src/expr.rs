//! Expressions: the syntax tree the parser builds, and the text it is written
//! out as.

use crate::token::{Token, TokenView};
use vstd::prelude::*;

verus! {

/// An expression. Each node owns its operands.
#[derive(Debug, PartialEq, Eq)]
pub enum Expr {
    /// Two operands joined by an operator: left operand, operator, right
    /// operand.
    Binary(Box<Expr>, Token, Box<Expr>),
    /// An expression in parentheses.
    Grouping(Box<Expr>),
    /// A number, a string, `true`, `false` or `nil`.
    Literal(Token),
    /// A prefix operator and its operand.
    Unary(Token, Box<Expr>),
}

/// The mathematical value of an [`Expr`]: the same tree over the values of
/// its tokens.
pub enum ExprView {
    Binary(Box<ExprView>, TokenView, Box<ExprView>),
    Grouping(Box<ExprView>),
    Literal(TokenView),
    Unary(TokenView, Box<ExprView>),
}

impl ExprView {
    /// The number of tokens the expression is written with, the two
    /// parentheses of each grouping included.
    pub open spec fn width(self) -> nat
        decreases self,
    {
        match self {
            ExprView::Binary(left, _, right) => left.width() + 1 + right.width(),
            ExprView::Grouping(inner) => 2 + inner.width(),
            ExprView::Literal(_) => 1,
            ExprView::Unary(_, operand) => 1 + operand.width(),
        }
    }

    /// The expression written out in prefix form with every operation in
    /// parentheses: `(op left right)` for a binary node, `(op operand)` for a
    /// unary one, `(group inner)` for a grouping, and a literal as its token
    /// is written.
    pub open spec fn rendering(self) -> Seq<char>
        decreases self,
    {
        match self {
            ExprView::Binary(left, operator, right) => "("@ + operator.kind.spelling() + " "@
                + left.rendering() + " "@ + right.rendering() + ")"@,
            ExprView::Grouping(inner) => "(group "@ + inner.rendering() + ")"@,
            ExprView::Literal(token) => token.kind.spelling(),
            ExprView::Unary(operator, operand) => "("@ + operator.kind.spelling() + " "@
                + operand.rendering() + ")"@,
        }
    }
}

impl Expr {
    /// The mathematical value of the expression.
    pub open spec fn tree(&self) -> ExprView
        decreases self,
    {
        match self {
            Expr::Binary(left, operator, right) => ExprView::Binary(
                Box::new(left.tree()),
                operator@,
                Box::new(right.tree()),
            ),
            Expr::Grouping(inner) => ExprView::Grouping(Box::new(inner.tree())),
            Expr::Literal(token) => ExprView::Literal(token@),
            Expr::Unary(operator, operand) => ExprView::Unary(operator@, Box::new(operand.tree())),
        }
    }

    /// The expression written out in prefix form with every operation in
    /// parentheses.
    pub fn print(&self) -> (s: String)
        ensures
            s@ == self@.rendering(),
        decreases self,
    {
        match self {
            Expr::Binary(left, tok, right) => {
                let mut s = String::from_str("(");
                let operator = tok.print();
                s.append(operator.as_str());
                s.append(" ");
                let first = left.print();
                s.append(first.as_str());
                s.append(" ");
                let second = right.print();
                s.append(second.as_str());
                s.append(")");
                s
            },
            Expr::Grouping(e) => {
                let mut s = String::from_str("(group ");
                let inner = e.print();
                s.append(inner.as_str());
                s.append(")");
                s
            },
            Expr::Literal(tok) => tok.print(),
            Expr::Unary(t, e) => {
                let mut s = String::from_str("(");
                let operator = t.print();
                s.append(operator.as_str());
                s.append(" ");
                let operand = e.print();
                s.append(operand.as_str());
                s.append(")");
                s
            },
        }
    }
}

impl View for Expr {
    type V = ExprView;

    open spec fn view(&self) -> ExprView {
        self.tree()
    }
}

} // verus!
