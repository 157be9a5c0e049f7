//! The grammar of expressions, from the loosest binding to the tightest:
//!
//! ```text
//! expression -> equality
//! equality   -> comparison ( ( "!=" | "==" ) comparison )*
//! comparison -> term ( ( ">" | ">=" | "<" | "<=" ) term )*
//! term       -> factor ( ( "-" | "+" ) factor )*
//! factor     -> unary ( ( "/" | "*" ) unary )*
//! unary      -> ( "!" | "-" ) unary | primary
//! primary    -> NUMBER | STRING | "true" | "false" | "nil" | "(" expression ")"
//! ```
//!
//! This module says which tree the tokens at a position are read as, or where
//! and why they cannot be read, and proves what holds of every tree so read.

use crate::expr::ExprView;
use crate::lerror::Diagnostic;
use crate::lexical::remaining;
use crate::token::{TokenKind, TokenView};
use vstd::prelude::*;

verus! {

/// A level of the grammar.
pub enum Level {
    Equality,
    Comparison,
    Term,
    Factor,
    Unary,
    Primary,
}

impl Level {
    /// How tightly the level binds: 0 for equality, the loosest, up to 5 for
    /// primary, the tightest.
    pub open spec fn index(self) -> nat {
        match self {
            Level::Equality => 0,
            Level::Comparison => 1,
            Level::Term => 2,
            Level::Factor => 3,
            Level::Unary => 4,
            Level::Primary => 5,
        }
    }

    /// The next tighter level, from which the operands of this level are
    /// taken. Primary is the tightest and is its own successor.
    pub open spec fn tighter(self) -> Level {
        match self {
            Level::Equality => Level::Comparison,
            Level::Comparison => Level::Term,
            Level::Term => Level::Factor,
            Level::Factor => Level::Unary,
            Level::Unary => Level::Primary,
            Level::Primary => Level::Primary,
        }
    }

    /// Whether the level is one of the four with binary operators.
    pub open spec fn is_binary(self) -> bool {
        self.index() <= 3
    }
}

impl TokenKind {
    /// The level at which the kind is a binary operator, if it is one.
    pub open spec fn binary_level(self) -> Option<Level> {
        match self {
            TokenKind::BangEqual | TokenKind::EqualEqual => Some(Level::Equality),
            TokenKind::Greater
            | TokenKind::GreaterEqual
            | TokenKind::Less
            | TokenKind::LessEqual => Some(Level::Comparison),
            TokenKind::Minus | TokenKind::Plus => Some(Level::Term),
            TokenKind::Slash | TokenKind::Star => Some(Level::Factor),
            _ => None,
        }
    }

    /// Whether the kind is a prefix operator: `!` or `-`.
    pub open spec fn is_prefix_operator(self) -> bool {
        self is Bang || self is Minus
    }

    /// Whether the kind is a literal: a number, a string, `true`, `false` or
    /// `nil`.
    pub open spec fn is_literal(self) -> bool {
        self is False || self is True || self is Nil || self is String || self is Number
    }
}

/// What the parser missed when it could not go on.
pub enum Expectation {
    /// A token that begins an expression.
    Expression,
    /// The `)` that closes a grouping.
    RightParen,
}

impl Expectation {
    /// The message that reports the expectation.
    pub open spec fn message(self) -> Seq<char> {
        match self {
            Expectation::Expression => "Expected expression"@,
            Expectation::RightParen => "Expected ')' after expression"@,
        }
    }
}

/// Where the tokens cannot be read as an expression, and what was expected
/// there. The position is that of the offending token, or the number of
/// tokens when they end too early.
pub struct Fault {
    pub at: nat,
    pub expected: Expectation,
}

/// The line a fault at position `at` is reported on: the line of the token
/// there, or, where the tokens end too early, the line of the last token, or 1
/// when there is no token at all.
pub open spec fn fault_line(tokens: Seq<TokenView>, at: nat) -> nat {
    if at < tokens.len() {
        tokens[at as int].line
    } else if tokens.len() > 0 {
        tokens.last().line
    } else {
        1
    }
}

impl Fault {
    /// The diagnostic that reports the fault.
    pub open spec fn diagnostic(self, tokens: Seq<TokenView>) -> Diagnostic {
        Diagnostic { message: self.expected.message(), line: fault_line(tokens, self.at) }
    }
}

/// The tree that the tokens from position `pos` on are read as at `level`, or
/// the fault that stops the reading. A tree `t` so read ends before position
/// `pos + t.width()`.
///
/// At a binary level the first operand is read at the next tighter level and
/// then extended to the right as far as operators of the level follow. At the
/// unary level a prefix operator applies to the unary expression after it. A
/// primary is a literal token, or an expression between parentheses.
pub open spec fn parse_at(tokens: Seq<TokenView>, pos: nat, level: Level) -> Result<
    ExprView,
    Fault,
>
    decreases remaining(tokens.len(), pos), 6 - level.index(),
{
    match level {
        Level::Equality | Level::Comparison | Level::Term | Level::Factor => {
            match parse_at(tokens, pos, level.tighter()) {
                Ok(first) => extend(tokens, pos + first.width(), level, first),
                Err(fault) => Err(fault),
            }
        },
        Level::Unary => {
            if pos < tokens.len() && tokens[pos as int].kind.is_prefix_operator() {
                match parse_at(tokens, pos + 1, Level::Unary) {
                    Ok(operand) => Ok(ExprView::Unary(tokens[pos as int], Box::new(operand))),
                    Err(fault) => Err(fault),
                }
            } else {
                parse_at(tokens, pos, Level::Primary)
            }
        },
        Level::Primary => {
            if pos >= tokens.len() {
                Err(Fault { at: pos, expected: Expectation::Expression })
            } else if tokens[pos as int].kind.is_literal() {
                Ok(ExprView::Literal(tokens[pos as int]))
            } else if tokens[pos as int].kind is LParen {
                match parse_at(tokens, pos + 1, Level::Equality) {
                    Ok(inner) => {
                        let close = pos + 1 + inner.width();
                        if close < tokens.len() && tokens[close as int].kind is RParen {
                            Ok(ExprView::Grouping(Box::new(inner)))
                        } else {
                            Err(Fault { at: close, expected: Expectation::RightParen })
                        }
                    },
                    Err(fault) => Err(fault),
                }
            } else {
                Err(Fault { at: pos, expected: Expectation::Expression })
            }
        },
    }
}

/// The tree that `left`, already read at the binary level `level` and ending
/// before position `pos`, grows into: while an operator of the level stands at
/// the position, the tree so far becomes the left operand of that operator,
/// and the operand read after it, at the next tighter level, the right one.
pub open spec fn extend(tokens: Seq<TokenView>, pos: nat, level: Level, left: ExprView) -> Result<
    ExprView,
    Fault,
>
    decreases remaining(tokens.len(), pos), 0nat,
{
    if pos < tokens.len() && tokens[pos as int].kind.binary_level() == Some(level) {
        match parse_at(tokens, pos + 1, level.tighter()) {
            Ok(right) => extend(
                tokens,
                pos + 1 + right.width(),
                level,
                ExprView::Binary(Box::new(left), tokens[pos as int], Box::new(right)),
            ),
            Err(fault) => Err(fault),
        }
    } else {
        Ok(left)
    }
}

/// The tree that the tokens from position `pos` on are read as.
pub open spec fn parse_expression(tokens: Seq<TokenView>, pos: nat) -> Result<ExprView, Fault> {
    parse_at(tokens, pos, Level::Equality)
}

/// Whether `e` is a tree of the grammar at `level`: every operator applies to
/// operands of its own level, and groups with its like from the left.
///
/// - A binary node belongs to the level of its operator and to every looser
///   one. Its left operand belongs to the operator's level, so operators of
///   one level group from the left; its right operand belongs to the next
///   tighter level.
/// - A unary node belongs to the unary level and to every looser one. Its
///   operator is `!` or `-`, and its operand belongs to the unary level, so
///   prefix operators group from the right.
/// - A literal and a grouping belong to every level. A grouping holds a tree
///   of the loosest level.
pub open spec fn at_level(e: ExprView, level: Level) -> bool
    decreases e,
{
    match e {
        ExprView::Binary(left, operator, right) => match operator.kind.binary_level() {
            Some(own) => {
                &&& level.index() <= own.index()
                &&& at_level(*left, own)
                &&& at_level(*right, own.tighter())
            },
            None => false,
        },
        ExprView::Grouping(inner) => at_level(*inner, Level::Equality),
        ExprView::Literal(token) => token.kind.is_literal(),
        ExprView::Unary(operator, operand) => {
            &&& level.index() <= Level::Unary.index()
            &&& operator.kind.is_prefix_operator()
            &&& at_level(*operand, Level::Unary)
        },
    }
}

/// Whether the tokens from position `pos` on are those that `e` is written
/// with, in order: for a binary node its left operand, its operator and its
/// right operand; for a unary node its operator and its operand; for a
/// grouping a `(`, the tokens of what it holds and a `)`; for a literal its
/// token.
pub open spec fn covers(e: ExprView, tokens: Seq<TokenView>, pos: nat) -> bool
    decreases e,
{
    match e {
        ExprView::Binary(left, operator, right) => {
            let middle = pos + left.width();
            &&& covers(*left, tokens, pos)
            &&& middle < tokens.len()
            &&& tokens[middle as int] == operator
            &&& covers(*right, tokens, middle + 1)
        },
        ExprView::Grouping(inner) => {
            let close = pos + 1 + inner.width();
            &&& pos < tokens.len()
            &&& tokens[pos as int].kind is LParen
            &&& covers(*inner, tokens, pos + 1)
            &&& close < tokens.len()
            &&& tokens[close as int].kind is RParen
        },
        ExprView::Literal(token) => pos < tokens.len() && tokens[pos as int] == token,
        ExprView::Unary(operator, operand) => {
            &&& pos < tokens.len()
            &&& tokens[pos as int] == operator
            &&& covers(*operand, tokens, pos + 1)
        },
    }
}

/// Whether a tree of `level` that ends before position `pos` could not have
/// gone further: no binary operator of that level or of a tighter one stands
/// at `pos`.
pub open spec fn ends_at(tokens: Seq<TokenView>, pos: nat, level: Level) -> bool {
    pos < tokens.len() ==> match tokens[pos as int].kind.binary_level() {
        Some(own) => own.index() < level.index(),
        None => true,
    }
}

/// Whether `e` is the tree that the grammar gives the tokens from `pos` on at
/// `level`: a tree of the grammar at that level, written with those tokens,
/// and, where the level is a binary one, as long as it can be.
pub open spec fn fits(e: ExprView, tokens: Seq<TokenView>, pos: nat, level: Level) -> bool {
    &&& at_level(e, level)
    &&& covers(e, tokens, pos)
    &&& level.is_binary() ==> ends_at(tokens, pos + e.width(), level)
}

/// A tree of one level is a tree of every looser level.
pub proof fn lemma_at_level_looser(e: ExprView, tight: Level, loose: Level)
    requires
        at_level(e, tight),
        loose.index() <= tight.index(),
    ensures
        at_level(e, loose),
{
}

/// A tree covers no more tokens than there are.
pub proof fn lemma_covers_within(e: ExprView, tokens: Seq<TokenView>, pos: nat)
    requires
        covers(e, tokens, pos),
    ensures
        e.width() >= 1,
        pos + e.width() <= tokens.len(),
    decreases e,
{
    match e {
        ExprView::Binary(left, _, right) => {
            lemma_covers_within(*left, tokens, pos);
            lemma_covers_within(*right, tokens, pos + left.width() + 1);
        },
        ExprView::Grouping(inner) => {
            lemma_covers_within(*inner, tokens, pos + 1);
        },
        ExprView::Literal(_) => {},
        ExprView::Unary(_, operand) => {
            lemma_covers_within(*operand, tokens, pos + 1);
        },
    }
}

/// Precedence and associativity. A tree read at a level is a tree of the
/// grammar at that level, so an operator that binds tighter lies deeper than
/// one that binds looser, binary operators of one level group from the left
/// and prefix operators from the right. It is written with exactly the tokens
/// read, in their order. And it is as long as it can be: where it was read at
/// a binary level, no operator of that level or a tighter one follows it.
pub proof fn lemma_parse_at_sound(tokens: Seq<TokenView>, pos: nat, level: Level)
    ensures
        parse_at(tokens, pos, level) matches Ok(e) ==> fits(e, tokens, pos, level),
    decreases remaining(tokens.len(), pos), 6 - level.index(),
{
    match level {
        Level::Equality | Level::Comparison | Level::Term | Level::Factor => {
            lemma_parse_at_sound(tokens, pos, level.tighter());
            if let Ok(first) = parse_at(tokens, pos, level.tighter()) {
                lemma_at_level_looser(first, level.tighter(), level);
                lemma_extend_sound(tokens, pos, level, first);
            }
        },
        Level::Unary => {
            if pos < tokens.len() && tokens[pos as int].kind.is_prefix_operator() {
                lemma_parse_at_sound(tokens, pos + 1, Level::Unary);
            } else {
                lemma_parse_at_sound(tokens, pos, Level::Primary);
                if let Ok(e) = parse_at(tokens, pos, Level::Primary) {
                    lemma_at_level_looser(e, Level::Primary, Level::Unary);
                }
            }
        },
        Level::Primary => {
            if pos < tokens.len() && tokens[pos as int].kind is LParen {
                lemma_parse_at_sound(tokens, pos + 1, Level::Equality);
            }
        },
    }
}

/// What holds of a tree read holds of a tree extended: if `left` is a tree of
/// the binary level `level` that covers the tokens from `start` on and could
/// not have gone further at the next tighter level, then so is what it grows
/// into, which moreover could not have gone further at `level`.
pub proof fn lemma_extend_sound(tokens: Seq<TokenView>, start: nat, level: Level, left: ExprView)
    requires
        level.is_binary(),
        at_level(left, level),
        covers(left, tokens, start),
        ends_at(tokens, start + left.width(), level.tighter()),
    ensures
        extend(tokens, start + left.width(), level, left) matches Ok(e) ==> {
            &&& at_level(e, level)
            &&& covers(e, tokens, start)
            &&& ends_at(tokens, start + e.width(), level)
        },
    decreases remaining(tokens.len(), start + left.width()), 0nat,
{
    let pos = start + left.width();
    if pos < tokens.len() && tokens[pos as int].kind.binary_level() == Some(level) {
        lemma_parse_at_sound(tokens, pos + 1, level.tighter());
        if let Ok(right) = parse_at(tokens, pos + 1, level.tighter()) {
            let grown = ExprView::Binary(Box::new(left), tokens[pos as int], Box::new(right));
            lemma_extend_sound(tokens, start, level, grown);
        }
    }
}

/// Where no token is left, no expression is read: at or past the end of the
/// tokens, reading at any level stops at once for want of an expression.
pub proof fn lemma_parse_at_end(tokens: Seq<TokenView>, pos: nat, level: Level)
    requires
        pos >= tokens.len(),
    ensures
        parse_at(tokens, pos, level) == Err::<ExprView, Fault>(
            Fault { at: pos, expected: Expectation::Expression },
        ),
    decreases 6 - level.index(),
{
    if level.index() <= 4 {
        lemma_parse_at_end(tokens, pos, level.tighter());
    }
}

/// A fault lies at or after the position from which the reading began, and
/// never past the end of the tokens.
pub proof fn lemma_fault_position(tokens: Seq<TokenView>, pos: nat, level: Level)
    requires
        pos <= tokens.len(),
    ensures
        parse_at(tokens, pos, level) matches Err(fault) ==> pos <= fault.at <= tokens.len(),
    decreases remaining(tokens.len(), pos), 6 - level.index(),
{
    match level {
        Level::Equality | Level::Comparison | Level::Term | Level::Factor => {
            lemma_fault_position(tokens, pos, level.tighter());
            if let Ok(first) = parse_at(tokens, pos, level.tighter()) {
                lemma_parse_at_sound(tokens, pos, level.tighter());
                lemma_covers_within(first, tokens, pos);
                lemma_extend_fault_position(tokens, pos + first.width(), level, first);
            }
        },
        Level::Unary => {
            if pos < tokens.len() && tokens[pos as int].kind.is_prefix_operator() {
                lemma_fault_position(tokens, pos + 1, Level::Unary);
            } else {
                lemma_fault_position(tokens, pos, Level::Primary);
            }
        },
        Level::Primary => {
            if pos < tokens.len() && tokens[pos as int].kind is LParen {
                lemma_fault_position(tokens, pos + 1, Level::Equality);
                lemma_parse_at_sound(tokens, pos + 1, Level::Equality);
                if let Ok(inner) = parse_at(tokens, pos + 1, Level::Equality) {
                    lemma_covers_within(inner, tokens, pos + 1);
                }
            }
        },
    }
}

/// The fault of an extension lies at or after the position from which the
/// tree is extended, and never past the end of the tokens.
pub proof fn lemma_extend_fault_position(
    tokens: Seq<TokenView>,
    pos: nat,
    level: Level,
    left: ExprView,
)
    requires
        pos <= tokens.len(),
    ensures
        extend(tokens, pos, level, left) matches Err(fault) ==> pos <= fault.at <= tokens.len(),
    decreases remaining(tokens.len(), pos), 0nat,
{
    if pos < tokens.len() && tokens[pos as int].kind.binary_level() == Some(level) {
        lemma_fault_position(tokens, pos + 1, level.tighter());
        if let Ok(right) = parse_at(tokens, pos + 1, level.tighter()) {
            lemma_parse_at_sound(tokens, pos + 1, level.tighter());
            lemma_covers_within(right, tokens, pos + 1);
            lemma_extend_fault_position(
                tokens,
                pos + 1 + right.width(),
                level,
                ExprView::Binary(Box::new(left), tokens[pos as int], Box::new(right)),
            );
        }
    }
}

/// Whether `e` is a binary node whose operator belongs to `level`.
spec fn is_chain(e: ExprView, level: Level) -> bool {
    e matches ExprView::Binary(_, operator, _) && operator.kind.binary_level() == Some(level)
}

/// The first operand of the chain of operators of `level` at the top of `e`:
/// `e` itself when its top is no such operator.
spec fn chain_head(e: ExprView, level: Level) -> ExprView
    decreases e,
{
    match e {
        ExprView::Binary(left, operator, _) => if operator.kind.binary_level() == Some(level) {
            chain_head(*left, level)
        } else {
            e
        },
        _ => e,
    }
}

/// Whether `part` is `e` or is reached from `e` by going down left operands
/// through operators of `level` alone.
spec fn in_chain(part: ExprView, e: ExprView, level: Level) -> bool
    decreases e,
{
    part == e || match e {
        ExprView::Binary(left, operator, _) => operator.kind.binary_level() == Some(level)
            && in_chain(part, *left, level),
        _ => false,
    }
}

/// The head of a chain is a tree of the next tighter level that begins where
/// the chain begins, and an operator of the chain follows it unless it is the
/// whole tree.
proof fn lemma_chain_head(tokens: Seq<TokenView>, pos: nat, level: Level, e: ExprView)
    requires
        level.is_binary(),
        at_level(e, level),
        covers(e, tokens, pos),
    ensures
        in_chain(chain_head(e, level), e, level),
        at_level(chain_head(e, level), level.tighter()),
        covers(chain_head(e, level), tokens, pos),
        chain_head(e, level).width() <= e.width(),
        is_chain(e, level) ==> {
            let after = pos + chain_head(e, level).width();
            after < tokens.len() && tokens[after as int].kind.binary_level() == Some(level)
        },
        !is_chain(e, level) ==> chain_head(e, level) == e,
    decreases e,
{
    if let ExprView::Binary(left, operator, right) = e {
        if operator.kind.binary_level() == Some(level) {
            lemma_chain_head(tokens, pos, level, *left);
        }
    }
}

/// Extending a part of a chain reaches the whole chain: if `e` is a tree of
/// the binary level `level` that covers the tokens from `start` on, and the
/// operand after each of its operators of that level could not have gone
/// further, then extending any part of its chain gives what extending `e`
/// itself gives.
proof fn lemma_extend_reaches(
    tokens: Seq<TokenView>,
    start: nat,
    level: Level,
    part: ExprView,
    e: ExprView,
)
    requires
        level.is_binary(),
        at_level(e, level),
        covers(e, tokens, start),
        in_chain(part, e, level),
        ends_at(tokens, start + e.width(), level.tighter()),
    ensures
        extend(tokens, start + part.width(), level, part) == extend(
            tokens,
            start + e.width(),
            level,
            e,
        ),
    decreases e.width(), 0nat,
{
    if part != e {
        if let ExprView::Binary(left, operator, right) = e {
            let middle = start + left.width();
            lemma_extend_reaches(tokens, start, level, part, *left);
            lemma_parse_at_complete(tokens, middle + 1, level.tighter(), *right);
            assert(extend(tokens, middle, level, *left) == extend(
                tokens,
                middle + 1 + right.width(),
                level,
                ExprView::Binary(Box::new(*left), tokens[middle as int], Box::new(*right)),
            ));
        }
    }
}

/// The tree read is the only tree of the grammar that fits. If `e` is a tree
/// of the grammar at `level`, is written with the tokens from `pos` on and,
/// where `level` is a binary one, is followed by no operator of that level or
/// a tighter one, then reading at `level` from `pos` gives `e`. With
/// [`lemma_parse_at_sound`] this says that the tokens are read as a tree if
/// and only if there is such a tree, and that there is at most one.
pub proof fn lemma_parse_at_complete(tokens: Seq<TokenView>, pos: nat, level: Level, e: ExprView)
    requires
        fits(e, tokens, pos, level),
    ensures
        parse_at(tokens, pos, level) == Ok::<ExprView, Fault>(e),
    decreases e.width(), 7 - level.index(),
{
    match level {
        Level::Equality | Level::Comparison | Level::Term | Level::Factor => {
            let head = chain_head(e, level);
            lemma_chain_head(tokens, pos, level, e);
            lemma_parse_at_complete(tokens, pos, level.tighter(), head);
            lemma_extend_reaches(tokens, pos, level, head, e);
        },
        Level::Unary => {
            match e {
                ExprView::Unary(operator, operand) => {
                    lemma_parse_at_complete(tokens, pos + 1, Level::Unary, *operand);
                },
                _ => {
                    lemma_parse_at_complete(tokens, pos, Level::Primary, e);
                },
            }
        },
        Level::Primary => {
            if let ExprView::Grouping(inner) = e {
                lemma_parse_at_complete(tokens, pos + 1, Level::Equality, *inner);
            }
        },
    }
}

/// At most one tree of the grammar fits: two trees of one level that are
/// written with the tokens from one position on, each followed by no operator
/// it could have taken, are the same tree.
pub proof fn lemma_tree_unique(
    tokens: Seq<TokenView>,
    pos: nat,
    level: Level,
    e1: ExprView,
    e2: ExprView,
)
    requires
        fits(e1, tokens, pos, level),
        fits(e2, tokens, pos, level),
    ensures
        e1 == e2,
{
    lemma_parse_at_complete(tokens, pos, level, e1);
    lemma_parse_at_complete(tokens, pos, level, e2);
}

/// Reading succeeds exactly where the grammar has a tree: the tokens from
/// `pos` on are read as `e` at `level` if and only if `e` fits them, and they
/// are read as some tree if and only if some tree fits them.
pub proof fn lemma_parse_at_iff(tokens: Seq<TokenView>, pos: nat, level: Level, e: ExprView)
    ensures
        parse_at(tokens, pos, level) == Ok::<ExprView, Fault>(e) <==> fits(e, tokens, pos, level),
        parse_at(tokens, pos, level) is Ok <==> exists|t: ExprView|
            #[trigger] fits(t, tokens, pos, level),
{
    lemma_parse_at_sound(tokens, pos, level);
    if fits(e, tokens, pos, level) {
        lemma_parse_at_complete(tokens, pos, level, e);
    }
    if exists|t: ExprView| #[trigger] fits(t, tokens, pos, level) {
        let t = choose|t: ExprView| #[trigger] fits(t, tokens, pos, level);
        lemma_parse_at_complete(tokens, pos, level, t);
    }
}

impl TokenKind {
    /// Whether the kind is a reserved word that begins a statement: `class`,
    /// `fun`, `var`, `for`, `if`, `while`, `print` or `return`.
    pub open spec fn starts_statement(self) -> bool {
        self is Class || self is Fun || self is Var || self is For || self is If || self is While
            || self is Print || self is Return
    }
}

/// Whether a statement may begin at position `pos`: the tokens end there, a
/// `;` stands just before it, or a reserved word that begins a statement
/// stands at it.
pub open spec fn is_boundary(tokens: Seq<TokenView>, pos: nat) -> bool {
    ||| pos >= tokens.len()
    ||| (pos > 0 && tokens[pos - 1].kind is Semicolon)
    ||| tokens[pos as int].kind.starts_statement()
}

/// The first position at or after `pos` at which a statement may begin.
pub open spec fn boundary_from(tokens: Seq<TokenView>, pos: nat) -> nat
    decreases remaining(tokens.len(), pos),
{
    if is_boundary(tokens, pos) {
        pos
    } else {
        boundary_from(tokens, pos + 1)
    }
}

/// `boundary_from` gives a position at which a statement may begin, and the
/// first such position.
pub proof fn lemma_boundary_from_first(tokens: Seq<TokenView>, pos: nat)
    ensures
        pos <= boundary_from(tokens, pos),
        is_boundary(tokens, boundary_from(tokens, pos)),
        forall|q: nat| pos <= q < boundary_from(tokens, pos) ==> !is_boundary(tokens, q),
        pos <= tokens.len() ==> boundary_from(tokens, pos) <= tokens.len(),
    decreases remaining(tokens.len(), pos),
{
    if !is_boundary(tokens, pos) {
        lemma_boundary_from_first(tokens, pos + 1);
    }
}

} // verus!
