//! Recursive-descent parser from tokens to a boolean expression tree.
//!
//! The grammar, with `unit` for a single operand:
//!
//! ```text
//! expr := unit | unit "or" expr | unit expr
//! unit := word | word ":" word? | ":" word | ":" unit | "(" expr ")" | "not" unit
//! ```
//!
//! Two operands that stand next to each other are joined by `And`. `And` and
//! `Or` have the same precedence and the right operand of either is everything
//! that follows, so trees lean to the right: `A B or C` is `A And (B Or C)`.
//! `not` binds tightest: it negates the one unit that follows it.

use super::lexer::{LexItem, LexItemView};
use vstd::prelude::*;

verus! {

#[derive(Debug, PartialEq, Eq, Clone, Copy, Structural)]
pub enum ParseError {
    /// A token was needed and none was left.
    UnexpectedEndOfInput,
    /// `or` or `)` stands where an operand must start.
    UnexpectedToken,
}

impl ParseError {
    /// The message of this error.
    pub open spec fn message(self) -> Seq<char> {
        match self {
            ParseError::UnexpectedEndOfInput => "Unexpected end of input"@,
            ParseError::UnexpectedToken => "Unexpected token"@,
        }
    }

    /// The message of this error.
    pub fn to_string(&self) -> (message: String)
        ensures
            message@ == self.message(),
    {
        match self {
            ParseError::UnexpectedEndOfInput => "Unexpected end of input".to_owned(),
            ParseError::UnexpectedToken => "Unexpected token".to_owned(),
        }
    }
}

#[allow(inconsistent_fields)]
#[derive(Debug, PartialEq)]
pub enum Expression {
    Empty,
    Tag(String),
    Attribute { key: Option<String>, value: Option<String> },
    BinaryOp { left: Box<Expression>, right: Box<Expression>, op_type: BinaryOp },
    UnaryOp { expr: Box<Expression>, op_type: UnaryOp },
}

#[derive(Debug, PartialEq, Eq, Clone, Copy, Structural)]
pub enum BinaryOp {
    And,
    Or,
}

#[derive(Debug, PartialEq, Eq, Clone, Copy, Structural)]
pub enum UnaryOp {
    Not,
}

/// What an `Expression` stands for: the same tree over sequences of characters.
#[allow(inconsistent_fields)]
pub enum ExpressionView {
    Empty,
    Tag(Seq<char>),
    Attribute { key: Option<Seq<char>>, value: Option<Seq<char>> },
    BinaryOp { left: Box<ExpressionView>, right: Box<ExpressionView>, op_type: BinaryOp },
    UnaryOp { expr: Box<ExpressionView>, op_type: UnaryOp },
}

/// The tree that `e` stands for.
pub open spec fn expression_view(e: Expression) -> ExpressionView
    decreases e,
{
    match e {
        Expression::Empty => ExpressionView::Empty,
        Expression::Tag(name) => ExpressionView::Tag(name@),
        Expression::Attribute { key, value } => ExpressionView::Attribute {
            key: key.deep_view(),
            value: value.deep_view(),
        },
        Expression::BinaryOp { left, right, op_type } => ExpressionView::BinaryOp {
            left: Box::new(expression_view(*left)),
            right: Box::new(expression_view(*right)),
            op_type,
        },
        Expression::UnaryOp { expr, op_type } => ExpressionView::UnaryOp {
            expr: Box::new(expression_view(*expr)),
            op_type,
        },
    }
}

impl View for Expression {
    type V = ExpressionView;

    open spec fn view(&self) -> ExpressionView {
        expression_view(*self)
    }
}

impl DeepView for Expression {
    type V = ExpressionView;

    open spec fn deep_view(&self) -> ExpressionView {
        expression_view(*self)
    }
}

impl Expression {
    /// The query for one tag.
    pub fn tag(s: &str) -> (e: Expression)
        ensures
            e@ == ExpressionView::Tag(s@),
    {
        Expression::Tag(s.to_owned())
    }
}

/// The outcome of parsing from some position: the tree or the error, and the
/// position of the first token that was not consumed.
pub struct Parsed {
    pub result: Result<ExpressionView, ParseError>,
    pub next: int,
}

/// The outcome of a parser as a value of the model.
pub open spec fn outcome_view(r: Result<Expression, ParseError>) -> Result<
    ExpressionView,
    ParseError,
> {
    match r {
        Ok(e) => Ok(e@),
        Err(e) => Err(e),
    }
}

/// `expr` of the grammar, read from `pos` on: one unit and the operator chain
/// that follows it.
pub open spec fn parse_next_at(ts: Seq<LexItemView>, pos: int) -> Parsed
    decreases ts.len() - pos, 1int,
{
    if pos < 0 || pos > ts.len() {
        Parsed { result: Err(ParseError::UnexpectedEndOfInput), next: pos }
    } else {
        let unit = parse_unit_at(ts, pos);
        match unit.result {
            Err(_) => unit,
            Ok(left) => if pos < unit.next <= ts.len() {
                parse_expr_at(ts, left, unit.next)
            } else {
                // A unit that succeeds has consumed a token: see `lemma_unit_progress`.
                unit
            },
        }
    }
}

/// The operator chain after the operand `left`, whose last token stands before
/// `pos`: nothing at the end of the input or before `)`, else `Or` after an
/// `or` token and `And` otherwise, with all that follows as right operand.
pub open spec fn parse_expr_at(ts: Seq<LexItemView>, left: ExpressionView, pos: int) -> Parsed
    decreases ts.len() - pos, 2int,
{
    if pos < 0 || pos >= ts.len() || ts[pos] is EndParen {
        Parsed { result: Ok(left), next: pos }
    } else {
        let op_type = if ts[pos] is Or {
            BinaryOp::Or
        } else {
            BinaryOp::And
        };
        let start = if ts[pos] is Or {
            pos + 1
        } else {
            pos
        };
        let rest = parse_next_at(ts, start);
        match rest.result {
            Err(e) => rest,
            Ok(right) => Parsed {
                result: Ok(
                    ExpressionView::BinaryOp {
                        left: Box::new(left),
                        right: Box::new(right),
                        op_type,
                    },
                ),
                next: rest.next,
            },
        }
    }
}

/// `unit` of the grammar, read from `pos` on.
pub open spec fn parse_unit_at(ts: Seq<LexItemView>, pos: int) -> Parsed
    decreases ts.len() - pos, 0int,
{
    if pos < 0 || pos >= ts.len() {
        Parsed { result: Err(ParseError::UnexpectedEndOfInput), next: pos }
    } else {
        match ts[pos] {
            LexItemView::Word(word) => if pos + 1 < ts.len() && ts[pos + 1]
                is AttributeSeperator {
                parse_attribute_at(ts, Some(word), pos + 2)
            } else {
                Parsed { result: Ok(ExpressionView::Tag(word)), next: pos + 1 }
            },
            LexItemView::AttributeSeperator => parse_attribute_at(ts, None, pos + 1),
            LexItemView::Not => {
                let inner = parse_unit_at(ts, pos + 1);
                match inner.result {
                    Err(_) => inner,
                    Ok(expr) => Parsed {
                        result: Ok(
                            ExpressionView::UnaryOp { expr: Box::new(expr), op_type: UnaryOp::Not },
                        ),
                        next: inner.next,
                    },
                }
            },
            LexItemView::StartParen => {
                let inner = parse_next_at(ts, pos + 1);
                match inner.result {
                    Err(_) => inner,
                    Ok(_) => Parsed {
                        result: inner.result,
                        next: if inner.next < ts.len() {
                            inner.next + 1
                        } else {
                            inner.next
                        },
                    },
                }
            },
            LexItemView::Or | LexItemView::EndParen => Parsed {
                result: Err(ParseError::UnexpectedToken),
                next: pos + 1,
            },
        }
    }
}

/// What follows a `:` whose key, if it has one, is `key`: a word at `pos` is
/// the value; without one, a key alone asks for any value, and a `:` with
/// neither key nor value is skipped.
pub open spec fn parse_attribute_at(
    ts: Seq<LexItemView>,
    key: Option<Seq<char>>,
    pos: int,
) -> Parsed
    decreases ts.len() - pos, 1int,
{
    if 0 <= pos < ts.len() && ts[pos] is Word {
        Parsed {
            result: Ok(ExpressionView::Attribute { key, value: Some(ts[pos]->Word_0) }),
            next: pos + 1,
        }
    } else if key is Some {
        Parsed { result: Ok(ExpressionView::Attribute { key, value: None }), next: pos }
    } else if 0 <= pos <= ts.len() {
        parse_unit_at(ts, pos)
    } else {
        Parsed { result: Err(ParseError::UnexpectedEndOfInput), next: pos }
    }
}

/// What a whole token sequence parses to: the empty sequence is the query
/// that matches everything.
pub open spec fn parse_tokens(ts: Seq<LexItemView>) -> Result<ExpressionView, ParseError> {
    if ts.len() == 0 {
        Ok(ExpressionView::Empty)
    } else {
        parse_next_at(ts, 0).result
    }
}

/// A unit never moves backwards or past the end of the input, and one that
/// succeeds has consumed at least one token.
pub proof fn lemma_unit_progress(ts: Seq<LexItemView>, pos: int)
    requires
        0 <= pos <= ts.len(),
    ensures
        pos <= parse_unit_at(ts, pos).next <= ts.len(),
        parse_unit_at(ts, pos).result is Ok ==> pos < parse_unit_at(ts, pos).next,
    decreases ts.len() - pos, 0int,
{
    if pos < ts.len() {
        match ts[pos] {
            LexItemView::Word(word) => {
                if pos + 1 < ts.len() && ts[pos + 1] is AttributeSeperator {
                    lemma_attribute_progress(ts, Some(word), pos + 2);
                }
            },
            LexItemView::AttributeSeperator => {
                lemma_attribute_progress(ts, None, pos + 1);
            },
            LexItemView::Not => {
                lemma_unit_progress(ts, pos + 1);
            },
            LexItemView::StartParen => {
                lemma_next_progress(ts, pos + 1);
            },
            LexItemView::Or | LexItemView::EndParen => {},
        }
    }
}

/// What follows a `:` never moves backwards or past the end of the input.
pub proof fn lemma_attribute_progress(ts: Seq<LexItemView>, key: Option<Seq<char>>, pos: int)
    requires
        0 <= pos <= ts.len(),
    ensures
        pos <= parse_attribute_at(ts, key, pos).next <= ts.len(),
        key is None && parse_attribute_at(ts, key, pos).result is Ok ==> pos
            < parse_attribute_at(ts, key, pos).next,
    decreases ts.len() - pos, 1int,
{
    if !(pos < ts.len() && ts[pos] is Word) && key is None {
        lemma_unit_progress(ts, pos);
    }
}

/// An expression never moves backwards or past the end of the input, and one
/// that succeeds has consumed at least one token.
pub proof fn lemma_next_progress(ts: Seq<LexItemView>, pos: int)
    requires
        0 <= pos <= ts.len(),
    ensures
        pos <= parse_next_at(ts, pos).next <= ts.len(),
        parse_next_at(ts, pos).result is Ok ==> pos < parse_next_at(ts, pos).next,
    decreases ts.len() - pos, 1int,
{
    lemma_unit_progress(ts, pos);
    let unit = parse_unit_at(ts, pos);
    match unit.result {
        Ok(left) => {
            lemma_expr_progress(ts, left, unit.next);
        },
        Err(_) => {},
    }
}

/// An operator chain never moves backwards or past the end of the input.
pub proof fn lemma_expr_progress(ts: Seq<LexItemView>, left: ExpressionView, pos: int)
    requires
        0 <= pos <= ts.len(),
    ensures
        pos <= parse_expr_at(ts, left, pos).next <= ts.len(),
    decreases ts.len() - pos, 2int,
{
    if pos < ts.len() && !(ts[pos] is EndParen) {
        if ts[pos] is Or {
            lemma_next_progress(ts, pos + 1);
        } else {
            lemma_next_progress(ts, pos);
        }
    }
}

/// A cursor over the tokens of a query.
pub struct Tokens {
    items: Vec<LexItem>,
    pos: usize,
}

impl Tokens {
    #[verifier::type_invariant]
    spec fn in_bounds(self) -> bool {
        self.pos <= self.items.len()
    }

    /// The tokens that are read.
    pub closed spec fn tokens(self) -> Seq<LexItemView> {
        self.items.deep_view()
    }

    /// How many tokens have been consumed.
    pub closed spec fn position(self) -> int {
        self.pos as int
    }

    /// A cursor at the first of `items`.
    pub fn new(items: Vec<LexItem>) -> (iter: Tokens)
        ensures
            iter.tokens() == items.deep_view(),
            iter.position() == 0,
    {
        Tokens { items, pos: 0 }
    }

    /// The next token, if any is left.
    pub fn peek(&self) -> (item: Option<&LexItem>)
        ensures
            0 <= self.position() <= self.tokens().len(),
            self.position() < self.tokens().len() ==> item.is_some() && item.unwrap()@
                == self.tokens()[self.position()],
            self.position() == self.tokens().len() ==> item.is_none(),
    {
        proof {
            use_type_invariant(self);
        }
        if self.pos < self.items.len() {
            Some(&self.items[self.pos])
        } else {
            None
        }
    }

    /// Steps over one token; at the end of the input nothing changes.
    pub fn advance(&mut self)
        ensures
            final(self).tokens() == old(self).tokens(),
            old(self).position() < old(self).tokens().len() ==> final(self).position() == old(
                self,
            ).position() + 1,
            old(self).position() >= old(self).tokens().len() ==> final(self).position() == old(
                self,
            ).position(),
    {
        proof {
            use_type_invariant(&*self);
        }
        if self.pos < self.items.len() {
            self.pos = self.pos + 1;
        }
    }
}

/// Parses a whole query. No tokens at all make the query that matches
/// everything; tokens that are left after a complete expression are ignored.
pub fn parse(tokens: Vec<LexItem>) -> (r: Result<Expression, ParseError>)
    ensures
        outcome_view(r) == parse_tokens(tokens.deep_view()),
{
    if tokens.len() == 0 {
        return Ok(Expression::Empty);
    }
    let mut iter = Tokens::new(tokens);
    parse_next(&mut iter)
}

/// Parses the next expression in `iter`: one operand and every operator and
/// operand that follow it, up to the end of the input or a `)` that closes it.
pub fn parse_next(iter: &mut Tokens) -> (r: Result<Expression, ParseError>)
    ensures
        final(iter).tokens() == old(iter).tokens(),
        outcome_view(r) == parse_next_at(old(iter).tokens(), old(iter).position()).result,
        final(iter).position() == parse_next_at(old(iter).tokens(), old(iter).position()).next,
    decreases old(iter).tokens().len() - old(iter).position(), 1int,
{
    proof {
        use_type_invariant(&*iter);
        lemma_unit_progress(iter.tokens(), iter.position());
    }
    match parse_unit(iter) {
        Err(e) => Err(e),
        Ok(unit) => parse_expr(unit, iter),
    }
}

/// Attaches the operator chain that follows the operand `expr`.
fn parse_expr(expr: Expression, iter: &mut Tokens) -> (r: Result<Expression, ParseError>)
    ensures
        final(iter).tokens() == old(iter).tokens(),
        outcome_view(r) == parse_expr_at(old(iter).tokens(), expr@, old(iter).position()).result,
        final(iter).position() == parse_expr_at(
            old(iter).tokens(),
            expr@,
            old(iter).position(),
        ).next,
    decreases old(iter).tokens().len() - old(iter).position(), 2int,
{
    let op_type = match iter.peek() {
        None => {
            return Ok(expr);
        },
        Some(LexItem::EndParen) => {
            return Ok(expr);
        },
        Some(LexItem::Or) => BinaryOp::Or,
        Some(_) => BinaryOp::And,
    };
    match op_type {
        BinaryOp::Or => {
            iter.advance();
        },
        BinaryOp::And => {},
    }
    match parse_next(iter) {
        Err(e) => Err(e),
        Ok(right) => Ok(
            Expression::BinaryOp { left: Box::new(expr), right: Box::new(right), op_type },
        ),
    }
}

/// Parses one operand.
fn parse_unit(iter: &mut Tokens) -> (r: Result<Expression, ParseError>)
    ensures
        final(iter).tokens() == old(iter).tokens(),
        outcome_view(r) == parse_unit_at(old(iter).tokens(), old(iter).position()).result,
        final(iter).position() == parse_unit_at(old(iter).tokens(), old(iter).position()).next,
    decreases old(iter).tokens().len() - old(iter).position(), 0int,
{
    let current = match iter.peek() {
        None => {
            return Err(ParseError::UnexpectedEndOfInput);
        },
        Some(item) => clone_item(item),
    };
    iter.advance();
    match current {
        LexItem::Word(s) => parse_word(s, iter),
        LexItem::Not => parse_unary(UnaryOp::Not, iter),
        LexItem::Or | LexItem::EndParen => Err(ParseError::UnexpectedToken),
        LexItem::StartParen => parse_paren(iter),
        LexItem::AttributeSeperator => parse_attribute(None, iter),
    }
}

/// A copy of `item`.
fn clone_item(item: &LexItem) -> (copy: LexItem)
    ensures
        copy@ == item@,
{
    match item {
        LexItem::Word(s) => LexItem::Word(s.clone()),
        LexItem::AttributeSeperator => LexItem::AttributeSeperator,
        LexItem::StartParen => LexItem::StartParen,
        LexItem::EndParen => LexItem::EndParen,
        LexItem::Or => LexItem::Or,
        LexItem::Not => LexItem::Not,
    }
}

/// The operand that starts with `word`, which has just been consumed: a tag,
/// or the key of an attribute if a `:` follows.
fn parse_word(word: String, iter: &mut Tokens) -> (r: Result<Expression, ParseError>)
    requires
        0 < old(iter).position(),
        old(iter).tokens()[old(iter).position() - 1] == LexItemView::Word(word@),
    ensures
        final(iter).tokens() == old(iter).tokens(),
        outcome_view(r) == parse_unit_at(old(iter).tokens(), old(iter).position() - 1).result,
        final(iter).position() == parse_unit_at(
            old(iter).tokens(),
            old(iter).position() - 1,
        ).next,
    decreases old(iter).tokens().len() - old(iter).position(), 2int,
{
    let is_key = match iter.peek() {
        Some(LexItem::AttributeSeperator) => true,
        _ => false,
    };
    if is_key {
        iter.advance();
        parse_attribute(Some(word), iter)
    } else {
        Ok(Expression::Tag(word))
    }
}

/// The operand in parentheses whose `(` has just been consumed. The token
/// after the inner expression is consumed whatever it is: a `)` that is
/// missing at the end of the input is not an error.
fn parse_paren(iter: &mut Tokens) -> (r: Result<Expression, ParseError>)
    requires
        0 < old(iter).position(),
        old(iter).tokens()[old(iter).position() - 1] is StartParen,
    ensures
        final(iter).tokens() == old(iter).tokens(),
        outcome_view(r) == parse_unit_at(old(iter).tokens(), old(iter).position() - 1).result,
        final(iter).position() == parse_unit_at(
            old(iter).tokens(),
            old(iter).position() - 1,
        ).next,
    decreases old(iter).tokens().len() - old(iter).position(), 2int,
{
    proof {
        use_type_invariant(&*iter);
    }
    match parse_next(iter) {
        Err(e) => Err(e),
        Ok(inner_expr) => {
            iter.advance();
            Ok(inner_expr)
        },
    }
}

/// The negation whose `not` has just been consumed: it holds one operand.
fn parse_unary(op_type: UnaryOp, iter: &mut Tokens) -> (r: Result<Expression, ParseError>)
    requires
        0 < old(iter).position(),
        old(iter).tokens()[old(iter).position() - 1] is Not,
    ensures
        final(iter).tokens() == old(iter).tokens(),
        outcome_view(r) == parse_unit_at(old(iter).tokens(), old(iter).position() - 1).result,
        final(iter).position() == parse_unit_at(
            old(iter).tokens(),
            old(iter).position() - 1,
        ).next,
    decreases old(iter).tokens().len() - old(iter).position(), 1int,
{
    proof {
        use_type_invariant(&*iter);
    }
    match parse_unit(iter) {
        Err(e) => Err(e),
        Ok(expr) => Ok(Expression::UnaryOp { expr: Box::new(expr), op_type }),
    }
}

/// What follows a `:` that has just been consumed.
fn parse_attribute(key: Option<String>, iter: &mut Tokens) -> (r: Result<
    Expression,
    ParseError,
>)
    ensures
        final(iter).tokens() == old(iter).tokens(),
        outcome_view(r) == parse_attribute_at(
            old(iter).tokens(),
            key.deep_view(),
            old(iter).position(),
        ).result,
        final(iter).position() == parse_attribute_at(
            old(iter).tokens(),
            key.deep_view(),
            old(iter).position(),
        ).next,
    decreases old(iter).tokens().len() - old(iter).position(), 1int,
{
    let value = match iter.peek() {
        Some(LexItem::Word(value)) => Some(value.clone()),
        _ => None,
    };
    if value.is_some() {
        iter.advance();
        Ok(Expression::Attribute { key, value })
    } else if key.is_some() {
        Ok(Expression::Attribute { key, value })
    } else {
        parse_unit(iter)
    }
}

} // verus!
