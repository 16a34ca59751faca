//! The grammar of Lox, as functions from a token sequence and a position to
//! what stands there. Each function says what the parser of the same name
//! returns and how many tokens it takes, on success and on failure.
use crate::expression::{
    assign_target, AssignTargetView, ExprView, LiteralView as Constant, VariableView,
};
use crate::scanner::{LiteralView, TokenType, TokenView};
use crate::statement::{FunctionView, StmtView};
use vstd::prelude::*;

verus! {

/// The kinds of parse error.
#[derive(Copy, Clone, Debug, PartialEq, Eq, Structural)]
pub enum ParseErrorType {
    ExpectedToken { expected: TokenType, found: Option<TokenType> },
    ExpectedExpression,
    ExpectedStatement,
    InvalidAssignment,
    ExpectedForLoopInitializerOrSemiColon,
    ExpectedForLoopConditionOrSemiColon,
    ExpectedRightBraceAfterClassBody,
}

/// The mathematical model of a parse error.
pub struct ParseErrorView {
    pub error_type: ParseErrorType,
    pub token: Option<TokenView>,
}

/// What a grammar rule finds at a position: a value or an error, and the
/// number of tokens that it took in either case.
pub struct Parsed<T> {
    pub result: Result<T, ParseErrorView>,
    pub used: nat,
}

/// A rule that found a value.
pub open spec fn done<T>(value: T, used: nat) -> Parsed<T> {
    Parsed { result: Ok(value), used }
}

/// A rule that found an error.
pub open spec fn failed<T>(error: ParseErrorView, used: nat) -> Parsed<T> {
    Parsed { result: Err(error), used }
}

/// The same outcome, after `before` tokens that were taken earlier.
pub open spec fn after<T>(before: nat, parsed: Parsed<T>) -> Parsed<T> {
    Parsed { result: parsed.result, used: before + parsed.used }
}

/// The token at a position.
pub open spec fn token_at(tokens: Seq<TokenView>, pos: nat) -> Option<TokenView> {
    if pos < tokens.len() {
        Some(tokens[pos as int])
    } else {
        None
    }
}

/// The kind of the token at a position.
pub open spec fn kind_at(tokens: Seq<TokenView>, pos: nat) -> Option<TokenType> {
    if pos < tokens.len() {
        Some(tokens[pos as int].token_type)
    } else {
        None
    }
}

/// The number of tokens at `pos` and after.
pub open spec fn remaining(tokens: Seq<TokenView>, pos: nat) -> nat {
    if pos < tokens.len() {
        (tokens.len() - pos) as nat
    } else {
        0
    }
}

/// A parse error at a token.
pub open spec fn error(error_type: ParseErrorType, token: Option<TokenView>) -> ParseErrorView {
    ParseErrorView { error_type, token }
}

/// Takes the token at `pos` where it is of the expected kind.
pub open spec fn expect(
    tokens: Seq<TokenView>,
    pos: nat,
    expected: TokenType,
) -> Parsed<TokenView> {
    if kind_at(tokens, pos) == Some(expected) {
        done(tokens[pos as int], 1)
    } else {
        failed(
            error(
                ParseErrorType::ExpectedToken { expected, found: kind_at(tokens, pos) },
                token_at(tokens, pos),
            ),
            0,
        )
    }
}

/// primary := NUMBER | STRING | "true" | "false" | "nil" | "this"
///          | "super" "." IDENT | IDENT | "(" expr ")"
#[verifier::opaque]
pub open spec fn primary(tokens: Seq<TokenView>, pos: nat) -> Parsed<ExprView>
    decreases remaining(tokens, pos), 0nat,
{
    match token_at(tokens, pos) {
        None => failed(error(ParseErrorType::ExpectedExpression, None), 0),
        Some(t) => match t.token_type {
            TokenType::False => done(ExprView::Literal(Constant::False), 1),
            TokenType::True => done(ExprView::Literal(Constant::True), 1),
            TokenType::Nil => done(ExprView::Literal(Constant::Nil), 1),
            TokenType::String => match t.literal {
                Some(LiteralView::String(s)) => done(ExprView::Literal(Constant::String(s)), 1),
                _ => failed(error(ParseErrorType::ExpectedExpression, Some(t)), 1),
            },
            TokenType::Number => match t.literal {
                Some(LiteralView::Number(n)) => done(ExprView::Literal(Constant::Number(n)), 1),
                _ => failed(error(ParseErrorType::ExpectedExpression, Some(t)), 1),
            },
            TokenType::LeftParen => {
                let inner = expression(tokens, pos + 1);
                match inner.result {
                    Err(e) => failed(e, 1 + inner.used),
                    Ok(nested) => {
                        let close = expect(tokens, pos + 1 + inner.used, TokenType::RightParen);
                        match close.result {
                            Err(e) => failed(e, 1 + inner.used),
                            Ok(_) => done(ExprView::Grouping(Box::new(nested)), 1 + inner.used + 1),
                        }
                    },
                }
            },
            TokenType::Identifier => done(ExprView::Variable { name: t, hops: None }, 1),
            TokenType::This => done(ExprView::This { keyword: t, hops: None }, 1),
            TokenType::Super => {
                let dot = expect(tokens, pos + 1, TokenType::Dot);
                match dot.result {
                    Err(e) => failed(e, 1),
                    Ok(_) => {
                        let method = expect(tokens, pos + 2, TokenType::Identifier);
                        match method.result {
                            Err(e) => failed(e, 2),
                            Ok(m) => done(
                                ExprView::Super {
                                    keyword: t,
                                    method: m,
                                    hops_to_super: None,
                                    hops_to_this: None,
                                },
                                3,
                            ),
                        }
                    },
                }
            },
            _ => failed(error(ParseErrorType::ExpectedExpression, Some(t)), 1),
        },
    }
}

/// args := expr ( "," expr )*, after the expressions in `found`.
#[verifier::opaque]
pub open spec fn arguments_rest(tokens: Seq<TokenView>, pos: nat, found: Seq<ExprView>) -> Parsed<
    Seq<ExprView>,
>
    decreases remaining(tokens, pos), 22nat,
{
    let arg = expression(tokens, pos);
    match arg.result {
        Err(e) => failed(e, arg.used),
        Ok(a) => if kind_at(tokens, pos + arg.used) == Some(TokenType::Comma) {
            after(arg.used + 1, arguments_rest(tokens, pos + arg.used + 1, found.push(a)))
        } else {
            done(found.push(a), arg.used)
        },
    }
}

/// The arguments of a call, up to and without the closing parenthesis.
#[verifier::opaque]
pub open spec fn arguments(tokens: Seq<TokenView>, pos: nat) -> Parsed<Seq<ExprView>>
    decreases remaining(tokens, pos), 23nat,
{
    if kind_at(tokens, pos) == Some(TokenType::RightParen) {
        done(Seq::empty(), 0)
    } else {
        arguments_rest(tokens, pos, Seq::empty())
    }
}

/// ( "(" args? ")" | "." IDENT )*, applied to `callee` from left to right.
#[verifier::opaque]
pub open spec fn call_rest(tokens: Seq<TokenView>, pos: nat, callee: ExprView) -> Parsed<ExprView>
    decreases remaining(tokens, pos), 0nat,
{
    match kind_at(tokens, pos) {
        Some(TokenType::LeftParen) => {
            let args = arguments(tokens, pos + 1);
            match args.result {
                Err(e) => failed(e, 1 + args.used),
                Ok(a) => {
                    let close = expect(tokens, pos + 1 + args.used, TokenType::RightParen);
                    match close.result {
                        Err(e) => failed(e, 1 + args.used),
                        Ok(right_paren) => after(
                            1 + args.used + 1,
                            call_rest(
                                tokens,
                                pos + 1 + args.used + 1,
                                ExprView::Call { right_paren, callee: Box::new(callee), args: a },
                            ),
                        ),
                    }
                },
            }
        },
        Some(TokenType::Dot) => {
            let name = expect(tokens, pos + 1, TokenType::Identifier);
            match name.result {
                Err(e) => failed(e, 1),
                Ok(n) => after(
                    2,
                    call_rest(tokens, pos + 2, ExprView::Get { name: n, object: Box::new(callee) }),
                ),
            }
        },
        _ => done(callee, 0),
    }
}

/// call := primary ( "(" args? ")" | "." IDENT )*
#[verifier::opaque]
pub open spec fn call(tokens: Seq<TokenView>, pos: nat) -> Parsed<ExprView>
    decreases remaining(tokens, pos), 1nat,
{
    let first = primary(tokens, pos);
    match first.result {
        Err(e) => failed(e, first.used),
        Ok(callee) => after(first.used, call_rest(tokens, pos + first.used, callee)),
    }
}

/// unary := ( "!" | "-" ) unary | call
#[verifier::opaque]
pub open spec fn unary(tokens: Seq<TokenView>, pos: nat) -> Parsed<ExprView>
    decreases remaining(tokens, pos), 2nat,
{
    if kind_at(tokens, pos) == Some(TokenType::Bang) || kind_at(tokens, pos) == Some(
        TokenType::Minus,
    ) {
        let operand = unary(tokens, pos + 1);
        match operand.result {
            Err(e) => failed(e, 1 + operand.used),
            Ok(right) => done(
                ExprView::Unary { operator: tokens[pos as int], right: Box::new(right) },
                1 + operand.used,
            ),
        }
    } else {
        call(tokens, pos)
    }
}

/// The levels of left-associative infix operators, from the one that binds
/// tightest: factor, term, comparison, equality, `and`, `or`.
pub const FACTOR: u8 = 0;

pub const TERM: u8 = 1;

pub const COMPARISON: u8 = 2;

pub const EQUALITY: u8 = 3;

pub const LOGIC_AND: u8 = 4;

pub const LOGIC_OR: u8 = 5;

/// Whether a token kind is an operator of the level.
pub open spec fn is_operator(level: u8, kind: TokenType) -> bool {
    if level == FACTOR {
        kind == TokenType::Star || kind == TokenType::Slash
    } else if level == TERM {
        kind == TokenType::Plus || kind == TokenType::Minus
    } else if level == COMPARISON {
        kind == TokenType::Less || kind == TokenType::Greater || kind == TokenType::LessEqual
            || kind == TokenType::GreaterEqual
    } else if level == EQUALITY {
        kind == TokenType::EqualEqual || kind == TokenType::BangEqual
    } else if level == LOGIC_AND {
        kind == TokenType::And
    } else if level == LOGIC_OR {
        kind == TokenType::Or
    } else {
        false
    }
}

/// The node for `left operator right` at a level: logical for `and` and
/// `or`, binary for the others.
pub open spec fn infix_node(
    level: u8,
    left: ExprView,
    operator: TokenView,
    right: ExprView,
) -> ExprView {
    if level == LOGIC_AND || level == LOGIC_OR {
        ExprView::Logical { left: Box::new(left), right: Box::new(right), operator }
    } else {
        ExprView::Binary { left: Box::new(left), right: Box::new(right), operator }
    }
}

/// An operand of a level: an expression of the level below; a unary
/// expression below the factors.
#[verifier::opaque]
pub open spec fn operand(tokens: Seq<TokenView>, pos: nat, level: u8) -> Parsed<ExprView>
    decreases remaining(tokens, pos), 3 + 2 * level as nat,
{
    if level == 0 || level > LOGIC_OR {
        unary(tokens, pos)
    } else {
        infix(tokens, pos, (level - 1) as u8)
    }
}

/// ( operator operand )* at a level, applied to `left` from left to right.
#[verifier::opaque]
pub open spec fn infix_rest(tokens: Seq<TokenView>, pos: nat, level: u8, left: ExprView) -> Parsed<
    ExprView,
>
    decreases remaining(tokens, pos), 3 + 2 * level as nat,
{
    match token_at(tokens, pos) {
        Some(operator) => if is_operator(level, operator.token_type) {
            let right = operand(tokens, pos + 1, level);
            match right.result {
                Err(e) => failed(e, 1 + right.used),
                Ok(r) => after(
                    1 + right.used,
                    infix_rest(
                        tokens,
                        pos + 1 + right.used,
                        level,
                        infix_node(level, left, operator, r),
                    ),
                ),
            }
        } else {
            done(left, 0)
        },
        None => done(left, 0),
    }
}

/// operand ( operator operand )* at a level.
#[verifier::opaque]
pub open spec fn infix(tokens: Seq<TokenView>, pos: nat, level: u8) -> Parsed<ExprView>
    decreases remaining(tokens, pos), 4 + 2 * level as nat,
{
    let first = operand(tokens, pos, level);
    match first.result {
        Err(e) => failed(e, first.used),
        Ok(left) => after(first.used, infix_rest(tokens, pos + first.used, level, left)),
    }
}

/// assignment := ( call "." )? IDENT "=" assignment | logic_or
///
/// The left side is read as an expression first. Before an equal sign it
/// must name a variable or a property.
#[verifier::opaque]
pub open spec fn assignment(tokens: Seq<TokenView>, pos: nat) -> Parsed<ExprView>
    decreases remaining(tokens, pos), 20nat,
{
    let left = infix(tokens, pos, LOGIC_OR);
    match left.result {
        Err(e) => failed(e, left.used),
        Ok(target) => if kind_at(tokens, pos + left.used) == Some(TokenType::Equal) {
            let right = assignment(tokens, pos + left.used + 1);
            match right.result {
                Err(e) => failed(e, left.used + 1 + right.used),
                Ok(value) => match assign_target(target) {
                    Some(AssignTargetView::Var { name }) => done(
                        ExprView::Assignment { name, hops: None, value: Box::new(value) },
                        left.used + 1 + right.used,
                    ),
                    Some(AssignTargetView::Get { object, name }) => done(
                        ExprView::SetProperty {
                            name,
                            object: Box::new(object),
                            value: Box::new(value),
                        },
                        left.used + 1 + right.used,
                    ),
                    None => failed(
                        error(ParseErrorType::InvalidAssignment, Some(tokens[(pos + left.used) as int])),
                        left.used + 1 + right.used,
                    ),
                },
            }
        } else {
            done(target, left.used)
        },
    }
}

/// expr := assignment
#[verifier::opaque]
pub open spec fn expression(tokens: Seq<TokenView>, pos: nat) -> Parsed<ExprView>
    decreases remaining(tokens, pos), 21nat,
{
    assignment(tokens, pos)
}

/// The step of a repetition: the tokens that an item took, and one token
/// for an item that took none, so that every repetition ends.
pub open spec fn step(used: nat) -> nat {
    if used == 0 {
        1
    } else {
        used
    }
}

/// exprStmt := expr ";"
#[verifier::opaque]
pub open spec fn expression_statement(tokens: Seq<TokenView>, pos: nat) -> Parsed<StmtView>
    decreases remaining(tokens, pos), 24nat,
{
    let e = expression(tokens, pos);
    match e.result {
        Err(x) => failed(x, e.used),
        Ok(expr) => match expect(tokens, pos + e.used, TokenType::Semicolon).result {
            Err(x) => failed(x, e.used),
            Ok(_) => done(StmtView::Expression(expr), e.used + 1),
        },
    }
}

/// printStmt := "print" expr ";"
#[verifier::opaque]
pub open spec fn print_statement(tokens: Seq<TokenView>, pos: nat) -> Parsed<StmtView>
    decreases remaining(tokens, pos), 24nat,
{
    match expect(tokens, pos, TokenType::Print).result {
        Err(x) => failed(x, 0),
        Ok(_) => {
            let e = expression(tokens, pos + 1);
            match e.result {
                Err(x) => failed(x, 1 + e.used),
                Ok(expr) => match expect(tokens, pos + 1 + e.used, TokenType::Semicolon).result {
                    Err(x) => failed(x, 1 + e.used),
                    Ok(_) => done(StmtView::Print(expr), 1 + e.used + 1),
                },
            }
        },
    }
}

/// breakStmt := "break" ";"
#[verifier::opaque]
pub open spec fn break_statement(tokens: Seq<TokenView>, pos: nat) -> Parsed<StmtView> {
    match expect(tokens, pos, TokenType::Break).result {
        Err(x) => failed(x, 0),
        Ok(keyword) => match expect(tokens, pos + 1, TokenType::Semicolon).result {
            Err(x) => failed(x, 1),
            Ok(_) => done(StmtView::Break { keyword }, 2),
        },
    }
}

/// returnStmt := "return" expr? ";"
#[verifier::opaque]
pub open spec fn return_statement(tokens: Seq<TokenView>, pos: nat) -> Parsed<StmtView>
    decreases remaining(tokens, pos), 24nat,
{
    match expect(tokens, pos, TokenType::Return).result {
        Err(x) => failed(x, 0),
        Ok(keyword) => if kind_at(tokens, pos + 1) == Some(TokenType::Semicolon) {
            done(StmtView::Return { keyword, value: None }, 2)
        } else {
            let e = expression(tokens, pos + 1);
            match e.result {
                Err(x) => failed(x, 1 + e.used),
                Ok(expr) => match expect(tokens, pos + 1 + e.used, TokenType::Semicolon).result {
                    Err(x) => failed(x, 1 + e.used),
                    Ok(_) => done(StmtView::Return { keyword, value: Some(expr) }, 1 + e.used + 1),
                },
            }
        },
    }
}

/// varDecl := "var" IDENT ( "=" expr )? ";"
#[verifier::opaque]
pub open spec fn var_declaration(tokens: Seq<TokenView>, pos: nat) -> Parsed<StmtView>
    decreases remaining(tokens, pos), 24nat,
{
    match expect(tokens, pos, TokenType::Var).result {
        Err(x) => failed(x, 0),
        Ok(_) => match expect(tokens, pos + 1, TokenType::Identifier).result {
            Err(x) => failed(x, 1),
            Ok(name) => if kind_at(tokens, pos + 2) == Some(TokenType::Equal) {
                let e = expression(tokens, pos + 3);
                match e.result {
                    Err(x) => failed(x, 3 + e.used),
                    Ok(expr) => match expect(tokens, pos + 3 + e.used, TokenType::Semicolon).result {
                        Err(x) => failed(x, 3 + e.used),
                        Ok(_) => done(
                            StmtView::Variable { name, initializer: Some(expr) },
                            3 + e.used + 1,
                        ),
                    },
                }
            } else {
                match expect(tokens, pos + 2, TokenType::Semicolon).result {
                    Err(x) => failed(x, 2),
                    Ok(_) => done(StmtView::Variable { name, initializer: None }, 3),
                }
            },
        },
    }
}

/// The statements of a block up to its closing brace, after those in `found`.
#[verifier::opaque]
pub open spec fn block_rest(tokens: Seq<TokenView>, pos: nat, found: Seq<StmtView>) -> Parsed<
    Seq<StmtView>,
>
    decreases remaining(tokens, pos), 32nat,
{
    match kind_at(tokens, pos) {
        None => failed(
            error(ParseErrorType::ExpectedToken { expected: TokenType::RightBrace, found: None }, None),
            0,
        ),
        Some(TokenType::RightBrace) => done(found, 1),
        Some(_) => {
            let d = declaration(tokens, pos);
            match d.result {
                Err(x) => failed(x, d.used),
                Ok(s) => after(step(d.used), block_rest(tokens, pos + step(d.used), found.push(s))),
            }
        },
    }
}

/// block := "{" declaration* "}"
#[verifier::opaque]
pub open spec fn block(tokens: Seq<TokenView>, pos: nat) -> Parsed<Seq<StmtView>>
    decreases remaining(tokens, pos), 24nat,
{
    match expect(tokens, pos, TokenType::LeftBrace).result {
        Err(x) => failed(x, 0),
        Ok(_) => after(1, block_rest(tokens, pos + 1, Seq::empty())),
    }
}

/// A block as a statement.
#[verifier::opaque]
pub open spec fn block_statement(tokens: Seq<TokenView>, pos: nat) -> Parsed<StmtView>
    decreases remaining(tokens, pos), 25nat,
{
    let b = block(tokens, pos);
    match b.result {
        Err(x) => failed(x, b.used),
        Ok(statements) => done(StmtView::Block(statements), b.used),
    }
}

/// ifStmt := "if" "(" expr ")" statement ( "else" statement )?
#[verifier::opaque]
pub open spec fn if_statement(tokens: Seq<TokenView>, pos: nat) -> Parsed<StmtView>
    decreases remaining(tokens, pos), 25nat,
{
    match expect(tokens, pos, TokenType::If).result {
        Err(x) => failed(x, 0),
        Ok(_) => match expect(tokens, pos + 1, TokenType::LeftParen).result {
            Err(x) => failed(x, 1),
            Ok(_) => {
                let c = expression(tokens, pos + 2);
                match c.result {
                    Err(x) => failed(x, 2 + c.used),
                    Ok(cond) => match expect(tokens, pos + 2 + c.used, TokenType::RightParen).result {
                        Err(x) => failed(x, 2 + c.used),
                        Ok(_) => {
                            let t = statement(tokens, pos + 3 + c.used);
                            match t.result {
                                Err(x) => failed(x, 3 + c.used + t.used),
                                Ok(then_branch) => if kind_at(tokens, pos + 3 + c.used + t.used)
                                    == Some(TokenType::Else) {
                                    let e = statement(tokens, pos + 4 + c.used + t.used);
                                    match e.result {
                                        Err(x) => failed(x, 4 + c.used + t.used + e.used),
                                        Ok(else_branch) => done(
                                            StmtView::If {
                                                cond,
                                                then_branch: Box::new(then_branch),
                                                else_branch: Some(Box::new(else_branch)),
                                            },
                                            4 + c.used + t.used + e.used,
                                        ),
                                    }
                                } else {
                                    done(
                                        StmtView::If {
                                            cond,
                                            then_branch: Box::new(then_branch),
                                            else_branch: None,
                                        },
                                        3 + c.used + t.used,
                                    )
                                },
                            }
                        },
                    },
                }
            },
        },
    }
}

/// whileStmt := "while" "(" expr ")" statement
#[verifier::opaque]
pub open spec fn while_statement(tokens: Seq<TokenView>, pos: nat) -> Parsed<StmtView>
    decreases remaining(tokens, pos), 25nat,
{
    match expect(tokens, pos, TokenType::While).result {
        Err(x) => failed(x, 0),
        Ok(_) => match expect(tokens, pos + 1, TokenType::LeftParen).result {
            Err(x) => failed(x, 1),
            Ok(_) => {
                let c = expression(tokens, pos + 2);
                match c.result {
                    Err(x) => failed(x, 2 + c.used),
                    Ok(cond) => match expect(tokens, pos + 2 + c.used, TokenType::RightParen).result {
                        Err(x) => failed(x, 2 + c.used),
                        Ok(_) => {
                            let b = statement(tokens, pos + 3 + c.used);
                            match b.result {
                                Err(x) => failed(x, 3 + c.used + b.used),
                                Ok(body) => done(
                                    StmtView::While { cond, body: Box::new(body) },
                                    3 + c.used + b.used,
                                ),
                            }
                        },
                    },
                }
            },
        },
    }
}

/// The first clause of a `for`: a variable declaration, an expression
/// statement, or a lone semicolon.
#[verifier::opaque]
pub open spec fn for_initializer(tokens: Seq<TokenView>, pos: nat, left_paren: TokenView) -> Parsed<
    Option<StmtView>,
>
    decreases remaining(tokens, pos), 25nat,
{
    match kind_at(tokens, pos) {
        None => failed(
            error(ParseErrorType::ExpectedForLoopInitializerOrSemiColon, Some(left_paren)),
            0,
        ),
        Some(TokenType::Semicolon) => done(None, 1),
        Some(TokenType::Var) => {
            let d = var_declaration(tokens, pos);
            match d.result {
                Err(x) => failed(x, d.used),
                Ok(s) => done(Some(s), d.used),
            }
        },
        Some(_) => {
            let d = expression_statement(tokens, pos);
            match d.result {
                Err(x) => failed(x, d.used),
                Ok(s) => done(Some(s), d.used),
            }
        },
    }
}

/// The second clause of a `for`, up to and without its semicolon.
#[verifier::opaque]
pub open spec fn for_condition(tokens: Seq<TokenView>, pos: nat, left_paren: TokenView) -> Parsed<
    Option<ExprView>,
>
    decreases remaining(tokens, pos), 25nat,
{
    match kind_at(tokens, pos) {
        None => failed(
            error(ParseErrorType::ExpectedForLoopConditionOrSemiColon, Some(left_paren)),
            0,
        ),
        Some(TokenType::Semicolon) => done(None, 0),
        Some(_) => {
            let e = expression(tokens, pos);
            match e.result {
                Err(x) => failed(x, e.used),
                Ok(c) => done(Some(c), e.used),
            }
        },
    }
}

/// The third clause of a `for`, up to and without the closing parenthesis.
#[verifier::opaque]
pub open spec fn for_increment(tokens: Seq<TokenView>, pos: nat) -> Parsed<Option<ExprView>>
    decreases remaining(tokens, pos), 25nat,
{
    match kind_at(tokens, pos) {
        None => done(None, 0),
        Some(TokenType::RightParen) => done(None, 0),
        Some(_) => {
            let e = expression(tokens, pos);
            match e.result {
                Err(x) => failed(x, e.used),
                Ok(c) => done(Some(c), e.used),
            }
        },
    }
}

/// A `for` loop as the statements that it stands for: the body with the
/// increment after it, inside a `while` on the condition (on `true` where
/// there is none), after the initializer.
pub open spec fn desugared_for(
    initializer: Option<StmtView>,
    cond: Option<ExprView>,
    increment: Option<ExprView>,
    body: StmtView,
) -> StmtView {
    let stepped = match increment {
        Some(inc) => StmtView::Block(seq![body, StmtView::Expression(inc)]),
        None => body,
    };
    let test = match cond {
        Some(c) => c,
        None => ExprView::Literal(Constant::True),
    };
    let looped = StmtView::While { cond: test, body: Box::new(stepped) };
    match initializer {
        Some(init) => StmtView::Block(seq![init, looped]),
        None => looped,
    }
}

/// forStmt := "for" "(" ( varDecl | exprStmt | ";" ) expr? ";" expr? ")" statement
#[verifier::opaque]
pub open spec fn for_statement(tokens: Seq<TokenView>, pos: nat) -> Parsed<StmtView>
    decreases remaining(tokens, pos), 26nat,
{
    match expect(tokens, pos, TokenType::For).result {
        Err(x) => failed(x, 0),
        Ok(_) => match expect(tokens, pos + 1, TokenType::LeftParen).result {
            Err(x) => failed(x, 1),
            Ok(left_paren) => {
                let i = for_initializer(tokens, pos + 2, left_paren);
                match i.result {
                    Err(x) => failed(x, 2 + i.used),
                    Ok(initializer) => {
                        let c = for_condition(tokens, pos + 2 + i.used, left_paren);
                        match c.result {
                            Err(x) => failed(x, 2 + i.used + c.used),
                            Ok(cond) => match expect(
                                tokens,
                                pos + 2 + i.used + c.used,
                                TokenType::Semicolon,
                            ).result {
                                Err(x) => failed(x, 2 + i.used + c.used),
                                Ok(_) => {
                                    let n = for_increment(tokens, pos + 3 + i.used + c.used);
                                    match n.result {
                                        Err(x) => failed(x, 3 + i.used + c.used + n.used),
                                        Ok(increment) => match expect(
                                            tokens,
                                            pos + 3 + i.used + c.used + n.used,
                                            TokenType::RightParen,
                                        ).result {
                                            Err(x) => failed(x, 3 + i.used + c.used + n.used),
                                            Ok(_) => {
                                                let b = statement(
                                                    tokens,
                                                    pos + 4 + i.used + c.used + n.used,
                                                );
                                                match b.result {
                                                    Err(x) => failed(
                                                        x,
                                                        4 + i.used + c.used + n.used + b.used,
                                                    ),
                                                    Ok(body) => done(
                                                        desugared_for(
                                                            initializer,
                                                            cond,
                                                            increment,
                                                            body,
                                                        ),
                                                        4 + i.used + c.used + n.used + b.used,
                                                    ),
                                                }
                                            },
                                        },
                                    }
                                },
                            },
                        }
                    },
                }
            },
        },
    }
}

/// statement := exprStmt | printStmt | ifStmt | whileStmt | forStmt
///            | returnStmt | breakStmt | block
#[verifier::opaque]
pub open spec fn statement(tokens: Seq<TokenView>, pos: nat) -> Parsed<StmtView>
    decreases remaining(tokens, pos), 27nat,
{
    match kind_at(tokens, pos) {
        None => failed(error(ParseErrorType::ExpectedStatement, None), 0),
        Some(TokenType::If) => if_statement(tokens, pos),
        Some(TokenType::For) => for_statement(tokens, pos),
        Some(TokenType::While) => while_statement(tokens, pos),
        Some(TokenType::Print) => print_statement(tokens, pos),
        Some(TokenType::Break) => break_statement(tokens, pos),
        Some(TokenType::Return) => return_statement(tokens, pos),
        Some(TokenType::LeftBrace) => block_statement(tokens, pos),
        Some(_) => expression_statement(tokens, pos),
    }
}

/// params := IDENT ( "," IDENT )*, after the names in `found`.
#[verifier::opaque]
pub open spec fn parameters_rest(tokens: Seq<TokenView>, pos: nat, found: Seq<TokenView>) -> Parsed<
    Seq<TokenView>,
>
    decreases remaining(tokens, pos),
{
    match expect(tokens, pos, TokenType::Identifier).result {
        Err(x) => failed(x, 0),
        Ok(name) => if kind_at(tokens, pos + 1) == Some(TokenType::Comma) {
            after(2, parameters_rest(tokens, pos + 2, found.push(name)))
        } else {
            done(found.push(name), 1)
        },
    }
}

/// The parameters of a function, up to and without the closing parenthesis.
#[verifier::opaque]
pub open spec fn parameters(tokens: Seq<TokenView>, pos: nat) -> Parsed<Seq<TokenView>> {
    if kind_at(tokens, pos) == Some(TokenType::RightParen) {
        done(Seq::empty(), 0)
    } else {
        parameters_rest(tokens, pos, Seq::empty())
    }
}

/// function := IDENT "(" params? ")" block
#[verifier::opaque]
pub open spec fn function(tokens: Seq<TokenView>, pos: nat) -> Parsed<FunctionView>
    decreases remaining(tokens, pos), 25nat,
{
    match expect(tokens, pos, TokenType::Identifier).result {
        Err(x) => failed(x, 0),
        Ok(name) => match expect(tokens, pos + 1, TokenType::LeftParen).result {
            Err(x) => failed(x, 1),
            Ok(_) => {
                let p = parameters(tokens, pos + 2);
                match p.result {
                    Err(x) => failed(x, 2 + p.used),
                    Ok(params) => match expect(tokens, pos + 2 + p.used, TokenType::RightParen).result {
                        Err(x) => failed(x, 2 + p.used),
                        Ok(_) => {
                            let b = block(tokens, pos + 3 + p.used);
                            match b.result {
                                Err(x) => failed(x, 3 + p.used + b.used),
                                Ok(body) => done(
                                    FunctionView { name, params, body },
                                    3 + p.used + b.used,
                                ),
                            }
                        },
                    },
                }
            },
        },
    }
}

/// funDecl := "fun" function
#[verifier::opaque]
pub open spec fn function_declaration(tokens: Seq<TokenView>, pos: nat) -> Parsed<StmtView>
    decreases remaining(tokens, pos), 26nat,
{
    match expect(tokens, pos, TokenType::Fun).result {
        Err(x) => failed(x, 0),
        Ok(_) => {
            let f = function(tokens, pos + 1);
            match f.result {
                Err(x) => failed(x, 1 + f.used),
                Ok(decl) => done(StmtView::Function(decl), 1 + f.used),
            }
        },
    }
}

/// The methods of a class up to its closing brace, after those in `found`.
/// A body that the input ends in is reported at the name of the class.
#[verifier::opaque]
pub open spec fn class_body(
    tokens: Seq<TokenView>,
    pos: nat,
    name: TokenView,
    found: Seq<FunctionView>,
) -> Parsed<Seq<FunctionView>>
    decreases remaining(tokens, pos), 29nat,
{
    match kind_at(tokens, pos) {
        None => failed(error(ParseErrorType::ExpectedRightBraceAfterClassBody, Some(name)), 0),
        Some(TokenType::RightBrace) => done(found, 1),
        Some(_) => {
            let f = function(tokens, pos);
            match f.result {
                Err(x) => failed(x, f.used),
                Ok(method) => after(
                    step(f.used),
                    class_body(tokens, pos + step(f.used), name, found.push(method)),
                ),
            }
        },
    }
}

/// ( "<" IDENT )?: the super class of a class declaration.
#[verifier::opaque]
pub open spec fn super_class(tokens: Seq<TokenView>, pos: nat) -> Parsed<Option<VariableView>> {
    if kind_at(tokens, pos) == Some(TokenType::Less) {
        match expect(tokens, pos + 1, TokenType::Identifier).result {
            Err(x) => failed(x, 1),
            Ok(name) => done(Some(VariableView { name, hops: None }), 2),
        }
    } else {
        done(None, 0)
    }
}

/// classDecl := "class" IDENT ( "<" IDENT )? "{" function* "}"
#[verifier::opaque]
pub open spec fn class_declaration(tokens: Seq<TokenView>, pos: nat) -> Parsed<StmtView>
    decreases remaining(tokens, pos), 30nat,
{
    match expect(tokens, pos, TokenType::Class).result {
        Err(x) => failed(x, 0),
        Ok(_) => match expect(tokens, pos + 1, TokenType::Identifier).result {
            Err(x) => failed(x, 1),
            Ok(name) => {
                let s = super_class(tokens, pos + 2);
                match s.result {
                    Err(x) => failed(x, 2 + s.used),
                    Ok(parent) => match expect(tokens, pos + 2 + s.used, TokenType::LeftBrace).result {
                        Err(x) => failed(x, 2 + s.used),
                        Ok(_) => {
                            let m = class_body(tokens, pos + 3 + s.used, name, Seq::empty());
                            match m.result {
                                Err(x) => failed(x, 3 + s.used + m.used),
                                Ok(methods) => done(
                                    StmtView::Class { name, super_class: parent, methods },
                                    3 + s.used + m.used,
                                ),
                            }
                        },
                    },
                }
            },
        },
    }
}

/// declaration := classDecl | funDecl | varDecl | statement
#[verifier::opaque]
pub open spec fn declaration(tokens: Seq<TokenView>, pos: nat) -> Parsed<StmtView>
    decreases remaining(tokens, pos), 31nat,
{
    match kind_at(tokens, pos) {
        Some(TokenType::Var) => var_declaration(tokens, pos),
        Some(TokenType::Fun) => function_declaration(tokens, pos),
        Some(TokenType::Class) => class_declaration(tokens, pos),
        _ => statement(tokens, pos),
    }
}

/// The kinds of token that a declaration or a statement starts with, and
/// at which recovery from an error stops.
pub open spec fn starts_statement(kind: TokenType) -> bool {
    kind == TokenType::Class || kind == TokenType::Fun || kind == TokenType::Var || kind
        == TokenType::For || kind == TokenType::If || kind == TokenType::While || kind
        == TokenType::Print || kind == TokenType::Return
}

/// The number of tokens from `pos` up to the next start of a statement, or
/// up to and with the next semicolon.
pub open spec fn skipped_to_boundary(tokens: Seq<TokenView>, pos: nat) -> nat
    decreases remaining(tokens, pos),
{
    match kind_at(tokens, pos) {
        None => 0,
        Some(kind) => if starts_statement(kind) {
            0
        } else if kind == TokenType::Semicolon {
            1
        } else {
            1 + skipped_to_boundary(tokens, pos + 1)
        },
    }
}

/// The number of tokens that recovery from an error at `pos` skips: the
/// token at `pos` in any case, and unless it is a semicolon, what follows up
/// to a boundary.
pub open spec fn skipped(tokens: Seq<TokenView>, pos: nat) -> nat {
    match kind_at(tokens, pos) {
        None => 0,
        Some(TokenType::Semicolon) => 1,
        Some(_) => 1 + skipped_to_boundary(tokens, pos + 1),
    }
}

/// The errors of the declarations from `pos` on, after those in `found`.
/// After each error the parser skips to a boundary and goes on.
pub open spec fn program_errors(
    tokens: Seq<TokenView>,
    pos: nat,
    found: Seq<ParseErrorView>,
) -> Seq<
    ParseErrorView,
>
    decreases remaining(tokens, pos),
{
    if pos < tokens.len() {
        let d = declaration(tokens, pos);
        match d.result {
            Ok(_) => program_errors(tokens, pos + step(d.used), found),
            Err(e) => program_errors(
                tokens,
                pos + d.used + skipped(tokens, pos + d.used),
                found.push(e),
            ),
        }
    } else {
        found
    }
}

/// The declarations from `pos` on that parse, after those in `found`.
pub open spec fn program_statements(tokens: Seq<TokenView>, pos: nat, found: Seq<StmtView>) -> Seq<
    StmtView,
>
    decreases remaining(tokens, pos),
{
    if pos < tokens.len() {
        let d = declaration(tokens, pos);
        match d.result {
            Ok(s) => program_statements(tokens, pos + step(d.used), found.push(s)),
            Err(_) => program_statements(
                tokens,
                pos + d.used + skipped(tokens, pos + d.used),
                found,
            ),
        }
    } else {
        found
    }
}

/// program := declaration*
///
/// The statements of a program, or all its errors in input order.
pub open spec fn program(tokens: Seq<TokenView>) -> Result<Seq<StmtView>, Seq<ParseErrorView>> {
    let errors = program_errors(tokens, 0, Seq::empty());
    if errors.len() > 0 {
        Err(errors)
    } else {
        Ok(program_statements(tokens, 0, Seq::empty()))
    }
}

/// A token sequence read as one expression and nothing else. Input that
/// is left over is reported at the first token.
pub open spec fn single_expression(tokens: Seq<TokenView>) -> Result<ExprView, ParseErrorView> {
    let e = expression(tokens, 0);
    match e.result {
        Err(x) => Err(x),
        Ok(expr) => if e.used >= tokens.len() {
            Ok(expr)
        } else {
            Err(error(ParseErrorType::ExpectedExpression, token_at(tokens, 0)))
        },
    }
}

/// An assignment is accepted only where its left side names a variable or a
/// property: the first gives an assignment to a variable, the second the
/// setting of a property, and any other left side is an invalid assignment.
pub proof fn lemma_assignment_targets(tokens: Seq<TokenView>, pos: nat)
    ensures
        ({
            let left = infix(tokens, pos, LOGIC_OR);
            let whole = assignment(tokens, pos);
            left.result is Ok && kind_at(tokens, pos + left.used) == Some(TokenType::Equal)
                && assignment(tokens, pos + left.used + 1).result is Ok ==> match left.result->Ok_0 {
                ExprView::Variable { name, hops } => whole.result is Ok && whole.result->Ok_0
                    is Assignment && whole.result->Ok_0->Assignment_name == name,
                ExprView::Get { name, object } => whole.result is Ok && whole.result->Ok_0
                    is SetProperty && whole.result->Ok_0->SetProperty_name == name
                    && whole.result->Ok_0->SetProperty_object == object,
                _ => whole.result is Err && whole.result->Err_0.error_type
                    == ParseErrorType::InvalidAssignment,
            }
        }),
{
    reveal_with_fuel(assignment, 1);
    reveal_with_fuel(infix, 1);
}

proof fn lemma_call_takes_a_token(tokens: Seq<TokenView>, pos: nat)
    ensures
        call(tokens, pos).result is Ok ==> call(tokens, pos).used >= 1,
{
    reveal_with_fuel(call, 1);
    reveal_with_fuel(primary, 1);
    reveal_with_fuel(call_rest, 1);
}

proof fn lemma_unary_takes_a_token(tokens: Seq<TokenView>, pos: nat)
    ensures
        unary(tokens, pos).result is Ok ==> unary(tokens, pos).used >= 1,
{
    reveal_with_fuel(unary, 1);
    reveal_with_fuel(call, 1);
    lemma_call_takes_a_token(tokens, pos);
}

proof fn lemma_infix_takes_a_token(tokens: Seq<TokenView>, pos: nat, level: u8)
    ensures
        operand(tokens, pos, level).result is Ok ==> operand(tokens, pos, level).used >= 1,
        infix(tokens, pos, level).result is Ok ==> infix(tokens, pos, level).used >= 1,
    decreases level,
{
    reveal_with_fuel(operand, 1);
    reveal_with_fuel(infix, 1);
    reveal_with_fuel(infix_rest, 1);
    reveal_with_fuel(unary, 1);
    if level == 0 || level > LOGIC_OR {
        lemma_unary_takes_a_token(tokens, pos);
    } else {
        lemma_infix_takes_a_token(tokens, pos, (level - 1) as u8);
    }
}

/// An expression that parses takes at least one token.
pub proof fn lemma_expression_takes_a_token(tokens: Seq<TokenView>, pos: nat)
    ensures
        expression(tokens, pos).result is Ok ==> expression(tokens, pos).used >= 1,
{
    reveal_with_fuel(expression, 1);
    reveal_with_fuel(assignment, 1);
    reveal_with_fuel(infix, 1);
    lemma_infix_takes_a_token(tokens, pos, LOGIC_OR);
}

/// A function that parses takes at least one token, so that the methods
/// of a class are stepped through by what they took.
pub proof fn lemma_function_takes_a_token(tokens: Seq<TokenView>, pos: nat)
    ensures
        function(tokens, pos).result is Ok ==> function(tokens, pos).used >= 1 && step(
            function(tokens, pos).used,
        ) == function(tokens, pos).used,
{
    reveal_with_fuel(function, 1);
}

proof fn lemma_var_declaration_takes_a_token(tokens: Seq<TokenView>, pos: nat)
    ensures
        var_declaration(tokens, pos).result is Ok ==> var_declaration(tokens, pos).used >= 1,
{
    reveal_with_fuel(var_declaration, 1);
}

proof fn lemma_function_declaration_takes_a_token(tokens: Seq<TokenView>, pos: nat)
    ensures
        function_declaration(tokens, pos).result is Ok ==> function_declaration(tokens, pos).used >= 1,
{
    reveal_with_fuel(function_declaration, 1);
}

proof fn lemma_class_declaration_takes_a_token(tokens: Seq<TokenView>, pos: nat)
    ensures
        class_declaration(tokens, pos).result is Ok ==> class_declaration(tokens, pos).used >= 1,
{
    reveal_with_fuel(class_declaration, 1);
}

proof fn lemma_if_statement_takes_a_token(tokens: Seq<TokenView>, pos: nat)
    ensures
        if_statement(tokens, pos).result is Ok ==> if_statement(tokens, pos).used >= 1,
{
    reveal_with_fuel(if_statement, 1);
}

proof fn lemma_for_statement_takes_a_token(tokens: Seq<TokenView>, pos: nat)
    ensures
        for_statement(tokens, pos).result is Ok ==> for_statement(tokens, pos).used >= 1,
{
    reveal_with_fuel(for_statement, 1);
}

proof fn lemma_while_statement_takes_a_token(tokens: Seq<TokenView>, pos: nat)
    ensures
        while_statement(tokens, pos).result is Ok ==> while_statement(tokens, pos).used >= 1,
{
    reveal_with_fuel(while_statement, 1);
}

proof fn lemma_print_statement_takes_a_token(tokens: Seq<TokenView>, pos: nat)
    ensures
        print_statement(tokens, pos).result is Ok ==> print_statement(tokens, pos).used >= 1,
{
    reveal_with_fuel(print_statement, 1);
}

proof fn lemma_return_statement_takes_a_token(tokens: Seq<TokenView>, pos: nat)
    ensures
        return_statement(tokens, pos).result is Ok ==> return_statement(tokens, pos).used >= 1,
{
    reveal_with_fuel(return_statement, 1);
}

proof fn lemma_block_statement_takes_a_token(tokens: Seq<TokenView>, pos: nat)
    ensures
        block_statement(tokens, pos).result is Ok ==> block_statement(tokens, pos).used >= 1,
{
    reveal_with_fuel(block_statement, 1);
    reveal_with_fuel(block, 1);
}

proof fn lemma_expression_statement_takes_a_token(tokens: Seq<TokenView>, pos: nat)
    ensures
        expression_statement(tokens, pos).result is Ok ==> expression_statement(tokens, pos).used >= 1,
{
    reveal_with_fuel(expression_statement, 1);
    reveal_with_fuel(expression, 1);
    lemma_expression_takes_a_token(tokens, pos);
}

proof fn lemma_statement_takes_a_token(tokens: Seq<TokenView>, pos: nat)
    ensures
        statement(tokens, pos).result is Ok ==> statement(tokens, pos).used >= 1,
{
    reveal_with_fuel(statement, 1);
    reveal_with_fuel(if_statement, 1);
    reveal_with_fuel(for_statement, 1);
    reveal_with_fuel(while_statement, 1);
    reveal_with_fuel(print_statement, 1);
    reveal_with_fuel(return_statement, 1);
    reveal_with_fuel(block_statement, 1);
    reveal_with_fuel(expression_statement, 1);
    reveal(break_statement);
    lemma_if_statement_takes_a_token(tokens, pos);
    lemma_for_statement_takes_a_token(tokens, pos);
    lemma_while_statement_takes_a_token(tokens, pos);
    lemma_print_statement_takes_a_token(tokens, pos);
    lemma_return_statement_takes_a_token(tokens, pos);
    lemma_block_statement_takes_a_token(tokens, pos);
    lemma_expression_statement_takes_a_token(tokens, pos);
}

/// A declaration that parses takes at least one token, so that a program
/// and a block are stepped through by what their declarations took.
pub proof fn lemma_declaration_takes_a_token(tokens: Seq<TokenView>, pos: nat)
    ensures
        declaration(tokens, pos).result is Ok ==> declaration(tokens, pos).used >= 1 && step(
            declaration(tokens, pos).used,
        ) == declaration(tokens, pos).used,
{
    reveal_with_fuel(declaration, 1);
    reveal_with_fuel(statement, 1);
    reveal_with_fuel(var_declaration, 1);
    reveal_with_fuel(function_declaration, 1);
    reveal_with_fuel(class_declaration, 1);
    lemma_var_declaration_takes_a_token(tokens, pos);
    lemma_function_declaration_takes_a_token(tokens, pos);
    lemma_class_declaration_takes_a_token(tokens, pos);
    lemma_statement_takes_a_token(tokens, pos);
}

} // verus!
