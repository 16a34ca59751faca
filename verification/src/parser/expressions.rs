//! Parsing of expressions.
use crate::expression::{expr_views, lemma_expr_views_push, AssignTarget, Expr, Literal};
use crate::grammar::{self, remaining, ParseErrorType};
use crate::scanner::{Literal as Payload, Token, TokenType};
use crate::parser::{expr_outcome, exprs_outcome, ParseError, Parser};
use vstd::prelude::*;

verus! {

impl Parser {
    pub(crate) fn parse_primary(&self, pos: &mut usize) -> (r: Result<Expr, ParseError>)
        requires
            *old(pos) <= self@.len(),
        ensures
            expr_outcome(r) == grammar::primary(self@, *old(pos) as nat).result,
            *final(pos) == *old(pos) + grammar::primary(self@, *old(pos) as nat).used,
            *final(pos) <= self@.len(),
            r is Ok ==> *final(pos) > *old(pos),
        decreases remaining(self@, *old(pos) as nat), 0nat,
    {
        proof {
            reveal_with_fuel(grammar::primary, 1);
            reveal_with_fuel(grammar::expression, 1);
        }
        if *pos >= self.tokens.len() {
            return Err(ParseError { error_type: ParseErrorType::ExpectedExpression, token: None });
        }
        let token = self.tokens[*pos].duplicate();
        *pos = *pos + 1;
        match token.token_type {
            TokenType::False => Ok(Expr::literal(Literal::False)),
            TokenType::True => Ok(Expr::literal(Literal::True)),
            TokenType::Nil => Ok(Expr::literal(Literal::Nil)),
            TokenType::String => match token.literal {
                Some(Payload::String(s)) => Ok(Expr::literal(Literal::String(s))),
                other => Err(
                    ParseError {
                        error_type: ParseErrorType::ExpectedExpression,
                        token: Some(
                            Token {
                                token_type: token.token_type,
                                lexeme: token.lexeme,
                                literal: other,
                                line: token.line,
                                column: token.column,
                            },
                        ),
                    },
                ),
            },
            TokenType::Number => match token.literal {
                Some(Payload::Number(n)) => Ok(Expr::literal(Literal::Number(n))),
                other => Err(
                    ParseError {
                        error_type: ParseErrorType::ExpectedExpression,
                        token: Some(
                            Token {
                                token_type: token.token_type,
                                lexeme: token.lexeme,
                                literal: other,
                                line: token.line,
                                column: token.column,
                            },
                        ),
                    },
                ),
            },
            TokenType::LeftParen => {
                let nested = self.parse_expr(pos)?;
                let _ = self.consume_token(pos, TokenType::RightParen)?;
                Ok(Expr::grouping(nested))
            },
            TokenType::Identifier => Ok(Expr::variable(token)),
            TokenType::This => Ok(Expr::this(token)),
            TokenType::Super => {
                let _ = self.consume_token(pos, TokenType::Dot)?;
                let method = self.consume_token(pos, TokenType::Identifier)?;
                Ok(Expr::super_method(token, method))
            },
            _ => Err(
                ParseError { error_type: ParseErrorType::ExpectedExpression, token: Some(token) },
            ),
        }
    }

    pub(crate) fn parse_args_rest(&self, pos: &mut usize, found: Vec<Expr>) -> (r: Result<
        Vec<Expr>,
        ParseError,
    >)
        requires
            *old(pos) <= self@.len(),
        ensures
            exprs_outcome(r) == grammar::arguments_rest(
                self@,
                *old(pos) as nat,
                expr_views(found@),
            ).result,
            *final(pos) == *old(pos) + grammar::arguments_rest(
                self@,
                *old(pos) as nat,
                expr_views(found@),
            ).used,
            *final(pos) <= self@.len(),
        decreases remaining(self@, *old(pos) as nat), 22nat,
    {
        proof {
            reveal_with_fuel(grammar::arguments_rest, 1);
            reveal_with_fuel(grammar::expression, 1);
        }
        let mut found = found;
        let expr = self.parse_expr(pos)?;
        proof {
            lemma_expr_views_push(found@, expr);
        }
        found.push(expr);
        if self.is_kind(*pos, TokenType::Comma) {
            *pos = *pos + 1;
            self.parse_args_rest(pos, found)
        } else {
            Ok(found)
        }
    }

    pub(crate) fn parse_args(&self, pos: &mut usize) -> (r: Result<Vec<Expr>, ParseError>)
        requires
            *old(pos) <= self@.len(),
        ensures
            exprs_outcome(r) == grammar::arguments(self@, *old(pos) as nat).result,
            *final(pos) == *old(pos) + grammar::arguments(self@, *old(pos) as nat).used,
            *final(pos) <= self@.len(),
        decreases remaining(self@, *old(pos) as nat), 23nat,
    {
        proof {
            reveal_with_fuel(grammar::arguments, 1);
            reveal_with_fuel(grammar::arguments_rest, 1);
        }
        let args: Vec<Expr> = Vec::new();
        assert(expr_views(args@) =~= Seq::empty());
        if self.is_kind(*pos, TokenType::RightParen) {
            Ok(args)
        } else {
            self.parse_args_rest(pos, args)
        }
    }

    pub(crate) fn parse_call_rest(
        &self,
        pos: &mut usize,
        callee: Expr,
    ) -> (r: Result<Expr, ParseError>)
        requires
            *old(pos) <= self@.len(),
        ensures
            expr_outcome(r) == grammar::call_rest(self@, *old(pos) as nat, callee@).result,
            *final(pos) == *old(pos) + grammar::call_rest(self@, *old(pos) as nat, callee@).used,
            *final(pos) <= self@.len(),
        decreases remaining(self@, *old(pos) as nat), 0nat,
    {
        proof {
            reveal_with_fuel(grammar::call_rest, 1);
            reveal_with_fuel(grammar::arguments, 1);
        }
        if self.is_kind(*pos, TokenType::LeftParen) {
            *pos = *pos + 1;
            let args = self.parse_args(pos)?;
            let right_paren = self.consume_token(pos, TokenType::RightParen)?;
            self.parse_call_rest(pos, Expr::call(callee, right_paren, args))
        } else if self.is_kind(*pos, TokenType::Dot) {
            *pos = *pos + 1;
            let name = self.consume_token(pos, TokenType::Identifier)?;
            self.parse_call_rest(pos, Expr::get(callee, name))
        } else {
            Ok(callee)
        }
    }

    pub(crate) fn parse_call(&self, pos: &mut usize) -> (r: Result<Expr, ParseError>)
        requires
            *old(pos) <= self@.len(),
        ensures
            expr_outcome(r) == grammar::call(self@, *old(pos) as nat).result,
            *final(pos) == *old(pos) + grammar::call(self@, *old(pos) as nat).used,
            *final(pos) <= self@.len(),
            r is Ok ==> *final(pos) > *old(pos),
        decreases remaining(self@, *old(pos) as nat), 1nat,
    {
        proof {
            reveal_with_fuel(grammar::call, 1);
            reveal_with_fuel(grammar::primary, 1);
            reveal_with_fuel(grammar::call_rest, 1);
        }
        let callee = self.parse_primary(pos)?;
        self.parse_call_rest(pos, callee)
    }

    pub(crate) fn parse_unary(&self, pos: &mut usize) -> (r: Result<Expr, ParseError>)
        requires
            *old(pos) <= self@.len(),
        ensures
            expr_outcome(r) == grammar::unary(self@, *old(pos) as nat).result,
            *final(pos) == *old(pos) + grammar::unary(self@, *old(pos) as nat).used,
            *final(pos) <= self@.len(),
            r is Ok ==> *final(pos) > *old(pos),
        decreases remaining(self@, *old(pos) as nat), 2nat,
    {
        proof {
            reveal_with_fuel(grammar::unary, 1);
            reveal_with_fuel(grammar::call, 1);
        }
        if self.is_kind(*pos, TokenType::Bang) || self.is_kind(*pos, TokenType::Minus) {
            let operator = self.tokens[*pos].duplicate();
            *pos = *pos + 1;
            let right = self.parse_unary(pos)?;
            Ok(Expr::unary(operator, right))
        } else {
            self.parse_call(pos)
        }
    }

    pub(crate) fn parse_operand(&self, pos: &mut usize, level: u8) -> (r: Result<Expr, ParseError>)
        requires
            *old(pos) <= self@.len(),
        ensures
            expr_outcome(r) == grammar::operand(self@, *old(pos) as nat, level).result,
            *final(pos) == *old(pos) + grammar::operand(self@, *old(pos) as nat, level).used,
            *final(pos) <= self@.len(),
            r is Ok ==> *final(pos) > *old(pos),
        decreases remaining(self@, *old(pos) as nat), 3 + 2 * level as nat,
    {
        proof {
            reveal_with_fuel(grammar::operand, 1);
            reveal_with_fuel(grammar::unary, 1);
            reveal_with_fuel(grammar::infix, 1);
        }
        if level == 0 || level > grammar::LOGIC_OR {
            self.parse_unary(pos)
        } else {
            self.parse_infix(pos, level - 1)
        }
    }

    pub(crate) fn parse_infix_rest(&self, pos: &mut usize, level: u8, left: Expr) -> (r: Result<
        Expr,
        ParseError,
    >)
        requires
            *old(pos) <= self@.len(),
        ensures
            expr_outcome(r) == grammar::infix_rest(self@, *old(pos) as nat, level, left@).result,
            *final(pos) == *old(pos) + grammar::infix_rest(
                self@,
                *old(pos) as nat,
                level,
                left@,
            ).used,
            *final(pos) <= self@.len(),
        decreases remaining(self@, *old(pos) as nat), 3 + 2 * level as nat,
    {
        proof {
            reveal_with_fuel(grammar::infix_rest, 1);
            reveal_with_fuel(grammar::operand, 1);
        }
        if *pos < self.tokens.len() && is_level_operator(level, self.tokens[*pos].token_type) {
            let operator = self.tokens[*pos].duplicate();
            *pos = *pos + 1;
            let right = self.parse_operand(pos, level)?;
            let node = if level == grammar::LOGIC_AND || level == grammar::LOGIC_OR {
                Expr::logical(left, operator, right)
            } else {
                Expr::binary(left, operator, right)
            };
            self.parse_infix_rest(pos, level, node)
        } else {
            Ok(left)
        }
    }

    pub(crate) fn parse_infix(&self, pos: &mut usize, level: u8) -> (r: Result<Expr, ParseError>)
        requires
            *old(pos) <= self@.len(),
        ensures
            expr_outcome(r) == grammar::infix(self@, *old(pos) as nat, level).result,
            *final(pos) == *old(pos) + grammar::infix(self@, *old(pos) as nat, level).used,
            *final(pos) <= self@.len(),
            r is Ok ==> *final(pos) > *old(pos),
        decreases remaining(self@, *old(pos) as nat), 4 + 2 * level as nat,
    {
        proof {
            reveal_with_fuel(grammar::infix, 1);
            reveal_with_fuel(grammar::operand, 1);
            reveal_with_fuel(grammar::infix_rest, 1);
        }
        let left = self.parse_operand(pos, level)?;
        self.parse_infix_rest(pos, level, left)
    }

    pub(crate) fn parse_assignment(&self, pos: &mut usize) -> (r: Result<Expr, ParseError>)
        requires
            *old(pos) <= self@.len(),
        ensures
            expr_outcome(r) == grammar::assignment(self@, *old(pos) as nat).result,
            *final(pos) == *old(pos) + grammar::assignment(self@, *old(pos) as nat).used,
            *final(pos) <= self@.len(),
            r is Ok ==> *final(pos) > *old(pos),
        decreases remaining(self@, *old(pos) as nat), 20nat,
    {
        proof {
            reveal_with_fuel(grammar::assignment, 1);
            reveal_with_fuel(grammar::infix, 1);
        }
        let left = self.parse_infix(pos, grammar::LOGIC_OR)?;
        if self.is_kind(*pos, TokenType::Equal) {
            let equal = self.tokens[*pos].duplicate();
            *pos = *pos + 1;
            let value = self.parse_assignment(pos)?;
            match left.as_assign_target() {
                Some(AssignTarget::Var { name }) => Ok(Expr::assignment(name, value)),
                Some(AssignTarget::Get { object, name }) => Ok(
                    Expr::set_property(object, name, value),
                ),
                None => Err(
                    ParseError { error_type: ParseErrorType::InvalidAssignment, token: Some(equal) },
                ),
            }
        } else {
            Ok(left)
        }
    }

    pub(crate) fn parse_expr(&self, pos: &mut usize) -> (r: Result<Expr, ParseError>)
        requires
            *old(pos) <= self@.len(),
        ensures
            expr_outcome(r) == grammar::expression(self@, *old(pos) as nat).result,
            *final(pos) == *old(pos) + grammar::expression(self@, *old(pos) as nat).used,
            *final(pos) <= self@.len(),
            r is Ok ==> *final(pos) > *old(pos),
        decreases remaining(self@, *old(pos) as nat), 21nat,
    {
        proof {
            reveal_with_fuel(grammar::expression, 1);
            reveal_with_fuel(grammar::assignment, 1);
        }
        self.parse_assignment(pos)
    }
}

/// Whether a token kind is an operator of a level of infix operators.
pub fn is_level_operator(level: u8, kind: TokenType) -> (r: bool)
    ensures
        r == grammar::is_operator(level, kind),
{
    if level == grammar::FACTOR {
        kind == TokenType::Star || kind == TokenType::Slash
    } else if level == grammar::TERM {
        kind == TokenType::Plus || kind == TokenType::Minus
    } else if level == grammar::COMPARISON {
        kind == TokenType::Less || kind == TokenType::Greater || kind == TokenType::LessEqual
            || kind == TokenType::GreaterEqual
    } else if level == grammar::EQUALITY {
        kind == TokenType::EqualEqual || kind == TokenType::BangEqual
    } else if level == grammar::LOGIC_AND {
        kind == TokenType::And
    } else if level == grammar::LOGIC_OR {
        kind == TokenType::Or
    } else {
        false
    }
}

} // verus!
