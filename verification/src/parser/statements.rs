//! Parsing of statements and declarations.
use crate::expression::{option_expr_view, Expr, Literal, Variable};
use crate::grammar::{self, remaining, ParseErrorType};
use crate::scanner::{token_views, Token, TokenType};
use crate::statement::{
    self, function_views, lemma_function_views_push, lemma_stmt_views_push, lemma_token_views_push,
    stmt_views, Stmt,
};
use crate::parser::{
    function_outcome, functions_outcome, option_expr_outcome, option_stmt_outcome, option_stmt_view,
    option_variable_outcome, stmt_outcome, stmts_outcome, tokens_outcome, ParseError, Parser,
};
use vstd::prelude::*;

verus! {

impl Parser {
    pub(crate) fn parse_expr_statement(&self, pos: &mut usize) -> (r: Result<Stmt, ParseError>)
        requires
            *old(pos) <= self@.len(),
        ensures
            stmt_outcome(r) == grammar::expression_statement(self@, *old(pos) as nat).result,
            *final(pos) == *old(pos) + grammar::expression_statement(
                self@,
                *old(pos) as nat,
            ).used,
            *final(pos) <= self@.len(),
            r is Ok ==> *final(pos) > *old(pos),
        decreases remaining(self@, *old(pos) as nat), 24nat,
    {
        proof {
            reveal_with_fuel(grammar::expression_statement, 1);
            reveal_with_fuel(grammar::expression, 1);
        }
        let expr = self.parse_expr(pos)?;
        let _ = self.consume_token(pos, TokenType::Semicolon)?;
        Ok(Stmt::expression(expr))
    }

    pub(crate) fn parse_print_statement(&self, pos: &mut usize) -> (r: Result<Stmt, ParseError>)
        requires
            *old(pos) <= self@.len(),
        ensures
            stmt_outcome(r) == grammar::print_statement(self@, *old(pos) as nat).result,
            *final(pos) == *old(pos) + grammar::print_statement(self@, *old(pos) as nat).used,
            *final(pos) <= self@.len(),
            r is Ok ==> *final(pos) > *old(pos),
        decreases remaining(self@, *old(pos) as nat), 24nat,
    {
        proof {
            reveal_with_fuel(grammar::print_statement, 1);
            reveal_with_fuel(grammar::expression, 1);
        }
        let _ = self.consume_token(pos, TokenType::Print)?;
        let expr = self.parse_expr(pos)?;
        let _ = self.consume_token(pos, TokenType::Semicolon)?;
        Ok(Stmt::print(expr))
    }

    pub(crate) fn parse_break_statement(&self, pos: &mut usize) -> (r: Result<Stmt, ParseError>)
        requires
            *old(pos) <= self@.len(),
        ensures
            stmt_outcome(r) == grammar::break_statement(self@, *old(pos) as nat).result,
            *final(pos) == *old(pos) + grammar::break_statement(self@, *old(pos) as nat).used,
            *final(pos) <= self@.len(),
            r is Ok ==> *final(pos) > *old(pos),
    {
        proof {
            reveal_with_fuel(grammar::break_statement, 1);
        }
        let keyword = self.consume_token(pos, TokenType::Break)?;
        let _ = self.consume_token(pos, TokenType::Semicolon)?;
        Ok(Stmt::leave(keyword))
    }

    pub(crate) fn parse_return_statement(&self, pos: &mut usize) -> (r: Result<Stmt, ParseError>)
        requires
            *old(pos) <= self@.len(),
        ensures
            stmt_outcome(r) == grammar::return_statement(self@, *old(pos) as nat).result,
            *final(pos) == *old(pos) + grammar::return_statement(self@, *old(pos) as nat).used,
            *final(pos) <= self@.len(),
            r is Ok ==> *final(pos) > *old(pos),
        decreases remaining(self@, *old(pos) as nat), 24nat,
    {
        proof {
            reveal_with_fuel(grammar::return_statement, 1);
            reveal_with_fuel(grammar::expression, 1);
        }
        let keyword = self.consume_token(pos, TokenType::Return)?;
        if self.is_kind(*pos, TokenType::Semicolon) {
            *pos = *pos + 1;
            Ok(Stmt::give_back(keyword, None))
        } else {
            let expr = self.parse_expr(pos)?;
            let _ = self.consume_token(pos, TokenType::Semicolon)?;
            Ok(Stmt::give_back(keyword, Some(expr)))
        }
    }

    pub(crate) fn parse_var_decl(&self, pos: &mut usize) -> (r: Result<Stmt, ParseError>)
        requires
            *old(pos) <= self@.len(),
        ensures
            stmt_outcome(r) == grammar::var_declaration(self@, *old(pos) as nat).result,
            *final(pos) == *old(pos) + grammar::var_declaration(self@, *old(pos) as nat).used,
            *final(pos) <= self@.len(),
            r is Ok ==> *final(pos) > *old(pos),
        decreases remaining(self@, *old(pos) as nat), 24nat,
    {
        proof {
            reveal_with_fuel(grammar::var_declaration, 1);
            reveal_with_fuel(grammar::expression, 1);
        }
        let _ = self.consume_token(pos, TokenType::Var)?;
        let name = self.consume_token(pos, TokenType::Identifier)?;
        let mut initializer = None;
        if self.is_kind(*pos, TokenType::Equal) {
            *pos = *pos + 1;
            initializer = Some(self.parse_expr(pos)?);
        }
        let _ = self.consume_token(pos, TokenType::Semicolon)?;
        Ok(Stmt::variable(name, initializer))
    }

    pub(crate) fn parse_block(&self, pos: &mut usize) -> (r: Result<Vec<Stmt>, ParseError>)
        requires
            *old(pos) <= self@.len(),
        ensures
            stmts_outcome(r) == grammar::block(self@, *old(pos) as nat).result,
            *final(pos) == *old(pos) + grammar::block(self@, *old(pos) as nat).used,
            *final(pos) <= self@.len(),
            r is Ok ==> *final(pos) > *old(pos),
        decreases remaining(self@, *old(pos) as nat), 24nat,
    {
        proof {
            reveal_with_fuel(grammar::block, 1);
            reveal_with_fuel(grammar::block_rest, 1);
            reveal_with_fuel(grammar::declaration, 1);
        }
        let ghost start = *pos as nat;
        let _ = self.consume_token(pos, TokenType::LeftBrace)?;
        let ghost total = grammar::block_rest(self@, start + 1, Seq::empty());
        let mut statements: Vec<Stmt> = Vec::new();
        assert(stmt_views(statements@) =~= Seq::empty());
        loop
            invariant
                start + 1 <= *pos <= self@.len(),
                start < self@.len(),
                start == *old(pos),
                total == grammar::block_rest(self@, start + 1, Seq::empty()),
                grammar::block(self@, start) == grammar::after(1, total),
                total.result == grammar::block_rest(
                    self@,
                    *pos as nat,
                    stmt_views(statements@),
                ).result,
                total.used == (*pos - (start + 1)) + grammar::block_rest(
                    self@,
                    *pos as nat,
                    stmt_views(statements@),
                ).used,
            decreases self@.len() - *pos,
        {
            proof {
                reveal_with_fuel(grammar::block, 1);
                reveal_with_fuel(grammar::block_rest, 1);
                reveal_with_fuel(grammar::declaration, 1);
            }
            if *pos >= self.tokens.len() {
                return Err(
                    ParseError {
                        error_type: ParseErrorType::ExpectedToken {
                            expected: TokenType::RightBrace,
                            found: None,
                        },
                        token: None,
                    },
                );
            }
            if self.is_kind(*pos, TokenType::RightBrace) {
                *pos = *pos + 1;
                return Ok(statements);
            }
            let stmt = self.parse_declaration(pos)?;
            proof {
                lemma_stmt_views_push(statements@, stmt);
            }
            statements.push(stmt);
        }
    }

    pub(crate) fn parse_block_statement(&self, pos: &mut usize) -> (r: Result<Stmt, ParseError>)
        requires
            *old(pos) <= self@.len(),
        ensures
            stmt_outcome(r) == grammar::block_statement(self@, *old(pos) as nat).result,
            *final(pos) == *old(pos) + grammar::block_statement(self@, *old(pos) as nat).used,
            *final(pos) <= self@.len(),
            r is Ok ==> *final(pos) > *old(pos),
        decreases remaining(self@, *old(pos) as nat), 25nat,
    {
        proof {
            reveal_with_fuel(grammar::block_statement, 1);
            reveal_with_fuel(grammar::block, 1);
        }
        let statements = self.parse_block(pos)?;
        Ok(Stmt::block(statements))
    }

    pub(crate) fn parse_if_statement(&self, pos: &mut usize) -> (r: Result<Stmt, ParseError>)
        requires
            *old(pos) <= self@.len(),
        ensures
            stmt_outcome(r) == grammar::if_statement(self@, *old(pos) as nat).result,
            *final(pos) == *old(pos) + grammar::if_statement(self@, *old(pos) as nat).used,
            *final(pos) <= self@.len(),
            r is Ok ==> *final(pos) > *old(pos),
        decreases remaining(self@, *old(pos) as nat), 25nat,
    {
        proof {
            reveal_with_fuel(grammar::if_statement, 1);
            reveal_with_fuel(grammar::expression, 1);
            reveal_with_fuel(grammar::statement, 1);
        }
        let _ = self.consume_token(pos, TokenType::If)?;
        let _ = self.consume_token(pos, TokenType::LeftParen)?;
        let cond = self.parse_expr(pos)?;
        let _ = self.consume_token(pos, TokenType::RightParen)?;
        let then_branch = self.parse_statement(pos)?;
        let mut else_branch = None;
        if self.is_kind(*pos, TokenType::Else) {
            *pos = *pos + 1;
            let else_stmt = self.parse_statement(pos)?;
            else_branch = Some(else_stmt);
        }
        Ok(Stmt::conditional(cond, then_branch, else_branch))
    }

    pub(crate) fn parse_while_statement(&self, pos: &mut usize) -> (r: Result<Stmt, ParseError>)
        requires
            *old(pos) <= self@.len(),
        ensures
            stmt_outcome(r) == grammar::while_statement(self@, *old(pos) as nat).result,
            *final(pos) == *old(pos) + grammar::while_statement(self@, *old(pos) as nat).used,
            *final(pos) <= self@.len(),
            r is Ok ==> *final(pos) > *old(pos),
        decreases remaining(self@, *old(pos) as nat), 25nat,
    {
        proof {
            reveal_with_fuel(grammar::while_statement, 1);
            reveal_with_fuel(grammar::expression, 1);
            reveal_with_fuel(grammar::statement, 1);
        }
        let _ = self.consume_token(pos, TokenType::While)?;
        let _ = self.consume_token(pos, TokenType::LeftParen)?;
        let cond = self.parse_expr(pos)?;
        let _ = self.consume_token(pos, TokenType::RightParen)?;
        let body = self.parse_statement(pos)?;
        Ok(Stmt::repeat(cond, body))
    }

    pub(crate) fn parse_for_initializer(&self, pos: &mut usize, left_paren: &Token) -> (r: Result<
        Option<Stmt>,
        ParseError,
    >)
        requires
            *old(pos) <= self@.len(),
        ensures
            option_stmt_outcome(r) == grammar::for_initializer(
                self@,
                *old(pos) as nat,
                left_paren@,
            ).result,
            *final(pos) == *old(pos) + grammar::for_initializer(
                self@,
                *old(pos) as nat,
                left_paren@,
            ).used,
            *final(pos) <= self@.len(),
        decreases remaining(self@, *old(pos) as nat), 25nat,
    {
        proof {
            reveal_with_fuel(grammar::for_initializer, 1);
            reveal_with_fuel(grammar::var_declaration, 1);
            reveal_with_fuel(grammar::expression_statement, 1);
        }
        match self.kind(*pos) {
            None => Err(
                ParseError {
                    error_type: ParseErrorType::ExpectedForLoopInitializerOrSemiColon,
                    token: Some(left_paren.duplicate()),
                },
            ),
            Some(TokenType::Semicolon) => {
                *pos = *pos + 1;
                Ok(None)
            },
            Some(TokenType::Var) => Ok(Some(self.parse_var_decl(pos)?)),
            Some(_) => Ok(Some(self.parse_expr_statement(pos)?)),
        }
    }

    pub(crate) fn parse_for_condition(&self, pos: &mut usize, left_paren: &Token) -> (r: Result<
        Option<Expr>,
        ParseError,
    >)
        requires
            *old(pos) <= self@.len(),
        ensures
            option_expr_outcome(r) == grammar::for_condition(
                self@,
                *old(pos) as nat,
                left_paren@,
            ).result,
            *final(pos) == *old(pos) + grammar::for_condition(
                self@,
                *old(pos) as nat,
                left_paren@,
            ).used,
            *final(pos) <= self@.len(),
        decreases remaining(self@, *old(pos) as nat), 25nat,
    {
        proof {
            reveal_with_fuel(grammar::for_condition, 1);
            reveal_with_fuel(grammar::expression, 1);
        }
        match self.kind(*pos) {
            None => Err(
                ParseError {
                    error_type: ParseErrorType::ExpectedForLoopConditionOrSemiColon,
                    token: Some(left_paren.duplicate()),
                },
            ),
            Some(TokenType::Semicolon) => Ok(None),
            Some(_) => Ok(Some(self.parse_expr(pos)?)),
        }
    }

    pub(crate) fn parse_for_increment(
        &self,
        pos: &mut usize,
    ) -> (r: Result<Option<Expr>, ParseError>)
        requires
            *old(pos) <= self@.len(),
        ensures
            option_expr_outcome(r) == grammar::for_increment(self@, *old(pos) as nat).result,
            *final(pos) == *old(pos) + grammar::for_increment(self@, *old(pos) as nat).used,
            *final(pos) <= self@.len(),
        decreases remaining(self@, *old(pos) as nat), 25nat,
    {
        proof {
            reveal_with_fuel(grammar::for_increment, 1);
            reveal_with_fuel(grammar::expression, 1);
        }
        match self.kind(*pos) {
            None => Ok(None),
            Some(TokenType::RightParen) => Ok(None),
            Some(_) => Ok(Some(self.parse_expr(pos)?)),
        }
    }

    pub(crate) fn parse_for_statement(&self, pos: &mut usize) -> (r: Result<Stmt, ParseError>)
        requires
            *old(pos) <= self@.len(),
        ensures
            stmt_outcome(r) == grammar::for_statement(self@, *old(pos) as nat).result,
            *final(pos) == *old(pos) + grammar::for_statement(self@, *old(pos) as nat).used,
            *final(pos) <= self@.len(),
            r is Ok ==> *final(pos) > *old(pos),
        decreases remaining(self@, *old(pos) as nat), 26nat,
    {
        proof {
            reveal_with_fuel(grammar::for_statement, 1);
            reveal_with_fuel(grammar::for_initializer, 1);
            reveal_with_fuel(grammar::for_condition, 1);
            reveal_with_fuel(grammar::for_increment, 1);
            reveal_with_fuel(grammar::statement, 1);
        }
        let _ = self.consume_token(pos, TokenType::For)?;
        let left_paren = self.consume_token(pos, TokenType::LeftParen)?;
        let initializer = self.parse_for_initializer(pos, &left_paren)?;
        let cond = self.parse_for_condition(pos, &left_paren)?;
        let _ = self.consume_token(pos, TokenType::Semicolon)?;
        let increment = self.parse_for_increment(pos)?;
        let _ = self.consume_token(pos, TokenType::RightParen)?;
        let body = self.parse_statement(pos)?;
        Ok(desugar_for(initializer, cond, increment, body))
    }

    pub(crate) fn parse_statement(&self, pos: &mut usize) -> (r: Result<Stmt, ParseError>)
        requires
            *old(pos) <= self@.len(),
        ensures
            stmt_outcome(r) == grammar::statement(self@, *old(pos) as nat).result,
            *final(pos) == *old(pos) + grammar::statement(self@, *old(pos) as nat).used,
            *final(pos) <= self@.len(),
            r is Ok ==> *final(pos) > *old(pos),
        decreases remaining(self@, *old(pos) as nat), 27nat,
    {
        proof {
            reveal_with_fuel(grammar::statement, 1);
            reveal_with_fuel(grammar::if_statement, 1);
            reveal_with_fuel(grammar::for_statement, 1);
            reveal_with_fuel(grammar::while_statement, 1);
            reveal_with_fuel(grammar::print_statement, 1);
            reveal_with_fuel(grammar::break_statement, 1);
            reveal_with_fuel(grammar::return_statement, 1);
            reveal_with_fuel(grammar::block_statement, 1);
            reveal_with_fuel(grammar::expression_statement, 1);
        }
        match self.kind(*pos) {
            None => Err(ParseError { error_type: ParseErrorType::ExpectedStatement, token: None }),
            Some(TokenType::If) => self.parse_if_statement(pos),
            Some(TokenType::For) => self.parse_for_statement(pos),
            Some(TokenType::While) => self.parse_while_statement(pos),
            Some(TokenType::Print) => self.parse_print_statement(pos),
            Some(TokenType::Break) => self.parse_break_statement(pos),
            Some(TokenType::Return) => self.parse_return_statement(pos),
            Some(TokenType::LeftBrace) => self.parse_block_statement(pos),
            Some(_) => self.parse_expr_statement(pos),
        }
    }

    pub(crate) fn parse_params_rest(&self, pos: &mut usize, found: Vec<Token>) -> (r: Result<
        Vec<Token>,
        ParseError,
    >)
        requires
            *old(pos) <= self@.len(),
        ensures
            tokens_outcome(r) == grammar::parameters_rest(
                self@,
                *old(pos) as nat,
                token_views(found@),
            ).result,
            *final(pos) == *old(pos) + grammar::parameters_rest(
                self@,
                *old(pos) as nat,
                token_views(found@),
            ).used,
            *final(pos) <= self@.len(),
        decreases remaining(self@, *old(pos) as nat),
    {
        proof {
            reveal_with_fuel(grammar::parameters_rest, 1);
        }
        let mut found = found;
        let name = self.consume_token(pos, TokenType::Identifier)?;
        proof {
            lemma_token_views_push(found@, name);
        }
        found.push(name);
        if self.is_kind(*pos, TokenType::Comma) {
            *pos = *pos + 1;
            self.parse_params_rest(pos, found)
        } else {
            Ok(found)
        }
    }

    pub(crate) fn parse_params(&self, pos: &mut usize) -> (r: Result<Vec<Token>, ParseError>)
        requires
            *old(pos) <= self@.len(),
        ensures
            tokens_outcome(r) == grammar::parameters(self@, *old(pos) as nat).result,
            *final(pos) == *old(pos) + grammar::parameters(self@, *old(pos) as nat).used,
            *final(pos) <= self@.len(),
    {
        proof {
            reveal_with_fuel(grammar::parameters, 1);
            reveal_with_fuel(grammar::parameters_rest, 1);
        }
        let params: Vec<Token> = Vec::new();
        assert(token_views(params@) =~= Seq::empty());
        if self.is_kind(*pos, TokenType::RightParen) {
            Ok(params)
        } else {
            self.parse_params_rest(pos, params)
        }
    }

    pub(crate) fn parse_function(
        &self,
        pos: &mut usize,
    ) -> (r: Result<statement::Function, ParseError>)
        requires
            *old(pos) <= self@.len(),
        ensures
            function_outcome(r) == grammar::function(self@, *old(pos) as nat).result,
            *final(pos) == *old(pos) + grammar::function(self@, *old(pos) as nat).used,
            *final(pos) <= self@.len(),
            r is Ok ==> *final(pos) > *old(pos),
        decreases remaining(self@, *old(pos) as nat), 25nat,
    {
        proof {
            reveal_with_fuel(grammar::function, 1);
            reveal_with_fuel(grammar::parameters, 1);
            reveal_with_fuel(grammar::block, 1);
        }
        let name = self.consume_token(pos, TokenType::Identifier)?;
        let _ = self.consume_token(pos, TokenType::LeftParen)?;
        let params = self.parse_params(pos)?;
        let _ = self.consume_token(pos, TokenType::RightParen)?;
        let body = self.parse_block(pos)?;
        Ok(statement::Function::new(name, params, body))
    }

    pub(crate) fn parse_fun_decl(&self, pos: &mut usize) -> (r: Result<Stmt, ParseError>)
        requires
            *old(pos) <= self@.len(),
        ensures
            stmt_outcome(r) == grammar::function_declaration(self@, *old(pos) as nat).result,
            *final(pos) == *old(pos) + grammar::function_declaration(
                self@,
                *old(pos) as nat,
            ).used,
            *final(pos) <= self@.len(),
            r is Ok ==> *final(pos) > *old(pos),
        decreases remaining(self@, *old(pos) as nat), 26nat,
    {
        proof {
            reveal_with_fuel(grammar::function_declaration, 1);
            reveal_with_fuel(grammar::function, 1);
        }
        let _ = self.consume_token(pos, TokenType::Fun)?;
        let function = self.parse_function(pos)?;
        Ok(Stmt::function(function))
    }

    pub(crate) fn parse_class_body(&self, pos: &mut usize, name: &Token) -> (r: Result<
        Vec<statement::Function>,
        ParseError,
    >)
        requires
            *old(pos) <= self@.len(),
        ensures
            functions_outcome(r) == grammar::class_body(
                self@,
                *old(pos) as nat,
                name@,
                Seq::empty(),
            ).result,
            *final(pos) == *old(pos) + grammar::class_body(
                self@,
                *old(pos) as nat,
                name@,
                Seq::empty(),
            ).used,
            *final(pos) <= self@.len(),
        decreases remaining(self@, *old(pos) as nat), 29nat,
    {
        proof {
            reveal_with_fuel(grammar::class_body, 1);
            reveal_with_fuel(grammar::function, 1);
        }
        let ghost start = *pos as nat;
        let ghost total = grammar::class_body(self@, start, name@, Seq::empty());
        let mut methods: Vec<statement::Function> = Vec::new();
        assert(function_views(methods@) =~= Seq::empty());
        loop
            invariant
                start <= *pos <= self@.len(),
                start == *old(pos),
                total == grammar::class_body(self@, start, name@, Seq::empty()),
                total.result == grammar::class_body(
                    self@,
                    *pos as nat,
                    name@,
                    function_views(methods@),
                ).result,
                total.used == (*pos - start) + grammar::class_body(
                    self@,
                    *pos as nat,
                    name@,
                    function_views(methods@),
                ).used,
            decreases self@.len() - *pos,
        {
            proof {
                reveal_with_fuel(grammar::class_body, 1);
                reveal_with_fuel(grammar::function, 1);
            }
            if *pos >= self.tokens.len() {
                return Err(
                    ParseError {
                        error_type: ParseErrorType::ExpectedRightBraceAfterClassBody,
                        token: Some(name.duplicate()),
                    },
                );
            }
            if self.is_kind(*pos, TokenType::RightBrace) {
                *pos = *pos + 1;
                return Ok(methods);
            }
            let method = self.parse_function(pos)?;
            proof {
                lemma_function_views_push(methods@, method);
            }
            methods.push(method);
        }
    }

    pub(crate) fn parse_super_class(
        &self,
        pos: &mut usize,
    ) -> (r: Result<Option<Variable>, ParseError>)
        requires
            *old(pos) <= self@.len(),
        ensures
            option_variable_outcome(r) == grammar::super_class(self@, *old(pos) as nat).result,
            *final(pos) == *old(pos) + grammar::super_class(self@, *old(pos) as nat).used,
            *final(pos) <= self@.len(),
    {
        proof {
            reveal_with_fuel(grammar::super_class, 1);
        }
        if self.is_kind(*pos, TokenType::Less) {
            *pos = *pos + 1;
            let name = self.consume_token(pos, TokenType::Identifier)?;
            Ok(Some(Variable { name, hops: None }))
        } else {
            Ok(None)
        }
    }

    pub(crate) fn parse_class_decl(&self, pos: &mut usize) -> (r: Result<Stmt, ParseError>)
        requires
            *old(pos) <= self@.len(),
        ensures
            stmt_outcome(r) == grammar::class_declaration(self@, *old(pos) as nat).result,
            *final(pos) == *old(pos) + grammar::class_declaration(self@, *old(pos) as nat).used,
            *final(pos) <= self@.len(),
            r is Ok ==> *final(pos) > *old(pos),
        decreases remaining(self@, *old(pos) as nat), 30nat,
    {
        proof {
            reveal_with_fuel(grammar::class_declaration, 1);
            reveal_with_fuel(grammar::super_class, 1);
            reveal_with_fuel(grammar::class_body, 1);
        }
        let _ = self.consume_token(pos, TokenType::Class)?;
        let name = self.consume_token(pos, TokenType::Identifier)?;
        let super_class = self.parse_super_class(pos)?;
        let _ = self.consume_token(pos, TokenType::LeftBrace)?;
        let methods = self.parse_class_body(pos, &name)?;
        Ok(Stmt::class(name, super_class, methods))
    }

    pub(crate) fn parse_declaration(&self, pos: &mut usize) -> (r: Result<Stmt, ParseError>)
        requires
            *old(pos) <= self@.len(),
        ensures
            stmt_outcome(r) == grammar::declaration(self@, *old(pos) as nat).result,
            *final(pos) == *old(pos) + grammar::declaration(self@, *old(pos) as nat).used,
            *final(pos) <= self@.len(),
            r is Ok ==> *final(pos) > *old(pos),
        decreases remaining(self@, *old(pos) as nat), 31nat,
    {
        proof {
            reveal_with_fuel(grammar::declaration, 1);
            reveal_with_fuel(grammar::var_declaration, 1);
            reveal_with_fuel(grammar::function_declaration, 1);
            reveal_with_fuel(grammar::class_declaration, 1);
            reveal_with_fuel(grammar::statement, 1);
        }
        match self.kind(*pos) {
            Some(TokenType::Var) => self.parse_var_decl(pos),
            Some(TokenType::Fun) => self.parse_fun_decl(pos),
            Some(TokenType::Class) => self.parse_class_decl(pos),
            _ => self.parse_statement(pos),
        }
    }
}

/// Writes a `for` loop as a `while` loop inside blocks.
pub fn desugar_for(
    initializer: Option<Stmt>,
    cond: Option<Expr>,
    increment: Option<Expr>,
    body: Stmt,
) -> (r: Stmt)
    ensures
        r@ == grammar::desugared_for(
            option_stmt_view(initializer),
            option_expr_view(cond),
            option_expr_view(increment),
            body@,
        ),
{
    let stepped = match increment {
        Some(inc) => Stmt::pair(body, Stmt::expression(inc)),
        None => body,
    };
    let test = match cond {
        Some(c) => c,
        None => Expr::literal(Literal::True),
    };
    let looped = Stmt::repeat(test, stepped);
    match initializer {
        Some(init) => Stmt::pair(init, looped),
        None => looped,
    }
}

} // verus!
