//! The recursive-descent parser: tokens to a syntax tree, with recovery at
//! statement boundaries.
pub mod expressions;
pub mod statements;

use crate::expression::{expr_views, Expr, ExprView, Literal, Variable, VariableView};
use crate::grammar::{self, expect, kind_at, token_at, ParseErrorType, ParseErrorView};
use crate::scanner::{
    scan_input, scan_result, token_views, ScanError, ScanErrorView, Token, TokenType, TokenView,
};
use crate::statement::{
    self, function_views, lemma_stmt_views_push, stmt_views, FunctionView, Stmt, StmtView,
};
use vstd::prelude::*;

verus! {

/// What the parser could not read, with the token at which it gave up.
#[derive(Clone, Debug)]
pub struct ParseError {
    pub error_type: ParseErrorType,
    pub token: Option<Token>,
}

pub open spec fn option_token_view(token: Option<Token>) -> Option<TokenView> {
    match token {
        Some(t) => Some(t@),
        None => None,
    }
}

impl View for ParseError {
    type V = ParseErrorView;

    open spec fn view(&self) -> ParseErrorView {
        ParseErrorView { error_type: self.error_type, token: option_token_view(self.token) }
    }
}

pub open spec fn error_views(errors: Seq<ParseError>) -> Seq<ParseErrorView> {
    errors.map_values(|e: ParseError| e@)
}

pub open spec fn token_outcome(r: Result<Token, ParseError>) -> Result<TokenView, ParseErrorView> {
    match r {
        Ok(v) => Ok(v@),
        Err(e) => Err(e@),
    }
}

pub open spec fn tokens_outcome(r: Result<Vec<Token>, ParseError>) -> Result<
    Seq<TokenView>,
    ParseErrorView,
> {
    match r {
        Ok(v) => Ok(token_views(v@)),
        Err(e) => Err(e@),
    }
}

pub open spec fn expr_outcome(r: Result<Expr, ParseError>) -> Result<ExprView, ParseErrorView> {
    match r {
        Ok(v) => Ok(v@),
        Err(e) => Err(e@),
    }
}

pub open spec fn exprs_outcome(r: Result<Vec<Expr>, ParseError>) -> Result<
    Seq<ExprView>,
    ParseErrorView,
> {
    match r {
        Ok(v) => Ok(expr_views(v@)),
        Err(e) => Err(e@),
    }
}

pub open spec fn stmt_outcome(r: Result<Stmt, ParseError>) -> Result<StmtView, ParseErrorView> {
    match r {
        Ok(v) => Ok(v@),
        Err(e) => Err(e@),
    }
}

pub open spec fn stmts_outcome(r: Result<Vec<Stmt>, ParseError>) -> Result<
    Seq<StmtView>,
    ParseErrorView,
> {
    match r {
        Ok(v) => Ok(stmt_views(v@)),
        Err(e) => Err(e@),
    }
}

pub open spec fn function_outcome(r: Result<statement::Function, ParseError>) -> Result<
    FunctionView,
    ParseErrorView,
> {
    match r {
        Ok(v) => Ok(v@),
        Err(e) => Err(e@),
    }
}

pub open spec fn functions_outcome(r: Result<Vec<statement::Function>, ParseError>) -> Result<
    Seq<FunctionView>,
    ParseErrorView,
> {
    match r {
        Ok(v) => Ok(function_views(v@)),
        Err(e) => Err(e@),
    }
}

pub open spec fn option_stmt_outcome(r: Result<Option<Stmt>, ParseError>) -> Result<
    Option<StmtView>,
    ParseErrorView,
> {
    match r {
        Ok(Some(v)) => Ok(Some(v@)),
        Ok(None) => Ok(None),
        Err(e) => Err(e@),
    }
}

pub open spec fn option_expr_outcome(r: Result<Option<Expr>, ParseError>) -> Result<
    Option<ExprView>,
    ParseErrorView,
> {
    match r {
        Ok(Some(v)) => Ok(Some(v@)),
        Ok(None) => Ok(None),
        Err(e) => Err(e@),
    }
}

pub open spec fn option_variable_outcome(r: Result<Option<Variable>, ParseError>) -> Result<
    Option<VariableView>,
    ParseErrorView,
> {
    match r {
        Ok(Some(v)) => Ok(Some(v@)),
        Ok(None) => Ok(None),
        Err(e) => Err(e@),
    }
}

/// What `parse` returns, as the grammar states it.
pub open spec fn program_outcome(r: Result<Vec<Stmt>, Vec<ParseError>>) -> Result<
    Seq<StmtView>,
    Seq<ParseErrorView>,
> {
    match r {
        Ok(v) => Ok(stmt_views(v@)),
        Err(e) => Err(error_views(e@)),
    }
}

/// A parser over a sequence of tokens.
pub struct Parser {
    pub(crate) tokens: Vec<Token>,
}

impl View for Parser {
    type V = Seq<TokenView>;

    closed spec fn view(&self) -> Seq<TokenView> {
        token_views(self.tokens@)
    }
}

impl Parser {
    /// A parser for a copy of the tokens.
    pub fn new(tokens: &[Token]) -> (r: Parser)
        ensures
            r@ == token_views(tokens@),
    {
        let mut copy: Vec<Token> = Vec::new();
        let mut i: usize = 0;
        while i < tokens.len()
            invariant
                i <= tokens@.len(),
                copy@.len() == i,
                forall|j: int| 0 <= j < i ==> copy@[j]@ == tokens@[j]@,
            decreases tokens@.len() - i,
        {
            copy.push(tokens[i].duplicate());
            i += 1;
        }
        assert(token_views(copy@) =~= token_views(tokens@));
        Parser { tokens: copy }
    }

    pub(crate) fn kind(&self, pos: usize) -> (r: Option<TokenType>)
        ensures
            r == kind_at(self@, pos as nat),
            r is Some ==> pos < self@.len() && pos < usize::MAX,
    {
        if pos < self.tokens.len() {
            Some(self.tokens[pos].token_type)
        } else {
            None
        }
    }

    pub(crate) fn is_kind(&self, pos: usize, kind: TokenType) -> (r: bool)
        ensures
            r == (kind_at(self@, pos as nat) == Some(kind)),
            r ==> pos < self@.len() && pos < usize::MAX,
    {
        pos < self.tokens.len() && self.tokens[pos].token_type == kind
    }

    pub(crate) fn token(&self, pos: usize) -> (r: Option<Token>)
        ensures
            option_token_view(r) == token_at(self@, pos as nat),
    {
        if pos < self.tokens.len() {
            Some(self.tokens[pos].duplicate())
        } else {
            None
        }
    }

    pub(crate) fn consume_token(
        &self,
        pos: &mut usize,
        expected: TokenType,
    ) -> (r: Result<Token, ParseError>)
        requires
            *old(pos) <= self@.len(),
        ensures
            token_outcome(r) == expect(self@, *old(pos) as nat, expected).result,
            *final(pos) == *old(pos) + expect(self@, *old(pos) as nat, expected).used,
            *final(pos) <= self@.len(),
    {
        if self.is_kind(*pos, expected) {
            let token = self.tokens[*pos].duplicate();
            *pos = *pos + 1;
            Ok(token)
        } else {
            Err(
                ParseError {
                    error_type: ParseErrorType::ExpectedToken { expected, found: self.kind(*pos) },
                    token: self.token(*pos),
                },
            )
        }
    }
}

pub open spec fn option_stmt_view(s: Option<Stmt>) -> Option<StmtView> {
    match s {
        Some(s) => Some(s@),
        None => None,
    }
}

impl Parser {
    /// Skips the token at `pos`, and unless it is a semicolon, what follows up
    /// to the next start of a statement or up to and with the next semicolon.
    pub(crate) fn synchronize(&self, pos: &mut usize)
        requires
            *old(pos) <= self@.len(),
        ensures
            *final(pos) == *old(pos) + grammar::skipped(self@, *old(pos) as nat),
            *final(pos) <= self@.len(),
            *old(pos) < self@.len() ==> *final(pos) > *old(pos),
    {
        let n = self.tokens.len();
        if *pos >= n {
            return ;
        }
        let first = self.tokens[*pos].token_type;
        *pos = *pos + 1;
        if first == TokenType::Semicolon {
            return ;
        }
        let ghost start = *pos as nat;
        while *pos < n
            invariant
                n == self@.len(),
                start <= *pos <= n,
                start == *old(pos) + 1,
                grammar::skipped(self@, *old(pos) as nat) == 1 + grammar::skipped_to_boundary(
                    self@,
                    start,
                ),
                grammar::skipped_to_boundary(self@, start) == (*pos - start)
                    + grammar::skipped_to_boundary(self@, *pos as nat),
            decreases n - *pos,
        {
            let kind = self.tokens[*pos].token_type;
            if starts_statement(kind) {
                return ;
            }
            *pos = *pos + 1;
            if kind == TokenType::Semicolon {
                return ;
            }
        }
    }

    /// Parses a program. After an error the parser skips to a statement
    /// boundary and goes on, so that all errors are found; with any error,
    /// the errors are the result.
    pub fn parse(&self) -> (r: Result<Vec<Stmt>, Vec<ParseError>>)
        ensures
            program_outcome(r) == grammar::program(self@),
    {
        let mut errors: Vec<ParseError> = Vec::new();
        let mut statements: Vec<Stmt> = Vec::new();
        let mut pos: usize = 0;
        let n = self.tokens.len();
        assert(stmt_views(statements@) =~= Seq::empty());
        assert(error_views(errors@) =~= Seq::empty());
        while pos < n
            invariant
                n == self@.len(),
                pos <= n,
                grammar::program_errors(self@, pos as nat, error_views(errors@))
                    == grammar::program_errors(self@, 0, Seq::empty()),
                errors@.len() == 0 ==> grammar::program_statements(
                    self@,
                    pos as nat,
                    stmt_views(statements@),
                ) == grammar::program_statements(self@, 0, Seq::empty()),
            decreases n - pos,
        {
            let ghost errors_before = error_views(errors@);
            match self.parse_declaration(&mut pos) {
                Ok(stmt) => {
                    if errors.len() == 0 {
                        proof {
                            lemma_stmt_views_push(statements@, stmt);
                        }
                        statements.push(stmt);
                    }
                },
                Err(e) => {
                    errors.push(e);
                    assert(error_views(errors@) =~= errors_before.push(e@));
                    self.synchronize(&mut pos);
                },
            }
        }
        if errors.len() > 0 {
            Err(errors)
        } else {
            Ok(statements)
        }
    }

    /// Parses exactly one expression; input that is left over is an error.
    pub fn parse_single_expr(&self) -> (r: Result<Expr, ParseError>)
        ensures
            expr_outcome(r) == grammar::single_expression(self@),
    {
        let mut pos: usize = 0;
        let expr = self.parse_expr(&mut pos)?;
        if pos >= self.tokens.len() {
            Ok(expr)
        } else {
            Err(
                ParseError {
                    error_type: ParseErrorType::ExpectedExpression,
                    token: self.token(0),
                },
            )
        }
    }
}

/// Whether a declaration or a statement starts with a token of the kind.
pub fn starts_statement(kind: TokenType) -> (r: bool)
    ensures
        r == grammar::starts_statement(kind),
{
    kind == TokenType::Class || kind == TokenType::Fun || kind == TokenType::Var || kind
        == TokenType::For || kind == TokenType::If || kind == TokenType::While || kind
        == TokenType::Print || kind == TokenType::Return
}

/// Why a source text is no program: it does not scan, or it scans and
/// does not parse.
pub enum SourceError {
    Scan(ScanError),
    Parse(Vec<ParseError>),
}

/// The mathematical model of a source error.
pub enum SourceErrorView {
    Scan(ScanErrorView),
    Parse(Seq<ParseErrorView>),
}

impl View for SourceError {
    type V = SourceErrorView;

    open spec fn view(&self) -> SourceErrorView {
        match self {
            SourceError::Scan(e) => SourceErrorView::Scan(e@),
            SourceError::Parse(errors) => SourceErrorView::Parse(error_views(errors@)),
        }
    }
}

/// The statements of a source text, or the errors of the first step that
/// finds any: scanning, then parsing.
pub open spec fn source_program(source: Seq<char>) -> Result<Seq<StmtView>, SourceErrorView> {
    match scan_result(source) {
        Ok(tokens) => match grammar::program(tokens) {
            Ok(statements) => Ok(statements),
            Err(errors) => Err(SourceErrorView::Parse(errors)),
        },
        Err(e) => Err(SourceErrorView::Scan(e)),
    }
}

/// Scans and parses a source text, and hands out the errors of the step
/// that failed, for the caller to report.
pub fn scan_parse(input: &str) -> (r: Result<Vec<Stmt>, SourceError>)
    ensures
        match r {
            Ok(statements) => source_program(input@) == Ok::<Seq<StmtView>, SourceErrorView>(
                stmt_views(statements@),
            ),
            Err(e) => source_program(input@) == Err::<Seq<StmtView>, SourceErrorView>(e@),
        },
{
    match scan_input(input) {
        Ok(tokens) => {
            let parser = Parser::new(tokens.as_slice());
            match parser.parse() {
                Ok(statements) => Ok(statements),
                Err(errors) => Err(SourceError::Parse(errors)),
            }
        },
        Err(e) => Err(SourceError::Scan(e)),
    }
}

} // verus!
