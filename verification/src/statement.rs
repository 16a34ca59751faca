//! Statements of the syntax tree.
use crate::expression::{option_expr_view, Expr, ExprView, Variable as VariableExpr, VariableView};
use crate::scanner::{token_views, Token, TokenView};
use crate::semantics::EffectView;
use crate::value::RuntimeValue;
use vstd::prelude::*;

verus! {

/// An expression that is evaluated for its effect.
#[derive(Debug)]
pub struct Expression {
    pub expr: Expr,
}

/// An expression whose value is printed.
#[derive(Debug)]
pub struct Print {
    pub expr: Expr,
}

/// A variable declaration.
#[derive(Debug)]
pub struct Variable {
    pub name: Token,
    pub initializer: Option<Expr>,
}

/// Statements in a scope of their own.
#[derive(Debug)]
pub struct Block {
    pub statements: Vec<Stmt>,
}

/// A condition with one or two branches.
#[derive(Debug)]
pub struct If {
    pub cond: Expr,
    pub then_branch: Box<Stmt>,
    pub else_branch: Option<Box<Stmt>>,
}

/// A loop.
#[derive(Debug)]
pub struct While {
    pub cond: Expr,
    pub body: Box<Stmt>,
}

/// A function declaration; also a method inside a class.
#[derive(Debug)]
pub struct Function {
    pub name: Token,
    pub params: Vec<Token>,
    pub body: Vec<Stmt>,
}

/// `break`: leaves the innermost loop.
#[derive(Debug)]
pub struct Break {
    pub keyword: Token,
}

/// `return`: leaves the innermost call, with a value or with `nil`.
#[derive(Debug)]
pub struct Return {
    pub keyword: Token,
    pub value: Option<Expr>,
}

/// A class declaration.
#[derive(Debug)]
pub struct Class {
    pub name: Token,
    pub super_class: Option<VariableExpr>,
    pub methods: Vec<Function>,
}

/// A statement.
#[derive(Debug)]
pub enum Stmt {
    Expression(Expression),
    Print(Print),
    Variable(Variable),
    Block(Block),
    If(If),
    While(While),
    Function(Function),
    Return(Return),
    Break(Break),
    Class(Class),
}

/// The mathematical model of a function declaration.
pub struct FunctionView {
    pub name: TokenView,
    pub params: Seq<TokenView>,
    pub body: Seq<StmtView>,
}

/// The mathematical model of a statement.
pub enum StmtView {
    Expression(ExprView),
    Print(ExprView),
    Variable { name: TokenView, initializer: Option<ExprView> },
    Block(Seq<StmtView>),
    If { cond: ExprView, then_branch: Box<StmtView>, else_branch: Option<Box<StmtView>> },
    While { cond: ExprView, body: Box<StmtView> },
    Function(FunctionView),
    Return { keyword: TokenView, value: Option<ExprView> },
    Break { keyword: TokenView },
    Class { name: TokenView, super_class: Option<VariableView>, methods: Seq<FunctionView> },
}

/// A block without statements.
pub open spec fn empty_statement() -> StmtView {
    StmtView::Block(Seq::empty())
}

/// A function without name, parameters and body.
pub open spec fn empty_function() -> FunctionView {
    FunctionView {
        name: TokenView {
            token_type: crate::scanner::TokenType::Identifier,
            lexeme: Seq::empty(),
            literal: None,
            line: 0,
            column: 0,
        },
        params: Seq::empty(),
        body: Seq::empty(),
    }
}

/// The model of an optional use of a variable.
pub open spec fn option_variable_view(v: Option<VariableExpr>) -> Option<VariableView> {
    match v {
        Some(v) => Some(v@),
        None => None,
    }
}

impl Function {
    #[verifier::opaque]
    pub open spec fn view(&self) -> FunctionView
        decreases self,
    {
        FunctionView {
            name: self.name@,
            params: token_views(self.params@),
            body: Seq::new(
                self.body@.len(),
                |i: int|
                    if 0 <= i < self.body@.len() {
                        self.body@[i]@
                    } else {
                        empty_statement()
                    },
            ),
        }
    }
}

impl Stmt {
    #[verifier::opaque]
    pub open spec fn view(&self) -> StmtView
        decreases self,
    {
        match self {
            Stmt::Expression(s) => StmtView::Expression(s.expr@),
            Stmt::Print(s) => StmtView::Print(s.expr@),
            Stmt::Variable(s) => StmtView::Variable {
                name: s.name@,
                initializer: option_expr_view(s.initializer),
            },
            Stmt::Block(s) => StmtView::Block(
                Seq::new(
                    s.statements@.len(),
                    |i: int|
                        if 0 <= i < s.statements@.len() {
                            s.statements@[i]@
                        } else {
                            empty_statement()
                        },
                ),
            ),
            Stmt::If(s) => StmtView::If {
                cond: s.cond@,
                then_branch: Box::new(s.then_branch@),
                else_branch: match s.else_branch {
                    Some(e) => Some(Box::new(e@)),
                    None => None,
                },
            },
            Stmt::While(s) => StmtView::While { cond: s.cond@, body: Box::new(s.body@) },
            Stmt::Function(f) => StmtView::Function(f@),
            Stmt::Return(s) => StmtView::Return {
                keyword: s.keyword@,
                value: option_expr_view(s.value),
            },
            Stmt::Break(s) => StmtView::Break { keyword: s.keyword@ },
            Stmt::Class(c) => StmtView::Class {
                name: c.name@,
                super_class: option_variable_view(c.super_class),
                methods: Seq::new(
                    c.methods@.len(),
                    |i: int|
                        if 0 <= i < c.methods@.len() {
                            c.methods@[i]@
                        } else {
                            empty_function()
                        },
                ),
            },
        }
    }
}

/// The views of a sequence of statements, in order.
pub open spec fn stmt_views(ss: Seq<Stmt>) -> Seq<StmtView> {
    Seq::new(
        ss.len(),
        |i: int|
            if 0 <= i < ss.len() {
                ss[i]@
            } else {
                empty_statement()
            },
    )
}

/// The views of a sequence of function declarations, in order.
pub open spec fn function_views(fs: Seq<Function>) -> Seq<FunctionView> {
    Seq::new(
        fs.len(),
        |i: int|
            if 0 <= i < fs.len() {
                fs[i]@
            } else {
                empty_function()
            },
    )
}

/// The views of a sequence with one more statement.
pub proof fn lemma_stmt_views_push(ss: Seq<Stmt>, s: Stmt)
    ensures
        stmt_views(ss.push(s)) == stmt_views(ss).push(s@),
{
    assert(stmt_views(ss.push(s)) =~= stmt_views(ss).push(s@));
}

/// The views of a sequence with one more function.
pub proof fn lemma_function_views_push(fs: Seq<Function>, f: Function)
    ensures
        function_views(fs.push(f)) == function_views(fs).push(f@),
{
    assert(function_views(fs.push(f)) =~= function_views(fs).push(f@));
}

/// The views of a sequence with one more token.
pub proof fn lemma_token_views_push(ts: Seq<Token>, t: Token)
    ensures
        token_views(ts.push(t)) == token_views(ts).push(t@),
{
    assert(token_views(ts.push(t)) =~= token_views(ts).push(t@));
}

/// The model of an optional branch.
pub open spec fn option_box_view(s: Option<Stmt>) -> Option<Box<StmtView>> {
    match s {
        Some(s) => Some(Box::new(s@)),
        None => None,
    }
}

impl Function {
    pub fn new(name: Token, params: Vec<Token>, body: Vec<Stmt>) -> (r: Function)
        ensures
            r@ == (FunctionView {
                name: name@,
                params: token_views(params@),
                body: stmt_views(body@),
            }),
    {
        reveal_with_fuel(Function::view, 1);
        reveal_with_fuel(Stmt::view, 1);
        let r = Function { name, params, body };
        assert(r@.body =~= stmt_views(body@));
        r
    }
}

impl Stmt {
    /// An expression statement.
    pub fn expression(expr: Expr) -> (r: Stmt)
        ensures
            r@ == StmtView::Expression(expr@),
    {
        reveal_with_fuel(Stmt::view, 1);
        reveal_with_fuel(Function::view, 1);
        Stmt::Expression(Expression { expr })
    }

    /// A print statement.
    pub fn print(expr: Expr) -> (r: Stmt)
        ensures
            r@ == StmtView::Print(expr@),
    {
        reveal_with_fuel(Stmt::view, 1);
        reveal_with_fuel(Function::view, 1);
        Stmt::Print(Print { expr })
    }

    /// A variable declaration.
    pub fn variable(name: Token, initializer: Option<Expr>) -> (r: Stmt)
        ensures
            r@ == (StmtView::Variable {
                name: name@,
                initializer: option_expr_view(initializer),
            }),
    {
        reveal_with_fuel(Stmt::view, 1);
        reveal_with_fuel(Function::view, 1);
        Stmt::Variable(Variable { name, initializer })
    }

    /// A block.
    pub fn block(statements: Vec<Stmt>) -> (r: Stmt)
        ensures
            r@ == StmtView::Block(stmt_views(statements@)),
    {
        reveal_with_fuel(Stmt::view, 1);
        reveal_with_fuel(Function::view, 1);
        let r = Stmt::Block(Block { statements });
        assert(r@->Block_0 =~= stmt_views(statements@));
        r
    }

    /// A block of two statements.
    pub fn pair(first: Stmt, second: Stmt) -> (r: Stmt)
        ensures
            r@ == StmtView::Block(seq![first@, second@]),
    {
        let mut statements: Vec<Stmt> = Vec::new();
        statements.push(first);
        statements.push(second);
        assert(stmt_views(statements@) =~= seq![first@, second@]);
        Stmt::block(statements)
    }

    /// An `if` statement.
    pub fn conditional(cond: Expr, then_branch: Stmt, else_branch: Option<Stmt>) -> (r: Stmt)
        ensures
            r@ == (StmtView::If {
                cond: cond@,
                then_branch: Box::new(then_branch@),
                else_branch: option_box_view(else_branch),
            }),
    {
        reveal_with_fuel(Stmt::view, 1);
        reveal_with_fuel(Function::view, 1);
        let else_branch = match else_branch {
            Some(e) => Some(Box::new(e)),
            None => None,
        };
        Stmt::If(If { cond, then_branch: Box::new(then_branch), else_branch })
    }

    /// A `while` statement.
    pub fn repeat(cond: Expr, body: Stmt) -> (r: Stmt)
        ensures
            r@ == (StmtView::While { cond: cond@, body: Box::new(body@) }),
    {
        reveal_with_fuel(Stmt::view, 1);
        reveal_with_fuel(Function::view, 1);
        Stmt::While(While { cond, body: Box::new(body) })
    }

    /// A function declaration.
    pub fn function(decl: Function) -> (r: Stmt)
        ensures
            r@ == StmtView::Function(decl@),
    {
        reveal_with_fuel(Stmt::view, 1);
        reveal_with_fuel(Function::view, 1);
        Stmt::Function(decl)
    }

    /// A `return` statement.
    pub fn give_back(keyword: Token, value: Option<Expr>) -> (r: Stmt)
        ensures
            r@ == (StmtView::Return { keyword: keyword@, value: option_expr_view(value) }),
    {
        reveal_with_fuel(Stmt::view, 1);
        reveal_with_fuel(Function::view, 1);
        Stmt::Return(Return { keyword, value })
    }

    /// A `break` statement.
    pub fn leave(keyword: Token) -> (r: Stmt)
        ensures
            r@ == (StmtView::Break { keyword: keyword@ }),
    {
        reveal_with_fuel(Stmt::view, 1);
        reveal_with_fuel(Function::view, 1);
        Stmt::Break(Break { keyword })
    }

    /// A class declaration.
    pub fn class(name: Token, super_class: Option<VariableExpr>, methods: Vec<Function>) -> (r:
        Stmt)
        ensures
            r@ == (StmtView::Class {
                name: name@,
                super_class: option_variable_view(super_class),
                methods: function_views(methods@),
            }),
    {
        reveal_with_fuel(Stmt::view, 1);
        reveal_with_fuel(Function::view, 1);
        let r = Stmt::Class(Class { name, super_class, methods });
        assert(r@->Class_methods =~= function_views(methods@));
        r
    }
}

/// How a statement ended, where it did not simply end: with a `return`,
/// which carries a value outward to the call, or with a `break`, which ends
/// the innermost loop.
pub enum StmtEffect {
    Return(RuntimeValue),
    Break,
}

impl View for StmtEffect {
    type V = EffectView;

    open spec fn view(&self) -> EffectView {
        match self {
            StmtEffect::Return(v) => EffectView::Return(v@),
            StmtEffect::Break => EffectView::Break,
        }
    }
}

/// The model of an optional effect.
pub open spec fn option_effect_view(e: Option<StmtEffect>) -> Option<EffectView> {
    match e {
        Some(e) => Some(e@),
        None => None,
    }
}

/// A copy of the tokens.
pub fn duplicate_tokens(tokens: &Vec<Token>) -> (r: Vec<Token>)
    ensures
        token_views(r@) == token_views(tokens@),
{
    let mut r: Vec<Token> = Vec::new();
    let mut i: usize = 0;
    while i < tokens.len()
        invariant
            i <= tokens@.len(),
            r@.len() == i,
            forall|j: int| 0 <= j < i ==> r@[j]@ == tokens@[j]@,
        decreases tokens@.len() - i,
    {
        r.push(tokens[i].duplicate());
        i += 1;
    }
    assert(token_views(r@) =~= token_views(tokens@));
    r
}

/// A copy of the statements.
pub fn duplicate_statements(statements: &Vec<Stmt>) -> (r: Vec<Stmt>)
    ensures
        stmt_views(r@) == stmt_views(statements@),
    decreases statements,
{
    let mut r: Vec<Stmt> = Vec::new();
    let mut i: usize = 0;
    while i < statements.len()
        invariant
            i <= statements@.len(),
            r@.len() == i,
            forall|j: int| 0 <= j < i ==> r@[j]@ == statements@[j]@,
        decreases statements@.len() - i,
    {
        r.push(statements[i].duplicate());
        i += 1;
    }
    assert(stmt_views(r@) =~= stmt_views(statements@));
    r
}

impl Function {
    /// A copy of the declaration.
    pub fn duplicate(&self) -> (r: Function)
        ensures
            r@ == self@,
        decreases self,
    {
        proof {
            reveal_with_fuel(Function::view, 1);
            reveal_with_fuel(Stmt::view, 1);
        }
        let body = duplicate_statements(&self.body);
        let r = Function::new(self.name.duplicate(), duplicate_tokens(&self.params), body);
        assert(self@.body =~= stmt_views(self.body@));
        r
    }
}

impl Stmt {
    /// A copy of the statement.
    pub fn duplicate(&self) -> (r: Stmt)
        ensures
            r@ == self@,
        decreases self,
    {
        proof {
            reveal_with_fuel(Function::view, 1);
            reveal_with_fuel(Stmt::view, 1);
        }
        match self {
            Stmt::Expression(s) => Stmt::expression(s.expr.duplicate()),
            Stmt::Print(s) => Stmt::print(s.expr.duplicate()),
            Stmt::Variable(s) => {
                let initializer = match &s.initializer {
                    Some(e) => Some(e.duplicate()),
                    None => None,
                };
                Stmt::variable(s.name.duplicate(), initializer)
            },
            Stmt::Block(s) => {
                let statements = duplicate_statements(&s.statements);
                assert(self@->Block_0 =~= stmt_views(s.statements@));
                Stmt::block(statements)
            },
            Stmt::If(s) => {
                let else_branch = match &s.else_branch {
                    Some(e) => Some(e.duplicate()),
                    None => None,
                };
                Stmt::conditional(s.cond.duplicate(), s.then_branch.duplicate(), else_branch)
            },
            Stmt::While(s) => Stmt::repeat(s.cond.duplicate(), s.body.duplicate()),
            Stmt::Function(f) => Stmt::function(f.duplicate()),
            Stmt::Return(s) => {
                let value = match &s.value {
                    Some(e) => Some(e.duplicate()),
                    None => None,
                };
                Stmt::give_back(s.keyword.duplicate(), value)
            },
            Stmt::Break(s) => Stmt::leave(s.keyword.duplicate()),
            Stmt::Class(c) => {
                let mut methods: Vec<Function> = Vec::new();
                let mut i: usize = 0;
                while i < c.methods.len()
                    invariant
                        i <= c.methods@.len(),
                        methods@.len() == i,
                        forall|j: int| 0 <= j < i ==> methods@[j]@ == c.methods@[j]@,
                        forall|j: int|
                            0 <= j < c.methods@.len() ==> decreases_to!(self => c.methods@[j]),
                    decreases c.methods@.len() - i,
                {
                    methods.push(c.methods[i].duplicate());
                    i += 1;
                }
                assert(function_views(methods@) =~= function_views(c.methods@));
                assert(self@->Class_methods =~= function_views(c.methods@));
                let super_class = match &c.super_class {
                    Some(v) => Some(v.duplicate()),
                    None => None,
                };
                Stmt::class(c.name.duplicate(), super_class, methods)
            },
        }
    }
}

} // verus!
