//! What resolution does to each expression and statement.
use crate::expression::{ExprView, VariableView};
use crate::resolver::{
    begin_scope, declare, define, define_provided, enclosing_function, end_scope,
    hops_to, in_own_initializer, inside_class, inside_loop, pop_context, push_context,
    resolve_local, super_token, this_token, with_error, Context, ResolutionErrorView, ResolverView,
};
use crate::scanner::TokenView;
use crate::statement::{FunctionView, StmtView};
use vstd::prelude::*;

verus! {

/// A resolver and the syntax that it has annotated.
pub struct Resolved<T> {
    pub state: ResolverView,
    pub tree: T,
}

/// Looks a name up and marks it as used; gives the hops to its declaration.
pub open spec fn lookup(s: ResolverView, lexeme: Seq<char>) -> Resolved<Option<nat>> {
    Resolved { state: resolve_local(s, lexeme), tree: hops_to(s.scopes, lexeme) }
}

/// Resolves an expression: every use of a name gets its hops, in the order
/// of evaluation.
#[verifier::opaque]
pub open spec fn resolve_expr(s: ResolverView, e: ExprView) -> Resolved<ExprView>
    decreases e, 0nat,
{
    match e {
        ExprView::Literal(_) => Resolved { state: s, tree: e },
        ExprView::Unary { operator, right } => {
            let r = resolve_expr(s, *right);
            Resolved { state: r.state, tree: ExprView::Unary { operator, right: Box::new(r.tree) } }
        },
        ExprView::Binary { left, right, operator } => {
            let l = resolve_expr(s, *left);
            let r = resolve_expr(l.state, *right);
            Resolved {
                state: r.state,
                tree: ExprView::Binary {
                    left: Box::new(l.tree),
                    right: Box::new(r.tree),
                    operator,
                },
            }
        },
        ExprView::Logical { left, right, operator } => {
            let l = resolve_expr(s, *left);
            let r = resolve_expr(l.state, *right);
            Resolved {
                state: r.state,
                tree: ExprView::Logical {
                    left: Box::new(l.tree),
                    right: Box::new(r.tree),
                    operator,
                },
            }
        },
        ExprView::Grouping(inner) => {
            let r = resolve_expr(s, *inner);
            Resolved { state: r.state, tree: ExprView::Grouping(Box::new(r.tree)) }
        },
        ExprView::Variable { name, hops } => if in_own_initializer(s, name.lexeme) {
            Resolved {
                state: with_error(s, ResolutionErrorView::CantReadLocalVarInItsInitializer(name)),
                tree: e,
            }
        } else {
            let found = lookup(s, name.lexeme);
            Resolved { state: found.state, tree: ExprView::Variable { name, hops: found.tree } }
        },
        ExprView::Assignment { name, hops, value } => {
            let v = resolve_expr(s, *value);
            let found = lookup(v.state, name.lexeme);
            Resolved {
                state: found.state,
                tree: ExprView::Assignment { name, hops: found.tree, value: Box::new(v.tree) },
            }
        },
        ExprView::Call { right_paren, callee, args } => {
            let c = resolve_expr(s, *callee);
            let a = resolve_exprs(c.state, args, 0, Seq::empty());
            Resolved {
                state: a.state,
                tree: ExprView::Call { right_paren, callee: Box::new(c.tree), args: a.tree },
            }
        },
        ExprView::Get { name, object } => {
            let o = resolve_expr(s, *object);
            Resolved { state: o.state, tree: ExprView::Get { name, object: Box::new(o.tree) } }
        },
        ExprView::SetProperty { name, object, value } => {
            let o = resolve_expr(s, *object);
            let v = resolve_expr(o.state, *value);
            Resolved {
                state: v.state,
                tree: ExprView::SetProperty {
                    name,
                    object: Box::new(o.tree),
                    value: Box::new(v.tree),
                },
            }
        },
        ExprView::This { keyword, hops } => if !inside_class(s.context, s.context.len()) {
            Resolved {
                state: with_error(s, ResolutionErrorView::ThisNotInsideClass(keyword)),
                tree: e,
            }
        } else {
            let found = lookup(s, keyword.lexeme);
            Resolved { state: found.state, tree: ExprView::This { keyword, hops: found.tree } }
        },
        ExprView::Super { keyword, method, hops_to_super, hops_to_this } => {
            let sup = lookup(s, keyword.lexeme);
            let this = lookup(sup.state, this_token().lexeme);
            Resolved {
                state: this.state,
                tree: ExprView::Super {
                    keyword,
                    method,
                    hops_to_super: sup.tree,
                    hops_to_this: this.tree,
                },
            }
        },
    }
}

/// Resolves the expressions of a sequence from the `i`-th on, in order,
/// after those in `done`.
#[verifier::opaque]
pub open spec fn resolve_exprs(
    s: ResolverView,
    es: Seq<ExprView>,
    i: nat,
    done: Seq<ExprView>,
) -> Resolved<
    Seq<ExprView>,
>
    decreases es, es.len() - i,
{
    if i >= es.len() {
        Resolved { state: s, tree: done }
    } else {
        let r = resolve_expr(s, es[i as int]);
        resolve_exprs(r.state, es, i + 1, done.push(r.tree))
    }
}

/// Resolves an expression that may be absent.
pub open spec fn resolve_optional(
    s: ResolverView,
    e: Option<ExprView>,
) -> Resolved<Option<ExprView>>
    decreases e, 1nat,
{
    match e {
        Some(expr) => {
            let r = resolve_expr(s, expr);
            Resolved { state: r.state, tree: Some(r.tree) }
        },
        None => Resolved { state: s, tree: None },
    }
}

/// Declares and defines each parameter from the `i`-th on.
pub open spec fn declare_params(s: ResolverView, params: Seq<TokenView>, i: nat) -> ResolverView
    decreases params.len() - i,
{
    if i >= params.len() {
        s
    } else {
        declare_params(define(declare(s, params[i as int]), params[i as int]), params, i + 1)
    }
}

/// The context of a method: an initializer where it is named `init`.
pub open spec fn method_context(f: FunctionView) -> Context {
    if f.name.lexeme == "init"@ {
        Context::InitializerMethod
    } else {
        Context::Method
    }
}

/// Resolves a function or a method: its parameters and its body live in a
/// scope of their own.
#[verifier::opaque]
pub open spec fn resolve_function(s: ResolverView, f: FunctionView) -> Resolved<FunctionView>
    decreases f, 0nat,
{
    let inside = declare_params(begin_scope(s), f.params, 0);
    let body = resolve_stmts(inside, f.body, 0, Seq::empty());
    Resolved { state: end_scope(body.state), tree: FunctionView { body: body.tree, ..f } }
}

/// Resolves the methods of a class from the `i`-th on, each in its
/// context, after those in `done`.
#[verifier::opaque]
pub open spec fn resolve_methods(
    s: ResolverView,
    methods: Seq<FunctionView>,
    i: nat,
    done: Seq<FunctionView>,
) -> Resolved<Seq<FunctionView>>
    decreases methods, methods.len() - i,
{
    if i >= methods.len() {
        Resolved { state: s, tree: done }
    } else {
        let m = resolve_function(push_context(s, method_context(methods[i as int])), methods[i as int]);
        resolve_methods(pop_context(m.state), methods, i + 1, done.push(m.tree))
    }
}

/// Resolves the super class of a declaration of the class `name`: its
/// hops, and an error where the class names itself.
pub open spec fn resolve_super_class(
    s: ResolverView,
    name: TokenView,
    sup: Option<VariableView>,
) -> Resolved<
    Option<VariableView>,
> {
    match sup {
        Some(v) => {
            let found = lookup(s, v.name.lexeme);
            let state = if v.name.lexeme == name.lexeme {
                with_error(found.state, ResolutionErrorView::ClassCantInheritFromItself(v.name))
            } else {
                found.state
            };
            Resolved { state, tree: Some(VariableView { name: v.name, hops: found.tree }) }
        },
        None => Resolved { state: s, tree: None },
    }
}

/// Resolves a statement.
#[verifier::opaque]
pub open spec fn resolve_stmt(s: ResolverView, st: StmtView) -> Resolved<StmtView>
    decreases st, 0nat,
{
    match st {
        StmtView::Expression(e) => {
            let r = resolve_expr(s, e);
            Resolved { state: r.state, tree: StmtView::Expression(r.tree) }
        },
        StmtView::Print(e) => {
            let r = resolve_expr(s, e);
            Resolved { state: r.state, tree: StmtView::Print(r.tree) }
        },
        StmtView::Variable { name, initializer } => {
            let i = resolve_optional(declare(s, name), initializer);
            Resolved {
                state: define(i.state, name),
                tree: StmtView::Variable { name, initializer: i.tree },
            }
        },
        StmtView::Block(statements) => {
            let b = resolve_stmts(begin_scope(s), statements, 0, Seq::empty());
            Resolved { state: end_scope(b.state), tree: StmtView::Block(b.tree) }
        },
        StmtView::If { cond, then_branch, else_branch } => {
            let c = resolve_expr(s, cond);
            let t = resolve_stmt(c.state, *then_branch);
            match else_branch {
                Some(other) => {
                    let e = resolve_stmt(t.state, *other);
                    Resolved {
                        state: e.state,
                        tree: StmtView::If {
                            cond: c.tree,
                            then_branch: Box::new(t.tree),
                            else_branch: Some(Box::new(e.tree)),
                        },
                    }
                },
                None => Resolved {
                    state: t.state,
                    tree: StmtView::If {
                        cond: c.tree,
                        then_branch: Box::new(t.tree),
                        else_branch: None,
                    },
                },
            }
        },
        StmtView::While { cond, body } => {
            let c = resolve_expr(push_context(s, Context::Loop), cond);
            let b = resolve_stmt(c.state, *body);
            Resolved {
                state: pop_context(b.state),
                tree: StmtView::While { cond: c.tree, body: Box::new(b.tree) },
            }
        },
        StmtView::Function(f) => {
            let named = define(declare(push_context(s, Context::Function), f.name), f.name);
            let r = resolve_function(named, f);
            Resolved { state: pop_context(r.state), tree: StmtView::Function(r.tree) }
        },
        StmtView::Return { keyword, value } => match enclosing_function(
            s.context,
            s.context.len(),
        ) {
            None => Resolved {
                state: with_error(s, ResolutionErrorView::ReturnNotInFunction(keyword)),
                tree: st,
            },
            Some(c) => if c == Context::InitializerMethod && value is Some {
                Resolved {
                    state: with_error(
                        s,
                        ResolutionErrorView::CantReturnValueFromAnInitializer(keyword),
                    ),
                    tree: st,
                }
            } else {
                let v = resolve_optional(s, value);
                Resolved { state: v.state, tree: StmtView::Return { keyword, value: v.tree } }
            },
        },
        StmtView::Break { keyword } => if inside_loop(s.context, s.context.len()) {
            Resolved { state: s, tree: st }
        } else {
            Resolved { state: with_error(s, ResolutionErrorView::BreakNotInLoop(keyword)), tree: st }
        },
        StmtView::Class { name, super_class, methods } => {
            let named = define(declare(push_context(s, Context::Class), name), name);
            let sup = resolve_super_class(named, name, super_class);
            let outer = if super_class is Some {
                define_provided(begin_scope(sup.state), super_token())
            } else {
                sup.state
            };
            let inner = define_provided(begin_scope(outer), this_token());
            let m = resolve_methods(inner, methods, 0, Seq::empty());
            let closed = if super_class is Some {
                end_scope(end_scope(m.state))
            } else {
                end_scope(m.state)
            };
            Resolved {
                state: pop_context(closed),
                tree: StmtView::Class { name, super_class: sup.tree, methods: m.tree },
            }
        },
    }
}

/// Resolves the statements of a sequence from the `i`-th on, in order,
/// after those in `done`.
#[verifier::opaque]
pub open spec fn resolve_stmts(
    s: ResolverView,
    ss: Seq<StmtView>,
    i: nat,
    done: Seq<StmtView>,
) -> Resolved<
    Seq<StmtView>,
>
    decreases ss, ss.len() - i,
{
    if i >= ss.len() {
        Resolved { state: s, tree: done }
    } else {
        let r = resolve_stmt(s, ss[i as int]);
        resolve_stmts(r.state, ss, i + 1, done.push(r.tree))
    }
}

/// Resolves a program: the annotated statements, and the resolver with all
/// that it reported.
pub open spec fn resolve_program(
    s: ResolverView,
    statements: Seq<StmtView>,
) -> Resolved<Seq<StmtView>> {
    resolve_stmts(s, statements, 0, Seq::empty())
}

/// The resolver after it has handed out its warnings and errors.
pub open spec fn cleared(s: ResolverView) -> ResolverView {
    ResolverView { warnings: Seq::empty(), errors: Seq::empty(), ..s }
}

} // verus!
