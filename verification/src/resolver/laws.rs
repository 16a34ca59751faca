//! What holds of resolution, whatever the program.
use crate::expression::{ExprView, VariableView};
use crate::resolver::rules::{
    resolve_expr, resolve_exprs, resolve_function, resolve_methods, resolve_optional,
    resolve_program, resolve_stmt, resolve_stmts, resolve_super_class,
};
use crate::resolver::rules::{declare_params, method_context};
use crate::resolver::{
    begin_scope, hops_from, hops_to, pop_context, position, push_context, LocalView, ResolverView,
};
use crate::statement::{FunctionView, StmtView};
use vstd::prelude::*;

verus! {

/// An expression without its hops: what the parser made of the source.
pub open spec fn bare_expr(e: ExprView) -> ExprView
    decreases e,
{
    match e {
        ExprView::Literal(_) => e,
        ExprView::Unary { operator, right } => ExprView::Unary {
            operator,
            right: Box::new(bare_expr(*right)),
        },
        ExprView::Binary { left, right, operator } => ExprView::Binary {
            left: Box::new(bare_expr(*left)),
            right: Box::new(bare_expr(*right)),
            operator,
        },
        ExprView::Logical { left, right, operator } => ExprView::Logical {
            left: Box::new(bare_expr(*left)),
            right: Box::new(bare_expr(*right)),
            operator,
        },
        ExprView::Grouping(inner) => ExprView::Grouping(Box::new(bare_expr(*inner))),
        ExprView::Variable { name, hops } => ExprView::Variable { name, hops: None },
        ExprView::Assignment { name, hops, value } => ExprView::Assignment {
            name,
            hops: None,
            value: Box::new(bare_expr(*value)),
        },
        ExprView::Call { right_paren, callee, args } => ExprView::Call {
            right_paren,
            callee: Box::new(bare_expr(*callee)),
            args: Seq::new(
                args.len(),
                |i: int|
                    if 0 <= i < args.len() {
                        bare_expr(args[i])
                    } else {
                        arbitrary()
                    },
            ),
        },
        ExprView::Get { name, object } => ExprView::Get {
            name,
            object: Box::new(bare_expr(*object)),
        },
        ExprView::SetProperty { name, object, value } => ExprView::SetProperty {
            name,
            object: Box::new(bare_expr(*object)),
            value: Box::new(bare_expr(*value)),
        },
        ExprView::This { keyword, hops } => ExprView::This { keyword, hops: None },
        ExprView::Super { keyword, method, hops_to_super, hops_to_this } => ExprView::Super {
            keyword,
            method,
            hops_to_super: None,
            hops_to_this: None,
        },
    }
}

pub open spec fn bare_exprs(es: Seq<ExprView>) -> Seq<ExprView> {
    Seq::new(
        es.len(),
        |i: int|
            if 0 <= i < es.len() {
                bare_expr(es[i])
            } else {
                arbitrary()
            },
    )
}

pub open spec fn bare_optional(e: Option<ExprView>) -> Option<ExprView> {
    match e {
        Some(e) => Some(bare_expr(e)),
        None => None,
    }
}

pub open spec fn bare_variable(v: Option<VariableView>) -> Option<VariableView> {
    match v {
        Some(v) => Some(VariableView { name: v.name, hops: None }),
        None => None,
    }
}

/// A function without the hops in its body.
pub open spec fn bare_function(f: FunctionView) -> FunctionView
    decreases f,
{
    FunctionView {
        name: f.name,
        params: f.params,
        body: Seq::new(
            f.body.len(),
            |i: int|
                if 0 <= i < f.body.len() {
                    bare_stmt(f.body[i])
                } else {
                    arbitrary()
                },
        ),
    }
}

/// A statement without its hops: what the parser made of the source.
pub open spec fn bare_stmt(st: StmtView) -> StmtView
    decreases st,
{
    match st {
        StmtView::Expression(e) => StmtView::Expression(bare_expr(e)),
        StmtView::Print(e) => StmtView::Print(bare_expr(e)),
        StmtView::Variable { name, initializer } => StmtView::Variable {
            name,
            initializer: bare_optional(initializer),
        },
        StmtView::Block(statements) => StmtView::Block(
            Seq::new(
                statements.len(),
                |i: int|
                    if 0 <= i < statements.len() {
                        bare_stmt(statements[i])
                    } else {
                        arbitrary()
                    },
            ),
        ),
        StmtView::If { cond, then_branch, else_branch } => StmtView::If {
            cond: bare_expr(cond),
            then_branch: Box::new(bare_stmt(*then_branch)),
            else_branch: match else_branch {
                Some(e) => Some(Box::new(bare_stmt(*e))),
                None => None,
            },
        },
        StmtView::While { cond, body } => StmtView::While {
            cond: bare_expr(cond),
            body: Box::new(bare_stmt(*body)),
        },
        StmtView::Function(f) => StmtView::Function(bare_function(f)),
        StmtView::Return { keyword, value } => StmtView::Return {
            keyword,
            value: bare_optional(value),
        },
        StmtView::Break { keyword } => st,
        StmtView::Class { name, super_class, methods } => StmtView::Class {
            name,
            super_class: bare_variable(super_class),
            methods: Seq::new(
                methods.len(),
                |i: int|
                    if 0 <= i < methods.len() {
                        bare_function(methods[i])
                    } else {
                        arbitrary()
                    },
            ),
        },
    }
}

pub open spec fn bare_stmts(ss: Seq<StmtView>) -> Seq<StmtView> {
    Seq::new(
        ss.len(),
        |i: int|
            if 0 <= i < ss.len() {
                bare_stmt(ss[i])
            } else {
                arbitrary()
            },
    )
}

pub proof fn lemma_hops_from(scopes: Seq<Seq<LocalView>>, lexeme: Seq<char>, depth: nat, h: nat)
    requires
        hops_from(scopes, lexeme, depth) == Some(h),
    ensures
        depth <= h < scopes.len(),
        position(scopes[scopes.len() - 1 - h], lexeme, 0) is Some,
        forall|k: nat|
            depth <= k < h ==> position(#[trigger] scopes[scopes.len() - 1 - k], lexeme, 0) is None,
    decreases scopes.len() - depth,
{
    if depth < scopes.len() && position(scopes[scopes.len() - 1 - depth], lexeme, 0) is None {
        lemma_hops_from(scopes, lexeme, (depth + 1) as nat, h);
    }
}

/// The hops that the resolver writes for a name lead to a scope that
/// declares the name, and no scope nearer to the use declares it: with `h`
/// hops, the name stands in the scope `h` scopes out from the innermost.
pub proof fn lemma_hops_lead_to_the_declaration(
    scopes: Seq<Seq<LocalView>>,
    lexeme: Seq<char>,
    h: nat,
)
    requires
        hops_to(scopes, lexeme) == Some(h),
    ensures
        h < scopes.len(),
        position(scopes[scopes.len() - 1 - h], lexeme, 0) is Some,
        forall|k: nat| k < h ==> position(#[trigger] scopes[scopes.len() - 1 - k], lexeme, 0) is None,
{
    lemma_hops_from(scopes, lexeme, 0, h);
}

pub proof fn lemma_position(scope: Seq<LocalView>, lexeme: Seq<char>, from: nat)
    ensures
        match position(scope, lexeme, from) {
            Some(i) => from <= i < scope.len() && scope[i as int].name.lexeme == lexeme,
            None => forall|j: int| from <= j < scope.len() ==> scope[j].name.lexeme != lexeme,
        },
    decreases scope.len() - from,
{
    if from < scope.len() && scope[from as int].name.lexeme != lexeme {
        lemma_position(scope, lexeme, from + 1);
    }
}

/// A name that no scope declares gets no hops: it is left to the globals.
pub proof fn lemma_undeclared_names_are_global(scopes: Seq<Seq<LocalView>>, lexeme: Seq<char>)
    requires
        forall|i: int, j: int|
            0 <= i < scopes.len() && 0 <= j < scopes[i].len() ==> scopes[i][j].name.lexeme != lexeme,
    ensures
        hops_to(scopes, lexeme) is None,
{
    lemma_no_hops(scopes, lexeme, 0);
}

/// A name that gets no hops stands in no scope: only a name that no scope
/// declares is left to the globals.
pub proof fn lemma_names_without_hops_are_undeclared(scopes: Seq<Seq<LocalView>>, lexeme: Seq<char>)
    requires
        hops_to(scopes, lexeme) is None,
    ensures
        forall|i: int| 0 <= i < scopes.len() ==> position(#[trigger] scopes[i], lexeme, 0) is None,
{
    lemma_none_from(scopes, lexeme, 0);
    assert forall|i: int| 0 <= i < scopes.len() implies position(
        #[trigger] scopes[i],
        lexeme,
        0,
    ) is None by {
        let k = (scopes.len() - 1 - i) as nat;
        assert(position(scopes[scopes.len() - 1 - k], lexeme, 0) is None);
    }
}

proof fn lemma_none_from(scopes: Seq<Seq<LocalView>>, lexeme: Seq<char>, depth: nat)
    requires
        hops_from(scopes, lexeme, depth) is None,
    ensures
        forall|k: nat|
            depth <= k < scopes.len() ==> position(
                #[trigger] scopes[scopes.len() - 1 - k],
                lexeme,
                0,
            ) is None,
    decreases scopes.len() - depth,
{
    if depth < scopes.len() {
        lemma_none_from(scopes, lexeme, depth + 1);
    }
}

proof fn lemma_no_hops(scopes: Seq<Seq<LocalView>>, lexeme: Seq<char>, depth: nat)
    requires
        forall|i: int, j: int|
            0 <= i < scopes.len() && 0 <= j < scopes[i].len() ==> scopes[i][j].name.lexeme != lexeme,
    ensures
        hops_from(scopes, lexeme, depth) is None,
    decreases scopes.len() - depth,
{
    if depth < scopes.len() {
        lemma_position(scopes[scopes.len() - 1 - depth], lexeme, 0);
        lemma_no_hops(scopes, lexeme, depth + 1);
    }
}

/// Resolution of an expression keeps its shape, and resolving what was
/// resolved, from the same state, changes nothing.
pub proof fn lemma_resolve_expr(s: ResolverView, e: ExprView)
    ensures
        bare_expr(resolve_expr(s, e).tree) == bare_expr(e),
        resolve_expr(s, resolve_expr(s, e).tree) == resolve_expr(s, e),
    decreases e, 0nat,
{
    reveal_with_fuel(resolve_expr, 1);
    reveal_with_fuel(resolve_exprs, 1);
    match e {
        ExprView::Literal(_) => {},
        ExprView::Unary { operator, right } => {
            lemma_resolve_expr(s, *right);
        },
        ExprView::Binary { left, right, operator } => {
            lemma_resolve_expr(s, *left);
            lemma_resolve_expr(resolve_expr(s, *left).state, *right);
        },
        ExprView::Logical { left, right, operator } => {
            lemma_resolve_expr(s, *left);
            lemma_resolve_expr(resolve_expr(s, *left).state, *right);
        },
        ExprView::Grouping(inner) => {
            lemma_resolve_expr(s, *inner);
        },
        ExprView::Variable { name, hops } => {},
        ExprView::Assignment { name, hops, value } => {
            lemma_resolve_expr(s, *value);
        },
        ExprView::Call { right_paren, callee, args } => {
            lemma_resolve_expr(s, *callee);
            let c = resolve_expr(s, *callee);
            lemma_resolve_exprs(c.state, args, 0, Seq::empty());
            let a = resolve_exprs(c.state, args, 0, Seq::empty());
            assert forall|j: int| 0 <= j < args.len() implies bare_expr(a.tree[j]) == bare_expr(
                args[j],
            ) by {
                assert(a.tree[j] == a.tree[Seq::<ExprView>::empty().len() + j - 0]);
            }
            assert(bare_exprs(a.tree) =~= bare_exprs(args));
            assert forall|j: int| 0 <= j < args.len() implies a.tree[j] == resolve_exprs(
                c.state,
                args,
                0,
                Seq::empty(),
            ).tree[Seq::<ExprView>::empty().len() + j - 0] by {}
            lemma_resolve_exprs_again(c.state, args, a.tree, 0, Seq::empty());
            assert(bare_expr(resolve_expr(s, e).tree)->Call_args =~= bare_expr(e)->Call_args);
        },
        ExprView::Get { name, object } => {
            lemma_resolve_expr(s, *object);
        },
        ExprView::SetProperty { name, object, value } => {
            lemma_resolve_expr(s, *object);
            lemma_resolve_expr(resolve_expr(s, *object).state, *value);
        },
        ExprView::This { keyword, hops } => {},
        ExprView::Super { keyword, method, hops_to_super, hops_to_this } => {},
    }
}

/// Resolution of a sequence keeps what was done before and adds one
/// resolved expression of the same shape for each that is left.
pub proof fn lemma_resolve_exprs(s: ResolverView, es: Seq<ExprView>, i: nat, done: Seq<ExprView>)
    requires
        i <= es.len(),
    ensures
        resolve_exprs(s, es, i, done).tree.len() == done.len() + es.len() - i,
        resolve_exprs(s, es, i, done).tree.subrange(0, done.len() as int) == done,
        forall|j: int|
            i <= j < es.len() ==> bare_expr(
                #[trigger] resolve_exprs(s, es, i, done).tree[done.len() + j - i],
            ) == bare_expr(es[j]),
    decreases es, es.len() - i, 0nat,
{
    reveal_with_fuel(resolve_exprs, 1);
    reveal_with_fuel(resolve_expr, 1);
    if i < es.len() {
        let r = resolve_expr(s, es[i as int]);
        lemma_resolve_expr(s, es[i as int]);
        lemma_resolve_exprs(r.state, es, i + 1, done.push(r.tree));
        let out = resolve_exprs(s, es, i, done).tree;
        assert(out.subrange(0, done.len() as int + 1) == done.push(r.tree));
        assert(out.subrange(0, done.len() as int) =~= done) by {
            assert forall|k: int| 0 <= k < done.len() implies out[k] == done[k] by {
                assert(out.subrange(0, done.len() as int + 1)[k] == done.push(r.tree)[k]);
            }
        }
        assert(out[done.len() as int] == r.tree) by {
            assert(out.subrange(0, done.len() as int + 1)[done.len() as int] == done.push(
                r.tree,
            )[done.len() as int]);
        }
        assert forall|j: int| i <= j < es.len() implies bare_expr(
            #[trigger] out[done.len() + j - i],
        ) == bare_expr(es[j]) by {
            if j > i {
                assert(out[done.push(r.tree).len() + j - (i + 1)] == out[done.len() + j - i]);
            }
        }
    } else {
        assert(done.subrange(0, done.len() as int) =~= done);
    }
}

/// Resolving a sequence whose places from `i` on hold what resolution put
/// there gives the same result again.
proof fn lemma_resolve_exprs_again(
    s: ResolverView,
    es: Seq<ExprView>,
    fs: Seq<ExprView>,
    i: nat,
    done: Seq<ExprView>,
)
    requires
        i <= es.len(),
        fs.len() == es.len(),
        forall|j: int|
            i <= j < es.len() ==> fs[j] == resolve_exprs(s, es, i, done).tree[done.len() + j - i],
    ensures
        resolve_exprs(s, fs, i, done) == resolve_exprs(s, es, i, done),
    decreases es, es.len() - i, 1nat,
{
    reveal_with_fuel(resolve_exprs, 1);
    reveal_with_fuel(resolve_expr, 1);
    if i < es.len() {
        let r = resolve_expr(s, es[i as int]);
        let out = resolve_exprs(s, es, i, done).tree;
        lemma_resolve_exprs(r.state, es, i + 1, done.push(r.tree));
        assert(out[done.len() as int] == r.tree) by {
            assert(out.subrange(0, done.len() as int + 1)[done.len() as int] == done.push(
                r.tree,
            )[done.len() as int]);
        }
        assert(fs[i as int] == r.tree);
        lemma_resolve_expr(s, es[i as int]);
        assert forall|j: int| i + 1 <= j < es.len() implies fs[j] == resolve_exprs(
            r.state,
            es,
            i + 1,
            done.push(r.tree),
        ).tree[done.push(r.tree).len() + j - (i + 1)] by {
            assert(out[done.push(r.tree).len() + j - (i + 1)] == out[done.len() + j - i]);
        }
        lemma_resolve_exprs_again(r.state, es, fs, i + 1, done.push(r.tree));
    }
}

proof fn lemma_resolve_optional(s: ResolverView, e: Option<ExprView>)
    ensures
        bare_optional(resolve_optional(s, e).tree) == bare_optional(e),
        resolve_optional(s, resolve_optional(s, e).tree) == resolve_optional(s, e),
{
    match e {
        Some(expr) => {
            lemma_resolve_expr(s, expr);
        },
        None => {},
    }
}

/// Resolution of a function keeps its shape, and resolving what was
/// resolved, from the same state, changes nothing.
pub proof fn lemma_resolve_function(s: ResolverView, f: FunctionView)
    ensures
        bare_function(resolve_function(s, f).tree) == bare_function(f),
        resolve_function(s, resolve_function(s, f).tree) == resolve_function(s, f),
    decreases f, 0nat, 0nat,
{
    reveal_with_fuel(resolve_function, 1);
    reveal_with_fuel(resolve_stmts, 1);
    let inside = declare_params(begin_scope(s), f.params, 0);
    let body = resolve_stmts(inside, f.body, 0, Seq::empty());
    lemma_resolve_stmts(inside, f.body, 0, Seq::empty());
    assert forall|j: int| 0 <= j < f.body.len() implies bare_stmt(body.tree[j]) == bare_stmt(
        f.body[j],
    ) by {
        assert(body.tree[j] == body.tree[Seq::<StmtView>::empty().len() + j - 0]);
    }
    assert(bare_function(resolve_function(s, f).tree).body =~= bare_function(f).body);
    assert forall|j: int| 0 <= j < f.body.len() implies body.tree[j] == resolve_stmts(
        inside,
        f.body,
        0,
        Seq::empty(),
    ).tree[Seq::<StmtView>::empty().len() + j - 0] by {}
    lemma_resolve_stmts_again(inside, f.body, body.tree, 0, Seq::empty());
}

/// Resolution of a statement keeps its shape, and resolving what was
/// resolved, from the same state, changes nothing.
pub proof fn lemma_resolve_stmt(s: ResolverView, st: StmtView)
    ensures
        bare_stmt(resolve_stmt(s, st).tree) == bare_stmt(st),
        resolve_stmt(s, resolve_stmt(s, st).tree) == resolve_stmt(s, st),
    decreases st, 0nat, 0nat,
{
    reveal_with_fuel(resolve_stmt, 1);
    reveal_with_fuel(resolve_stmts, 1);
    reveal_with_fuel(resolve_methods, 1);
    reveal_with_fuel(resolve_function, 1);
    match st {
        StmtView::Expression(e) => {
            lemma_resolve_expr(s, e);
        },
        StmtView::Print(e) => {
            lemma_resolve_expr(s, e);
        },
        StmtView::Variable { name, initializer } => {
            lemma_resolve_optional(crate::resolver::declare(s, name), initializer);
        },
        StmtView::Block(statements) => {
            let inside = begin_scope(s);
            let b = resolve_stmts(inside, statements, 0, Seq::empty());
            lemma_resolve_stmts(inside, statements, 0, Seq::empty());
            assert forall|j: int| 0 <= j < statements.len() implies bare_stmt(b.tree[j])
                == bare_stmt(statements[j]) by {
                assert(b.tree[j] == b.tree[Seq::<StmtView>::empty().len() + j - 0]);
            }
            assert(bare_stmt(resolve_stmt(s, st).tree)->Block_0 =~= bare_stmt(st)->Block_0);
            assert forall|j: int| 0 <= j < statements.len() implies b.tree[j] == resolve_stmts(
                inside,
                statements,
                0,
                Seq::empty(),
            ).tree[Seq::<StmtView>::empty().len() + j - 0] by {}
            lemma_resolve_stmts_again(inside, statements, b.tree, 0, Seq::empty());
        },
        StmtView::If { cond, then_branch, else_branch } => {
            lemma_resolve_expr(s, cond);
            let c = resolve_expr(s, cond);
            lemma_resolve_stmt(c.state, *then_branch);
            let t = resolve_stmt(c.state, *then_branch);
            match else_branch {
                Some(other) => {
                    lemma_resolve_stmt(t.state, *other);
                },
                None => {},
            }
        },
        StmtView::While { cond, body } => {
            let inside = push_context(s, crate::resolver::Context::Loop);
            lemma_resolve_expr(inside, cond);
            lemma_resolve_stmt(resolve_expr(inside, cond).state, *body);
        },
        StmtView::Function(f) => {
            let named = crate::resolver::define(
                crate::resolver::declare(push_context(s, crate::resolver::Context::Function), f.name),
                f.name,
            );
            lemma_resolve_function(named, f);
        },
        StmtView::Return { keyword, value } => {
            lemma_resolve_optional(s, value);
        },
        StmtView::Break { keyword } => {},
        StmtView::Class { name, super_class, methods } => {
            let named = crate::resolver::define(
                crate::resolver::declare(push_context(s, crate::resolver::Context::Class), name),
                name,
            );
            let sup = resolve_super_class(named, name, super_class);
            let outer = if super_class is Some {
                crate::resolver::define_provided(
                    begin_scope(sup.state),
                    crate::resolver::super_token(),
                )
            } else {
                sup.state
            };
            let inner = crate::resolver::define_provided(
                begin_scope(outer),
                crate::resolver::this_token(),
            );
            let m = resolve_methods(inner, methods, 0, Seq::empty());
            lemma_resolve_methods(inner, methods, 0, Seq::empty());
            assert forall|j: int| 0 <= j < methods.len() implies bare_function(m.tree[j])
                == bare_function(methods[j]) by {
                assert(m.tree[j] == m.tree[Seq::<FunctionView>::empty().len() + j - 0]);
            }
            assert(bare_stmt(resolve_stmt(s, st).tree)->Class_methods =~= bare_stmt(
                st,
            )->Class_methods);
            assert forall|j: int| 0 <= j < methods.len() implies m.tree[j] == resolve_methods(
                inner,
                methods,
                0,
                Seq::empty(),
            ).tree[Seq::<FunctionView>::empty().len() + j - 0] by {}
            lemma_resolve_methods_again(inner, methods, m.tree, 0, Seq::empty());
            assert(resolve_super_class(named, name, sup.tree) == sup);
        },
    }
}

pub proof fn lemma_resolve_stmts(s: ResolverView, ss: Seq<StmtView>, i: nat, done: Seq<StmtView>)
    requires
        i <= ss.len(),
    ensures
        resolve_stmts(s, ss, i, done).tree.len() == done.len() + ss.len() - i,
        resolve_stmts(s, ss, i, done).tree.subrange(0, done.len() as int) == done,
        forall|j: int|
            i <= j < ss.len() ==> bare_stmt(
                #[trigger] resolve_stmts(s, ss, i, done).tree[done.len() + j - i],
            ) == bare_stmt(ss[j]),
    decreases ss, ss.len() - i, 0nat,
{
    reveal_with_fuel(resolve_stmts, 1);
    reveal_with_fuel(resolve_stmt, 1);
    if i < ss.len() {
        let r = resolve_stmt(s, ss[i as int]);
        lemma_resolve_stmt(s, ss[i as int]);
        lemma_resolve_stmts(r.state, ss, i + 1, done.push(r.tree));
        let out = resolve_stmts(s, ss, i, done).tree;
        assert(out.subrange(0, done.len() as int + 1) == done.push(r.tree));
        assert(out.subrange(0, done.len() as int) =~= done) by {
            assert forall|k: int| 0 <= k < done.len() implies out[k] == done[k] by {
                assert(out.subrange(0, done.len() as int + 1)[k] == done.push(r.tree)[k]);
            }
        }
        assert(out[done.len() as int] == r.tree) by {
            assert(out.subrange(0, done.len() as int + 1)[done.len() as int] == done.push(
                r.tree,
            )[done.len() as int]);
        }
        assert forall|j: int| i <= j < ss.len() implies bare_stmt(
            #[trigger] out[done.len() + j - i],
        ) == bare_stmt(ss[j]) by {
            if j > i {
                assert(out[done.push(r.tree).len() + j - (i + 1)] == out[done.len() + j - i]);
            }
        }
    } else {
        assert(done.subrange(0, done.len() as int) =~= done);
    }
}

proof fn lemma_resolve_stmts_again(
    s: ResolverView,
    ss: Seq<StmtView>,
    fs: Seq<StmtView>,
    i: nat,
    done: Seq<StmtView>,
)
    requires
        i <= ss.len(),
        fs.len() == ss.len(),
        forall|j: int|
            i <= j < ss.len() ==> fs[j] == resolve_stmts(s, ss, i, done).tree[done.len() + j - i],
    ensures
        resolve_stmts(s, fs, i, done) == resolve_stmts(s, ss, i, done),
    decreases ss, ss.len() - i, 1nat,
{
    reveal_with_fuel(resolve_stmts, 1);
    reveal_with_fuel(resolve_stmt, 1);
    if i < ss.len() {
        let r = resolve_stmt(s, ss[i as int]);
        let out = resolve_stmts(s, ss, i, done).tree;
        lemma_resolve_stmts(r.state, ss, i + 1, done.push(r.tree));
        assert(out[done.len() as int] == r.tree) by {
            assert(out.subrange(0, done.len() as int + 1)[done.len() as int] == done.push(
                r.tree,
            )[done.len() as int]);
        }
        assert(fs[i as int] == r.tree);
        lemma_resolve_stmt(s, ss[i as int]);
        assert forall|j: int| i + 1 <= j < ss.len() implies fs[j] == resolve_stmts(
            r.state,
            ss,
            i + 1,
            done.push(r.tree),
        ).tree[done.push(r.tree).len() + j - (i + 1)] by {
            assert(out[done.push(r.tree).len() + j - (i + 1)] == out[done.len() + j - i]);
        }
        lemma_resolve_stmts_again(r.state, ss, fs, i + 1, done.push(r.tree));
    }
}

pub proof fn lemma_resolve_methods(
    s: ResolverView,
    ms: Seq<FunctionView>,
    i: nat,
    done: Seq<FunctionView>,
)
    requires
        i <= ms.len(),
    ensures
        resolve_methods(s, ms, i, done).tree.len() == done.len() + ms.len() - i,
        resolve_methods(s, ms, i, done).tree.subrange(0, done.len() as int) == done,
        forall|j: int|
            i <= j < ms.len() ==> bare_function(
                #[trigger] resolve_methods(s, ms, i, done).tree[done.len() + j - i],
            ) == bare_function(ms[j]),
    decreases ms, ms.len() - i, 0nat,
{
    reveal_with_fuel(resolve_methods, 1);
    reveal_with_fuel(resolve_function, 1);
    if i < ms.len() {
        let inside = push_context(s, method_context(ms[i as int]));
        let r = resolve_function(inside, ms[i as int]);
        lemma_resolve_function(inside, ms[i as int]);
        lemma_resolve_methods(pop_context(r.state), ms, i + 1, done.push(r.tree));
        let out = resolve_methods(s, ms, i, done).tree;
        assert(out.subrange(0, done.len() as int + 1) == done.push(r.tree));
        assert(out.subrange(0, done.len() as int) =~= done) by {
            assert forall|k: int| 0 <= k < done.len() implies out[k] == done[k] by {
                assert(out.subrange(0, done.len() as int + 1)[k] == done.push(r.tree)[k]);
            }
        }
        assert(out[done.len() as int] == r.tree) by {
            assert(out.subrange(0, done.len() as int + 1)[done.len() as int] == done.push(
                r.tree,
            )[done.len() as int]);
        }
        assert forall|j: int| i <= j < ms.len() implies bare_function(
            #[trigger] out[done.len() + j - i],
        ) == bare_function(ms[j]) by {
            if j > i {
                assert(out[done.push(r.tree).len() + j - (i + 1)] == out[done.len() + j - i]);
            }
        }
    } else {
        assert(done.subrange(0, done.len() as int) =~= done);
    }
}

proof fn lemma_resolve_methods_again(
    s: ResolverView,
    ms: Seq<FunctionView>,
    fs: Seq<FunctionView>,
    i: nat,
    done: Seq<FunctionView>,
)
    requires
        i <= ms.len(),
        fs.len() == ms.len(),
        forall|j: int|
            i <= j < ms.len() ==> fs[j] == resolve_methods(s, ms, i, done).tree[done.len() + j - i],
    ensures
        resolve_methods(s, fs, i, done) == resolve_methods(s, ms, i, done),
    decreases ms, ms.len() - i, 1nat,
{
    reveal_with_fuel(resolve_methods, 1);
    reveal_with_fuel(resolve_function, 1);
    if i < ms.len() {
        let inside = push_context(s, method_context(ms[i as int]));
        let r = resolve_function(inside, ms[i as int]);
        let out = resolve_methods(s, ms, i, done).tree;
        lemma_resolve_methods(pop_context(r.state), ms, i + 1, done.push(r.tree));
        assert(out[done.len() as int] == r.tree) by {
            assert(out.subrange(0, done.len() as int + 1)[done.len() as int] == done.push(
                r.tree,
            )[done.len() as int]);
        }
        assert(fs[i as int] == r.tree);
        lemma_resolve_function(inside, ms[i as int]);
        assert(method_context(fs[i as int]) == method_context(ms[i as int]));
        assert forall|j: int| i + 1 <= j < ms.len() implies fs[j] == resolve_methods(
            pop_context(r.state),
            ms,
            i + 1,
            done.push(r.tree),
        ).tree[done.push(r.tree).len() + j - (i + 1)] by {
            assert(out[done.push(r.tree).len() + j - (i + 1)] == out[done.len() + j - i]);
        }
        lemma_resolve_methods_again(pop_context(r.state), ms, fs, i + 1, done.push(r.tree));
    }
}

/// Resolution writes hops and nothing else: a resolved program has the
/// shape of the program that went in, node for node.
pub proof fn lemma_resolution_keeps_the_shape(s: ResolverView, program: Seq<StmtView>)
    ensures
        bare_stmts(resolve_program(s, program).tree) == bare_stmts(program),
{
    lemma_resolve_stmts(s, program, 0, Seq::empty());
    let out = resolve_program(s, program).tree;
    assert forall|j: int| 0 <= j < program.len() implies bare_stmt(out[j]) == bare_stmt(
        program[j],
    ) by {
        assert(out[j] == out[Seq::<StmtView>::empty().len() + j - 0]);
    }
    assert(bare_stmts(out) =~= bare_stmts(program));
}

/// Resolving a resolved program once more, from the state in which it was
/// resolved first, gives the same hops and reports the same.
pub proof fn lemma_resolution_is_idempotent(s: ResolverView, program: Seq<StmtView>)
    ensures
        resolve_program(s, resolve_program(s, program).tree) == resolve_program(s, program),
{
    lemma_resolve_stmts(s, program, 0, Seq::empty());
    let out = resolve_program(s, program).tree;
    assert forall|j: int| 0 <= j < program.len() implies out[j] == resolve_stmts(
        s,
        program,
        0,
        Seq::empty(),
    ).tree[Seq::<StmtView>::empty().len() + j - 0] by {}
    lemma_resolve_stmts_again(s, program, out, 0, Seq::empty());
}

} // verus!
