//! Resolution closes a program: the hops that the resolver writes lead to
//! scopes that hold the names.
use crate::expression::ExprView;
use crate::resolver::laws::{
    lemma_hops_lead_to_the_declaration, lemma_names_without_hops_are_undeclared, lemma_position,
    lemma_resolve_exprs, lemma_resolve_methods, lemma_resolve_stmts,
};
use crate::resolver::rules::{
    declare_params, lookup, method_context, resolve_expr, resolve_exprs, resolve_function,
    resolve_methods, resolve_optional, resolve_program, resolve_stmt, resolve_stmts,
    resolve_super_class,
};
use crate::resolver::{
    begin_scope, declare, define, define_provided, end_scope, hops_to, mark_used, pop_context,
    position, push_context, put, resolve_local, super_token, this_token, Context, LocalView,
    ResolverView,
};
use crate::scanner::TokenView;
use crate::scoping::evaluation::closed_exprs;
use crate::scoping::{
    absent, closed_expr, closed_function, closed_optional, closed_stmt, closed_stmts, declared,
    holds, method_scopes, named, param_names, scopes_after, Scopes,
};
use crate::statement::{FunctionView, StmtView};
use vstd::prelude::*;

verus! {

/// The names of a scope that are resolved.
pub open spec fn resolved_names(scope: Seq<LocalView>) -> Set<Seq<char>> {
    Set::new(
        |n: Seq<char>|
            exists|i: int| 0 <= i < scope.len() && scope[i].name.lexeme == n && scope[i].resolved,
    )
}

/// The resolved names of each scope of a resolver.
pub open spec fn scope_names(scopes: Seq<Seq<LocalView>>) -> Scopes {
    Seq::new(scopes.len(), |i: int| resolved_names(scopes[i]))
}

/// Whether every entry that is declared and not yet resolved has one of
/// the names in `pending`.
pub open spec fn pending_in(scopes: Seq<Seq<LocalView>>, pending: Set<Seq<char>>) -> bool {
    forall|i: int, j: int|
        0 <= i < scopes.len() && 0 <= j < scopes[i].len() && !(#[trigger] scopes[i][j]).resolved
            ==> pending.contains(scopes[i][j].name.lexeme)
}

/// Whether a token of one of the names is one of those in `free`.
pub open spec fn excuse(free: Set<TokenView>, name: TokenView, names: Set<Seq<char>>) -> bool {
    names.contains(name.lexeme) ==> free.contains(name)
}

/// Whether every mention of one of the names in an expression is one of
/// the names in `free`, which a run may miss.
pub open spec fn excused(free: Set<TokenView>, e: ExprView, names: Set<Seq<char>>) -> bool
    decreases e,
{
    match e {
        ExprView::Literal(_) => true,
        ExprView::Unary { operator, right } => excused(free, *right, names),
        ExprView::Binary { left, right, operator } => excused(free, *left, names) && excused(
            free,
            *right,
            names,
        ),
        ExprView::Logical { left, right, operator } => excused(free, *left, names) && excused(
            free,
            *right,
            names,
        ),
        ExprView::Grouping(inner) => excused(free, *inner, names),
        ExprView::Variable { name, hops } => excuse(free, name, names),
        ExprView::Assignment { name, hops, value } => excuse(free, name, names) && excused(
            free,
            *value,
            names,
        ),
        ExprView::Call { right_paren, callee, args } => excused(free, *callee, names) && forall|
            i: int,
        | 0 <= i < args.len() ==> excused(free, #[trigger] args[i], names),
        ExprView::Get { name, object } => excused(free, *object, names),
        ExprView::SetProperty { name, object, value } => excused(free, *object, names) && excused(
            free,
            *value,
            names,
        ),
        ExprView::This { keyword, hops } => excuse(free, keyword, names),
        ExprView::Super { keyword, method, hops_to_super, hops_to_this } => excuse(
            free,
            keyword,
            names,
        ) && excuse(free, this_token(), names),
    }
}

/// Whether a name without hops is one of those that are left to the globals.
pub open spec fn listed(free: Set<TokenView>, name: TokenView, hops: Option<nat>) -> bool {
    hops is None ==> free.contains(name)
}

/// Whether every name of an expression that has no hops is one of those
/// that are left to the globals.
pub open spec fn listed_expr(free: Set<TokenView>, e: ExprView) -> bool
    decreases e,
{
    match e {
        ExprView::Literal(_) => true,
        ExprView::Unary { operator, right } => listed_expr(free, *right),
        ExprView::Binary { left, right, operator } => listed_expr(free, *left) && listed_expr(
            free,
            *right,
        ),
        ExprView::Logical { left, right, operator } => listed_expr(free, *left) && listed_expr(
            free,
            *right,
        ),
        ExprView::Grouping(inner) => listed_expr(free, *inner),
        ExprView::Variable { name, hops } => listed(free, name, hops),
        ExprView::Assignment { name, hops, value } => listed(free, name, hops) && listed_expr(
            free,
            *value,
        ),
        ExprView::Call { right_paren, callee, args } => listed_expr(free, *callee) && forall|i: int|
            0 <= i < args.len() ==> listed_expr(free, #[trigger] args[i]),
        ExprView::Get { name, object } => listed_expr(free, *object),
        ExprView::SetProperty { name, object, value } => listed_expr(free, *object) && listed_expr(
            free,
            *value,
        ),
        ExprView::This { keyword, hops } => listed(free, keyword, hops),
        ExprView::Super { keyword, method, hops_to_super, hops_to_this } => listed(
            free,
            keyword,
            hops_to_super,
        ) && listed(free, this_token(), hops_to_this),
    }
}

/// Whether two lists of scopes hold the same entries, but for what was used.
pub open spec fn same_entries(a: Seq<Seq<LocalView>>, b: Seq<Seq<LocalView>>) -> bool {
    &&& a.len() == b.len()
    &&& forall|i: int| 0 <= i < a.len() ==> (#[trigger] b[i]).len() == a[i].len()
    &&& forall|i: int, j: int|
        0 <= i < a.len() && 0 <= j < a[i].len() ==> (#[trigger] b[i][j]).name == a[i][j].name
            && b[i][j].resolved == a[i][j].resolved
}

/// What the resolution of an expression keeps of a resolver: the errors of
/// before, the entries of each scope, and the contexts.
pub open spec fn same_scopes(s: ResolverView, after: ResolverView) -> bool {
    &&& after.errors.len() >= s.errors.len()
    &&& same_entries(s.scopes, after.scopes)
    &&& after.context == s.context
}

pub proof fn lemma_same_position(a: Seq<LocalView>, b: Seq<LocalView>, lexeme: Seq<char>, from: nat)
    requires
        a.len() == b.len(),
        forall|j: int| 0 <= j < a.len() ==> (#[trigger] b[j]).name == a[j].name,
    ensures
        position(b, lexeme, from) == position(a, lexeme, from),
    decreases a.len() - from,
{
    if from < a.len() {
        assert(b[from as int].name == a[from as int].name);
        if a[from as int].name.lexeme != lexeme {
            lemma_same_position(a, b, lexeme, from + 1);
        }
    }
}

pub proof fn lemma_same_names(a: Seq<Seq<LocalView>>, b: Seq<Seq<LocalView>>)
    requires
        same_entries(a, b),
    ensures
        scope_names(b) == scope_names(a),
{
    assert forall|i: int| 0 <= i < a.len() implies resolved_names(b[i]) == resolved_names(
        a[i],
    ) by {
        assert(b[i].len() == a[i].len());
        assert forall|n: Seq<char>| resolved_names(b[i]).contains(n) == resolved_names(
            a[i],
        ).contains(n) by {
            if resolved_names(b[i]).contains(n) {
                let j = choose|j: int|
                    0 <= j < b[i].len() && b[i][j].name.lexeme == n && b[i][j].resolved;
                assert(b[i][j].name == a[i][j].name);
            }
            if resolved_names(a[i]).contains(n) {
                let j = choose|j: int|
                    0 <= j < a[i].len() && a[i][j].name.lexeme == n && a[i][j].resolved;
                assert(b[i][j].name == a[i][j].name);
            }
        }
        assert(resolved_names(b[i]) =~= resolved_names(a[i]));
    }
    assert(scope_names(b) =~= scope_names(a));
}

pub proof fn lemma_same_pending(
    a: Seq<Seq<LocalView>>,
    b: Seq<Seq<LocalView>>,
    pending: Set<Seq<char>>,
)
    requires
        same_entries(a, b),
        pending_in(a, pending),
    ensures
        pending_in(b, pending),
{
    assert forall|i: int, j: int|
        0 <= i < b.len() && 0 <= j < b[i].len() && !(#[trigger] b[i][j]).resolved implies pending.contains(
        b[i][j].name.lexeme,
    ) by {
        assert(b[i].len() == a[i].len());
        assert(!a[i][j].resolved);
    }
}

pub proof fn lemma_same_chain(a: ResolverView, b: ResolverView, c: ResolverView)
    requires
        same_scopes(a, b),
        same_scopes(b, c),
    ensures
        same_scopes(a, c),
{
    assert forall|i: int| 0 <= i < a.scopes.len() implies (#[trigger] c.scopes[i]).len()
        == a.scopes[i].len() by {
        assert(b.scopes[i].len() == a.scopes[i].len());
    }
    assert forall|i: int, j: int|
        0 <= i < a.scopes.len() && 0 <= j < a.scopes[i].len() implies (
    #[trigger] c.scopes[i][j]).name == a.scopes[i][j].name && c.scopes[i][j].resolved
        == a.scopes[i][j].resolved by {
        assert(b.scopes[i].len() == a.scopes[i].len());
        assert(b.scopes[i][j].name == a.scopes[i][j].name);
    }
}

pub proof fn lemma_marked(scope: Seq<LocalView>, lexeme: Seq<char>)
    ensures
        resolved_names(mark_used(scope, lexeme)) == resolved_names(scope),
        mark_used(scope, lexeme).len() == scope.len(),
        forall|j: int|
            0 <= j < scope.len() ==> (#[trigger] mark_used(scope, lexeme)[j]).resolved
                == scope[j].resolved && mark_used(scope, lexeme)[j].name == scope[j].name,
{
    lemma_position(scope, lexeme, 0);
    let marked = mark_used(scope, lexeme);
    assert forall|n: Seq<char>| resolved_names(marked).contains(n) == resolved_names(
        scope,
    ).contains(n) by {
        if resolved_names(marked).contains(n) {
            let i = choose|i: int|
                0 <= i < marked.len() && marked[i].name.lexeme == n && marked[i].resolved;
            assert(scope[i].name.lexeme == n && scope[i].resolved);
        }
        if resolved_names(scope).contains(n) {
            let i = choose|i: int|
                0 <= i < scope.len() && scope[i].name.lexeme == n && scope[i].resolved;
            assert(marked[i].name.lexeme == n && marked[i].resolved);
        }
    }
    assert(resolved_names(marked) =~= resolved_names(scope));
}

/// A scope without an entry of a name does not hold the name.
pub proof fn lemma_unnamed(scope: Seq<LocalView>, lexeme: Seq<char>)
    requires
        position(scope, lexeme, 0) is None,
    ensures
        !resolved_names(scope).contains(lexeme),
{
    lemma_position(scope, lexeme, 0);
}

/// Looking a name up keeps the scopes. Where the name is not pending, the
/// hops that it gives lead to the nearest scope in which the name is
/// resolved, and without hops the name is resolved in no scope.
pub proof fn lemma_lookup(s: ResolverView, pending: Set<Seq<char>>, lexeme: Seq<char>)
    requires
        pending_in(s.scopes, pending),
    ensures
        same_scopes(s, lookup(s, lexeme).state),
        lookup(s, lexeme).state.errors == s.errors,
        lookup(s, lexeme).tree is Some && !pending.contains(lexeme) ==> holds(
            scope_names(s.scopes),
            lexeme,
            lookup(s, lexeme).tree,
        ),
        lookup(s, lexeme).tree is None ==> absent(scope_names(s.scopes), lexeme),
{
    let after = resolve_local(s, lexeme);
    let names = scope_names(s.scopes);
    match hops_to(s.scopes, lexeme) {
        Some(d) => {
            lemma_hops_lead_to_the_declaration(s.scopes, lexeme, d);
            let at = s.scopes.len() - 1 - d;
            lemma_marked(s.scopes[at], lexeme);
            lemma_position(s.scopes[at], lexeme, 0);
            let i = position(s.scopes[at], lexeme, 0)->Some_0;
            if !pending.contains(lexeme) {
                assert(s.scopes[at][i as int].resolved);
                assert(resolved_names(s.scopes[at]).contains(lexeme));
            }
            assert forall|i: int| 0 <= i < s.scopes.len() implies (#[trigger] after.scopes[i]).len()
                == s.scopes[i].len() by {}
            assert forall|i: int, j: int|
                0 <= i < s.scopes.len() && 0 <= j < s.scopes[i].len() implies (
            #[trigger] after.scopes[i][j]).name == s.scopes[i][j].name
                && after.scopes[i][j].resolved == s.scopes[i][j].resolved by {
                if i == at {
                    assert(mark_used(s.scopes[at], lexeme)[j].resolved == s.scopes[at][j].resolved);
                }
            }
            assert forall|i: int| names.len() - d <= i < names.len() implies !(
            #[trigger] names[i]).contains(lexeme) by {
                let k = (s.scopes.len() - 1 - i) as nat;
                assert(position(s.scopes[s.scopes.len() - 1 - k], lexeme, 0) is None);
                lemma_unnamed(s.scopes[i], lexeme);
            }
        },
        None => {
            lemma_names_without_hops_are_undeclared(s.scopes, lexeme);
            assert forall|i: int| 0 <= i < names.len() implies !(#[trigger] names[i]).contains(
                lexeme,
            ) by {
                lemma_unnamed(s.scopes[i], lexeme);
            }
        },
    }
}

/// A resolver whose scopes hold the same entries has the same resolved
/// names and the same pending ones.
pub proof fn lemma_next(s: ResolverView, after: ResolverView, pending: Set<Seq<char>>)
    requires
        same_scopes(s, after),
        pending_in(s.scopes, pending),
    ensures
        pending_in(after.scopes, pending),
        scope_names(after.scopes) == scope_names(s.scopes),
{
    lemma_same_pending(s.scopes, after.scopes, pending);
    lemma_same_names(s.scopes, after.scopes);
}

/// Resolution of an expression keeps the scopes, and where it adds no
/// error the expression that it gives is closed in the resolved names.
pub proof fn lemma_closes_expr(
    free: Set<TokenView>,
    s: ResolverView,
    pending: Set<Seq<char>>,
    e: ExprView,
)
    requires
        pending_in(s.scopes, pending),
        excused(free, e, pending),
    ensures
        same_scopes(s, resolve_expr(s, e).state),
        resolve_expr(s, e).state.errors.len() == s.errors.len() && listed_expr(
            free,
            resolve_expr(s, e).tree,
        ) ==> closed_expr(free, scope_names(s.scopes), resolve_expr(s, e).tree),
    decreases e, 0nat,
{
    reveal_with_fuel(resolve_expr, 1);
    reveal_with_fuel(resolve_exprs, 1);
    let names = scope_names(s.scopes);
    lemma_same_refl(s);
    match e {
        ExprView::Literal(_) => {},
        ExprView::Unary { operator, right } => {
            lemma_closes_expr(free, s, pending, *right);
        },
        ExprView::Binary { left, right, operator } => {
            lemma_closes_expr(free, s, pending, *left);
            let l = resolve_expr(s, *left);
            lemma_next(s, l.state, pending);
            lemma_closes_expr(free, l.state, pending, *right);
            lemma_same_chain(s, l.state, resolve_expr(l.state, *right).state);
        },
        ExprView::Logical { left, right, operator } => {
            lemma_closes_expr(free, s, pending, *left);
            let l = resolve_expr(s, *left);
            lemma_next(s, l.state, pending);
            lemma_closes_expr(free, l.state, pending, *right);
            lemma_same_chain(s, l.state, resolve_expr(l.state, *right).state);
        },
        ExprView::Grouping(inner) => {
            lemma_closes_expr(free, s, pending, *inner);
        },
        ExprView::Variable { name, hops } => {
            lemma_lookup(s, pending, name.lexeme);
        },
        ExprView::Assignment { name, hops, value } => {
            lemma_closes_expr(free, s, pending, *value);
            let v = resolve_expr(s, *value);
            lemma_next(s, v.state, pending);
            lemma_lookup(v.state, pending, name.lexeme);
            lemma_same_chain(s, v.state, lookup(v.state, name.lexeme).state);
        },
        ExprView::Call { right_paren, callee, args } => {
            lemma_closes_expr(free, s, pending, *callee);
            let c = resolve_expr(s, *callee);
            lemma_next(s, c.state, pending);
            lemma_closes_exprs(free, c.state, pending, args, 0, Seq::empty());
            let a = resolve_exprs(c.state, args, 0, Seq::empty());
            lemma_same_chain(s, c.state, a.state);
            if a.state.errors.len() == s.errors.len() && listed_expr(free, resolve_expr(s, e).tree) {
                let out = resolve_expr(s, e).tree;
                assert(out == (ExprView::Call {
                    right_paren,
                    callee: Box::new(c.tree),
                    args: a.tree,
                }));
                assert(out->Call_args == a.tree);
                assert(forall|j: int|
                    0 <= j < a.tree.len() ==> listed_expr(free, #[trigger] out->Call_args[j]));
                assert forall|j: int| 0 <= j < a.tree.len() implies closed_expr(
                    free,
                    names,
                    #[trigger] a.tree[j],
                ) by {
                    assert(a.tree[j] == a.tree[Seq::<ExprView>::empty().len() + j - 0]);
                    assert(listed_expr(free, a.tree[j]));
                }
            }
        },
        ExprView::Get { name, object } => {
            lemma_closes_expr(free, s, pending, *object);
        },
        ExprView::SetProperty { name, object, value } => {
            lemma_closes_expr(free, s, pending, *object);
            let l = resolve_expr(s, *object);
            lemma_next(s, l.state, pending);
            lemma_closes_expr(free, l.state, pending, *value);
            lemma_same_chain(s, l.state, resolve_expr(l.state, *value).state);
        },
        ExprView::This { keyword, hops } => {
            lemma_lookup(s, pending, keyword.lexeme);
        },
        ExprView::Super { keyword, method, hops_to_super, hops_to_this } => {
            lemma_lookup(s, pending, keyword.lexeme);
            let first = lookup(s, keyword.lexeme).state;
            lemma_next(s, first, pending);
            lemma_lookup(first, pending, this_token().lexeme);
            lemma_same_chain(s, first, lookup(first, this_token().lexeme).state);
        },
    }
}

pub proof fn lemma_same_refl(s: ResolverView)
    ensures
        same_scopes(s, s),
{
}

/// The same of the expressions of a sequence from the `i`-th on.
pub proof fn lemma_closes_exprs(
    free: Set<TokenView>,
    s: ResolverView,
    pending: Set<Seq<char>>,
    es: Seq<ExprView>,
    i: nat,
    done: Seq<ExprView>,
)
    requires
        pending_in(s.scopes, pending),
        forall|j: int| 0 <= j < es.len() ==> excused(free, #[trigger] es[j], pending),
        i <= es.len(),
    ensures
        same_scopes(s, resolve_exprs(s, es, i, done).state),
        resolve_exprs(s, es, i, done).tree.len() == done.len() + es.len() - i,
        resolve_exprs(s, es, i, done).state.errors.len() == s.errors.len() ==> forall|j: int|
            i <= j < es.len() && listed_expr(
                free,
                #[trigger] resolve_exprs(s, es, i, done).tree[done.len() + j - i],
            ) ==> closed_expr(
                free,
                scope_names(s.scopes),
                resolve_exprs(s, es, i, done).tree[done.len() + j - i],
            ),
    decreases es, es.len() - i,
{
    reveal_with_fuel(resolve_exprs, 1);
    reveal_with_fuel(resolve_expr, 1);
    lemma_same_refl(s);
    if i < es.len() {
        let r = resolve_expr(s, es[i as int]);
        lemma_closes_expr(free, s, pending, es[i as int]);
        lemma_next(s, r.state, pending);
        lemma_closes_exprs(free, r.state, pending, es, i + 1, done.push(r.tree));
        lemma_resolve_exprs(r.state, es, i + 1, done.push(r.tree));
        let out = resolve_exprs(s, es, i, done);
        lemma_same_chain(s, r.state, out.state);
        assert(out.tree[done.len() as int] == r.tree) by {
            assert(out.tree.subrange(0, done.len() as int + 1)[done.len() as int] == done.push(
                r.tree,
            )[done.len() as int]);
        }
        if out.state.errors.len() == s.errors.len() {
            assert forall|j: int|
                i <= j < es.len() && listed_expr(
                    free,
                    #[trigger] out.tree[done.len() + j - i],
                ) implies closed_expr(free, scope_names(s.scopes), out.tree[done.len() + j - i]) by {
                if j > i {
                    assert(out.tree[done.push(r.tree).len() + j - (i + 1)] == out.tree[done.len()
                        + j - i]);
                }
            }
        }
    }
}

/// Whether every entry of every scope is resolved: no declaration is
/// under way.
pub open spec fn settled(scopes: Seq<Seq<LocalView>>) -> bool {
    pending_in(scopes, Set::empty())
}

/// Whether at most one entry is not resolved: the one that counts for the
/// name in the innermost scope.
pub open spec fn pending_one(scopes: Seq<Seq<LocalView>>, lexeme: Seq<char>) -> bool {
    forall|i: int, j: int|
        0 <= i < scopes.len() && 0 <= j < scopes[i].len() && !(#[trigger] scopes[i][j]).resolved ==> i
            == scopes.len() - 1 && position(scopes[i], lexeme, 0) == Some(j as nat)
}

pub open spec fn declares(st: StmtView) -> bool {
    st is Variable || st is Function || st is Class
}

/// Whether no branch of an `if` and no body of a loop in a function is a
/// declaration.
pub open spec fn plain_function(f: FunctionView) -> bool
    decreases f,
{
    forall|i: int| 0 <= i < f.body.len() ==> plain_stmt(#[trigger] f.body[i])
}

/// Whether no branch of an `if` and no body of a loop in a statement is a
/// declaration: what would be declared there could be skipped when the
/// program runs.
pub open spec fn plain_stmt(st: StmtView) -> bool
    decreases st,
{
    match st {
        StmtView::Block(statements) => forall|i: int|
            0 <= i < statements.len() ==> plain_stmt(#[trigger] statements[i]),
        StmtView::If { cond, then_branch, else_branch } => plain_stmt(*then_branch) && !declares(
            *then_branch,
        ) && (else_branch matches Some(other) ==> plain_stmt(*other) && !declares(*other)),
        StmtView::While { cond, body } => plain_stmt(*body) && !declares(*body),
        StmtView::Function(f) => plain_function(f),
        StmtView::Class { name, super_class, methods } => forall|i: int|
            0 <= i < methods.len() ==> plain_function(#[trigger] methods[i]),
        _ => true,
    }
}

/// Whether every mention of a local variable in its own initializer, in a
/// function, is one of the names in `free`.
pub open spec fn fresh_function(free: Set<TokenView>, f: FunctionView) -> bool
    decreases f,
{
    forall|i: int| 0 <= i < f.body.len() ==> fresh_stmt(free, #[trigger] f.body[i], true)
}

/// Whether every mention of a local variable in its own initializer is one
/// of the names in `free`: a local variable is not bound yet when its
/// initializer runs, so that a run may miss it there. `local` says whether
/// the statement itself stands inside a block, a function or a class; the
/// initializer of a global variable may mention anything.
pub open spec fn fresh_stmt(free: Set<TokenView>, st: StmtView, local: bool) -> bool
    decreases st,
{
    match st {
        StmtView::Variable { name, initializer } => local ==> (initializer matches Some(e)
            ==> excused(free, e, set![name.lexeme])),
        StmtView::Block(statements) => forall|i: int|
            0 <= i < statements.len() ==> fresh_stmt(free, #[trigger] statements[i], true),
        StmtView::If { cond, then_branch, else_branch } => fresh_stmt(free, *then_branch, local)
            && (else_branch matches Some(other) ==> fresh_stmt(free, *other, local)),
        StmtView::While { cond, body } => fresh_stmt(free, *body, local),
        StmtView::Function(f) => fresh_function(free, f),
        StmtView::Class { name, super_class, methods } => forall|i: int|
            0 <= i < methods.len() ==> fresh_function(free, #[trigger] methods[i]),
        _ => true,
    }
}

/// Whether a function is plain and fresh.
pub open spec fn tidy_function(free: Set<TokenView>, f: FunctionView) -> bool {
    plain_function(f) && fresh_function(free, f)
}

/// Whether a statement is plain and fresh: as the parser makes it, and
/// with every mention of a local variable in its own initializer among
/// the names in `free`.
pub open spec fn tidy_stmt(free: Set<TokenView>, st: StmtView, local: bool) -> bool {
    plain_stmt(st) && fresh_stmt(free, st, local)
}

pub open spec fn listed_optional(free: Set<TokenView>, e: Option<ExprView>) -> bool {
    e matches Some(expr) ==> listed_expr(free, expr)
}

pub open spec fn listed_function(free: Set<TokenView>, f: FunctionView) -> bool
    decreases f,
{
    forall|i: int| 0 <= i < f.body.len() ==> listed_stmt(free, #[trigger] f.body[i])
}

/// Whether every name of a statement that has no hops is one of those
/// that are left to the globals.
pub open spec fn listed_stmt(free: Set<TokenView>, st: StmtView) -> bool
    decreases st,
{
    match st {
        StmtView::Expression(e) => listed_expr(free, e),
        StmtView::Print(e) => listed_expr(free, e),
        StmtView::Variable { name, initializer } => listed_optional(free, initializer),
        StmtView::Block(statements) => forall|i: int|
            0 <= i < statements.len() ==> listed_stmt(free, #[trigger] statements[i]),
        StmtView::If { cond, then_branch, else_branch } => listed_expr(free, cond) && listed_stmt(
            free,
            *then_branch,
        ) && (else_branch matches Some(other) ==> listed_stmt(free, *other)),
        StmtView::While { cond, body } => listed_expr(free, cond) && listed_stmt(free, *body),
        StmtView::Function(f) => listed_function(free, f),
        StmtView::Return { keyword, value } => listed_optional(free, value),
        StmtView::Break { keyword } => true,
        StmtView::Class { name, super_class, methods } => (super_class matches Some(v) ==> listed(
            free,
            v.name,
            v.hops,
        )) && forall|i: int| 0 <= i < methods.len() ==> listed_function(free, #[trigger] methods[i]),
    }
}

/// Whether two lists of scopes agree but for the innermost scope.
pub open spec fn same_base(a: Scopes, b: Scopes) -> bool {
    a.len() == b.len() && forall|i: int| 0 <= i < a.len() - 1 ==> #[trigger] b[i] == a[i]
}

/// Where no name is meant, every expression is excused.
pub proof fn lemma_excused_nothing(free: Set<TokenView>, e: ExprView)
    ensures
        excused(free, e, Set::empty()),
    decreases e,
{
    match e {
        ExprView::Literal(_) => {},
        ExprView::Unary { operator, right } => lemma_excused_nothing(free, *right),
        ExprView::Binary { left, right, operator } => {
            lemma_excused_nothing(free, *left);
            lemma_excused_nothing(free, *right);
        },
        ExprView::Logical { left, right, operator } => {
            lemma_excused_nothing(free, *left);
            lemma_excused_nothing(free, *right);
        },
        ExprView::Grouping(inner) => lemma_excused_nothing(free, *inner),
        ExprView::Variable { name, hops } => {},
        ExprView::Assignment { name, hops, value } => lemma_excused_nothing(free, *value),
        ExprView::Call { right_paren, callee, args } => {
            lemma_excused_nothing(free, *callee);
            assert forall|i: int| 0 <= i < args.len() implies excused(
                free,
                #[trigger] args[i],
                Set::empty(),
            ) by {
                lemma_excused_nothing(free, args[i]);
            }
        },
        ExprView::Get { name, object } => lemma_excused_nothing(free, *object),
        ExprView::SetProperty { name, object, value } => {
            lemma_excused_nothing(free, *object);
            lemma_excused_nothing(free, *value);
        },
        ExprView::This { keyword, hops } => {},
        ExprView::Super { keyword, method, hops_to_super, hops_to_this } => {},
    }
}

pub proof fn lemma_position_pushed(scope: Seq<LocalView>, entry: LocalView, from: nat)
    requires
        position(scope, entry.name.lexeme, from) is None,
        from <= scope.len(),
    ensures
        position(scope.push(entry), entry.name.lexeme, from) == Some(scope.len()),
    decreases scope.len() - from,
{
    if from < scope.len() {
        lemma_position_pushed(scope, entry, from + 1);
    }
}

/// Putting a resolved entry into a scope adds its name to the resolved
/// names, and leaves no entry unresolved where the entry that it replaces
/// was the only one.
pub proof fn lemma_put(scope: Seq<LocalView>, entry: LocalView)
    requires
        entry.resolved,
    ensures
        resolved_names(put(scope, entry)) == resolved_names(scope).insert(entry.name.lexeme),
        (forall|j: int|
            0 <= j < scope.len() && !(#[trigger] scope[j]).resolved ==> position(
                scope,
                entry.name.lexeme,
                0,
            ) == Some(j as nat)) ==> forall|j: int|
            0 <= j < put(scope, entry).len() ==> (#[trigger] put(scope, entry)[j]).resolved,
{
    let x = entry.name.lexeme;
    let after = put(scope, entry);
    lemma_position(scope, x, 0);
    assert forall|n: Seq<char>| resolved_names(after).contains(n) == resolved_names(scope).insert(
        x,
    ).contains(n) by {
        if resolved_names(after).contains(n) {
            let j = choose|j: int|
                0 <= j < after.len() && after[j].name.lexeme == n && after[j].resolved;
            if n != x {
                assert(scope[j].name.lexeme == n && scope[j].resolved);
            }
        }
        if resolved_names(scope).insert(x).contains(n) {
            if n == x {
                match position(scope, x, 0) {
                    Some(k) => {
                        assert(after[k as int].name.lexeme == x && after[k as int].resolved);
                    },
                    None => {
                        assert(after[scope.len() as int].name.lexeme == x
                            && after[scope.len() as int].resolved);
                    },
                }
            } else {
                let j = choose|j: int|
                    0 <= j < scope.len() && scope[j].name.lexeme == n && scope[j].resolved;
                assert(after[j].name.lexeme == n && after[j].resolved);
            }
        }
    }
    assert(resolved_names(after) =~= resolved_names(scope).insert(x));
}

/// Declaring a name leaves at most its own entry unresolved.
pub proof fn lemma_declare(s: ResolverView, name: TokenView)
    requires
        settled(s.scopes),
    ensures
        declare(s, name).errors.len() >= s.errors.len(),
        declare(s, name).context == s.context,
        declare(s, name).scopes.len() == s.scopes.len(),
        pending_one(declare(s, name).scopes, name.lexeme),
        scope_names(declare(s, name).scopes) == scope_names(s.scopes),
{
    let after = declare(s, name);
    if s.scopes.len() > 0 && position(s.scopes.last(), name.lexeme, 0) is None {
        let top = s.scopes.last();
        let entry = LocalView { name, resolved: false, used: false };
        lemma_position_pushed(top, entry, 0);
        let at = s.scopes.len() - 1;
        assert forall|i: int, j: int|
            0 <= i < after.scopes.len() && 0 <= j < after.scopes[i].len() && !(
            #[trigger] after.scopes[i][j]).resolved implies i == after.scopes.len() - 1
            && position(after.scopes[i], name.lexeme, 0) == Some(j as nat) by {
            if i != at {
                assert(after.scopes[i] == s.scopes[i]);
                assert(!s.scopes[i][j].resolved);
            } else if j < top.len() {
                assert(!s.scopes[i][j].resolved);
            }
        }
        assert forall|n: Seq<char>| resolved_names(top.push(entry)).contains(n) == resolved_names(
            top,
        ).contains(n) by {
            if resolved_names(top.push(entry)).contains(n) {
                let j = choose|j: int|
                    0 <= j < top.push(entry).len() && top.push(entry)[j].name.lexeme == n
                        && top.push(entry)[j].resolved;
                assert(top[j].name.lexeme == n && top[j].resolved);
            }
            if resolved_names(top).contains(n) {
                let j = choose|j: int| 0 <= j < top.len() && top[j].name.lexeme == n && top[j].resolved;
                assert(top.push(entry)[j].name.lexeme == n && top.push(entry)[j].resolved);
            }
        }
        assert(resolved_names(top.push(entry)) =~= resolved_names(top));
        assert(scope_names(after.scopes) =~= scope_names(s.scopes));
    } else {
        assert forall|i: int, j: int|
            0 <= i < after.scopes.len() && 0 <= j < after.scopes[i].len() && !(
            #[trigger] after.scopes[i][j]).resolved implies i == after.scopes.len() - 1
            && position(after.scopes[i], name.lexeme, 0) == Some(j as nat) by {
            assert(!s.scopes[i][j].resolved);
        }
    }
}

/// Defining the name that was declared leaves every entry resolved and
/// adds the name to the innermost scope.
pub proof fn lemma_define_after(declared_in: ResolverView, s: ResolverView, name: TokenView)
    requires
        pending_one(declared_in.scopes, name.lexeme),
        same_entries(declared_in.scopes, s.scopes),
    ensures
        define(s, name).errors == s.errors,
        define(s, name).context == s.context,
        define(s, name).scopes.len() == s.scopes.len(),
        settled(define(s, name).scopes),
        scope_names(define(s, name).scopes) == declared(
            scope_names(declared_in.scopes),
            name.lexeme,
        ),
{
    let after = define(s, name);
    lemma_same_names(declared_in.scopes, s.scopes);
    if s.scopes.len() > 0 {
        let at = s.scopes.len() - 1;
        let top = s.scopes.last();
        let entry = LocalView { name, resolved: true, used: false };
        assert(s.scopes[at].len() == declared_in.scopes[at].len());
        lemma_same_position(declared_in.scopes[at], top, name.lexeme, 0);
        assert forall|j: int| 0 <= j < top.len() && !(#[trigger] top[j]).resolved implies position(
            top,
            name.lexeme,
            0,
        ) == Some(j as nat) by {
            assert(s.scopes[at][j].resolved == declared_in.scopes[at][j].resolved);
            assert(!declared_in.scopes[at][j].resolved);
        }
        lemma_put(top, entry);
        assert forall|i: int, j: int|
            0 <= i < after.scopes.len() && 0 <= j < after.scopes[i].len() && !(
            #[trigger] after.scopes[i][j]).resolved implies Set::<Seq<char>>::empty().contains(
            after.scopes[i][j].name.lexeme,
        ) by {
            if i != at {
                assert(after.scopes[i] == s.scopes[i]);
                assert(s.scopes[i].len() == declared_in.scopes[i].len());
                assert(s.scopes[i][j].resolved == declared_in.scopes[i][j].resolved);
                assert(!declared_in.scopes[i][j].resolved);
            } else {
                assert(put(top, entry)[j].resolved);
            }
        }
        assert(scope_names(after.scopes) =~= declared(
            scope_names(declared_in.scopes),
            name.lexeme,
        ));
    } else {
        assert(settled(after.scopes));
    }
}

/// Declaring and defining a name at once.
pub proof fn lemma_declare_define(s: ResolverView, name: TokenView)
    requires
        settled(s.scopes),
    ensures
        define(declare(s, name), name).errors.len() >= s.errors.len(),
        define(declare(s, name), name).errors.len() == declare(s, name).errors.len(),
        define(declare(s, name), name).context == s.context,
        define(declare(s, name), name).scopes.len() == s.scopes.len(),
        settled(define(declare(s, name), name).scopes),
        scope_names(define(declare(s, name), name).scopes) == declared(
            scope_names(s.scopes),
            name.lexeme,
        ),
{
    lemma_declare(s, name);
    let d = declare(s, name);
    assert(same_entries(d.scopes, d.scopes));
    lemma_define_after(d, d, name);
}

/// Binding a name that the language provides, in a scope that was just begun.
pub proof fn lemma_provided(s: ResolverView, name: TokenView)
    requires
        settled(s.scopes),
    ensures
        define_provided(begin_scope(s), name).errors == s.errors,
        define_provided(begin_scope(s), name).context == s.context,
        settled(define_provided(begin_scope(s), name).scopes),
        scope_names(define_provided(begin_scope(s), name).scopes) == scope_names(s.scopes).push(
            set![name.lexeme],
        ),
{
    let b = begin_scope(s);
    let after = define_provided(b, name);
    let entry = LocalView { name, resolved: true, used: true };
    lemma_put(Seq::<LocalView>::empty(), entry);
    assert(resolved_names(Seq::<LocalView>::empty()) =~= Set::<Seq<char>>::empty());
    assert(resolved_names(put(Seq::<LocalView>::empty(), entry)) =~= set![name.lexeme]);
    assert forall|i: int, j: int|
        0 <= i < after.scopes.len() && 0 <= j < after.scopes[i].len() && !(
        #[trigger] after.scopes[i][j]).resolved implies Set::<Seq<char>>::empty().contains(
        after.scopes[i][j].name.lexeme,
    ) by {
        if i < s.scopes.len() {
            assert(after.scopes[i] == s.scopes[i]);
            assert(!s.scopes[i][j].resolved);
        }
    }
    assert(scope_names(after.scopes) =~= scope_names(s.scopes).push(set![name.lexeme]));
}

pub proof fn lemma_begin(s: ResolverView)
    requires
        settled(s.scopes),
    ensures
        settled(begin_scope(s).scopes),
        scope_names(begin_scope(s).scopes) == scope_names(s.scopes).push(Set::empty()),
{
    let after = begin_scope(s);
    assert(resolved_names(Seq::<LocalView>::empty()) =~= Set::<Seq<char>>::empty());
    assert forall|i: int, j: int|
        0 <= i < after.scopes.len() && 0 <= j < after.scopes[i].len() && !(
        #[trigger] after.scopes[i][j]).resolved implies Set::<Seq<char>>::empty().contains(
        after.scopes[i][j].name.lexeme,
    ) by {
        if i < s.scopes.len() {
            assert(after.scopes[i] == s.scopes[i]);
            assert(!s.scopes[i][j].resolved);
        }
    }
    assert(scope_names(after.scopes) =~= scope_names(s.scopes).push(Set::empty()));
}

pub proof fn lemma_end(s: ResolverView)
    requires
        settled(s.scopes),
        s.scopes.len() > 0,
    ensures
        end_scope(s).errors == s.errors,
        end_scope(s).context == s.context,
        settled(end_scope(s).scopes),
        scope_names(end_scope(s).scopes) == scope_names(s.scopes).drop_last(),
{
    let after = end_scope(s);
    assert forall|i: int, j: int|
        0 <= i < after.scopes.len() && 0 <= j < after.scopes[i].len() && !(
        #[trigger] after.scopes[i][j]).resolved implies Set::<Seq<char>>::empty().contains(
        after.scopes[i][j].name.lexeme,
    ) by {
        assert(after.scopes[i] == s.scopes[i]);
        assert(!s.scopes[i][j].resolved);
    }
    assert(scope_names(after.scopes) =~= scope_names(s.scopes).drop_last());
}

/// The names of the parameters from the `i`-th on.
pub open spec fn names_from(params: Seq<TokenView>, i: nat) -> Set<Seq<char>> {
    Set::new(|n: Seq<char>| exists|j: int| i <= j < params.len() && params[j].lexeme == n)
}

/// What every step of resolution keeps of a resolver between statements.
pub open spec fn step_kept(s: ResolverView, after: ResolverView) -> bool {
    after.errors.len() >= s.errors.len() && after.context == s.context && settled(after.scopes)
}

pub proof fn lemma_pending_one(scopes: Seq<Seq<LocalView>>, lexeme: Seq<char>)
    requires
        pending_one(scopes, lexeme),
    ensures
        pending_in(scopes, set![lexeme]),
{
    assert forall|i: int, j: int|
        0 <= i < scopes.len() && 0 <= j < scopes[i].len() && !(#[trigger] scopes[i][j]).resolved implies set![
        lexeme,
    ].contains(scopes[i][j].name.lexeme) by {
        lemma_position(scopes[i], lexeme, 0);
    }
}

pub proof fn lemma_declare_params(s: ResolverView, params: Seq<TokenView>, i: nat)
    requires
        settled(s.scopes),
        s.scopes.len() > 0,
        i <= params.len(),
    ensures
        step_kept(s, declare_params(s, params, i)),
        declare_params(s, params, i).scopes.len() == s.scopes.len(),
        scope_names(declare_params(s, params, i).scopes) == scope_names(s.scopes).update(
            s.scopes.len() - 1,
            scope_names(s.scopes).last().union(names_from(params, i)),
        ),
    decreases params.len() - i,
{
    let names = scope_names(s.scopes);
    if i < params.len() {
        let p = params[i as int];
        lemma_declare_define(s, p);
        let next = define(declare(s, p), p);
        lemma_declare_params(next, params, i + 1);
        assert(names.last().insert(p.lexeme).union(names_from(params, i + 1)) =~= names.last().union(
            names_from(params, i),
        ));
        assert(scope_names(declare_params(s, params, i).scopes) =~= names.update(
            s.scopes.len() - 1,
            names.last().union(names_from(params, i)),
        ));
    } else {
        assert(names.last().union(names_from(params, i)) =~= names.last());
        assert(names.update(s.scopes.len() - 1, names.last()) =~= names);
    }
}

/// An optional expression that is resolved while at most the names in
/// `pending` are under way.
pub proof fn lemma_closes_optional(
    free: Set<TokenView>,
    s: ResolverView,
    pending: Set<Seq<char>>,
    e: Option<ExprView>,
)
    requires
        pending_in(s.scopes, pending),
        e matches Some(expr) ==> excused(free, expr, pending),
    ensures
        same_scopes(s, resolve_optional(s, e).state),
        (e is Some) == (resolve_optional(s, e).tree is Some),
        resolve_optional(s, e).state.errors.len() == s.errors.len() && listed_optional(
            free,
            resolve_optional(s, e).tree,
        ) ==> closed_optional(free, scope_names(s.scopes), resolve_optional(s, e).tree),
{
    lemma_same_refl(s);
    if let Some(expr) = e {
        lemma_closes_expr(free, s, pending, expr);
    }
}

pub proof fn lemma_holds_other(
    scopes: Scopes,
    declared_name: Seq<char>,
    name: Seq<char>,
    hops: Option<nat>,
)
    requires
        name != declared_name,
    ensures
        holds(declared(scopes, declared_name), name, hops) ==> holds(scopes, name, hops),
        absent(declared(scopes, declared_name), name) ==> absent(scopes, name),
{
    let after = declared(scopes, declared_name);
    assert forall|i: int| 0 <= i < scopes.len() implies (#[trigger] scopes[i]).contains(name)
        == after[i].contains(name) by {}
    if absent(after, name) {
        assert forall|i: int| 0 <= i < scopes.len() implies !(#[trigger] scopes[i]).contains(
            name,
        ) by {
            assert(!after[i].contains(name));
        }
    }
    if holds(after, name, hops) {
        let h = hops->Some_0;
        assert forall|i: int| scopes.len() - h <= i < scopes.len() implies !(
        #[trigger] scopes[i]).contains(name) by {
            assert(!after[i].contains(name));
        }
    }
}

/// Resolution of a function keeps the scopes, and where it adds no error
/// the function that it gives is closed in the resolved names.
pub proof fn lemma_closes_function(free: Set<TokenView>, s: ResolverView, f: FunctionView)
    requires
        settled(s.scopes),
        tidy_function(free, f),
    ensures
        step_kept(s, resolve_function(s, f).state),
        scope_names(resolve_function(s, f).state.scopes) == scope_names(s.scopes),
        resolve_function(s, f).state.errors.len() == s.errors.len() && listed_function(
            free,
            resolve_function(s, f).tree,
        ) ==> closed_function(free, scope_names(s.scopes), resolve_function(s, f).tree),
    decreases f, 0nat,
{
    reveal_with_fuel(resolve_function, 1);
    reveal_with_fuel(resolve_stmts, 1);
    let names = scope_names(s.scopes);
    let begun = begin_scope(s);
    lemma_begin(s);
    lemma_declare_params(begun, f.params, 0);
    let inside = declare_params(begun, f.params, 0);
    assert(names_from(f.params, 0) =~= param_names(f.params));
    let begun_names = scope_names(begun.scopes);
    assert(begun_names == names.push(Set::empty()));
    assert(begun.scopes.len() == s.scopes.len() + 1);
    assert(begun_names.last() =~= Set::<Seq<char>>::empty());
    assert(begun_names.last().union(names_from(f.params, 0)) =~= param_names(f.params));
    assert(begun_names.update(begun.scopes.len() - 1, param_names(f.params)) =~= names.push(
        param_names(f.params),
    ));
    assert(scope_names(inside.scopes) =~= names.push(param_names(f.params)));
    lemma_closes_stmts(free, inside, f.body, 0, Seq::empty());
    let body = resolve_stmts(inside, f.body, 0, Seq::empty());
    assert(scope_names(body.state.scopes).len() == body.state.scopes.len());
    lemma_end(body.state);
    assert(scope_names(end_scope(body.state).scopes) =~= names);
    let out = resolve_function(s, f);
    assert(out.tree.body == body.tree);
    if out.state.errors.len() == s.errors.len() && listed_function(free, out.tree) {
        assert forall|j: int| 0 <= j < body.tree.len() implies listed_stmt(
            free,
            #[trigger] body.tree[j],
        ) by {
            assert(listed_stmt(free, out.tree.body[j]));
        }
    }
}

/// The same of the methods of a class from the `i`-th on.
pub proof fn lemma_closes_methods(
    free: Set<TokenView>,
    s: ResolverView,
    methods: Seq<FunctionView>,
    i: nat,
    done: Seq<FunctionView>,
)
    requires
        settled(s.scopes),
        forall|j: int| 0 <= j < methods.len() ==> tidy_function(free, #[trigger] methods[j]),
        i <= methods.len(),
    ensures
        step_kept(s, resolve_methods(s, methods, i, done).state),
        scope_names(resolve_methods(s, methods, i, done).state.scopes) == scope_names(s.scopes),
        resolve_methods(s, methods, i, done).tree.len() == done.len() + methods.len() - i,
        resolve_methods(s, methods, i, done).state.errors.len() == s.errors.len() ==> forall|
            j: int,
        |
            i <= j < methods.len() && listed_function(
                free,
                #[trigger] resolve_methods(s, methods, i, done).tree[done.len() + j - i],
            ) ==> closed_function(
                free,
                scope_names(s.scopes),
                resolve_methods(s, methods, i, done).tree[done.len() + j - i],
            ),
    decreases methods, methods.len() - i,
{
    reveal_with_fuel(resolve_methods, 1);
    reveal_with_fuel(resolve_function, 1);
    if i < methods.len() {
        let inside = push_context(s, method_context(methods[i as int]));
        lemma_closes_function(free, inside, methods[i as int]);
        let r = resolve_function(inside, methods[i as int]);
        let next = pop_context(r.state);
        assert(next.context =~= s.context);
        lemma_closes_methods(free, next, methods, i + 1, done.push(r.tree));
        lemma_resolve_methods(next, methods, i + 1, done.push(r.tree));
        let out = resolve_methods(s, methods, i, done);
        assert(out.tree[done.len() as int] == r.tree) by {
            assert(out.tree.subrange(0, done.len() as int + 1)[done.len() as int] == done.push(
                r.tree,
            )[done.len() as int]);
        }
        if out.state.errors.len() == s.errors.len() {
            assert forall|j: int|
                i <= j < methods.len() && listed_function(
                    free,
                    #[trigger] out.tree[done.len() + j - i],
                ) implies closed_function(
                free,
                scope_names(s.scopes),
                out.tree[done.len() + j - i],
            ) by {
                if j > i {
                    assert(out.tree[done.push(r.tree).len() + j - (i + 1)] == out.tree[done.len()
                        + j - i]);
                }
            }
        }
    }
}

/// Resolution of a tidy statement keeps the resolver settled and adds what
/// the statement declares to the innermost scope; where it adds no error,
/// the statement that it gives is closed in the resolved names.
pub proof fn lemma_closes_stmt(free: Set<TokenView>, s: ResolverView, st: StmtView)
    requires
        settled(s.scopes),
        tidy_stmt(free, st, s.scopes.len() > 0),
    ensures
        step_kept(s, resolve_stmt(s, st).state),
        scope_names(resolve_stmt(s, st).state.scopes) == scopes_after(
            scope_names(s.scopes),
            resolve_stmt(s, st).tree,
        ),
        declares(resolve_stmt(s, st).tree) == declares(st),
        resolve_stmt(s, st).state.errors.len() == s.errors.len() && listed_stmt(
            free,
            resolve_stmt(s, st).tree,
        ) ==> closed_stmt(free, scope_names(s.scopes), resolve_stmt(s, st).tree),
    decreases st, 0nat,
{
    reveal_with_fuel(resolve_stmt, 1);
    reveal_with_fuel(resolve_stmts, 1);
    reveal_with_fuel(resolve_methods, 1);
    reveal_with_fuel(resolve_function, 1);
    let names = scope_names(s.scopes);
    let nothing = Set::<Seq<char>>::empty();
    match st {
        StmtView::Expression(e) => {
            lemma_excused_nothing(free, e);
            lemma_closes_expr(free, s, nothing, e);
            lemma_next(s, resolve_expr(s, e).state, nothing);
        },
        StmtView::Print(e) => {
            lemma_excused_nothing(free, e);
            lemma_closes_expr(free, s, nothing, e);
            lemma_next(s, resolve_expr(s, e).state, nothing);
        },
        StmtView::Variable { name, initializer } => {
            lemma_declare(s, name);
            let d = declare(s, name);
            if s.scopes.len() > 0 {
                lemma_pending_one(d.scopes, name.lexeme);
                lemma_closes_optional(free, d, set![name.lexeme], initializer);
            } else {
                if let Some(e) = initializer {
                    lemma_excused_nothing(free, e);
                }
                lemma_closes_optional(free, d, nothing, initializer);
            }
            let i = resolve_optional(d, initializer);
            lemma_define_after(d, i.state, name);
        },
        StmtView::Block(statements) => {
            lemma_begin(s);
            let begun = begin_scope(s);
            lemma_closes_stmts(free, begun, statements, 0, Seq::empty());
            let b = resolve_stmts(begun, statements, 0, Seq::empty());
            assert(scope_names(b.state.scopes).len() == b.state.scopes.len());
            lemma_end(b.state);
            assert(scope_names(end_scope(b.state).scopes) =~= names);
            let out = resolve_stmt(s, st);
            if out.state.errors.len() == s.errors.len() && listed_stmt(free, out.tree) {
                assert(out.tree->Block_0 == b.tree);
                assert forall|j: int| 0 <= j < b.tree.len() implies listed_stmt(
                    free,
                    #[trigger] b.tree[j],
                ) by {
                    assert(listed_stmt(free, out.tree->Block_0[j]));
                }
            }
        },
        StmtView::If { cond, then_branch, else_branch } => {
            lemma_excused_nothing(free, cond);
            lemma_closes_expr(free, s, nothing, cond);
            let c = resolve_expr(s, cond);
            lemma_next(s, c.state, nothing);
            lemma_closes_stmt(free, c.state, *then_branch);
            let t = resolve_stmt(c.state, *then_branch);
            if let Some(other) = else_branch {
                lemma_closes_stmt(free, t.state, *other);
            }
        },
        StmtView::While { cond, body } => {
            let inside = push_context(s, Context::Loop);
            lemma_excused_nothing(free, cond);
            lemma_closes_expr(free, inside, nothing, cond);
            let c = resolve_expr(inside, cond);
            lemma_next(inside, c.state, nothing);
            lemma_closes_stmt(free, c.state, *body);
            let b = resolve_stmt(c.state, *body);
            assert(pop_context(b.state).context =~= s.context);
        },
        StmtView::Function(f) => {
            let inside = push_context(s, Context::Function);
            lemma_declare_define(inside, f.name);
            let named = define(declare(inside, f.name), f.name);
            lemma_closes_function(free, named, f);
            let r = resolve_function(named, f);
            assert(pop_context(r.state).context =~= s.context);
            assert(r.tree.name == f.name);
        },
        StmtView::Return { keyword, value } => {
            if let Some(e) = value {
                lemma_excused_nothing(free, e);
            }
            lemma_closes_optional(free, s, nothing, value);
            lemma_next(s, resolve_optional(s, value).state, nothing);
        },
        StmtView::Break { keyword } => {},
        StmtView::Class { name, super_class, methods } => {
            let inside = push_context(s, Context::Class);
            lemma_declare_define(inside, name);
            let named = define(declare(inside, name), name);
            let class_names = declared(names, name.lexeme);
            let sup = resolve_super_class(named, name, super_class);
            if let Some(v) = super_class {
                lemma_lookup(named, nothing, v.name.lexeme);
                lemma_next(named, lookup(named, v.name.lexeme).state, nothing);
                if v.name.lexeme != name.lexeme {
                    lemma_holds_other(
                        names,
                        name.lexeme,
                        v.name.lexeme,
                        lookup(named, v.name.lexeme).tree,
                    );
                }
            }
            assert(settled(sup.state.scopes));
            assert(scope_names(sup.state.scopes) == class_names);
            assert(sup.state.context == inside.context);
            let outer = if super_class is Some {
                define_provided(begin_scope(sup.state), super_token())
            } else {
                sup.state
            };
            if super_class is Some {
                lemma_provided(sup.state, super_token());
            }
            lemma_provided(outer, this_token());
            let inner = define_provided(begin_scope(outer), this_token());
            assert(scope_names(inner.scopes) == method_scopes(class_names, super_class is Some));
            lemma_closes_methods(free, inner, methods, 0, Seq::empty());
            let m = resolve_methods(inner, methods, 0, Seq::empty());
            assert(scope_names(m.state.scopes).len() == m.state.scopes.len());
            lemma_end(m.state);
            let once = end_scope(m.state);
            assert(scope_names(once.scopes) =~= scope_names(outer.scopes));
            if super_class is Some {
                assert(scope_names(once.scopes).len() == once.scopes.len());
                lemma_end(once);
                assert(scope_names(end_scope(once).scopes) =~= class_names);
            }
            let out = resolve_stmt(s, st);
            assert(out.state.context =~= s.context);
            if out.state.errors.len() == s.errors.len() && listed_stmt(free, out.tree) {
                assert(out.tree->Class_methods == m.tree);
                assert forall|j: int| 0 <= j < m.tree.len() implies closed_function(
                    free,
                    method_scopes(class_names, super_class is Some),
                    #[trigger] m.tree[j],
                ) by {
                    assert(m.tree[j] == m.tree[Seq::<FunctionView>::empty().len() + j - 0]);
                    assert(listed_function(free, out.tree->Class_methods[j]));
                }
            }
        },
    }
}

/// The same of the statements of a sequence from the `i`-th on.
pub proof fn lemma_closes_stmts(
    free: Set<TokenView>,
    s: ResolverView,
    ss: Seq<StmtView>,
    i: nat,
    done: Seq<StmtView>,
)
    requires
        settled(s.scopes),
        forall|j: int| 0 <= j < ss.len() ==> tidy_stmt(free, #[trigger] ss[j], s.scopes.len() > 0),
        i <= ss.len(),
    ensures
        step_kept(s, resolve_stmts(s, ss, i, done).state),
        same_base(scope_names(s.scopes), scope_names(resolve_stmts(s, ss, i, done).state.scopes)),
        resolve_stmts(s, ss, i, done).tree.len() == done.len() + ss.len() - i,
        resolve_stmts(s, ss, i, done).state.errors.len() == s.errors.len() && (forall|j: int|
            done.len() <= j < resolve_stmts(s, ss, i, done).tree.len() ==> listed_stmt(
                free,
                #[trigger] resolve_stmts(s, ss, i, done).tree[j],
            )) ==> closed_stmts(
            free,
            scope_names(s.scopes),
            resolve_stmts(s, ss, i, done).tree,
            done.len(),
        ),
    decreases ss, ss.len() - i,
{
    reveal_with_fuel(resolve_stmts, 1);
    reveal_with_fuel(resolve_stmt, 1);
    let out = resolve_stmts(s, ss, i, done);
    if i < ss.len() {
        lemma_closes_stmt(free, s, ss[i as int]);
        let r = resolve_stmt(s, ss[i as int]);
        assert(scope_names(r.state.scopes).len() == r.state.scopes.len());
        assert(scope_names(s.scopes).len() == s.scopes.len());
        assert(scopes_after(scope_names(s.scopes), r.tree).len() == s.scopes.len());
        lemma_closes_stmts(free, r.state, ss, i + 1, done.push(r.tree));
        lemma_resolve_stmts(r.state, ss, i + 1, done.push(r.tree));
        assert(out.tree[done.len() as int] == r.tree) by {
            assert(out.tree.subrange(0, done.len() as int + 1)[done.len() as int] == done.push(
                r.tree,
            )[done.len() as int]);
        }
        assert(same_base(scope_names(s.scopes), scope_names(r.state.scopes)));
    }
}

/// A tidy program that a resolver outside every scope takes without an
/// error is closed: each of its names has hops that lead to the nearest
/// scope that holds it, or has no hops, stands in no scope and is one of the
/// names that are left to the globals.
pub proof fn lemma_resolution_closes(free: Set<TokenView>, s: ResolverView, program: Seq<StmtView>)
    requires
        s.scopes.len() == 0,
        forall|j: int| 0 <= j < program.len() ==> tidy_stmt(free, #[trigger] program[j], false),
        resolve_program(s, program).state.errors.len() == s.errors.len(),
        forall|j: int|
            0 <= j < resolve_program(s, program).tree.len() ==> listed_stmt(
                free,
                #[trigger] resolve_program(s, program).tree[j],
            ),
    ensures
        closed_stmts(free, Seq::empty(), resolve_program(s, program).tree, 0),
{
    assert(settled(s.scopes));
    lemma_closes_stmts(free, s, program, 0, Seq::empty());
    assert(scope_names(s.scopes) =~= Seq::empty());
}

/// A resolver that has resolved nothing yet.
pub open spec fn new_resolver() -> ResolverView {
    ResolverView {
        scopes: Seq::empty(),
        errors: Seq::empty(),
        warnings: Seq::empty(),
        context: Seq::empty(),
    }
}

/// Every hops value of a program that a new resolver takes without an
/// error names the nearest scope that holds the name. Throughout the
/// program, a variable, an assignment, `this` or `super` with hops `h` stands
/// where the scope `h` scopes out from the innermost has declared the name
/// before it and no scope further in has; one without hops stands where no
/// enclosing block, function or class has declared the name. The one
/// exception is a mention of a local variable in its own initializer, whose
/// hops lead to the scope of the declaration that is under way: `free`
/// holds those mentions, and the names without hops.
pub proof fn lemma_hops_name_the_nearest_scope(free: Set<TokenView>, program: Seq<StmtView>)
    requires
        forall|j: int| 0 <= j < program.len() ==> tidy_stmt(free, #[trigger] program[j], false),
        resolve_program(new_resolver(), program).state.errors.len() == 0,
        forall|j: int|
            0 <= j < resolve_program(new_resolver(), program).tree.len() ==> listed_stmt(
                free,
                #[trigger] resolve_program(new_resolver(), program).tree[j],
            ),
    ensures
        closed_stmts(free, Seq::empty(), resolve_program(new_resolver(), program).tree, 0),
{
    lemma_resolution_closes(free, new_resolver(), program);
}

/// A program that a new resolver takes without an error never misses a
/// variable that has hops, when a new interpreter runs what the resolver
/// made of it, but for a mention of a local variable in its own
/// initializer. Where the run ends with a variable that is not defined, the
/// name is one of those in `free`: the names without hops, which are looked
/// for in the globals, and those mentions. The program is plain, as every
/// parsed program is.
pub proof fn lemma_resolved_programs_find_their_locals(
    free: Set<TokenView>,
    program: Seq<StmtView>,
    limit: nat,
)
    requires
        forall|j: int| 0 <= j < program.len() ==> tidy_stmt(free, #[trigger] program[j], false),
        resolve_program(new_resolver(), program).state.errors.len() == 0,
        forall|j: int|
            0 <= j < resolve_program(new_resolver(), program).tree.len() ==> listed_stmt(
                free,
                #[trigger] resolve_program(new_resolver(), program).tree[j],
            ),
    ensures
        crate::scoping::evaluation::found(
            free,
            crate::semantics::exec_stmts(
                crate::interpreter::initial_machine(),
                resolve_program(new_resolver(), program).tree,
                0,
                limit,
            ).result,
        ),
{
    lemma_resolution_closes(free, new_resolver(), program);
    crate::scoping::evaluation::lemma_resolved_names_are_found(
        free,
        resolve_program(new_resolver(), program).tree,
        limit,
    );
}

/// From the tokens to the run: every program that parses and that a new
/// resolver takes without an error never misses a variable that has hops
/// when a new interpreter runs what the resolver made of it, but for a
/// mention of a local variable in its own initializer. `free` is any set
/// that holds the names without hops and those mentions; a variable that
/// the run misses is one of them.
pub proof fn lemma_parsed_programs_find_their_locals(
    free: Set<TokenView>,
    tokens: Seq<TokenView>,
    limit: nat,
)
    requires
        crate::grammar::program(tokens) is Ok,
        forall|j: int|
            0 <= j < crate::grammar::program(tokens)->Ok_0.len() ==> fresh_stmt(
                free,
                #[trigger] crate::grammar::program(tokens)->Ok_0[j],
                false,
            ),
        resolve_program(new_resolver(), crate::grammar::program(tokens)->Ok_0).state.errors.len()
            == 0,
        forall|j: int|
            0 <= j < resolve_program(
                new_resolver(),
                crate::grammar::program(tokens)->Ok_0,
            ).tree.len() ==> listed_stmt(
                free,
                #[trigger] resolve_program(
                    new_resolver(),
                    crate::grammar::program(tokens)->Ok_0,
                ).tree[j],
            ),
    ensures
        crate::scoping::evaluation::found(
            free,
            crate::semantics::exec_stmts(
                crate::interpreter::initial_machine(),
                resolve_program(new_resolver(), crate::grammar::program(tokens)->Ok_0).tree,
                0,
                limit,
            ).result,
        ),
{
    let statements = crate::grammar::program(tokens)->Ok_0;
    crate::scoping::parsing::lemma_parsed_programs_are_plain(tokens);
    assert forall|j: int| 0 <= j < statements.len() implies tidy_stmt(
        free,
        #[trigger] statements[j],
        false,
    ) by {
        assert(plain_stmt(statements[j]));
        assert(fresh_stmt(free, statements[j], false));
    }
    lemma_resolved_programs_find_their_locals(free, statements, limit);
}

} // verus!
