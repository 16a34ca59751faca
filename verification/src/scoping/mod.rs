//! Why resolved names are found: the resolver gives every name the hops to
//! the nearest scope that holds it, and a program whose hops all lead to a
//! scope that holds the name never misses a variable when it runs.
pub mod evaluation;
pub mod parsing;
pub mod resolution;
pub mod steps;

use crate::expression::ExprView;
use crate::machine::{ancestor, bound, MachineView};
use crate::scanner::TokenView;
use crate::statement::{FunctionView, StmtView};
use crate::value::{CallableView, ValueView};
use vstd::prelude::*;

verus! {

/// The names that each enclosing scope holds, from the outermost scope to
/// the innermost.
pub type Scopes = Seq<Set<Seq<char>>>;

/// Whether no scope holds the name.
pub open spec fn absent(scopes: Scopes, name: Seq<char>) -> bool {
    forall|i: int| 0 <= i < scopes.len() ==> !(#[trigger] scopes[i]).contains(name)
}

/// Whether hops lead to the nearest scope that holds the name: that many
/// scopes out from the innermost, and no scope further in holds it.
pub open spec fn holds(scopes: Scopes, name: Seq<char>, hops: Option<nat>) -> bool {
    hops matches Some(h) && h < scopes.len() && scopes[scopes.len() - 1 - h].contains(name)
        && forall|i: int|
        scopes.len() - h <= i < scopes.len() ==> !(#[trigger] scopes[i]).contains(name)
}

/// Whether a name is accounted for. With hops, they lead to the nearest
/// scope that holds it, unless it is one of the names in `free`, which a
/// run may miss. Without hops, no scope holds it, it is looked for in the
/// globals, and it is one of the names in `free`.
pub open spec fn named(
    free: Set<TokenView>,
    scopes: Scopes,
    name: TokenView,
    hops: Option<nat>,
) -> bool {
    match hops {
        Some(_) => holds(scopes, name.lexeme, hops) || free.contains(name),
        None => free.contains(name) && absent(scopes, name.lexeme),
    }
}

/// Whether the scope `d` parents out from `env` binds every name that the
/// `d`-th scope from the innermost holds.
pub open spec fn bound_at(m: MachineView, env: nat, scopes: Scopes, d: nat) -> bool {
    ancestor(m.envs, env, d) matches Some(e) && e < m.envs.len() && scopes[scopes.len() - 1
        - d].subset_of(m.envs[e as int].bindings.dom())
}

/// Whether the scopes around `env` bind the names that the static scopes hold.
pub open spec fn covers(m: MachineView, env: nat, scopes: Scopes) -> bool {
    forall|d: nat| d < scopes.len() ==> #[trigger] bound_at(m, env, scopes, d)
}

/// The scopes after a name was declared in the innermost one; outside
/// every scope the name is a global and nothing changes.
pub open spec fn declared(scopes: Scopes, name: Seq<char>) -> Scopes {
    if scopes.len() == 0 {
        scopes
    } else {
        scopes.update(scopes.len() - 1, scopes.last().insert(name))
    }
}

/// The names of the parameters of a function.
pub open spec fn param_names(params: Seq<TokenView>) -> Set<Seq<char>> {
    Set::new(|n: Seq<char>| exists|i: int| 0 <= i < params.len() && params[i].lexeme == n)
}

/// Whether every name in an expression is accounted for in the scopes: it
/// has hops that lead to the nearest scope that holds it, or it has none
/// and no scope holds it.
pub open spec fn closed_expr(free: Set<TokenView>, scopes: Scopes, e: ExprView) -> bool
    decreases e,
{
    match e {
        ExprView::Literal(_) => true,
        ExprView::Unary { operator, right } => closed_expr(free, scopes, *right),
        ExprView::Binary { left, right, operator } => closed_expr(free, scopes, *left) && closed_expr(free, 
            scopes,
            *right,
        ),
        ExprView::Logical { left, right, operator } => closed_expr(free, scopes, *left) && closed_expr(free, 
            scopes,
            *right,
        ),
        ExprView::Grouping(inner) => closed_expr(free, scopes, *inner),
        ExprView::Variable { name, hops } => named(free, scopes, name, hops),
        ExprView::Assignment { name, hops, value } => named(free, scopes, name, hops)
            && closed_expr(free, scopes, *value),
        ExprView::Call { right_paren, callee, args } => closed_expr(free, scopes, *callee) && forall|
            i: int,
        |
            0 <= i < args.len() ==> closed_expr(free, scopes, #[trigger] args[i]),
        ExprView::Get { name, object } => closed_expr(free, scopes, *object),
        ExprView::SetProperty { name, object, value } => closed_expr(free, scopes, *object)
            && closed_expr(free, scopes, *value),
        ExprView::This { keyword, hops } => named(free, scopes, keyword, hops),
        ExprView::Super { keyword, method, hops_to_super, hops_to_this } => named(
            free,
            scopes,
            keyword,
            hops_to_super,
        ) && named(free, scopes, crate::resolver::this_token(), hops_to_this),
    }
}

pub open spec fn closed_optional(free: Set<TokenView>, scopes: Scopes, e: Option<ExprView>) -> bool {
    match e {
        Some(e) => closed_expr(free, scopes, e),
        None => true,
    }
}

/// The scopes after a statement: a declaration adds its name to the
/// innermost scope.
pub open spec fn scopes_after(scopes: Scopes, st: StmtView) -> Scopes {
    match st {
        StmtView::Variable { name, initializer } => declared(scopes, name.lexeme),
        StmtView::Function(f) => declared(scopes, f.name.lexeme),
        StmtView::Class { name, super_class, methods } => declared(scopes, name.lexeme),
        _ => scopes,
    }
}

/// The scopes in which the methods of a class run, without their parameters.
pub open spec fn method_scopes(scopes: Scopes, inherits: bool) -> Scopes {
    if inherits {
        scopes.push(set!["super"@]).push(set!["this"@])
    } else {
        scopes.push(set!["this"@])
    }
}

/// Whether the body of a function is closed in the scopes of its
/// declaration, with a scope for its parameters.
pub open spec fn closed_function(free: Set<TokenView>, scopes: Scopes, f: FunctionView) -> bool
    decreases f, 0nat,
{
    closed_stmts(free, scopes.push(param_names(f.params)), f.body, 0)
}

/// Whether every name in a statement is accounted for in the scopes: it
/// has hops that lead to the nearest scope that holds it, or it has none
/// and no scope holds it; and the statement declares nothing that a branch
/// or a loop body could skip.
pub open spec fn closed_stmt(free: Set<TokenView>, scopes: Scopes, st: StmtView) -> bool
    decreases st, 0nat,
{
    match st {
        StmtView::Expression(e) => closed_expr(free, scopes, e),
        StmtView::Print(e) => closed_expr(free, scopes, e),
        StmtView::Variable { name, initializer } => closed_optional(free, scopes, initializer),
        StmtView::Block(statements) => closed_stmts(free, scopes.push(Set::empty()), statements, 0),
        StmtView::If { cond, then_branch, else_branch } => closed_expr(free, scopes, cond)
            && closed_stmt(free, scopes, *then_branch) && scopes_after(scopes, *then_branch) == scopes
            && match else_branch {
            Some(other) => closed_stmt(free, scopes, *other) && scopes_after(scopes, *other) == scopes,
            None => true,
        },
        StmtView::While { cond, body } => closed_expr(free, scopes, cond) && closed_stmt(free, scopes, *body)
            && scopes_after(scopes, *body) == scopes,
        StmtView::Function(f) => closed_function(free, declared(scopes, f.name.lexeme), f),
        StmtView::Return { keyword, value } => closed_optional(free, scopes, value),
        StmtView::Break { keyword } => true,
        StmtView::Class { name, super_class, methods } => (super_class matches Some(v) ==> named(
            free,
            scopes,
            v.name,
            v.hops,
        )) && forall|i: int|
            0 <= i < methods.len() ==> closed_function(free, 
                method_scopes(declared(scopes, name.lexeme), super_class is Some),
                #[trigger] methods[i],
            ),
    }
}

/// Whether the statements from the `i`-th on are closed, each in the
/// scopes that the statements before it left.
pub open spec fn closed_stmts(free: Set<TokenView>, scopes: Scopes, ss: Seq<StmtView>, i: nat) -> bool
    decreases ss, ss.len() - i,
{
    if i >= ss.len() {
        true
    } else {
        closed_stmt(free, scopes, ss[i as int]) && closed_stmts(free, 
            scopes_after(scopes, ss[i as int]),
            ss,
            i + 1,
        )
    }
}

/// Whether a function fits its closure: the scopes around the closure bind
/// the names that the body looks for there.
pub open spec fn function_fits(
    free: Set<TokenView>,
    m: MachineView,
    f: CallableView,
    scopes: Scopes,
) -> bool {
    f.closure matches Some(env) && covers(m, env, scopes) && closed_function(free, scopes, f.decl)
}

/// Whether a method fits its closure, once it is bound to an instance.
pub open spec fn method_fits(
    free: Set<TokenView>,
    m: MachineView,
    f: CallableView,
    scopes: Scopes,
) -> bool {
    f.closure matches Some(env) && covers(m, env, scopes) && closed_function(free, 
        scopes.push(set!["this"@]),
        f.decl,
    )
}

pub open spec fn good_function(free: Set<TokenView>, m: MachineView, f: CallableView) -> bool {
    exists|scopes: Scopes| function_fits(free, m, f, scopes)
}

pub open spec fn good_method(free: Set<TokenView>, m: MachineView, f: CallableView) -> bool {
    exists|scopes: Scopes| method_fits(free, m, f, scopes)
}

/// Whether a value may be kept: a function must fit its closure.
pub open spec fn good_value(free: Set<TokenView>, m: MachineView, v: ValueView) -> bool {
    v matches ValueView::Callable(f) ==> good_function(free, m, f)
}

pub open spec fn good_bindings(
    free: Set<TokenView>,
    m: MachineView,
    bindings: Map<Seq<char>, ValueView>,
) -> bool {
    forall|name: Seq<char>| bindings.contains_key(name) ==> good_value(free, m, #[trigger] bindings[name])
}

pub open spec fn good_methods(
    free: Set<TokenView>,
    m: MachineView,
    methods: Map<Seq<char>, CallableView>,
) -> bool {
    forall|name: Seq<char>| methods.contains_key(name) ==> good_method(free, m, #[trigger] methods[name])
}

/// Whether every function that the state keeps, in a scope, in a field or
/// as a method, fits its closure.
pub open spec fn sound(free: Set<TokenView>, m: MachineView) -> bool {
    &&& forall|i: int| 0 <= i < m.envs.len() ==> good_bindings(free, m, #[trigger] m.envs[i].bindings)
    &&& forall|i: int|
        0 <= i < m.instances.len() ==> good_bindings(free, m, #[trigger] m.instances[i].fields)
    &&& forall|i: int| 0 <= i < m.classes.len() ==> good_methods(free, m, #[trigger] m.classes[i].methods)
}

/// Whether a later state keeps every scope of an earlier one, with its
/// parent and with at least its names.
pub open spec fn grows(m: MachineView, after: MachineView) -> bool {
    &&& m.envs.len() <= after.envs.len()
    &&& m.globals == after.globals
    &&& forall|i: int|
        0 <= i < m.envs.len() ==> (#[trigger] after.envs[i]).parent == m.envs[i].parent
            && m.envs[i].bindings.dom().subset_of(after.envs[i].bindings.dom())
}

pub proof fn lemma_grows_ancestor(m: MachineView, after: MachineView, env: nat, d: nat)
    requires
        grows(m, after),
        ancestor(m.envs, env, d) is Some,
    ensures
        ancestor(after.envs, env, d) == ancestor(m.envs, env, d),
        ancestor(m.envs, env, d)->Some_0 < m.envs.len(),
    decreases d,
{
    if d > 0 {
        lemma_grows_ancestor(m, after, m.envs[env as int].parent->Some_0, (d - 1) as nat);
    }
}

pub proof fn lemma_grows_covers(m: MachineView, after: MachineView, env: nat, scopes: Scopes)
    requires
        grows(m, after),
        covers(m, env, scopes),
    ensures
        covers(after, env, scopes),
{
    assert forall|d: nat| d < scopes.len() implies #[trigger] bound_at(after, env, scopes, d) by {
        assert(bound_at(m, env, scopes, d));
        lemma_grows_ancestor(m, after, env, d);
    }
}

pub proof fn lemma_grows_value(free: Set<TokenView>, m: MachineView, after: MachineView, v: ValueView)
    requires
        grows(m, after),
        good_value(free, m, v),
    ensures
        good_value(free, after, v),
{
    if let ValueView::Callable(f) = v {
        let scopes = choose|scopes: Scopes| function_fits(free, m, f, scopes);
        lemma_grows_covers(m, after, f.closure->Some_0, scopes);
        assert(function_fits(free, after, f, scopes));
    }
}

pub proof fn lemma_grows_method(
    free: Set<TokenView>,
    m: MachineView,
    after: MachineView,
    f: CallableView,
)
    requires
        grows(m, after),
        good_method(free, m, f),
    ensures
        good_method(free, after, f),
{
    let scopes = choose|scopes: Scopes| method_fits(free, m, f, scopes);
    lemma_grows_covers(m, after, f.closure->Some_0, scopes);
    assert(method_fits(free, after, f, scopes));
}

pub proof fn lemma_grows_bindings(
    free: Set<TokenView>,
    m: MachineView,
    after: MachineView,
    b: Map<Seq<char>, ValueView>,
)
    requires
        grows(m, after),
        good_bindings(free, m, b),
    ensures
        good_bindings(free, after, b),
{
    assert forall|name: Seq<char>| b.contains_key(name) implies good_value(free, 
        after,
        #[trigger] b[name],
    ) by {
        lemma_grows_value(free, m, after, b[name]);
    }
}

pub proof fn lemma_grows_methods(
    free: Set<TokenView>,
    m: MachineView,
    after: MachineView,
    b: Map<Seq<char>, CallableView>,
)
    requires
        grows(m, after),
        good_methods(free, m, b),
    ensures
        good_methods(free, after, b),
{
    assert forall|name: Seq<char>| b.contains_key(name) implies good_method(free, 
        after,
        #[trigger] b[name],
    ) by {
        lemma_grows_method(free, m, after, b[name]);
    }
}

pub proof fn lemma_grows_transitive(a: MachineView, b: MachineView, c: MachineView)
    requires
        grows(a, b),
        grows(b, c),
    ensures
        grows(a, c),
{
    assert forall|i: int| 0 <= i < a.envs.len() implies (#[trigger] c.envs[i]).parent
        == a.envs[i].parent && a.envs[i].bindings.dom().subset_of(c.envs[i].bindings.dom()) by {
        assert(b.envs[i].parent == a.envs[i].parent);
    }
}

/// What every evaluation keeps: the state stays sound, its scopes are
/// kept, and the current scope is the one from before.
pub open spec fn kept(free: Set<TokenView>, m: MachineView, after: MachineView) -> bool {
    sound(free, after) && grows(m, after) && after.current == m.current
}

pub proof fn lemma_kept_covers(
    free: Set<TokenView>,
    m: MachineView,
    after: MachineView,
    scopes: Scopes,
)
    requires
        kept(free, m, after),
        covers(m, m.current, scopes),
    ensures
        covers(after, after.current, scopes),
{
    lemma_grows_covers(m, after, m.current, scopes);
}

pub proof fn lemma_kept_chain(free: Set<TokenView>, a: MachineView, b: MachineView, c: MachineView)
    requires
        kept(free, a, b),
        kept(free, b, c),
    ensures
        kept(free, a, c),
{
    lemma_grows_transitive(a, b, c);
}

} // verus!
