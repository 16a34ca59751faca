//! Evaluation of a closed program keeps the state sound and never misses
//! a variable.
use crate::expression::{ExprView, VariableView};
use crate::machine::{
    bound, define_in, find_method, next_class, next_env, next_instance, printed, read_at,
    read_var, with_bound, with_class, with_current, with_env, with_field, with_instance, write_at,
    write_var, ClassView, MachineView,
};
use crate::scanner::TokenView;
use crate::scoping::steps::{
    lemma_bind, lemma_bind_params, lemma_covers_declared, lemma_covers_push, lemma_define,
    lemma_define_grows, lemma_found, lemma_method_from, lemma_method_table, lemma_read,
    lemma_read_var, lemma_same_scopes, lemma_with_class, lemma_with_env, lemma_with_field,
    lemma_with_instance, lemma_write_at, lemma_write_var,
};
use crate::scoping::{
    closed_expr, closed_function, closed_optional, closed_stmt, closed_stmts, covers, declared,
    function_fits, good_function, good_method, good_methods, good_value, grows, holds, kept,
    lemma_grows_covers, lemma_grows_method, lemma_grows_methods, lemma_grows_transitive,
    lemma_grows_value, lemma_kept_chain, lemma_kept_covers, method_scopes, named, param_names,
    scopes_after, sound, Scopes,
};
use crate::semantics::{
    bind_params, call_parent, construct, declare_class, declare_function, eval, eval_args,
    eval_assignment, eval_binary, eval_call, eval_get, eval_logical, eval_optional, eval_set,
    eval_super, eval_super_class, eval_unary, eval_variable, exec, exec_block, exec_class, exec_if,
    exec_stmts, exec_while, initializer, invoke, method_table, property, EffectView, Outcome,
};
use crate::statement::{FunctionView, StmtView};
use crate::value::{CallableView, RuntimeErrorView, ValueView};
use vstd::prelude::*;

verus! {

/// Whether a result is anything but a missing variable, or else the
/// missing name is one of those in `free`, which a run may miss.
pub open spec fn found<T>(free: Set<TokenView>, r: Result<T, RuntimeErrorView>) -> bool {
    r matches Err(RuntimeErrorView::UndefinedVariable(t)) ==> free.contains(t)
}

pub open spec fn good_result(
    free: Set<TokenView>,
    m: MachineView,
    r: Result<ValueView, RuntimeErrorView>,
) -> bool {
    r matches Ok(v) ==> good_value(free, m, v)
}

pub open spec fn good_effect(
    free: Set<TokenView>,
    m: MachineView,
    r: Result<Option<EffectView>, RuntimeErrorView>,
) -> bool {
    r matches Ok(Some(EffectView::Return(v))) ==> good_value(free, m, v)
}

pub open spec fn good_values(free: Set<TokenView>, m: MachineView, values: Seq<ValueView>) -> bool {
    forall|j: int| 0 <= j < values.len() ==> good_value(free, m, #[trigger] values[j])
}

pub open spec fn closed_exprs(free: Set<TokenView>, scopes: Scopes, es: Seq<ExprView>) -> bool {
    forall|i: int| 0 <= i < es.len() ==> closed_expr(free, scopes, #[trigger] es[i])
}

/// What the evaluation of an expression keeps and gives.
pub open spec fn value_kept(free: Set<TokenView>, m: MachineView, o: Outcome<ValueView>) -> bool {
    kept(free, m, o.machine) && good_result(free, o.machine, o.result) && found(free, o.result)
}

/// What the execution of statements keeps and gives.
pub open spec fn effect_kept(
    free: Set<TokenView>,
    m: MachineView,
    o: Outcome<Option<EffectView>>,
) -> bool {
    kept(free, m, o.machine) && good_effect(free, o.machine, o.result) && found(free, o.result)
}

pub proof fn lemma_good_values_grow(
    free: Set<TokenView>,
    m: MachineView,
    after: MachineView,
    values: Seq<ValueView>,
)
    requires
        grows(m, after),
        good_values(free, m, values),
    ensures
        good_values(free, after, values),
{
    assert forall|j: int| 0 <= j < values.len() implies good_value(free, after, #[trigger] values[j]) by {
        lemma_grows_value(free, m, after, values[j]);
    }
}

pub proof fn lemma_eval_variable(
    free: Set<TokenView>,
    m: MachineView,
    scopes: Scopes,
    name: TokenView,
    hops: Option<nat>,
)
    requires
        sound(free, m),
        covers(m, m.current, scopes),
        named(free, scopes, name, hops),
    ensures
        value_kept(free, m, eval_variable(m, name, hops)),
        holds(scopes, name.lexeme, hops) ==> eval_variable(m, name, hops).result is Ok,
{
    if holds(scopes, name.lexeme, hops) {
        lemma_found(m, scopes, name.lexeme, hops, ValueView::Nil);
    }
    if read_var(m, name.lexeme, hops) is Some {
        lemma_read_var(free, m, name.lexeme, hops);
    }
    lemma_same_scopes(free, m, m);
}

pub proof fn lemma_eval_super(
    free: Set<TokenView>,
    m: MachineView,
    scopes: Scopes,
    keyword: TokenView,
    method: TokenView,
    hops_to_super: Option<nat>,
    hops_to_this: Option<nat>,
)
    requires
        sound(free, m),
        covers(m, m.current, scopes),
        named(free, scopes, keyword, hops_to_super),
        named(free, scopes, crate::resolver::this_token(), hops_to_this),
    ensures
        value_kept(free, m, eval_super(m, keyword, method, hops_to_super, hops_to_this)),
{
    if holds(scopes, keyword.lexeme, hops_to_super) {
        lemma_found(m, scopes, keyword.lexeme, hops_to_super, ValueView::Nil);
    }
    if holds(scopes, crate::resolver::this_token().lexeme, hops_to_this) {
        lemma_found(
            m,
            scopes,
            crate::resolver::this_token().lexeme,
            hops_to_this,
            ValueView::Nil,
        );
    }
    lemma_same_scopes(free, m, m);
    match read_var(m, keyword.lexeme, hops_to_super) {
        Some(ValueView::Class(class)) => match read_var(
            m,
            crate::resolver::this_token().lexeme,
            hops_to_this,
        ) {
            Some(ValueView::Instance(i)) => match find_method(m.classes, class, method.lexeme) {
                Some(f) => {
                    lemma_method_from(free, m, class, method.lexeme, m.classes.len());
                    lemma_bind(free, m, f, i);
                },
                None => {},
            },
            _ => {},
        },
        _ => {},
    }
}

/// The evaluation of a closed expression, in a sound state whose scopes
/// cover the static ones, keeps the state sound and finds every variable.
pub proof fn lemma_eval(free: Set<TokenView>, m: MachineView, scopes: Scopes, e: ExprView, limit: nat)
    requires
        sound(free, m),
        covers(m, m.current, scopes),
        closed_expr(free, scopes, e),
    ensures
        value_kept(free, m, eval(m, e, limit)),
    decreases limit, 0nat, 0nat,
{
    reveal_with_fuel(eval, 1);
    reveal_with_fuel(eval_unary, 1);
    reveal_with_fuel(eval_binary, 1);
    reveal_with_fuel(eval_logical, 1);
    reveal_with_fuel(eval_assignment, 1);
    reveal_with_fuel(eval_call, 1);
    reveal_with_fuel(eval_get, 1);
    reveal_with_fuel(eval_set, 1);
    lemma_same_scopes(free, m, m);
    if limit > 0 {
        let inner = (limit - 1) as nat;
        match e {
            ExprView::Literal(l) => {},
            ExprView::Grouping(nested) => lemma_eval(free, m, scopes, *nested, inner),
            ExprView::Unary { operator, right } => lemma_eval_unary(free, 
                m,
                scopes,
                operator,
                *right,
                inner,
            ),
            ExprView::Binary { left, right, operator } => lemma_eval_binary(free, 
                m,
                scopes,
                *left,
                operator,
                *right,
                inner,
            ),
            ExprView::Logical { left, right, operator } => lemma_eval_logical(free, 
                m,
                scopes,
                *left,
                operator,
                *right,
                inner,
            ),
            ExprView::Variable { name, hops } => lemma_eval_variable(free, m, scopes, name, hops),
            ExprView::This { keyword, hops } => lemma_eval_variable(free, m, scopes, keyword, hops),
            ExprView::Assignment { name, hops, value } => lemma_eval_assignment(free, 
                m,
                scopes,
                name,
                hops,
                *value,
                inner,
            ),
            ExprView::Call { right_paren, callee, args } => lemma_eval_call(free, 
                m,
                scopes,
                *callee,
                right_paren,
                args,
                inner,
            ),
            ExprView::Get { name, object } => lemma_eval_get(free, m, scopes, *object, name, inner),
            ExprView::SetProperty { name, object, value } => lemma_eval_set(free, 
                m,
                scopes,
                *object,
                name,
                *value,
                inner,
            ),
            ExprView::Super { keyword, method, hops_to_super, hops_to_this } => lemma_eval_super(free, 
                m,
                scopes,
                keyword,
                method,
                hops_to_super,
                hops_to_this,
            ),
        }
    }
}

proof fn lemma_eval_unary(
    free: Set<TokenView>,
    m: MachineView,
    scopes: Scopes,
    operator: TokenView,
    right: ExprView,
    limit: nat,
)
    requires
        sound(free, m),
        covers(m, m.current, scopes),
        closed_expr(free, scopes, right),
    ensures
        value_kept(free, m, eval_unary(m, operator, right, limit)),
    decreases limit, 1nat, 0nat,
{
    reveal_with_fuel(eval_unary, 1);
    reveal_with_fuel(eval, 1);
    lemma_eval(free, m, scopes, right, limit);
}

proof fn lemma_eval_binary(
    free: Set<TokenView>,
    m: MachineView,
    scopes: Scopes,
    left: ExprView,
    operator: TokenView,
    right: ExprView,
    limit: nat,
)
    requires
        sound(free, m),
        covers(m, m.current, scopes),
        closed_expr(free, scopes, left),
        closed_expr(free, scopes, right),
    ensures
        value_kept(free, m, eval_binary(m, left, operator, right, limit)),
    decreases limit, 1nat, 0nat,
{
    reveal_with_fuel(eval_binary, 1);
    reveal_with_fuel(eval, 1);
    lemma_eval(free, m, scopes, left, limit);
    let l = eval(m, left, limit);
    if l.result is Ok {
        lemma_kept_covers(free, m, l.machine, scopes);
        lemma_eval(free, l.machine, scopes, right, limit);
        lemma_kept_chain(free, m, l.machine, eval(l.machine, right, limit).machine);
    }
}

proof fn lemma_eval_logical(
    free: Set<TokenView>,
    m: MachineView,
    scopes: Scopes,
    left: ExprView,
    operator: TokenView,
    right: ExprView,
    limit: nat,
)
    requires
        sound(free, m),
        covers(m, m.current, scopes),
        closed_expr(free, scopes, left),
        closed_expr(free, scopes, right),
    ensures
        value_kept(free, m, eval_logical(m, left, operator, right, limit)),
    decreases limit, 1nat, 0nat,
{
    reveal_with_fuel(eval_logical, 1);
    reveal_with_fuel(eval, 1);
    lemma_eval(free, m, scopes, left, limit);
    let l = eval(m, left, limit);
    if l.result is Ok {
        lemma_kept_covers(free, m, l.machine, scopes);
        lemma_eval(free, l.machine, scopes, right, limit);
        lemma_kept_chain(free, m, l.machine, eval(l.machine, right, limit).machine);
    }
}

proof fn lemma_eval_assignment(
    free: Set<TokenView>,
    m: MachineView,
    scopes: Scopes,
    name: TokenView,
    hops: Option<nat>,
    value: ExprView,
    limit: nat,
)
    requires
        sound(free, m),
        covers(m, m.current, scopes),
        named(free, scopes, name, hops),
        closed_expr(free, scopes, value),
    ensures
        value_kept(free, m, eval_assignment(m, name, hops, value, limit)),
    decreases limit, 1nat, 0nat,
{
    reveal_with_fuel(eval_assignment, 1);
    reveal_with_fuel(eval, 1);
    lemma_eval(free, m, scopes, value, limit);
    let r = eval(m, value, limit);
    if let Ok(v) = r.result {
        lemma_kept_covers(free, m, r.machine, scopes);
        if holds(scopes, name.lexeme, hops) {
            lemma_found(r.machine, scopes, name.lexeme, hops, v);
        }
        if write_var(r.machine, name.lexeme, v, hops) is Some {
            lemma_write_var(free, r.machine, name.lexeme, v, hops);
            let changed = write_var(r.machine, name.lexeme, v, hops)->Some_0;
            lemma_grows_value(free, r.machine, changed, v);
            lemma_kept_chain(free, m, r.machine, changed);
        }
    }
}

proof fn lemma_eval_get(
    free: Set<TokenView>,
    m: MachineView,
    scopes: Scopes,
    object: ExprView,
    name: TokenView,
    limit: nat,
)
    requires
        sound(free, m),
        covers(m, m.current, scopes),
        closed_expr(free, scopes, object),
    ensures
        value_kept(free, m, eval_get(m, object, name, limit)),
    decreases limit, 1nat, 0nat,
{
    reveal_with_fuel(eval_get, 1);
    reveal_with_fuel(eval, 1);
    lemma_eval(free, m, scopes, object, limit);
    let o = eval(m, object, limit);
    if let Ok(ValueView::Instance(i)) = o.result {
        lemma_property(free, o.machine, i, name.lexeme);
        if let Some((changed, v)) = property(o.machine, i, name.lexeme) {
            lemma_kept_chain(free, m, o.machine, changed);
        }
    }
}

/// The property of an instance of a sound state is a good value, and
/// taking it keeps the state sound.
pub proof fn lemma_property(free: Set<TokenView>, m: MachineView, instance: nat, name: Seq<char>)
    requires
        sound(free, m),
    ensures
        property(m, instance, name) matches Some((changed, v)) ==> kept(free, m, changed) && good_value(free, 
            changed,
            v,
        ),
{
    lemma_same_scopes(free, m, m);
    if instance < m.instances.len() {
        if m.instances[instance as int].fields.contains_key(name) {
            assert(crate::scoping::good_bindings(free, m, m.instances[instance as int].fields));
        } else {
            let class = m.instances[instance as int].class;
            if let Some(method) = find_method(m.classes, class, name) {
                lemma_method_from(free, m, class, name, m.classes.len());
                lemma_bind(free, m, method, instance);
            }
        }
    }
}

proof fn lemma_eval_set(
    free: Set<TokenView>,
    m: MachineView,
    scopes: Scopes,
    object: ExprView,
    name: TokenView,
    value: ExprView,
    limit: nat,
)
    requires
        sound(free, m),
        covers(m, m.current, scopes),
        closed_expr(free, scopes, object),
        closed_expr(free, scopes, value),
    ensures
        value_kept(free, m, eval_set(m, object, name, value, limit)),
    decreases limit, 1nat, 0nat,
{
    reveal_with_fuel(eval_set, 1);
    reveal_with_fuel(eval, 1);
    lemma_eval(free, m, scopes, object, limit);
    let o = eval(m, object, limit);
    if let Ok(ValueView::Instance(i)) = o.result {
        lemma_kept_covers(free, m, o.machine, scopes);
        lemma_eval(free, o.machine, scopes, value, limit);
        let r = eval(o.machine, value, limit);
        lemma_kept_chain(free, m, o.machine, r.machine);
        if let Ok(v) = r.result {
            lemma_with_field(free, r.machine, i, name.lexeme, v);
            let changed = with_field(r.machine, i, name.lexeme, v);
            lemma_grows_value(free, r.machine, changed, v);
            lemma_kept_chain(free, m, r.machine, changed);
        }
    }
}

proof fn lemma_eval_args(
    free: Set<TokenView>,
    m: MachineView,
    scopes: Scopes,
    args: Seq<ExprView>,
    i: nat,
    values: Seq<ValueView>,
    limit: nat,
)
    requires
        sound(free, m),
        covers(m, m.current, scopes),
        closed_exprs(free, scopes, args),
        good_values(free, m, values),
        i <= args.len(),
    ensures
        kept(free, m, eval_args(m, args, i, values, limit).machine),
        found(free, eval_args(m, args, i, values, limit).result),
        eval_args(m, args, i, values, limit).result matches Ok(all) ==> good_values(free, 
            eval_args(m, args, i, values, limit).machine,
            all,
        ) && all.len() == values.len() + args.len() - i,
    decreases limit, 1nat, args.len() - i,
{
    reveal_with_fuel(eval_args, 1);
    reveal_with_fuel(eval, 1);
    lemma_same_scopes(free, m, m);
    if i < args.len() {
        lemma_eval(free, m, scopes, args[i as int], limit);
        let r = eval(m, args[i as int], limit);
        if let Ok(v) = r.result {
            lemma_kept_covers(free, m, r.machine, scopes);
            lemma_good_values_grow(free, m, r.machine, values);
            assert(good_values(free, r.machine, values.push(v))) by {
                assert forall|j: int| 0 <= j < values.push(v).len() implies good_value(free, 
                    r.machine,
                    #[trigger] values.push(v)[j],
                ) by {
                    if j < values.len() {
                        assert(values.push(v)[j] == values[j]);
                    }
                }
            }
            lemma_eval_args(free, r.machine, scopes, args, i + 1, values.push(v), limit);
            lemma_kept_chain(free, m, r.machine, eval_args(m, args, i, values, limit).machine);
        }
    }
}

/// A call of a good function with an argument for each parameter keeps
/// the state sound and finds every variable.
pub proof fn lemma_invoke(
    free: Set<TokenView>,
    m: MachineView,
    f: CallableView,
    args: Seq<ValueView>,
    limit: nat,
)
    requires
        sound(free, m),
        good_function(free, m, f),
        good_values(free, m, args),
        args.len() == f.decl.params.len(),
    ensures
        value_kept(free, m, invoke(m, f, args, limit)),
    decreases limit, 0nat, 0nat,
{
    reveal_with_fuel(invoke, 1);
    reveal_with_fuel(exec_block, 1);
    lemma_same_scopes(free, m, m);
    if limit > 0 {
        let scopes = choose|scopes: Scopes| function_fits(free, m, f, scopes);
        let closure = f.closure->Some_0;
        let env = next_env(m);
        let made = with_env(m, Some(call_parent(m, f)));
        lemma_with_env(free, m, Some(call_parent(m, f)));
        lemma_good_values_grow(free, m, made, args);
        lemma_bind_params(free, made, env, f.decl.params, args, 0);
        let ready = bind_params(made, env, f.decl.params, args, 0);
        lemma_grows_transitive(m, made, ready);
        lemma_grows_covers(m, ready, closure, scopes);
        assert(ready.envs[env as int].parent == Some(closure)) by {
            assert(made.envs[env as int].parent == Some(closure));
        }
        assert(param_names(f.decl.params).subset_of(ready.envs[env as int].bindings.dom()));
        lemma_covers_push(ready, env, closure, scopes, param_names(f.decl.params));
        let inside = scopes.push(param_names(f.decl.params));
        lemma_exec_block(free, ready, inside, f.decl.body, env, (limit - 1) as nat);
        let run = exec_block(ready, f.decl.body, env, (limit - 1) as nat);
        lemma_grows_transitive(m, ready, run.machine);
        if let Ok(effect) = run.result {
            if f.is_initializer && read_at(m, closure, "this"@, 0) is Some {
                lemma_read(free, m, closure, "this"@, 0);
                lemma_grows_value(free, m, run.machine, read_at(m, closure, "this"@, 0)->Some_0);
            }
        }
    }
}

proof fn lemma_construct(
    free: Set<TokenView>,
    m: MachineView,
    scopes: Scopes,
    class: nat,
    args: Seq<ExprView>,
    right_paren: TokenView,
    limit: nat,
)
    requires
        sound(free, m),
        covers(m, m.current, scopes),
        closed_exprs(free, scopes, args),
    ensures
        value_kept(free, m, construct(m, class, args, right_paren, limit)),
    decreases limit, 2nat, 0nat,
{
    reveal_with_fuel(construct, 1);
    reveal_with_fuel(eval_args, 1);
    reveal_with_fuel(invoke, 1);
    let instance = next_instance(m);
    let made = with_instance(m, class);
    lemma_with_instance(free, m, class);
    lemma_grows_covers(m, made, m.current, scopes);
    if let Some(init) = initializer(made, class) {
        assert(good_methods(free, made, made.classes[class as int].methods));
        assert(good_method(free, made, init));
        if init.decl.params.len() == args.len() {
            lemma_eval_args(free, made, scopes, args, 0, Seq::empty(), limit);
            let a = eval_args(made, args, 0, Seq::empty(), limit);
            lemma_grows_transitive(m, made, a.machine);
            if let Ok(values) = a.result {
                lemma_grows_method(free, made, a.machine, init);
                lemma_bind(free, a.machine, init, instance);
                let bound_state = with_bound(a.machine, init, instance);
                lemma_good_values_grow(free, a.machine, bound_state, values);
                lemma_invoke(free, bound_state, bound(a.machine, init), values, limit);
                let call = invoke(bound_state, bound(a.machine, init), values, limit);
                lemma_grows_transitive(a.machine, bound_state, call.machine);
                lemma_grows_transitive(m, a.machine, call.machine);
            }
        }
    }
}

proof fn lemma_eval_call(
    free: Set<TokenView>,
    m: MachineView,
    scopes: Scopes,
    callee: ExprView,
    right_paren: TokenView,
    args: Seq<ExprView>,
    limit: nat,
)
    requires
        sound(free, m),
        covers(m, m.current, scopes),
        closed_expr(free, scopes, callee),
        closed_exprs(free, scopes, args),
    ensures
        value_kept(free, m, eval_call(m, callee, right_paren, args, limit)),
    decreases limit, 3nat, 0nat,
{
    reveal_with_fuel(eval_call, 1);
    reveal_with_fuel(eval, 1);
    reveal_with_fuel(eval_args, 1);
    reveal_with_fuel(invoke, 1);
    reveal_with_fuel(construct, 1);
    lemma_eval(free, m, scopes, callee, limit);
    let c = eval(m, callee, limit);
    if c.result is Ok {
        lemma_kept_covers(free, m, c.machine, scopes);
        match c.result->Ok_0 {
            ValueView::Callable(f) => {
                if f.decl.params.len() == args.len() {
                    lemma_eval_args(free, c.machine, scopes, args, 0, Seq::empty(), limit);
                    let a = eval_args(c.machine, args, 0, Seq::empty(), limit);
                    lemma_kept_chain(free, m, c.machine, a.machine);
                    if let Ok(values) = a.result {
                        lemma_grows_value(free, c.machine, a.machine, ValueView::Callable(f));
                        lemma_invoke(free, a.machine, f, values, limit);
                        lemma_kept_chain(free, m, a.machine, invoke(a.machine, f, values, limit).machine);
                    }
                }
            },
            ValueView::Class(class) => {
                lemma_construct(free, c.machine, scopes, class, args, right_paren, limit);
                lemma_kept_chain(free, 
                    m,
                    c.machine,
                    construct(c.machine, class, args, right_paren, limit).machine,
                );
            },
            _ => {},
        }
    }
}

proof fn lemma_eval_optional(
    free: Set<TokenView>,
    m: MachineView,
    scopes: Scopes,
    e: Option<ExprView>,
    limit: nat,
)
    requires
        sound(free, m),
        covers(m, m.current, scopes),
        closed_optional(free, scopes, e),
    ensures
        value_kept(free, m, eval_optional(m, e, limit)),
    decreases limit, 1nat, 0nat,
{
    reveal_with_fuel(eval_optional, 1);
    reveal_with_fuel(eval, 1);
    lemma_same_scopes(free, m, m);
    if let Some(expr) = e {
        lemma_eval(free, m, scopes, expr, limit);
    }
}

proof fn lemma_eval_super_class(
    free: Set<TokenView>,
    m: MachineView,
    scopes: Scopes,
    sup: Option<VariableView>,
    limit: nat,
)
    requires
        sound(free, m),
        covers(m, m.current, scopes),
        sup matches Some(v) ==> named(free, scopes, v.name, v.hops),
    ensures
        kept(free, m, eval_super_class(m, sup, limit).machine),
        found(free, eval_super_class(m, sup, limit).result),
    decreases limit, 1nat, 0nat,
{
    reveal_with_fuel(eval_super_class, 1);
    reveal_with_fuel(eval, 1);
    lemma_same_scopes(free, m, m);
    if let Some(v) = sup {
        lemma_eval(free, m, scopes, ExprView::Variable { name: v.name, hops: v.hops }, limit);
    }
}

/// Declaring a function keeps the state sound: the function fits the
/// scope that it is bound in, its own name included.
pub proof fn lemma_declare_function(
    free: Set<TokenView>,
    m: MachineView,
    scopes: Scopes,
    decl: FunctionView,
)
    requires
        sound(free, m),
        covers(m, m.current, scopes),
        closed_function(free, declared(scopes, decl.name.lexeme), decl),
    ensures
        kept(free, m, declare_function(m, decl)),
        covers(declare_function(m, decl), m.current, declared(scopes, decl.name.lexeme)),
{
    let f = CallableView { decl, is_initializer: false, closure: Some(m.current) };
    let after = declare_function(m, decl);
    lemma_define_grows(m, m.current, decl.name.lexeme, ValueView::Callable(f));
    lemma_grows_covers(m, after, m.current, scopes);
    if scopes.len() > 0 {
        assert(crate::scoping::bound_at(m, m.current, scopes, 0));
    }
    lemma_covers_declared(after, m.current, scopes, decl.name.lexeme);
    assert(function_fits(free, after, f, declared(scopes, decl.name.lexeme)));
    lemma_define(free, m, m.current, decl.name.lexeme, ValueView::Callable(f));
}

/// Declaring a class keeps the state sound: each method fits the scope
/// that it closes over, once `this` is bound.
pub proof fn lemma_declare_class(
    free: Set<TokenView>,
    m: MachineView,
    scopes: Scopes,
    name: TokenView,
    parent: Option<nat>,
    methods: Seq<FunctionView>,
)
    requires
        sound(free, m),
        covers(m, m.current, scopes),
        forall|i: int|
            0 <= i < methods.len() ==> closed_function(free, 
                method_scopes(declared(scopes, name.lexeme), parent is Some),
                #[trigger] methods[i],
            ),
    ensures
        kept(free, m, declare_class(m, name, parent, methods)),
        covers(declare_class(m, name, parent, methods), m.current, declared(scopes, name.lexeme)),
{
    let after_name = declared(scopes, name.lexeme);
    let named = define_in(m, m.current, name.lexeme, ValueView::Nil);
    lemma_define(free, m, m.current, name.lexeme, ValueView::Nil);
    lemma_grows_covers(m, named, m.current, scopes);
    if scopes.len() > 0 {
        assert(crate::scoping::bound_at(m, m.current, scopes, 0));
    }
    lemma_covers_declared(named, m.current, scopes, name.lexeme);
    let env = next_env(named);
    let inside = match parent {
        Some(class) => with_current(
            define_in(with_env(named, Some(named.current)), env, "super"@, ValueView::Class(class)),
            env,
        ),
        None => named,
    };
    let around = if parent is Some {
        after_name.push(set!["super"@])
    } else {
        after_name
    };
    if let Some(class) = parent {
        let opened = with_env(named, Some(named.current));
        lemma_with_env(free, named, Some(named.current));
        let bound_super = define_in(opened, env, "super"@, ValueView::Class(class));
        lemma_define(free, opened, env, "super"@, ValueView::Class(class));
        lemma_grows_transitive(named, opened, bound_super);
        lemma_grows_covers(named, bound_super, m.current, after_name);
        assert(bound_super.envs[env as int].parent == Some(m.current)) by {
            assert(opened.envs[env as int].parent == Some(m.current));
        }
        assert(set!["super"@].subset_of(bound_super.envs[env as int].bindings.dom()));
        lemma_covers_push(bound_super, env, m.current, after_name, set!["super"@]);
        lemma_same_scopes(free, bound_super, inside);
        lemma_grows_covers(bound_super, inside, env, around);
        lemma_grows_covers(bound_super, inside, m.current, after_name);
        lemma_grows_transitive(named, bound_super, inside);
    }
    assert(sound(free, inside) && grows(named, inside));
    assert(covers(inside, inside.current, around));
    assert(covers(inside, m.current, after_name));
    assert(around.push(set!["this"@]) == method_scopes(after_name, parent is Some));
    assert(good_methods(free, inside, Map::<Seq<char>, CallableView>::empty()));
    lemma_method_table(free, inside, methods, inside.current, around, 0, Map::empty());
    let table = method_table(methods, inside.current, 0, Map::empty());
    let outside = with_current(inside, named.current);
    lemma_same_scopes(free, inside, outside);
    lemma_grows_methods(free, inside, outside, table);
    let class = ClassView { name: name.lexeme, super_class: parent, methods: table };
    let made = with_class(outside, class);
    lemma_with_class(free, outside, class);
    lemma_grows_transitive(named, inside, outside);
    lemma_grows_transitive(named, outside, made);
    lemma_grows_transitive(m, named, made);
    lemma_grows_covers(inside, outside, m.current, after_name);
    lemma_grows_covers(outside, made, m.current, after_name);
    let value = ValueView::Class(next_class(outside));
    if write_at(made, made.current, name.lexeme, value, 0) is Some {
        lemma_write_at(free, made, made.current, name.lexeme, value, 0);
        let assigned = write_at(made, made.current, name.lexeme, value, 0)->Some_0;
        lemma_grows_transitive(m, made, assigned);
        lemma_grows_covers(made, assigned, m.current, after_name);
    }
}

proof fn lemma_exec_class(
    free: Set<TokenView>,
    m: MachineView,
    scopes: Scopes,
    name: TokenView,
    super_class: Option<VariableView>,
    methods: Seq<FunctionView>,
    limit: nat,
)
    requires
        sound(free, m),
        covers(m, m.current, scopes),
        super_class matches Some(v) ==> named(free, scopes, v.name, v.hops),
        forall|i: int|
            0 <= i < methods.len() ==> closed_function(free, 
                method_scopes(declared(scopes, name.lexeme), super_class is Some),
                #[trigger] methods[i],
            ),
    ensures
        effect_kept(free, m, exec_class(m, name, super_class, methods, limit)),
        exec_class(m, name, super_class, methods, limit).result is Ok ==> covers(
            exec_class(m, name, super_class, methods, limit).machine,
            m.current,
            declared(scopes, name.lexeme),
        ),
    decreases limit, 2nat, 0nat,
{
    reveal_with_fuel(exec_class, 1);
    reveal_with_fuel(eval_super_class, 1);
    lemma_eval_super_class(free, m, scopes, super_class, limit);
    let s = eval_super_class(m, super_class, limit);
    if let Ok(parent) = s.result {
        lemma_kept_covers(free, m, s.machine, scopes);
        assert(parent is Some == super_class is Some);
        lemma_declare_class(free, s.machine, scopes, name, parent, methods);
        lemma_kept_chain(free, m, s.machine, declare_class(s.machine, name, parent, methods));
    }
}

proof fn lemma_exec_if(
    free: Set<TokenView>,
    m: MachineView,
    scopes: Scopes,
    cond: ExprView,
    then_branch: StmtView,
    else_branch: Option<Box<StmtView>>,
    limit: nat,
)
    requires
        sound(free, m),
        covers(m, m.current, scopes),
        closed_expr(free, scopes, cond),
        closed_stmt(free, scopes, then_branch),
        else_branch matches Some(other) ==> closed_stmt(free, scopes, *other),
    ensures
        effect_kept(free, m, exec_if(m, cond, then_branch, else_branch, limit)),
    decreases limit, 1nat, 0nat,
{
    reveal_with_fuel(exec_if, 1);
    reveal_with_fuel(eval, 1);
    reveal_with_fuel(exec, 1);
    lemma_eval(free, m, scopes, cond, limit);
    let c = eval(m, cond, limit);
    if let Ok(v) = c.result {
        lemma_kept_covers(free, m, c.machine, scopes);
        if crate::value::truthy(v) {
            lemma_exec(free, c.machine, scopes, then_branch, limit);
            lemma_kept_chain(free, m, c.machine, exec(c.machine, then_branch, limit).machine);
        } else if let Some(other) = else_branch {
            lemma_exec(free, c.machine, scopes, *other, limit);
            lemma_kept_chain(free, m, c.machine, exec(c.machine, *other, limit).machine);
        }
    }
}

proof fn lemma_exec_while(
    free: Set<TokenView>,
    m: MachineView,
    scopes: Scopes,
    cond: ExprView,
    body: StmtView,
    limit: nat,
)
    requires
        sound(free, m),
        covers(m, m.current, scopes),
        closed_expr(free, scopes, cond),
        closed_stmt(free, scopes, body),
    ensures
        effect_kept(free, m, exec_while(m, cond, body, limit)),
    decreases limit, 0nat, 0nat,
{
    reveal_with_fuel(exec_while, 1);
    reveal_with_fuel(eval, 1);
    reveal_with_fuel(exec, 1);
    lemma_same_scopes(free, m, m);
    if limit > 0 {
        let inner = (limit - 1) as nat;
        lemma_eval(free, m, scopes, cond, inner);
        let c = eval(m, cond, inner);
        if let Ok(v) = c.result {
            if crate::value::truthy(v) {
                lemma_kept_covers(free, m, c.machine, scopes);
                lemma_exec(free, c.machine, scopes, body, inner);
                let b = exec(c.machine, body, inner);
                lemma_kept_chain(free, m, c.machine, b.machine);
                if b.result == Ok::<Option<EffectView>, RuntimeErrorView>(None) {
                    lemma_kept_covers(free, m, b.machine, scopes);
                    lemma_exec_while(free, b.machine, scopes, cond, body, inner);
                    lemma_kept_chain(free, m, b.machine, exec_while(b.machine, cond, body, inner).machine);
                }
            }
        }
    }
}

/// The execution of a closed statement, in a sound state whose scopes
/// cover the static ones, keeps the state sound, finds every variable, and
/// binds what the statement declares.
pub proof fn lemma_exec(free: Set<TokenView>, m: MachineView, scopes: Scopes, st: StmtView, limit: nat)
    requires
        sound(free, m),
        covers(m, m.current, scopes),
        closed_stmt(free, scopes, st),
    ensures
        effect_kept(free, m, exec(m, st, limit)),
        exec(m, st, limit).result is Ok ==> covers(
            exec(m, st, limit).machine,
            m.current,
            scopes_after(scopes, st),
        ),
    decreases limit, 0nat, 0nat,
{
    reveal_with_fuel(exec, 1);
    reveal_with_fuel(eval, 1);
    reveal_with_fuel(eval_optional, 1);
    reveal_with_fuel(exec_if, 1);
    reveal_with_fuel(exec_class, 1);
    reveal_with_fuel(exec_while, 1);
    reveal_with_fuel(exec_block, 1);
    lemma_same_scopes(free, m, m);
    if limit > 0 {
        let inner = (limit - 1) as nat;
        match st {
            StmtView::Expression(e) => {
                lemma_eval(free, m, scopes, e, inner);
                lemma_kept_covers(free, m, eval(m, e, inner).machine, scopes);
            },
            StmtView::Print(e) => {
                lemma_eval(free, m, scopes, e, inner);
                let r = eval(m, e, inner);
                lemma_kept_covers(free, m, r.machine, scopes);
                if let Ok(v) = r.result {
                    let shown = printed(r.machine, crate::machine::display(r.machine, v));
                    lemma_same_scopes(free, r.machine, shown);
                    lemma_kept_chain(free, m, r.machine, shown);
                    lemma_kept_covers(free, m, shown, scopes);
                }
            },
            StmtView::Variable { name, initializer } => {
                lemma_eval_optional(free, m, scopes, initializer, inner);
                let r = eval_optional(m, initializer, inner);
                if let Ok(v) = r.result {
                    lemma_kept_covers(free, m, r.machine, scopes);
                    lemma_define(free, r.machine, r.machine.current, name.lexeme, v);
                    let after = define_in(r.machine, r.machine.current, name.lexeme, v);
                    lemma_kept_chain(free, m, r.machine, after);
                    lemma_grows_covers(r.machine, after, m.current, scopes);
                    if scopes.len() > 0 {
                        assert(crate::scoping::bound_at(m, m.current, scopes, 0));
                    }
                    lemma_covers_declared(after, m.current, scopes, name.lexeme);
                }
            },
            StmtView::Block(statements) => {
                let env = next_env(m);
                let opened = with_env(m, Some(m.current));
                lemma_with_env(free, m, Some(m.current));
                lemma_grows_covers(m, opened, m.current, scopes);
                lemma_covers_push(opened, env, m.current, scopes, Set::empty());
                lemma_exec_block(free, opened, scopes.push(Set::empty()), statements, env, inner);
                let run = exec_block(opened, statements, env, inner);
                lemma_grows_transitive(m, opened, run.machine);
                lemma_grows_covers(m, run.machine, m.current, scopes);
            },
            StmtView::If { cond, then_branch, else_branch } => {
                lemma_exec_if(free, m, scopes, cond, *then_branch, else_branch, inner);
                lemma_kept_covers(free, 
                    m,
                    exec_if(m, cond, *then_branch, else_branch, inner).machine,
                    scopes,
                );
            },
            StmtView::While { cond, body } => {
                lemma_exec_while(free, m, scopes, cond, *body, inner);
                lemma_kept_covers(free, m, exec_while(m, cond, *body, inner).machine, scopes);
            },
            StmtView::Function(decl) => {
                lemma_declare_function(free, m, scopes, decl);
            },
            StmtView::Return { keyword, value } => {
                lemma_eval_optional(free, m, scopes, value, inner);
                lemma_kept_covers(free, m, eval_optional(m, value, inner).machine, scopes);
            },
            StmtView::Break { keyword } => {},
            StmtView::Class { name, super_class, methods } => {
                lemma_exec_class(free, m, scopes, name, super_class, methods, inner);
            },
        }
    }
}

/// The execution of closed statements in a scope keeps the state sound
/// and goes back to the scope that was current.
pub proof fn lemma_exec_block(
    free: Set<TokenView>,
    m: MachineView,
    scopes: Scopes,
    statements: Seq<StmtView>,
    env: nat,
    limit: nat,
)
    requires
        sound(free, m),
        covers(m, env, scopes),
        closed_stmts(free, scopes, statements, 0),
    ensures
        effect_kept(free, m, exec_block(m, statements, env, limit)),
    decreases limit, 0nat, 0nat,
{
    reveal_with_fuel(exec_block, 1);
    reveal_with_fuel(exec_stmts, 1);
    lemma_same_scopes(free, m, m);
    if limit > 0 {
        let entered = with_current(m, env);
        lemma_same_scopes(free, m, entered);
        lemma_grows_covers(m, entered, env, scopes);
        lemma_exec_stmts(free, entered, scopes, statements, 0, (limit - 1) as nat);
        let run = exec_stmts(entered, statements, 0, (limit - 1) as nat);
        let left = with_current(run.machine, m.current);
        lemma_same_scopes(free, run.machine, left);
        lemma_grows_transitive(m, entered, run.machine);
        lemma_grows_transitive(m, run.machine, left);
        if let Ok(Some(EffectView::Return(v))) = run.result {
            lemma_grows_value(free, run.machine, left, v);
        }
    }
}

/// The execution of closed statements, each in the scopes that the
/// statements before it left, keeps the state sound and finds every variable.
pub proof fn lemma_exec_stmts(
    free: Set<TokenView>,
    m: MachineView,
    scopes: Scopes,
    statements: Seq<StmtView>,
    i: nat,
    limit: nat,
)
    requires
        sound(free, m),
        covers(m, m.current, scopes),
        closed_stmts(free, scopes, statements, i),
    ensures
        effect_kept(free, m, exec_stmts(m, statements, i, limit)),
    decreases limit, 1nat, statements.len() - i,
{
    reveal_with_fuel(exec_stmts, 1);
    reveal_with_fuel(exec, 1);
    lemma_same_scopes(free, m, m);
    if i < statements.len() {
        lemma_exec(free, m, scopes, statements[i as int], limit);
        let r = exec(m, statements[i as int], limit);
        if r.result == Ok::<Option<EffectView>, RuntimeErrorView>(None) {
            lemma_exec_stmts(free, 
                r.machine,
                scopes_after(scopes, statements[i as int]),
                statements,
                i + 1,
                limit,
            );
            lemma_kept_chain(free, m, r.machine, exec_stmts(m, statements, i, limit).machine);
        }
    }
}

/// A program whose every name has hops that lead to a scope that holds
/// it, or else is one of the names in `free`, never misses a variable when
/// a new interpreter runs it, unless the variable is one of those names:
/// what the hops promise is there when the program gets to it.
pub proof fn lemma_resolved_names_are_found(free: Set<TokenView>, program: Seq<StmtView>, limit: nat)
    requires
        closed_stmts(free, Seq::empty(), program, 0),
    ensures
        found(free, exec_stmts(crate::interpreter::initial_machine(), program, 0, limit).result),
        sound(free, exec_stmts(crate::interpreter::initial_machine(), program, 0, limit).machine),
{
    let m = crate::interpreter::initial_machine();
    assert(sound(free, m)) by {
        assert forall|i: int| 0 <= i < m.envs.len() implies crate::scoping::good_bindings(
            free,
            m,
            #[trigger] m.envs[i].bindings,
        ) by {}
    }
    assert(covers(m, m.current, Seq::empty()));
    lemma_exec_stmts(free, m, Seq::empty(), program, 0, limit);
}

/// The same of one expression, as the interpreter evaluates it between
/// programs: in any sound state, a closed expression finds its variables.
pub proof fn lemma_resolved_expression_is_found(
    free: Set<TokenView>,
    m: MachineView,
    e: ExprView,
    limit: nat,
)
    requires
        sound(free, m),
        closed_expr(free, Seq::empty(), e),
    ensures
        found(free, eval(m, e, limit).result),
        sound(free, eval(m, e, limit).machine),
{
    assert(covers(m, m.current, Seq::empty()));
    lemma_eval(free, m, Seq::empty(), e, limit);
}

} // verus!
