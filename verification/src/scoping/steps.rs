//! Each step of the interpreter keeps the state sound.
use crate::machine::{
    ancestor, bound, define_in, lemma_ancestor_in_range, method_from, next_env, printed, read_at,
    read_var, with_bound, with_class, with_env, with_field, with_instance, write_at, write_var,
    ClassView, MachineView,
};
use crate::scanner::TokenView;
use crate::scoping::{
    bound_at, closed_function, covers, declared, function_fits, good_bindings, good_function,
    good_method, good_methods, good_value, grows, holds, lemma_grows_bindings, lemma_grows_covers,
    lemma_grows_methods, lemma_grows_value, method_fits, sound, Scopes,
};
use crate::semantics::{bind_params, method_table};
use crate::statement::FunctionView;
use crate::value::{CallableView, ValueView};
use vstd::prelude::*;

verus! {

/// A state that keeps the scopes of a sound state as they are, and only
/// good values besides, is sound.
pub proof fn lemma_sound_after(free: Set<TokenView>, m: MachineView, after: MachineView)
    requires
        sound(free, m),
        grows(m, after),
        forall|i: int|
            0 <= i < after.envs.len() ==> (i < m.envs.len() && good_bindings(free, 
                m,
                #[trigger] after.envs[i].bindings,
            )) || good_bindings(free, after, after.envs[i].bindings),
        forall|i: int|
            0 <= i < after.instances.len() ==> (i < m.instances.len() && good_bindings(free, 
                m,
                #[trigger] after.instances[i].fields,
            )) || good_bindings(free, after, after.instances[i].fields),
        forall|i: int|
            0 <= i < after.classes.len() ==> (i < m.classes.len() && good_methods(free, 
                m,
                #[trigger] after.classes[i].methods,
            )) || good_methods(free, after, after.classes[i].methods),
    ensures
        sound(free, after),
{
    assert forall|i: int| 0 <= i < after.envs.len() implies good_bindings(free, 
        after,
        #[trigger] after.envs[i].bindings,
    ) by {
        if i < m.envs.len() && good_bindings(free, m, after.envs[i].bindings) {
            lemma_grows_bindings(free, m, after, after.envs[i].bindings);
        }
    }
    assert forall|i: int| 0 <= i < after.instances.len() implies good_bindings(free, 
        after,
        #[trigger] after.instances[i].fields,
    ) by {
        if i < m.instances.len() && good_bindings(free, m, after.instances[i].fields) {
            lemma_grows_bindings(free, m, after, after.instances[i].fields);
        }
    }
    assert forall|i: int| 0 <= i < after.classes.len() implies good_methods(free, 
        after,
        #[trigger] after.classes[i].methods,
    ) by {
        if i < m.classes.len() && good_methods(free, m, after.classes[i].methods) {
            lemma_grows_methods(free, m, after, after.classes[i].methods);
        }
    }
}

pub proof fn lemma_good_insert(
    free: Set<TokenView>,
    m: MachineView,
    b: Map<Seq<char>, ValueView>,
    name: Seq<char>,
    v: ValueView,
)
    requires
        good_bindings(free, m, b),
        good_value(free, m, v),
    ensures
        good_bindings(free, m, b.insert(name, v)),
{
    assert forall|n: Seq<char>| b.insert(name, v).contains_key(n) implies good_value(free, 
        m,
        #[trigger] b.insert(name, v)[n],
    ) by {
        if n != name {
            assert(b.contains_key(n));
            assert(good_value(free, m, b[n]));
        }
    }
}

pub proof fn lemma_define_grows(m: MachineView, env: nat, name: Seq<char>, v: ValueView)
    ensures
        grows(m, define_in(m, env, name, v)),
        define_in(m, env, name, v).current == m.current,
        env < m.envs.len() ==> define_in(m, env, name, v).envs[env as int].bindings.dom().contains(
            name,
        ),
{
}

/// Binding a name keeps the state sound, where the value is good in the
/// state that binds it: a function may be bound in its own closure.
pub proof fn lemma_define(
    free: Set<TokenView>,
    m: MachineView,
    env: nat,
    name: Seq<char>,
    v: ValueView,
)
    requires
        sound(free, m),
        good_value(free, m, v) || good_value(free, define_in(m, env, name, v), v),
    ensures
        sound(free, define_in(m, env, name, v)),
        grows(m, define_in(m, env, name, v)),
        define_in(m, env, name, v).current == m.current,
        env < m.envs.len() ==> define_in(m, env, name, v).envs[env as int].bindings.dom().contains(
            name,
        ),
{
    let after = define_in(m, env, name, v);
    lemma_define_grows(m, env, name, v);
    if good_value(free, m, v) {
        lemma_grows_value(free, m, after, v);
    }
    if env < m.envs.len() {
        assert(good_bindings(free, m, m.envs[env as int].bindings));
        lemma_grows_bindings(free, m, after, m.envs[env as int].bindings);
        lemma_good_insert(free, after, m.envs[env as int].bindings, name, v);
        assert forall|i: int| 0 <= i < after.envs.len() implies (i < m.envs.len()
            && good_bindings(free, m, #[trigger] after.envs[i].bindings)) || good_bindings(free, 
            after,
            after.envs[i].bindings,
        ) by {
            if i != env {
                assert(after.envs[i] == m.envs[i]);
            }
        }
        assert forall|i: int| 0 <= i < after.instances.len() implies (i < m.instances.len()
            && good_bindings(free, m, #[trigger] after.instances[i].fields)) || good_bindings(free, 
            after,
            after.instances[i].fields,
        ) by {
            assert(after.instances[i] == m.instances[i]);
        }
        assert forall|i: int| 0 <= i < after.classes.len() implies (i < m.classes.len()
            && good_methods(free, m, #[trigger] after.classes[i].methods)) || good_methods(free, 
            after,
            after.classes[i].methods,
        ) by {
            assert(after.classes[i] == m.classes[i]);
        }
        lemma_sound_after(free, m, after);
    }
}

pub proof fn lemma_with_env(free: Set<TokenView>, m: MachineView, parent: Option<nat>)
    requires
        sound(free, m),
    ensures
        sound(free, with_env(m, parent)),
        grows(m, with_env(m, parent)),
        with_env(m, parent).current == m.current,
{
    let after = with_env(m, parent);
    assert forall|i: int| 0 <= i < after.envs.len() implies (i < m.envs.len() && good_bindings(free, 
        m,
        #[trigger] after.envs[i].bindings,
    )) || good_bindings(free, after, after.envs[i].bindings) by {
        if i < m.envs.len() {
            assert(after.envs[i] == m.envs[i]);
        }
    }
    assert forall|i: int| 0 <= i < after.instances.len() implies (i < m.instances.len()
        && good_bindings(free, m, #[trigger] after.instances[i].fields)) || good_bindings(free, 
        after,
        after.instances[i].fields,
    ) by {
        assert(after.instances[i] == m.instances[i]);
    }
    assert forall|i: int| 0 <= i < after.classes.len() implies (i < m.classes.len()
        && good_methods(free, m, #[trigger] after.classes[i].methods)) || good_methods(free, 
        after,
        after.classes[i].methods,
    ) by {
        assert(after.classes[i] == m.classes[i]);
    }
    lemma_sound_after(free, m, after);
}

/// A state that differs from a sound state in nothing but the current
/// scope and what was printed is sound.
pub proof fn lemma_same_scopes(free: Set<TokenView>, m: MachineView, after: MachineView)
    requires
        sound(free, m),
        after.envs == m.envs,
        after.instances == m.instances,
        after.classes == m.classes,
        after.globals == m.globals,
    ensures
        sound(free, after),
        grows(m, after),
        grows(after, m),
{
    assert forall|i: int| 0 <= i < after.envs.len() implies (i < m.envs.len() && good_bindings(free, 
        m,
        #[trigger] after.envs[i].bindings,
    )) || good_bindings(free, after, after.envs[i].bindings) by {}
    assert forall|i: int| 0 <= i < after.instances.len() implies (i < m.instances.len()
        && good_bindings(free, m, #[trigger] after.instances[i].fields)) || good_bindings(free, 
        after,
        after.instances[i].fields,
    ) by {}
    assert forall|i: int| 0 <= i < after.classes.len() implies (i < m.classes.len()
        && good_methods(free, m, #[trigger] after.classes[i].methods)) || good_methods(free, 
        after,
        after.classes[i].methods,
    ) by {}
    lemma_sound_after(free, m, after);
}

pub proof fn lemma_with_instance(free: Set<TokenView>, m: MachineView, class: nat)
    requires
        sound(free, m),
    ensures
        sound(free, with_instance(m, class)),
        grows(m, with_instance(m, class)),
{
    let after = with_instance(m, class);
    assert forall|i: int| 0 <= i < after.envs.len() implies (i < m.envs.len() && good_bindings(free, 
        m,
        #[trigger] after.envs[i].bindings,
    )) || good_bindings(free, after, after.envs[i].bindings) by {}
    assert forall|i: int| 0 <= i < after.instances.len() implies (i < m.instances.len()
        && good_bindings(free, m, #[trigger] after.instances[i].fields)) || good_bindings(free, 
        after,
        after.instances[i].fields,
    ) by {
        if i < m.instances.len() {
            assert(after.instances[i] == m.instances[i]);
        }
    }
    assert forall|i: int| 0 <= i < after.classes.len() implies (i < m.classes.len()
        && good_methods(free, m, #[trigger] after.classes[i].methods)) || good_methods(free, 
        after,
        after.classes[i].methods,
    ) by {}
    lemma_sound_after(free, m, after);
}

pub proof fn lemma_with_field(
    free: Set<TokenView>,
    m: MachineView,
    instance: nat,
    name: Seq<char>,
    v: ValueView,
)
    requires
        sound(free, m),
        good_value(free, m, v),
    ensures
        sound(free, with_field(m, instance, name, v)),
        grows(m, with_field(m, instance, name, v)),
{
    let after = with_field(m, instance, name, v);
    if instance < m.instances.len() {
        assert(good_bindings(free, m, m.instances[instance as int].fields));
        lemma_good_insert(free, m, m.instances[instance as int].fields, name, v);
        assert forall|i: int| 0 <= i < after.envs.len() implies (i < m.envs.len()
            && good_bindings(free, m, #[trigger] after.envs[i].bindings)) || good_bindings(free, 
            after,
            after.envs[i].bindings,
        ) by {}
        assert forall|i: int| 0 <= i < after.instances.len() implies (i < m.instances.len()
            && good_bindings(free, m, #[trigger] after.instances[i].fields)) || good_bindings(free, 
            after,
            after.instances[i].fields,
        ) by {
            if i != instance {
                assert(after.instances[i] == m.instances[i]);
            }
        }
        assert forall|i: int| 0 <= i < after.classes.len() implies (i < m.classes.len()
            && good_methods(free, m, #[trigger] after.classes[i].methods)) || good_methods(free, 
            after,
            after.classes[i].methods,
        ) by {}
        lemma_sound_after(free, m, after);
    }
}

pub proof fn lemma_with_class(free: Set<TokenView>, m: MachineView, class: ClassView)
    requires
        sound(free, m),
        good_methods(free, m, class.methods),
    ensures
        sound(free, with_class(m, class)),
        grows(m, with_class(m, class)),
{
    let after = with_class(m, class);
    assert forall|i: int| 0 <= i < after.envs.len() implies (i < m.envs.len() && good_bindings(free, 
        m,
        #[trigger] after.envs[i].bindings,
    )) || good_bindings(free, after, after.envs[i].bindings) by {}
    assert forall|i: int| 0 <= i < after.instances.len() implies (i < m.instances.len()
        && good_bindings(free, m, #[trigger] after.instances[i].fields)) || good_bindings(free, 
        after,
        after.instances[i].fields,
    ) by {}
    assert(grows(m, after));
    lemma_grows_methods(free, m, after, class.methods);
    assert forall|i: int| 0 <= i < after.classes.len() implies (i < m.classes.len()
        && good_methods(free, m, #[trigger] after.classes[i].methods)) || good_methods(free, 
        after,
        after.classes[i].methods,
    ) by {
        if i < m.classes.len() {
            assert(after.classes[i] == m.classes[i]);
        }
    }
    lemma_sound_after(free, m, after);
}

/// What a sound state binds a name to is a good value.
pub proof fn lemma_read(free: Set<TokenView>, m: MachineView, env: nat, name: Seq<char>, hops: nat)
    requires
        sound(free, m),
        read_at(m, env, name, hops) is Some,
    ensures
        good_value(free, m, read_at(m, env, name, hops)->Some_0),
{
    lemma_ancestor_in_range(m, env, hops);
    let at = ancestor(m.envs, env, hops)->Some_0;
    assert(good_bindings(free, m, m.envs[at as int].bindings));
}

pub proof fn lemma_read_var(free: Set<TokenView>, m: MachineView, name: Seq<char>, hops: Option<nat>)
    requires
        sound(free, m),
        read_var(m, name, hops) is Some,
    ensures
        good_value(free, m, read_var(m, name, hops)->Some_0),
{
    match hops {
        Some(h) => lemma_read(free, m, m.current, name, h),
        None => lemma_read(free, m, m.globals, name, 0),
    }
}

/// A name whose hops lead to a scope that holds it is found, for reading
/// and for assigning.
pub proof fn lemma_found(
    m: MachineView,
    scopes: Scopes,
    name: Seq<char>,
    hops: Option<nat>,
    v: ValueView,
)
    requires
        covers(m, m.current, scopes),
        holds(scopes, name, hops),
    ensures
        read_var(m, name, hops) is Some,
        write_var(m, name, v, hops) is Some,
{
    let h = hops->Some_0;
    assert(bound_at(m, m.current, scopes, h));
}

pub proof fn lemma_write_var(
    free: Set<TokenView>,
    m: MachineView,
    name: Seq<char>,
    v: ValueView,
    hops: Option<nat>,
)
    requires
        sound(free, m),
        good_value(free, m, v),
        write_var(m, name, v, hops) is Some,
    ensures
        sound(free, write_var(m, name, v, hops)->Some_0),
        grows(m, write_var(m, name, v, hops)->Some_0),
        write_var(m, name, v, hops)->Some_0.current == m.current,
{
    match hops {
        Some(h) => {
            lemma_define(free, m, ancestor(m.envs, m.current, h)->Some_0, name, v);
        },
        None => {
            lemma_define(free, m, ancestor(m.envs, m.globals, 0)->Some_0, name, v);
        },
    }
}

pub proof fn lemma_write_at(
    free: Set<TokenView>,
    m: MachineView,
    env: nat,
    name: Seq<char>,
    v: ValueView,
    hops: nat,
)
    requires
        sound(free, m),
        good_value(free, m, v),
        write_at(m, env, name, v, hops) is Some,
    ensures
        sound(free, write_at(m, env, name, v, hops)->Some_0),
        grows(m, write_at(m, env, name, v, hops)->Some_0),
        write_at(m, env, name, v, hops)->Some_0.current == m.current,
{
    lemma_define(free, m, ancestor(m.envs, env, hops)->Some_0, name, v);
}

/// The scopes around a scope whose parent is covered, with one more scope
/// for the names that the scope itself binds.
pub proof fn lemma_covers_push(
    m: MachineView,
    env: nat,
    parent: nat,
    scopes: Scopes,
    names: Set<Seq<char>>,
)
    requires
        covers(m, parent, scopes),
        env < m.envs.len(),
        m.envs[env as int].parent == Some(parent),
        names.subset_of(m.envs[env as int].bindings.dom()),
    ensures
        covers(m, env, scopes.push(names)),
{
    let pushed = scopes.push(names);
    assert forall|d: nat| d < pushed.len() implies #[trigger] bound_at(m, env, pushed, d) by {
        if d > 0 {
            assert(bound_at(m, parent, scopes, (d - 1) as nat));
            assert(pushed[pushed.len() - 1 - d] == scopes[scopes.len() - 1 - (d - 1)]);
        } else {
            assert(pushed[pushed.len() - 1 - d] == names);
        }
    }
}

/// After a name was bound in the innermost scope, the scopes cover the
/// declaration too.
pub proof fn lemma_covers_declared(m: MachineView, env: nat, scopes: Scopes, name: Seq<char>)
    requires
        covers(m, env, scopes),
        scopes.len() > 0 ==> env < m.envs.len() && m.envs[env as int].bindings.dom().contains(name),
    ensures
        covers(m, env, declared(scopes, name)),
{
    let after = declared(scopes, name);
    assert forall|d: nat| d < after.len() implies #[trigger] bound_at(m, env, after, d) by {
        assert(bound_at(m, env, scopes, d));
        if d > 0 {
            assert(after[after.len() - 1 - d] == scopes[scopes.len() - 1 - d]);
        }
    }
}

/// Binding a good method to an instance gives a good function in a sound state.
pub proof fn lemma_bind(free: Set<TokenView>, m: MachineView, method: CallableView, instance: nat)
    requires
        sound(free, m),
        good_method(free, m, method),
    ensures
        sound(free, with_bound(m, method, instance)),
        grows(m, with_bound(m, method, instance)),
        with_bound(m, method, instance).current == m.current,
        good_function(free, with_bound(m, method, instance), bound(m, method)),
{
    let scopes = choose|scopes: Scopes| method_fits(free, m, method, scopes);
    let made = with_env(m, method.closure);
    let env = next_env(m);
    lemma_with_env(free, m, method.closure);
    lemma_define(free, made, env, "this"@, ValueView::Instance(instance));
    let after = with_bound(m, method, instance);
    crate::scoping::lemma_grows_transitive(m, made, after);
    lemma_grows_covers(m, after, method.closure->Some_0, scopes);
    assert(method.closure is Some);
    assert(made.envs[env as int].parent == method.closure);
    assert(after.envs[env as int].parent == method.closure);
    assert(set!["this"@].subset_of(after.envs[env as int].bindings.dom()));
    lemma_covers_push(after, env, method.closure->Some_0, scopes, set!["this"@]);
    assert(function_fits(free, after, bound(m, method), scopes.push(set!["this"@])));
}

/// The methods that a sound state finds are good methods.
pub proof fn lemma_method_from(
    free: Set<TokenView>,
    m: MachineView,
    class: nat,
    name: Seq<char>,
    steps: nat,
)
    requires
        sound(free, m),
        method_from(m.classes, class, name, steps) is Some,
    ensures
        good_method(free, m, method_from(m.classes, class, name, steps)->Some_0),
    decreases steps,
{
    if m.classes[class as int].methods.contains_key(name) {
        assert(good_methods(free, m, m.classes[class as int].methods));
    } else {
        lemma_method_from(free, 
            m,
            m.classes[class as int].super_class->Some_0,
            name,
            (steps - 1) as nat,
        );
    }
}

/// The table of the methods of a class holds good methods, where each
/// method is closed in the scopes that cover its closure, with `this`.
pub proof fn lemma_method_table(
    free: Set<TokenView>,
    m: MachineView,
    methods: Seq<FunctionView>,
    closure: nat,
    scopes: Scopes,
    i: nat,
    found: Map<Seq<char>, CallableView>,
)
    requires
        covers(m, closure, scopes),
        forall|j: int|
            0 <= j < methods.len() ==> closed_function(free, 
                scopes.push(set!["this"@]),
                #[trigger] methods[j],
            ),
        good_methods(free, m, found),
    ensures
        good_methods(free, m, method_table(methods, closure, i, found)),
    decreases methods.len() - i,
{
    if i < methods.len() {
        let f = CallableView {
            decl: methods[i as int],
            is_initializer: methods[i as int].name.lexeme == "init"@,
            closure: Some(closure),
        };
        assert(method_fits(free, m, f, scopes));
        let next = found.insert(methods[i as int].name.lexeme, f);
        assert forall|n: Seq<char>| next.contains_key(n) implies good_method(free, 
            m,
            #[trigger] next[n],
        ) by {
            if n != methods[i as int].name.lexeme {
                assert(found.contains_key(n));
                assert(good_method(free, m, found[n]));
            }
        }
        lemma_method_table(free, m, methods, closure, scopes, i + 1, next);
    }
}

/// Binding the parameters of a call keeps the state sound and binds every
/// parameter, where there is an argument for each.
pub proof fn lemma_bind_params(
    free: Set<TokenView>,
    m: MachineView,
    env: nat,
    params: Seq<TokenView>,
    args: Seq<ValueView>,
    i: nat,
)
    requires
        sound(free, m),
        env < m.envs.len(),
        args.len() == params.len(),
        i <= args.len(),
        forall|j: int| 0 <= j < args.len() ==> good_value(free, m, #[trigger] args[j]),
    ensures
        sound(free, bind_params(m, env, params, args, i)),
        grows(m, bind_params(m, env, params, args, i)),
        bind_params(m, env, params, args, i).current == m.current,
        forall|j: int|
            i <= j < params.len() ==> bind_params(
                m,
                env,
                params,
                args,
                i,
            ).envs[env as int].bindings.dom().contains(#[trigger] params[j].lexeme),
    decreases args.len() - i,
{
    if i < args.len() {
        let next = define_in(m, env, params[i as int].lexeme, args[i as int]);
        lemma_define(free, m, env, params[i as int].lexeme, args[i as int]);
        assert forall|j: int| 0 <= j < args.len() implies good_value(free, next, #[trigger] args[j]) by {
            lemma_grows_value(free, m, next, args[j]);
        }
        lemma_bind_params(free, next, env, params, args, i + 1);
        let last = bind_params(m, env, params, args, i);
        crate::scoping::lemma_grows_transitive(m, next, last);
    } else {
        lemma_same_scopes(free, m, m);
    }
}

} // verus!
