//! The mathematical model of the interpreter's state, and the steps that
//! read and change it.
use crate::value::{CallableView, RenderedView, ValueView};
use vstd::prelude::*;

verus! {

/// A scope: its bindings and the scope around it.
pub struct EnvView {
    pub parent: Option<nat>,
    pub bindings: Map<Seq<char>, ValueView>,
}

/// A class: its name, its super class and its own methods.
pub struct ClassView {
    pub name: Seq<char>,
    pub super_class: Option<nat>,
    pub methods: Map<Seq<char>, CallableView>,
}

/// An instance: its class and its fields.
pub struct InstanceView {
    pub class: nat,
    pub fields: Map<Seq<char>, ValueView>,
}

/// The state of an interpreter: its scopes, classes and instances, each
/// named by its place; the global and the current scope; and what was printed.
pub struct MachineView {
    pub envs: Seq<EnvView>,
    pub classes: Seq<ClassView>,
    pub instances: Seq<InstanceView>,
    pub globals: nat,
    pub current: nat,
    pub output: Seq<RenderedView>,
}

/// The scope `hops` parents out from a scope.
pub open spec fn ancestor(envs: Seq<EnvView>, env: nat, hops: nat) -> Option<nat>
    decreases hops,
{
    if env >= envs.len() {
        None
    } else if hops == 0 {
        Some(env)
    } else {
        match envs[env as int].parent {
            Some(p) => ancestor(envs, p, (hops - 1) as nat),
            None => None,
        }
    }
}

/// The value of a name in the scope `hops` parents out from a scope.
pub open spec fn read_at(
    m: MachineView,
    env: nat,
    name: Seq<char>,
    hops: nat,
) -> Option<ValueView> {
    match ancestor(m.envs, env, hops) {
        Some(at) => if m.envs[at as int].bindings.contains_key(name) {
            Some(m.envs[at as int].bindings[name])
        } else {
            None
        },
        None => None,
    }
}

/// The value of a variable: with hops, from the current scope outward;
/// without, from the globals.
pub open spec fn read_var(m: MachineView, name: Seq<char>, hops: Option<nat>) -> Option<ValueView> {
    match hops {
        Some(h) => read_at(m, m.current, name, h),
        None => read_at(m, m.globals, name, 0),
    }
}

/// Binds a name in a scope, whatever it was bound to there.
pub open spec fn define_in(
    m: MachineView,
    env: nat,
    name: Seq<char>,
    value: ValueView,
) -> MachineView {
    if env < m.envs.len() {
        MachineView {
            envs: m.envs.update(
                env as int,
                EnvView {
                    bindings: m.envs[env as int].bindings.insert(name, value),
                    ..m.envs[env as int]
                },
            ),
            ..m
        }
    } else {
        m
    }
}

/// Gives a new value to a name that is bound in the scope `hops` parents
/// out; nothing where it is not bound there.
pub open spec fn write_at(
    m: MachineView,
    env: nat,
    name: Seq<char>,
    value: ValueView,
    hops: nat,
) -> Option<
    MachineView,
> {
    match ancestor(m.envs, env, hops) {
        Some(at) => if m.envs[at as int].bindings.contains_key(name) {
            Some(define_in(m, at, name, value))
        } else {
            None
        },
        None => None,
    }
}

/// Assigns to a variable: with hops, from the current scope outward; without, in the globals.
pub open spec fn write_var(
    m: MachineView,
    name: Seq<char>,
    value: ValueView,
    hops: Option<nat>,
) -> Option<
    MachineView,
> {
    match hops {
        Some(h) => write_at(m, m.current, name, value, h),
        None => write_at(m, m.globals, name, value, 0),
    }
}

/// The state with one more scope, which is empty; its place is the number
/// of scopes before.
pub open spec fn with_env(m: MachineView, parent: Option<nat>) -> MachineView {
    MachineView { envs: m.envs.push(EnvView { parent, bindings: Map::empty() }), ..m }
}

/// The place that the next scope gets.
pub open spec fn next_env(m: MachineView) -> nat {
    m.envs.len()
}

/// The state with another current scope.
pub open spec fn with_current(m: MachineView, env: nat) -> MachineView {
    MachineView { current: env, ..m }
}

/// The state with one more class.
pub open spec fn with_class(m: MachineView, class: ClassView) -> MachineView {
    MachineView { classes: m.classes.push(class), ..m }
}

/// The place that the next class gets.
pub open spec fn next_class(m: MachineView) -> nat {
    m.classes.len()
}

/// The state with one more instance of a class, without fields.
pub open spec fn with_instance(m: MachineView, class: nat) -> MachineView {
    MachineView {
        instances: m.instances.push(InstanceView { class, fields: Map::empty() }),
        ..m
    }
}

/// The place that the next instance gets.
pub open spec fn next_instance(m: MachineView) -> nat {
    m.instances.len()
}

/// The state after a field of an instance was set.
pub open spec fn with_field(
    m: MachineView,
    instance: nat,
    name: Seq<char>,
    value: ValueView,
) -> MachineView {
    if instance < m.instances.len() {
        MachineView {
            instances: m.instances.update(
                instance as int,
                InstanceView {
                    fields: m.instances[instance as int].fields.insert(name, value),
                    ..m.instances[instance as int]
                },
            ),
            ..m
        }
    } else {
        m
    }
}

/// The state after one more line was printed.
pub open spec fn printed(m: MachineView, line: RenderedView) -> MachineView {
    MachineView { output: m.output.push(line), ..m }
}

/// The method of a name in a class or, failing that, in its super classes,
/// going up at most `steps` classes.
pub open spec fn method_from(
    classes: Seq<ClassView>,
    class: nat,
    name: Seq<char>,
    steps: nat,
) -> Option<
    CallableView,
>
    decreases steps,
{
    if class >= classes.len() || steps == 0 {
        None
    } else if classes[class as int].methods.contains_key(name) {
        Some(classes[class as int].methods[name])
    } else {
        match classes[class as int].super_class {
            Some(s) => method_from(classes, s, name, (steps - 1) as nat),
            None => None,
        }
    }
}

/// The method of a name in a class: its own, or else the nearest inherited one.
pub open spec fn find_method(classes: Seq<ClassView>, class: nat, name: Seq<char>) -> Option<
    CallableView,
> {
    method_from(classes, class, name, classes.len())
}

/// The state after a method was bound to an instance: one more scope,
/// inside the closure of the method, that binds `this`.
pub open spec fn with_bound(m: MachineView, method: CallableView, instance: nat) -> MachineView {
    define_in(with_env(m, method.closure), next_env(m), "this"@, ValueView::Instance(instance))
}

/// A method bound to an instance in state `m`: the same function, closed
/// over the new scope.
pub open spec fn bound(m: MachineView, method: CallableView) -> CallableView {
    CallableView { closure: Some(next_env(m)), ..method }
}

/// The name of a class; empty for a place that holds no class.
pub open spec fn class_name(m: MachineView, class: nat) -> Seq<char> {
    if class < m.classes.len() {
        m.classes[class as int].name
    } else {
        Seq::empty()
    }
}

/// The printed form of a value. Numbers are left to the host.
pub open spec fn display(m: MachineView, v: ValueView) -> RenderedView {
    match v {
        ValueView::Nil => RenderedView::Text("nil"@),
        ValueView::Bool(b) => RenderedView::Text(
            if b {
                "true"@
            } else {
                "false"@
            },
        ),
        ValueView::Number(n) => RenderedView::Number(n),
        ValueView::String(s) => RenderedView::Text("\""@ + s + "\""@),
        ValueView::Callable(c) => RenderedView::Text("<fun "@ + c.decl.name.lexeme + ">"@),
        ValueView::Class(c) => RenderedView::Text("<class "@ + class_name(m, c) + ">"@),
        ValueView::Instance(i) => RenderedView::Text(
            "<instance of class "@ + (if i < m.instances.len() {
                class_name(m, m.instances[i as int].class)
            } else {
                Seq::empty()
            }) + ">"@,
        ),
    }
}

/// The scope that a number of parent links leads to is one of the scopes
/// of the machine.
pub proof fn lemma_ancestor_in_range(m: MachineView, env: nat, hops: nat)
    ensures
        ancestor(m.envs, env, hops) is Some ==> ancestor(m.envs, env, hops)->Some_0 < m.envs.len(),
    decreases hops,
{
    if env < m.envs.len() && hops > 0 {
        match m.envs[env as int].parent {
            Some(p) => lemma_ancestor_in_range(m, p, (hops - 1) as nat),
            None => {},
        }
    }
}

} // verus!
