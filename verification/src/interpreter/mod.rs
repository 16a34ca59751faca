//! The tree-walking evaluator.
pub mod env;
pub mod eval;
pub mod exec;

use crate::interpreter::env::Environment;
use crate::machine::{
    ancestor, bound, class_name, define_in, display, find_method, method_from, next_class,
    next_env, next_instance, printed, read_at, read_var, with_bound, with_class, with_current,
    with_env, with_field, with_instance, write_at, write_var, ClassView, EnvView, InstanceView,
    MachineView,
};
use crate::scanner::Token;
use crate::table::Table;
use crate::value::{
    place, CallableView, CallableWrapper, Rendered, RenderedView, RuntimeError, RuntimeErrorView,
    RuntimeValue, ValueView,
};
use vstd::prelude::*;
use vstd::string::*;

verus! {

/// A class: its name, the place of its super class and its own methods.
pub struct Class {
    pub name: String,
    pub(crate) super_class: Option<usize>,
    pub(crate) methods: Table<CallableWrapper>,
}

impl View for Class {
    type V = ClassView;

    closed spec fn view(&self) -> ClassView {
        ClassView { name: self.name@, super_class: place(self.super_class), methods: self.methods@ }
    }
}

impl Class {
    pub fn new(name: &str, super_class: Option<usize>, methods: Table<CallableWrapper>) -> (r:
        Class)
        ensures
            r@ == (ClassView { name: name@, super_class: place(super_class), methods: methods@ }),
    {
        Class { name: name.to_owned(), super_class, methods }
    }

    /// The own method of a name.
    pub fn method(&self, name: &String) -> (r: Option<CallableWrapper>)
        ensures
            match r {
                Some(f) => self@.methods.contains_key(name@) && self@.methods[name@] == f@,
                None => !self@.methods.contains_key(name@),
            },
    {
        match self.methods.get(name) {
            Some(f) => Some(f.duplicate()),
            None => None,
        }
    }

    /// The method of a name: the own one, or else the nearest inherited one
    /// among `classes`.
    pub fn find_method(&self, classes: &Vec<Class>, name: &String) -> (r: Option<CallableWrapper>)
        ensures
            match r {
                Some(f) => self@.methods.contains_key(name@) && self@.methods[name@] == f@
                    || !self@.methods.contains_key(name@) && self@.super_class is Some
                    && method_from(
                    class_views(classes@),
                    self@.super_class->Some_0,
                    name@,
                    classes@.len(),
                ) == Some(f@),
                None => !self@.methods.contains_key(name@) && (self@.super_class is None
                    || method_from(
                    class_views(classes@),
                    self@.super_class->Some_0,
                    name@,
                    classes@.len(),
                ) is None),
            },
    {
        match self.method(name) {
            Some(f) => Some(f),
            None => match self.super_class {
                Some(s) => method_in(classes, s, name, classes.len()),
                None => None,
            },
        }
    }
}

/// An instance: the place of its class and its fields.
pub struct Instance {
    pub(crate) class: usize,
    pub(crate) fields: Table<RuntimeValue>,
}

impl View for Instance {
    type V = InstanceView;

    closed spec fn view(&self) -> InstanceView {
        InstanceView { class: self.class as nat, fields: self.fields@ }
    }
}

impl Instance {
    /// An instance of the class at `class`, without fields.
    pub fn new(class: usize) -> (r: Instance)
        ensures
            r@ == (InstanceView { class: class as nat, fields: Map::empty() }),
    {
        Instance { class, fields: Table::new() }
    }

    /// The field of a name.
    pub fn field(&self, name: &String) -> (r: Option<RuntimeValue>)
        ensures
            match r {
                Some(v) => self@.fields.contains_key(name@) && self@.fields[name@] == v@,
                None => !self@.fields.contains_key(name@),
            },
    {
        match self.fields.get(name) {
            Some(v) => Some(v.duplicate()),
            None => None,
        }
    }

    /// Sets a field; a field that the instance lacks is created.
    pub fn set(&mut self, name: &String, v: &RuntimeValue)
        ensures
            final(self)@ == (InstanceView {
                fields: old(self)@.fields.insert(name@, v@),
                ..old(self)@
            }),
    {
        self.fields.set(name, v.duplicate());
    }
}

pub open spec fn env_views(envs: Seq<Environment>) -> Seq<EnvView> {
    envs.map_values(|e: Environment| e@)
}

pub open spec fn class_views(classes: Seq<Class>) -> Seq<ClassView> {
    classes.map_values(|c: Class| c@)
}

pub open spec fn instance_views(instances: Seq<Instance>) -> Seq<InstanceView> {
    instances.map_values(|i: Instance| i@)
}

pub open spec fn rendered_views(lines: Seq<Rendered>) -> Seq<RenderedView> {
    lines.map_values(|l: Rendered| l@)
}

/// The method of a name in the class at `class` or above it, going up at
/// most `steps` classes.
pub fn method_in(classes: &Vec<Class>, class: usize, name: &String, steps: usize) -> (r: Option<
    CallableWrapper,
>)
    ensures
        match r {
            Some(f) => method_from(class_views(classes@), class as nat, name@, steps as nat) == Some(f@),
            None => method_from(class_views(classes@), class as nat, name@, steps as nat) is None,
        },
{
    let mut at = class;
    let mut left = steps;
    while left > 0 && at < classes.len()
        invariant
            method_from(class_views(classes@), at as nat, name@, left as nat) == method_from(
                class_views(classes@),
                class as nat,
                name@,
                steps as nat,
            ),
        decreases left,
    {
        match classes[at].method(name) {
            Some(f) => {
                return Some(f);
            },
            None => {},
        }
        match classes[at].super_class {
            Some(s) => {
                at = s;
                left -= 1;
            },
            None => {
                return None;
            },
        }
    }
    None
}

/// The default limit of an interpreter: as good as none.
pub const DEFAULT_LIMIT: u64 = 0xffff_ffff_ffff_ffff;

/// The state of a running program: scopes, classes and instances in tables
/// of their own, named by their places; values refer to them by place, so
/// that scopes, closures and instances may refer to each other in circles.
///
/// Nothing is taken out of the tables while a program runs. A scope, a class
/// or an instance keeps its place and its storage until the interpreter is
/// dropped, whether or not anything still refers to it: unreachable scopes
/// and circles of them are not reclaimed earlier.
///
/// What a program prints is not written anywhere. It is kept, in order, until
/// `take_output` hands it out. A host that shows the output of a long run as
/// it goes takes the program step by step with `step` and takes the output
/// after each; what one statement prints is kept until that statement ends.
pub struct Interpreter {
    pub(crate) envs: Vec<Environment>,
    pub(crate) classes: Vec<Class>,
    pub(crate) instances: Vec<Instance>,
    pub(crate) globals_env: usize,
    pub(crate) current_env: usize,
    pub(crate) output: Vec<Rendered>,
    pub(crate) limit: u64,
}

impl View for Interpreter {
    type V = MachineView;

    closed spec fn view(&self) -> MachineView {
        MachineView {
            envs: env_views(self.envs@),
            classes: class_views(self.classes@),
            instances: instance_views(self.instances@),
            globals: self.globals_env as nat,
            current: self.current_env as nat,
            output: rendered_views(self.output@),
        }
    }
}

/// The state of a new interpreter: one empty scope, the globals, which is
/// also the current one.
pub open spec fn initial_machine() -> MachineView {
    MachineView {
        envs: seq![EnvView { parent: None, bindings: Map::empty() }],
        classes: Seq::empty(),
        instances: Seq::empty(),
        globals: 0,
        current: 0,
        output: Seq::empty(),
    }
}

pub open spec fn option_value_view(v: Option<RuntimeValue>) -> Option<ValueView> {
    match v {
        Some(v) => Some(v@),
        None => None,
    }
}

pub open spec fn option_callable_view(v: Option<CallableWrapper>) -> Option<CallableView> {
    match v {
        Some(v) => Some(v@),
        None => None,
    }
}

impl Interpreter {
    pub fn new() -> (r: Interpreter)
        ensures
            r@ == initial_machine(),
            r.limit() == DEFAULT_LIMIT,
    {
        Interpreter::with_limit(DEFAULT_LIMIT)
    }

    /// An interpreter that gives up where evaluation nests deeper, or a
    /// loop runs longer, than `limit`.
    pub fn with_limit(limit: u64) -> (r: Interpreter)
        ensures
            r@ == initial_machine(),
            r.limit() == limit,
    {
        let mut envs: Vec<Environment> = Vec::new();
        envs.push(Environment::root());
        let r = Interpreter {
            envs,
            classes: Vec::new(),
            instances: Vec::new(),
            globals_env: 0,
            current_env: 0,
            output: Vec::new(),
            limit,
        };
        assert(r@.envs =~= initial_machine().envs);
        assert(r@.classes =~= initial_machine().classes);
        assert(r@.instances =~= initial_machine().instances);
        assert(r@.output =~= initial_machine().output);
        r
    }

    pub closed spec fn limit(&self) -> u64 {
        self.limit
    }

    /// Hands out what was printed since the last call, in order.
    pub fn take_output(&mut self) -> (r: Vec<Rendered>)
        ensures
            rendered_views(r@) == old(self)@.output,
            final(self)@ == (MachineView { output: Seq::empty(), ..old(self)@ }),
            final(self).limit() == old(self).limit(),
    {
        let mut out: Vec<Rendered> = Vec::new();
        core::mem::swap(&mut out, &mut self.output);
        assert(rendered_views(self.output@) =~= Seq::empty());
        out
    }

    pub(crate) fn globals(&self) -> (r: usize)
        ensures
            r as nat == self@.globals,
    {
        self.globals_env
    }

    pub(crate) fn current(&self) -> (r: usize)
        ensures
            r as nat == self@.current,
    {
        self.current_env
    }

    pub(crate) fn set_current(&mut self, env: usize)
        ensures
            final(self)@ == with_current(old(self)@, env as nat),
            final(self).limit() == old(self).limit(),
    {
        self.current_env = env;
    }

    pub(crate) fn alloc_env(&mut self, parent: Option<usize>) -> (id: usize)
        ensures
            final(self)@ == with_env(old(self)@, place(parent)),
            id as nat == next_env(old(self)@),
            final(self).limit() == old(self).limit(),
    {
        let id = self.envs.len();
        let env = match parent {
            Some(p) => Environment::child(p),
            None => Environment::root(),
        };
        self.envs.push(env);
        assert(env_views(self.envs@) =~= env_views(old(self).envs@).push(
            EnvView { parent: place(parent), bindings: Map::empty() },
        ));
        id
    }

    pub(crate) fn define_in(&mut self, env: usize, name: &String, value: &RuntimeValue)
        ensures
            final(self)@ == define_in(old(self)@, env as nat, name@, value@),
            final(self).limit() == old(self).limit(),
    {
        if env < self.envs.len() {
            self.envs[env].define(name, value);
            assert(env_views(self.envs@) =~= env_views(old(self).envs@).update(
                env as int,
                EnvView {
                    bindings: old(self)@.envs[env as int].bindings.insert(name@, value@),
                    ..old(self)@.envs[env as int]
                },
            ));
        }
    }

    /// The place of the scope `hops` parents out from a scope.
    pub(crate) fn ancestor(&self, env: usize, hops: usize) -> (r: Option<usize>)
        ensures
            place(r) == ancestor(self@.envs, env as nat, hops as nat),
            r is Some ==> r->Some_0 < self@.envs.len(),
    {
        let mut at = env;
        let mut left = hops;
        loop
            invariant
                ancestor(self@.envs, at as nat, left as nat) == ancestor(
                    self@.envs,
                    env as nat,
                    hops as nat,
                ),
            decreases left,
        {
            if at >= self.envs.len() {
                return None;
            }
            if left == 0 {
                return Some(at);
            }
            match self.envs[at].parent() {
                Some(p) => {
                    at = p;
                    left -= 1;
                },
                None => {
                    return None;
                },
            }
        }
    }

    /// The value of a name in the scope `hops` parents out from a scope.
    pub fn get_at(&self, env: usize, name: &String, hops: usize) -> (r: Option<RuntimeValue>)
        ensures
            option_value_view(r) == read_at(self@, env as nat, name@, hops as nat),
    {
        match self.ancestor(env, hops) {
            Some(at) => self.envs[at].get(name),
            None => None,
        }
    }

    /// Gives a new value to a name that is bound in the scope `hops`
    /// parents out from a scope; says whether it was bound there.
    pub fn assign_at(&mut self, env: usize, name: &String, value: &RuntimeValue, hops: usize) -> (r:
        bool)
        ensures
            match write_at(old(self)@, env as nat, name@, value@, hops as nat) {
                Some(m) => r && final(self)@ == m,
                None => !r && final(self)@ == old(self)@,
            },
            final(self).limit() == old(self).limit(),
    {
        match self.ancestor(env, hops) {
            Some(at) => {
                let r = self.envs[at].assign(name, value);
                if r {
                    assert(env_views(self.envs@) =~= env_views(old(self).envs@).update(
                        at as int,
                        EnvView {
                            bindings: old(self)@.envs[at as int].bindings.insert(name@, value@),
                            ..old(self)@.envs[at as int]
                        },
                    ));
                } else {
                    assert(env_views(self.envs@) =~= env_views(old(self).envs@));
                }
                r
            },
            None => false,
        }
    }

    pub(crate) fn look_up_var(&self, name: &Token, hops: Option<usize>) -> (r: Result<
        RuntimeValue,
        RuntimeError,
    >)
        ensures
            match r {
                Ok(v) => read_var(self@, name@.lexeme, crate::expression::hops_view(hops)) == Some(
                    v@,
                ),
                Err(e) => read_var(self@, name@.lexeme, crate::expression::hops_view(hops)) is None
                    && e@
                    == RuntimeErrorView::UndefinedVariable(name@),
            },
    {
        let value = match hops {
            Some(h) => self.get_at(self.current_env, &name.lexeme, h),
            None => self.get_at(self.globals_env, &name.lexeme, 0),
        };
        match value {
            Some(v) => Ok(v),
            None => Err(RuntimeError::UndefinedVariable(name.duplicate())),
        }
    }

    pub(crate) fn assign_var(
        &mut self,
        name: &Token,
        value: &RuntimeValue,
        hops: Option<usize>,
    ) -> (r: bool)
        ensures
            match write_var(old(self)@, name@.lexeme, value@, crate::expression::hops_view(hops)) {
                Some(m) => r && final(self)@ == m,
                None => !r && final(self)@ == old(self)@,
            },
            final(self).limit() == old(self).limit(),
    {
        match hops {
            Some(h) => self.assign_at(self.current_env, &name.lexeme, value, h),
            None => self.assign_at(self.globals_env, &name.lexeme, value, 0),
        }
    }

    pub(crate) fn alloc_class(&mut self, class: Class) -> (id: usize)
        ensures
            final(self)@ == with_class(old(self)@, class@),
            id as nat == next_class(old(self)@),
            final(self).limit() == old(self).limit(),
    {
        let id = self.classes.len();
        self.classes.push(class);
        assert(class_views(self.classes@) =~= class_views(old(self).classes@).push(class@));
        id
    }

    pub(crate) fn alloc_instance(&mut self, class: usize) -> (id: usize)
        ensures
            final(self)@ == with_instance(old(self)@, class as nat),
            id as nat == next_instance(old(self)@),
            final(self).limit() == old(self).limit(),
    {
        let id = self.instances.len();
        self.instances.push(Instance::new(class));
        assert(instance_views(self.instances@) =~= instance_views(old(self).instances@).push(
            InstanceView { class: class as nat, fields: Map::empty() },
        ));
        id
    }

    pub(crate) fn set_field(&mut self, instance: usize, name: &String, value: &RuntimeValue)
        ensures
            final(self)@ == with_field(old(self)@, instance as nat, name@, value@),
            final(self).limit() == old(self).limit(),
    {
        if instance < self.instances.len() {
            self.instances[instance].set(name, value);
            assert(instance_views(self.instances@) =~= instance_views(
                old(self).instances@,
            ).update(
                instance as int,
                InstanceView {
                    fields: old(self)@.instances[instance as int].fields.insert(name@, value@),
                    ..old(self)@.instances[instance as int]
                },
            ));
        }
    }

    /// The method of a name in a class: its own, or else the nearest
    /// inherited one.
    pub fn find_method(&self, class: usize, name: &String) -> (r: Option<CallableWrapper>)
        ensures
            option_callable_view(r) == find_method(self@.classes, class as nat, name@),
    {
        method_in(&self.classes, class, name, self.classes.len())
    }

    /// Binds a method to an instance: the same function, closed over a new
    /// scope inside its closure that binds `this` to the instance.
    pub fn bind_method(&mut self, method: &CallableWrapper, instance: usize) -> (r: CallableWrapper)
        ensures
            final(self)@ == with_bound(old(self)@, method@, instance as nat),
            r@ == bound(old(self)@, method@),
            final(self).limit() == old(self).limit(),
    {
        let env = self.alloc_env(method.closure);
        let this = "this".to_owned();
        self.define_in(env, &this, &RuntimeValue::Instance(instance));
        let copy = method.duplicate();
        CallableWrapper { callable: copy.callable, closure: Some(env) }
    }

    /// The limit that evaluations from outside start with.
    pub fn limit_value(&self) -> (r: u64)
        ensures
            r == self.limit(),
    {
        self.limit
    }

    /// The own initializer of a class.
    pub(crate) fn own_initializer(&self, class: usize) -> (r: Option<CallableWrapper>)
        ensures
            option_callable_view(r) == crate::semantics::initializer(self@, class as nat),
    {
        if class < self.classes.len() {
            let init = "init".to_owned();
            self.classes[class].method(&init)
        } else {
            None
        }
    }

    /// The property of an instance under a name: a field, or else a method
    /// of its class, bound to the instance.
    pub fn instance_get(&mut self, instance: usize, name: &String) -> (r: Option<RuntimeValue>)
        ensures
            match crate::semantics::property(old(self)@, instance as nat, name@) {
                Some((m, v)) => final(self)@ == m && option_value_view(r) == Some(v),
                None => final(self)@ == old(self)@ && r is None,
            },
            final(self).limit() == old(self).limit(),
    {
        if instance >= self.instances.len() {
            return None;
        }
        match self.instances[instance].field(name) {
            Some(v) => Some(v),
            None => {
                let class = self.instances[instance].class;
                match self.find_method(class, name) {
                    Some(method) => Some(RuntimeValue::Callable(self.bind_method(&method, instance))),
                    None => None,
                }
            },
        }
    }

    pub(crate) fn class_name(&self, class: usize) -> (r: String)
        ensures
            r@ == class_name(self@, class as nat),
    {
        if class < self.classes.len() {
            self.classes[class].name.clone()
        } else {
            String::new()
        }
    }

    /// The printed form of a value.
    pub fn display(&self, v: &RuntimeValue) -> (r: Rendered)
        ensures
            r@ == display(self@, v@),
    {
        match v {
            RuntimeValue::Nil => Rendered::Text("nil".to_owned()),
            RuntimeValue::Bool(b) => if *b {
                Rendered::Text("true".to_owned())
            } else {
                Rendered::Text("false".to_owned())
            },
            RuntimeValue::Number(n) => Rendered::Number(*n),
            RuntimeValue::String(s) => Rendered::Text(framed("\"", s.as_str(), "\"")),
            RuntimeValue::Callable(c) => {
                proof {
                    reveal_with_fuel(crate::statement::Function::view, 1);
                    reveal_with_fuel(crate::statement::Stmt::view, 1);
                }
                Rendered::Text(framed("<fun ", c.callable.decl.name.lexeme.as_str(), ">"))
            },
            RuntimeValue::Class(c) => {
                let name = self.class_name(*c);
                Rendered::Text(framed("<class ", name.as_str(), ">"))
            },
            RuntimeValue::Instance(i) => {
                let name = if *i < self.instances.len() {
                    self.class_name(self.instances[*i].class)
                } else {
                    String::new()
                };
                Rendered::Text(framed("<instance of class ", name.as_str(), ">"))
            },
        }
    }

    pub(crate) fn print(&mut self, line: Rendered)
        ensures
            final(self)@ == printed(old(self)@, line@),
            final(self).limit() == old(self).limit(),
    {
        self.output.push(line);
        assert(rendered_views(self.output@) =~= rendered_views(old(self).output@).push(line@));
    }
}

/// A text between two others.
pub fn framed(before: &str, text: &str, after: &str) -> (r: String)
    ensures
        r@ == before@ + text@ + after@,
{
    let mut r = before.to_owned();
    r.append(text);
    r.append(after);
    r
}

} // verus!
