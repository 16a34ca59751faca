//! One scope of the running program.
use crate::machine::EnvView;
use crate::table::Table;
use crate::value::{place, RuntimeValue};
use vstd::prelude::*;

verus! {

/// A scope: a table of bindings and the place of the scope around it.
pub struct Environment {
    pub(crate) parent: Option<usize>,
    pub(crate) bindings: Table<RuntimeValue>,
}

impl View for Environment {
    type V = EnvView;

    closed spec fn view(&self) -> EnvView {
        EnvView { parent: place(self.parent), bindings: self.bindings@ }
    }
}

impl Environment {
    /// An empty scope without a scope around it.
    pub fn root() -> (r: Environment)
        ensures
            r@ == (EnvView { parent: None, bindings: Map::empty() }),
    {
        Environment { parent: None, bindings: Table::new() }
    }

    /// An empty scope inside the scope at `parent_env`.
    pub fn child(parent_env: usize) -> (r: Environment)
        ensures
            r@ == (EnvView { parent: Some(parent_env as nat), bindings: Map::empty() }),
    {
        Environment { parent: Some(parent_env), bindings: Table::new() }
    }

    /// Binds a name in this scope, whatever it was bound to.
    pub fn define(&mut self, name: &String, value: &RuntimeValue)
        ensures
            final(self)@ == (EnvView {
                bindings: old(self)@.bindings.insert(name@, value@),
                ..old(self)@
            }),
    {
        self.bindings.set(name, value.duplicate());
    }

    /// Gives a new value to a name that is bound in this scope; says
    /// whether it was bound.
    pub fn assign(&mut self, name: &String, value: &RuntimeValue) -> (r: bool)
        ensures
            r == old(self)@.bindings.contains_key(name@),
            final(self)@ == (if r {
                EnvView { bindings: old(self)@.bindings.insert(name@, value@), ..old(self)@ }
            } else {
                old(self)@
            }),
    {
        if self.bindings.contains(name) {
            self.bindings.set(name, value.duplicate());
            true
        } else {
            false
        }
    }

    /// The value of a name in this scope.
    pub fn get(&self, name: &String) -> (r: Option<RuntimeValue>)
        ensures
            match r {
                Some(v) => self@.bindings.contains_key(name@) && self@.bindings[name@] == v@,
                None => !self@.bindings.contains_key(name@),
            },
    {
        match self.bindings.get(name) {
            Some(v) => Some(v.duplicate()),
            None => None,
        }
    }

    pub fn parent(&self) -> (r: Option<usize>)
        ensures
            place(r) == self@.parent,
    {
        self.parent
    }
}

} // verus!
