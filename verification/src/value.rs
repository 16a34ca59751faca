//! Runtime values and runtime errors.
use crate::number::Number;
use crate::scanner::{Token, TokenView};
use crate::statement::{self, FunctionView};
use std::rc::Rc;
use vstd::prelude::*;

verus! {

/// A function value: a declaration, and whether it is the initializer of a class.
pub struct Function {
    pub decl: Rc<statement::Function>,
    pub is_initializer: bool,
}

/// A function together with the environment that it closes over.
pub struct CallableWrapper {
    pub callable: Function,
    pub closure: Option<usize>,
}

/// The mathematical model of a function with its closure.
pub struct CallableView {
    pub decl: FunctionView,
    pub is_initializer: bool,
    pub closure: Option<nat>,
}

/// A place in a table of the interpreter, as the number that it is.
pub open spec fn place(p: Option<usize>) -> Option<nat> {
    match p {
        Some(i) => Some(i as nat),
        None => None,
    }
}

impl View for CallableWrapper {
    type V = CallableView;

    open spec fn view(&self) -> CallableView {
        CallableView {
            decl: self.callable.decl@,
            is_initializer: self.callable.is_initializer,
            closure: place(self.closure),
        }
    }
}

/// A value of the language. Classes and instances are named by their place
/// in the interpreter's tables.
pub enum RuntimeValue {
    Nil,
    Bool(bool),
    Number(Number),
    String(String),
    Callable(CallableWrapper),
    Class(usize),
    Instance(usize),
}

/// The mathematical model of a value.
pub enum ValueView {
    Nil,
    Bool(bool),
    Number(Number),
    String(Seq<char>),
    Callable(CallableView),
    Class(nat),
    Instance(nat),
}

impl View for RuntimeValue {
    type V = ValueView;

    open spec fn view(&self) -> ValueView {
        match self {
            RuntimeValue::Nil => ValueView::Nil,
            RuntimeValue::Bool(b) => ValueView::Bool(*b),
            RuntimeValue::Number(n) => ValueView::Number(*n),
            RuntimeValue::String(s) => ValueView::String(s@),
            RuntimeValue::Callable(c) => ValueView::Callable(c@),
            RuntimeValue::Class(c) => ValueView::Class(*c as nat),
            RuntimeValue::Instance(i) => ValueView::Instance(*i as nat),
        }
    }
}

/// `Rc::clone`: another pointer to the same declaration.
#[verifier::external_body]
fn share(decl: &Rc<statement::Function>) -> (r: Rc<statement::Function>)
    ensures
        r == *decl,
{
    Rc::clone(decl)
}

impl CallableWrapper {
    pub fn duplicate(&self) -> (r: CallableWrapper)
        ensures
            r@ == self@,
    {
        CallableWrapper {
            callable: Function {
                decl: share(&self.callable.decl),
                is_initializer: self.callable.is_initializer,
            },
            closure: self.closure,
        }
    }

    /// The number of parameters.
    pub fn arity(&self) -> (r: usize)
        ensures
            r == self@.decl.params.len(),
    {
        proof {
            reveal_with_fuel(statement::Function::view, 1);
            reveal_with_fuel(statement::Stmt::view, 1);
        }
        self.callable.decl.params.len()
    }
}

impl RuntimeValue {
    pub fn duplicate(&self) -> (r: RuntimeValue)
        ensures
            r@ == self@,
    {
        match self {
            RuntimeValue::Nil => RuntimeValue::Nil,
            RuntimeValue::Bool(b) => RuntimeValue::Bool(*b),
            RuntimeValue::Number(n) => RuntimeValue::Number(*n),
            RuntimeValue::String(s) => RuntimeValue::String(s.clone()),
            RuntimeValue::Callable(c) => RuntimeValue::Callable(c.duplicate()),
            RuntimeValue::Class(c) => RuntimeValue::Class(*c),
            RuntimeValue::Instance(i) => RuntimeValue::Instance(*i),
        }
    }
}

/// Exactly `nil` and `false` are falsy.
pub open spec fn truthy(v: ValueView) -> bool {
    match v {
        ValueView::Nil => false,
        ValueView::Bool(b) => b,
        _ => true,
    }
}

/// Whether a value counts as true.
pub fn is_truthy(value: &RuntimeValue) -> (r: bool)
    ensures
        r == truthy(value@),
        r == !(value@ == ValueView::Nil || value@ == ValueView::Bool(false)),
{
    match value {
        RuntimeValue::Nil => false,
        RuntimeValue::Bool(b) => *b,
        _ => true,
    }
}

/// Why evaluation stopped.
#[derive(Debug)]
pub enum RuntimeError {
    UnknownUnaryExpression(Token),
    UnknownBinaryExpression(Token),
    UnaryMinusExpectsNumber(Token),
    BinaryOperatorExpectsNumbers(Token),
    BinaryPlusExpectsTwoNumbersOrTwoStrings(Token),
    DivisionByZero(Token),
    UndefinedVariable(Token),
    NonCallableCalled(Token),
    CallableArityMismatch { right_paren: Token, expected: usize, found: usize },
    OnlyInstancesHaveProperties(Token),
    UndefinedProperty(Token),
    SuperClassMustBeAClass(Token),
    /// Evaluation went deeper, or a loop ran longer, than the limit allows.
    LimitExceeded,
}

/// The mathematical model of a runtime error.
pub enum RuntimeErrorView {
    UnknownUnaryExpression(TokenView),
    UnknownBinaryExpression(TokenView),
    UnaryMinusExpectsNumber(TokenView),
    BinaryOperatorExpectsNumbers(TokenView),
    BinaryPlusExpectsTwoNumbersOrTwoStrings(TokenView),
    DivisionByZero(TokenView),
    UndefinedVariable(TokenView),
    NonCallableCalled(TokenView),
    CallableArityMismatch { right_paren: TokenView, expected: nat, found: nat },
    OnlyInstancesHaveProperties(TokenView),
    UndefinedProperty(TokenView),
    SuperClassMustBeAClass(TokenView),
    LimitExceeded,
}

impl View for RuntimeError {
    type V = RuntimeErrorView;

    open spec fn view(&self) -> RuntimeErrorView {
        match self {
            RuntimeError::UnknownUnaryExpression(t) => RuntimeErrorView::UnknownUnaryExpression(t@),
            RuntimeError::UnknownBinaryExpression(t) => RuntimeErrorView::UnknownBinaryExpression(
                t@,
            ),
            RuntimeError::UnaryMinusExpectsNumber(t) => RuntimeErrorView::UnaryMinusExpectsNumber(
                t@,
            ),
            RuntimeError::BinaryOperatorExpectsNumbers(t) => {
                RuntimeErrorView::BinaryOperatorExpectsNumbers(t@)
            },
            RuntimeError::BinaryPlusExpectsTwoNumbersOrTwoStrings(t) => {
                RuntimeErrorView::BinaryPlusExpectsTwoNumbersOrTwoStrings(t@)
            },
            RuntimeError::DivisionByZero(t) => RuntimeErrorView::DivisionByZero(t@),
            RuntimeError::UndefinedVariable(t) => RuntimeErrorView::UndefinedVariable(t@),
            RuntimeError::NonCallableCalled(t) => RuntimeErrorView::NonCallableCalled(t@),
            RuntimeError::CallableArityMismatch {
                right_paren,
                expected,
                found,
            } => RuntimeErrorView::CallableArityMismatch {
                right_paren: right_paren@,
                expected: *expected as nat,
                found: *found as nat,
            },
            RuntimeError::OnlyInstancesHaveProperties(t) => {
                RuntimeErrorView::OnlyInstancesHaveProperties(t@)
            },
            RuntimeError::UndefinedProperty(t) => RuntimeErrorView::UndefinedProperty(t@),
            RuntimeError::SuperClassMustBeAClass(t) => RuntimeErrorView::SuperClassMustBeAClass(t@),
            RuntimeError::LimitExceeded => RuntimeErrorView::LimitExceeded,
        }
    }
}

pub type RuntimeResult = Result<RuntimeValue, RuntimeError>;

/// The model of the result of an evaluation.
pub open spec fn value_outcome(r: RuntimeResult) -> Result<ValueView, RuntimeErrorView> {
    match r {
        Ok(v) => Ok(v@),
        Err(e) => Err(e@),
    }
}

/// What a print statement hands out: text, or a number that is left to the
/// host to write in decimal.
#[derive(Debug)]
pub enum Rendered {
    Text(String),
    Number(Number),
}

/// The mathematical model of a printed line.
pub enum RenderedView {
    Text(Seq<char>),
    Number(Number),
}

impl View for Rendered {
    type V = RenderedView;

    open spec fn view(&self) -> RenderedView {
        match self {
            Rendered::Text(s) => RenderedView::Text(s@),
            Rendered::Number(n) => RenderedView::Number(*n),
        }
    }
}

} // verus!
