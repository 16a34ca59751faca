//! What evaluation means: each expression and statement as a function from
//! the state of the interpreter to the state after it and the result.
//!
//! Every evaluation takes a limit. A nested evaluation gets the limit less
//! one, and so does each further turn of a loop; where the limit is used up,
//! the result is `LimitExceeded`.
use crate::expression::{ExprView, LiteralView, VariableView};
use crate::machine::{
    bound, define_in, display, find_method, next_class, next_env, next_instance, printed,
    read_at, read_var, with_bound, with_class, with_current, with_env, with_field,
    with_instance, write_at, write_var, ClassView, MachineView,
};
use crate::number::Number;
use crate::resolver::this_token;
use crate::scanner::{TokenType, TokenView};
use crate::statement::{FunctionView, StmtView};
use crate::value::{truthy, CallableView, RuntimeErrorView, ValueView};
use vstd::prelude::*;

verus! {

/// How a statement ended, where it did not simply end.
pub enum EffectView {
    Return(ValueView),
    Break,
}

/// The state after an evaluation, and its result.
pub struct Outcome<T> {
    pub machine: MachineView,
    pub result: Result<T, RuntimeErrorView>,
}

/// An evaluation that gave a value.
pub open spec fn give<T>(machine: MachineView, value: T) -> Outcome<T> {
    Outcome { machine, result: Ok(value) }
}

/// An evaluation that ended in an error.
pub open spec fn fail<T>(machine: MachineView, error: RuntimeErrorView) -> Outcome<T> {
    Outcome { machine, result: Err(error) }
}

/// The value of a literal.
pub open spec fn literal_value(l: LiteralView) -> ValueView {
    match l {
        LiteralView::Number(n) => ValueView::Number(n),
        LiteralView::String(s) => ValueView::String(s),
        LiteralView::True => ValueView::Bool(true),
        LiteralView::False => ValueView::Bool(false),
        LiteralView::Nil => ValueView::Nil,
    }
}

/// `-` negates a number; `!` gives whether the operand is falsy.
pub open spec fn unary_result(
    operator: TokenView,
    v: ValueView,
) -> Result<ValueView, RuntimeErrorView> {
    match operator.token_type {
        TokenType::Minus => match v {
            ValueView::Number(n) => Ok(ValueView::Number(n.opposite())),
            _ => Err(RuntimeErrorView::UnaryMinusExpectsNumber(operator)),
        },
        TokenType::Bang => Ok(ValueView::Bool(!truthy(v))),
        _ => Err(RuntimeErrorView::UnknownUnaryExpression(operator)),
    }
}

/// Equality of values: `nil` equals `nil`; booleans, numbers and strings
/// equal by value; nothing else is equal.
pub open spec fn equal_values(a: ValueView, b: ValueView) -> bool {
    match (a, b) {
        (ValueView::Nil, ValueView::Nil) => true,
        (ValueView::Bool(x), ValueView::Bool(y)) => x == y,
        (ValueView::Number(x), ValueView::Number(y)) => x.same_value(y),
        (ValueView::String(x), ValueView::String(y)) => x == y,
        _ => false,
    }
}

/// The result of an operator that takes two numbers.
pub open spec fn numeric_result(kind: TokenType, a: Number, b: Number) -> ValueView {
    match kind {
        TokenType::Less => ValueView::Bool(a.below(b)),
        TokenType::LessEqual => ValueView::Bool(a.below(b) || a.same_value(b)),
        TokenType::Greater => ValueView::Bool(b.below(a)),
        TokenType::GreaterEqual => ValueView::Bool(b.below(a) || b.same_value(a)),
        TokenType::Star => ValueView::Number(a.product(b)),
        _ => ValueView::Number(a.difference(b)),
    }
}

/// The result of a binary operator on two values.
pub open spec fn binary_result(operator: TokenView, l: ValueView, r: ValueView) -> Result<
    ValueView,
    RuntimeErrorView,
> {
    match operator.token_type {
        TokenType::EqualEqual => Ok(ValueView::Bool(equal_values(l, r))),
        TokenType::BangEqual => Ok(ValueView::Bool(!equal_values(l, r))),
        TokenType::Less | TokenType::LessEqual | TokenType::Greater | TokenType::GreaterEqual
        | TokenType::Star | TokenType::Minus => match (l, r) {
            (ValueView::Number(a), ValueView::Number(b)) => Ok(
                numeric_result(operator.token_type, a, b),
            ),
            _ => Err(RuntimeErrorView::BinaryOperatorExpectsNumbers(operator)),
        },
        TokenType::Slash => match (l, r) {
            (ValueView::Number(a), ValueView::Number(b)) => if b.is_zero() {
                Err(RuntimeErrorView::DivisionByZero(operator))
            } else {
                Ok(ValueView::Number(a.quotient(b)))
            },
            _ => Err(RuntimeErrorView::BinaryOperatorExpectsNumbers(operator)),
        },
        TokenType::Plus => match (l, r) {
            (ValueView::Number(a), ValueView::Number(b)) => Ok(ValueView::Number(a.sum(b))),
            (ValueView::String(a), ValueView::String(b)) => Ok(ValueView::String(a + b)),
            _ => Err(RuntimeErrorView::BinaryPlusExpectsTwoNumbersOrTwoStrings(operator)),
        },
        _ => Err(RuntimeErrorView::UnknownBinaryExpression(operator)),
    }
}

/// Whether the left operand decides a logical expression, so that the
/// right operand is not evaluated: a truthy one decides `or`, a falsy one `and`.
pub open spec fn decides(kind: TokenType, left: ValueView) -> bool {
    (kind == TokenType::Or && truthy(left)) || (kind == TokenType::And && !truthy(left))
}

/// The state with the first parameters bound to the arguments, from the
/// `i`-th on, in a scope.
pub open spec fn bind_params(
    m: MachineView,
    env: nat,
    params: Seq<TokenView>,
    args: Seq<ValueView>,
    i: nat,
) -> MachineView
    decreases args.len() - i,
{
    if i >= args.len() || i >= params.len() {
        m
    } else {
        bind_params(define_in(m, env, params[i as int].lexeme, args[i as int]), env, params, args, i + 1)
    }
}

/// The scope around the scope of a call: the closure of the function, or
/// the globals for a function without one.
pub open spec fn call_parent(m: MachineView, f: CallableView) -> nat {
    match f.closure {
        Some(c) => c,
        None => m.globals,
    }
}

/// What a function returned.
pub open spec fn returned(effect: Option<EffectView>) -> ValueView {
    match effect {
        Some(EffectView::Return(v)) => v,
        _ => ValueView::Nil,
    }
}

/// The instance that an initializer is bound to: what its closure binds
/// `this` to. Nothing for another function.
pub open spec fn own_instance(m: MachineView, f: CallableView) -> Option<ValueView> {
    if f.is_initializer {
        match f.closure {
            Some(c) => read_at(m, c, "this"@, 0),
            None => None,
        }
    } else {
        None
    }
}

/// The value of a call: what the body returned; for an initializer, the
/// instance that it was bound to when it was called, whatever the body
/// returned or did.
pub open spec fn call_value(own: Option<ValueView>, effect: Option<EffectView>) -> ValueView {
    match own {
        Some(instance) => instance,
        None => returned(effect),
    }
}

/// The methods of a class as its table: each closes over `closure`, and
/// the one named `init` is the initializer.
pub open spec fn method_table(methods: Seq<FunctionView>, closure: nat, i: nat, found: Map<
    Seq<char>,
    CallableView,
>) -> Map<Seq<char>, CallableView>
    decreases methods.len() - i,
{
    if i >= methods.len() {
        found
    } else {
        method_table(
            methods,
            closure,
            i + 1,
            found.insert(
                methods[i as int].name.lexeme,
                CallableView {
                    decl: methods[i as int],
                    is_initializer: methods[i as int].name.lexeme == "init"@,
                    closure: Some(closure),
                },
            ),
        )
    }
}

/// The property of an instance under a name: a field, or else a method of
/// its class bound to the instance, which takes one more scope.
pub open spec fn property(m: MachineView, instance: nat, name: Seq<char>) -> Option<
    (MachineView, ValueView),
> {
    if instance >= m.instances.len() {
        None
    } else if m.instances[instance as int].fields.contains_key(name) {
        Some((m, m.instances[instance as int].fields[name]))
    } else {
        match find_method(m.classes, m.instances[instance as int].class, name) {
            Some(method) => Some(
                (with_bound(m, method, instance), ValueView::Callable(bound(m, method))),
            ),
            None => None,
        }
    }
}

/// The own initializer of a class.
pub open spec fn initializer(m: MachineView, class: nat) -> Option<CallableView> {
    if class < m.classes.len() && m.classes[class as int].methods.contains_key("init"@) {
        Some(m.classes[class as int].methods["init"@])
    } else {
        None
    }
}

/// The error of a call with the wrong number of arguments.
pub open spec fn arity_mismatch(
    right_paren: TokenView,
    expected: nat,
    found: nat,
) -> RuntimeErrorView {
    RuntimeErrorView::CallableArityMismatch {
        right_paren,
        expected,
        found,
    }
}

/// The value of a variable, of `this` or of another name.
pub open spec fn eval_variable(m: MachineView, name: TokenView, hops: Option<nat>) -> Outcome<
    ValueView,
> {
    match read_var(m, name.lexeme, hops) {
        Some(v) => give(m, v),
        None => fail(m, RuntimeErrorView::UndefinedVariable(name)),
    }
}

/// `super.method`: the method of the super class, bound to `this`.
pub open spec fn eval_super(
    m: MachineView,
    keyword: TokenView,
    method: TokenView,
    hops_to_super: Option<nat>,
    hops_to_this: Option<nat>,
) -> Outcome<ValueView> {
    match read_var(m, keyword.lexeme, hops_to_super) {
        None => fail(m, RuntimeErrorView::UndefinedVariable(keyword)),
        Some(ValueView::Class(class)) => match read_var(m, this_token().lexeme, hops_to_this) {
            None => fail(m, RuntimeErrorView::UndefinedVariable(this_token())),
            Some(ValueView::Instance(i)) => match find_method(m.classes, class, method.lexeme) {
                Some(f) => give(with_bound(m, f, i), ValueView::Callable(bound(m, f))),
                None => fail(m, RuntimeErrorView::UndefinedProperty(method)),
            },
            Some(_) => fail(m, RuntimeErrorView::OnlyInstancesHaveProperties(keyword)),
        },
        Some(_) => fail(m, RuntimeErrorView::SuperClassMustBeAClass(keyword)),
    }
}

/// Evaluates an expression.
#[verifier::opaque]
pub open spec fn eval(m: MachineView, e: ExprView, limit: nat) -> Outcome<ValueView>
    decreases limit, 0nat, 0nat,
{
    if limit == 0 {
        fail(m, RuntimeErrorView::LimitExceeded)
    } else {
        let inner = (limit - 1) as nat;
        match e {
            ExprView::Literal(l) => give(m, literal_value(l)),
            ExprView::Grouping(nested) => eval(m, *nested, inner),
            ExprView::Unary { operator, right } => eval_unary(m, operator, *right, inner),
            ExprView::Binary { left, right, operator } => eval_binary(
                m,
                *left,
                operator,
                *right,
                inner,
            ),
            ExprView::Logical { left, right, operator } => eval_logical(
                m,
                *left,
                operator,
                *right,
                inner,
            ),
            ExprView::Variable { name, hops } => eval_variable(m, name, hops),
            ExprView::This { keyword, hops } => eval_variable(m, keyword, hops),
            ExprView::Assignment { name, hops, value } => eval_assignment(
                m,
                name,
                hops,
                *value,
                inner,
            ),
            ExprView::Call { right_paren, callee, args } => eval_call(
                m,
                *callee,
                right_paren,
                args,
                inner,
            ),
            ExprView::Get { name, object } => eval_get(m, *object, name, inner),
            ExprView::SetProperty { name, object, value } => eval_set(
                m,
                *object,
                name,
                *value,
                inner,
            ),
            ExprView::Super { keyword, method, hops_to_super, hops_to_this } => eval_super(
                m,
                keyword,
                method,
                hops_to_super,
                hops_to_this,
            ),
        }
    }
}

/// The operand is evaluated, then the operator applied.
#[verifier::opaque]
pub open spec fn eval_unary(
    m: MachineView,
    operator: TokenView,
    right: ExprView,
    limit: nat,
) -> Outcome<
    ValueView,
>
    decreases limit, 1nat, 0nat,
{
    let r = eval(m, right, limit);
    match r.result {
        Err(x) => fail(r.machine, x),
        Ok(v) => Outcome { machine: r.machine, result: unary_result(operator, v) },
    }
}

/// Both operands are evaluated, the left one first.
#[verifier::opaque]
pub open spec fn eval_binary(
    m: MachineView,
    left: ExprView,
    operator: TokenView,
    right: ExprView,
    limit: nat,
) -> Outcome<ValueView>
    decreases limit, 1nat, 0nat,
{
    let l = eval(m, left, limit);
    match l.result {
        Err(x) => fail(l.machine, x),
        Ok(a) => {
            let r = eval(l.machine, right, limit);
            match r.result {
                Err(x) => fail(r.machine, x),
                Ok(b) => Outcome { machine: r.machine, result: binary_result(operator, a, b) },
            }
        },
    }
}

/// The right operand is evaluated only where the left one does not decide.
#[verifier::opaque]
pub open spec fn eval_logical(
    m: MachineView,
    left: ExprView,
    operator: TokenView,
    right: ExprView,
    limit: nat,
) -> Outcome<ValueView>
    decreases limit, 1nat, 0nat,
{
    let l = eval(m, left, limit);
    match l.result {
        Err(x) => fail(l.machine, x),
        Ok(a) => if operator.token_type != TokenType::Or && operator.token_type != TokenType::And {
            fail(l.machine, RuntimeErrorView::UnknownBinaryExpression(operator))
        } else if decides(operator.token_type, a) {
            give(l.machine, a)
        } else {
            eval(l.machine, right, limit)
        },
    }
}

/// The value is evaluated, then assigned; it is the value of the assignment.
#[verifier::opaque]
pub open spec fn eval_assignment(
    m: MachineView,
    name: TokenView,
    hops: Option<nat>,
    value: ExprView,
    limit: nat,
) -> Outcome<ValueView>
    decreases limit, 1nat, 0nat,
{
    let r = eval(m, value, limit);
    match r.result {
        Err(x) => fail(r.machine, x),
        Ok(v) => match write_var(r.machine, name.lexeme, v, hops) {
            Some(changed) => give(changed, v),
            None => fail(r.machine, RuntimeErrorView::UndefinedVariable(name)),
        },
    }
}

/// A call: of a function, whose arity is checked before the arguments are
/// evaluated from left to right; or of a class.
#[verifier::opaque]
pub open spec fn eval_call(
    m: MachineView,
    callee: ExprView,
    right_paren: TokenView,
    args: Seq<ExprView>,
    limit: nat,
) -> Outcome<ValueView>
    decreases limit, 3nat, 0nat,
{
    let c = eval(m, callee, limit);
    match c.result {
        Err(x) => fail(c.machine, x),
        Ok(ValueView::Callable(f)) => if f.decl.params.len() != args.len() {
            fail(c.machine, arity_mismatch(right_paren, f.decl.params.len(), args.len()))
        } else {
            let a = eval_args(c.machine, args, 0, Seq::empty(), limit);
            match a.result {
                Err(x) => fail(a.machine, x),
                Ok(values) => invoke(a.machine, f, values, limit),
            }
        },
        Ok(ValueView::Class(class)) => construct(c.machine, class, args, right_paren, limit),
        Ok(_) => fail(c.machine, RuntimeErrorView::NonCallableCalled(right_paren)),
    }
}

/// A property is read off an instance and off nothing else.
#[verifier::opaque]
pub open spec fn eval_get(m: MachineView, object: ExprView, name: TokenView, limit: nat) -> Outcome<
    ValueView,
>
    decreases limit, 1nat, 0nat,
{
    let o = eval(m, object, limit);
    match o.result {
        Err(x) => fail(o.machine, x),
        Ok(ValueView::Instance(i)) => match property(o.machine, i, name.lexeme) {
            Some((changed, v)) => give(changed, v),
            None => fail(o.machine, RuntimeErrorView::UndefinedProperty(name)),
        },
        Ok(_) => fail(o.machine, RuntimeErrorView::OnlyInstancesHaveProperties(name)),
    }
}

/// A property is set on an instance and on nothing else; its value is evaluated after the object.
#[verifier::opaque]
pub open spec fn eval_set(
    m: MachineView,
    object: ExprView,
    name: TokenView,
    value: ExprView,
    limit: nat,
) -> Outcome<ValueView>
    decreases limit, 1nat, 0nat,
{
    let o = eval(m, object, limit);
    match o.result {
        Err(x) => fail(o.machine, x),
        Ok(ValueView::Instance(i)) => {
            let r = eval(o.machine, value, limit);
            match r.result {
                Err(x) => fail(r.machine, x),
                Ok(v) => give(with_field(r.machine, i, name.lexeme, v), v),
            }
        },
        Ok(_) => fail(o.machine, RuntimeErrorView::OnlyInstancesHaveProperties(name)),
    }
}

/// Evaluates the arguments of a call from the `i`-th on, from left to
/// right, after the values in `found`.
#[verifier::opaque]
pub open spec fn eval_args(
    m: MachineView,
    args: Seq<ExprView>,
    i: nat,
    found: Seq<ValueView>,
    limit: nat,
) -> Outcome<Seq<ValueView>>
    decreases limit, 1nat, args.len() - i,
{
    if i >= args.len() {
        give(m, found)
    } else {
        let r = eval(m, args[i as int], limit);
        match r.result {
            Err(x) => fail(r.machine, x),
            Ok(v) => eval_args(r.machine, args, i + 1, found.push(v), limit),
        }
    }
}

/// Calls a function: its parameters are bound in a new scope inside its
/// closure (inside the globals where it has none), and its body runs there.
#[verifier::opaque]
pub open spec fn invoke(
    m: MachineView,
    f: CallableView,
    args: Seq<ValueView>,
    limit: nat,
) -> Outcome<
    ValueView,
>
    decreases limit, 0nat, 0nat,
{
    if limit == 0 {
        fail(m, RuntimeErrorView::LimitExceeded)
    } else {
        let env = next_env(m);
        let ready = bind_params(with_env(m, Some(call_parent(m, f))), env, f.decl.params, args, 0);
        let run = exec_block(ready, f.decl.body, env, (limit - 1) as nat);
        match run.result {
            Err(x) => fail(run.machine, x),
            Ok(effect) => give(run.machine, call_value(own_instance(m, f), effect)),
        }
    }
}

/// Calls a class: a new instance, on which the own initializer of the
/// class runs, where it has one.
#[verifier::opaque]
pub open spec fn construct(
    m: MachineView,
    class: nat,
    args: Seq<ExprView>,
    right_paren: TokenView,
    limit: nat,
) -> Outcome<ValueView>
    decreases limit, 2nat, 0nat,
{
    let instance = next_instance(m);
    let made = with_instance(m, class);
    match initializer(made, class) {
        Some(init) => if init.decl.params.len() != args.len() {
            fail(made, arity_mismatch(right_paren, init.decl.params.len(), args.len()))
        } else {
            let a = eval_args(made, args, 0, Seq::empty(), limit);
            match a.result {
                Err(x) => fail(a.machine, x),
                Ok(values) => {
                    let call = invoke(
                        with_bound(a.machine, init, instance),
                        bound(a.machine, init),
                        values,
                        limit,
                    );
                    match call.result {
                        Err(x) => fail(call.machine, x),
                        Ok(_) => give(call.machine, ValueView::Instance(instance)),
                    }
                },
            }
        },
        None => if args.len() != 0 {
            fail(made, arity_mismatch(right_paren, 0, args.len()))
        } else {
            give(made, ValueView::Instance(instance))
        },
    }
}

/// The super class of a class declaration: the class that the name
/// evaluates to.
#[verifier::opaque]
pub open spec fn eval_super_class(m: MachineView, sup: Option<VariableView>, limit: nat) -> Outcome<
    Option<nat>,
>
    decreases limit, 1nat, 0nat,
{
    match sup {
        None => give(m, None),
        Some(v) => {
            let r = eval(m, ExprView::Variable { name: v.name, hops: v.hops }, limit);
            match r.result {
                Err(x) => fail(r.machine, x),
                Ok(ValueView::Class(class)) => give(r.machine, Some(class)),
                Ok(_) => fail(r.machine, RuntimeErrorView::SuperClassMustBeAClass(v.name)),
            }
        },
    }
}

/// Declares a class whose super class is known: the name is bound first;
/// the methods close over the current scope, or over a scope that binds
/// `super` where the class has a super class.
pub open spec fn declare_class(
    m: MachineView,
    name: TokenView,
    parent: Option<nat>,
    methods: Seq<FunctionView>,
) -> MachineView {
    let named = define_in(m, m.current, name.lexeme, ValueView::Nil);
    let inside = match parent {
        Some(class) => with_current(
            define_in(
                with_env(named, Some(named.current)),
                next_env(named),
                "super"@,
                ValueView::Class(class),
            ),
            next_env(named),
        ),
        None => named,
    };
    let table = method_table(methods, inside.current, 0, Map::empty());
    let outside = with_current(inside, named.current);
    let made = with_class(
        outside,
        ClassView { name: name.lexeme, super_class: parent, methods: table },
    );
    match write_at(made, made.current, name.lexeme, ValueView::Class(next_class(outside)), 0) {
        Some(assigned) => assigned,
        None => made,
    }
}

/// The value of an optional expression; `nil` where there is none.
#[verifier::opaque]
pub open spec fn eval_optional(
    m: MachineView,
    e: Option<ExprView>,
    limit: nat,
) -> Outcome<ValueView>
    decreases limit, 1nat, 0nat,
{
    match e {
        None => give(m, ValueView::Nil),
        Some(expr) => eval(m, expr, limit),
    }
}

/// The condition is evaluated, then one branch runs, or none.
#[verifier::opaque]
pub open spec fn exec_if(
    m: MachineView,
    cond: ExprView,
    then_branch: StmtView,
    else_branch: Option<Box<StmtView>>,
    limit: nat,
) -> Outcome<Option<EffectView>>
    decreases limit, 1nat, 0nat,
{
    let c = eval(m, cond, limit);
    match c.result {
        Err(x) => fail(c.machine, x),
        Ok(v) => if truthy(v) {
            exec(c.machine, then_branch, limit)
        } else {
            match else_branch {
                Some(other) => exec(c.machine, *other, limit),
                None => give(c.machine, None),
            }
        },
    }
}

/// The super class is evaluated, then the class declared.
#[verifier::opaque]
pub open spec fn exec_class(
    m: MachineView,
    name: TokenView,
    super_class: Option<VariableView>,
    methods: Seq<FunctionView>,
    limit: nat,
) -> Outcome<Option<EffectView>>
    decreases limit, 2nat, 0nat,
{
    let s = eval_super_class(m, super_class, limit);
    match s.result {
        Err(x) => fail(s.machine, x),
        Ok(parent) => give(declare_class(s.machine, name, parent, methods), None),
    }
}

/// The state after a function was declared in the current scope.
pub open spec fn declare_function(m: MachineView, decl: FunctionView) -> MachineView {
    define_in(
        m,
        m.current,
        decl.name.lexeme,
        ValueView::Callable(CallableView { decl, is_initializer: false, closure: Some(m.current) }),
    )
}

/// Executes a statement.
#[verifier::opaque]
pub open spec fn exec(m: MachineView, st: StmtView, limit: nat) -> Outcome<Option<EffectView>>
    decreases limit, 0nat, 0nat,
{
    if limit == 0 {
        fail(m, RuntimeErrorView::LimitExceeded)
    } else {
        let inner = (limit - 1) as nat;
        match st {
            StmtView::Expression(e) => {
                let r = eval(m, e, inner);
                match r.result {
                    Err(x) => fail(r.machine, x),
                    Ok(_) => give(r.machine, None),
                }
            },
            StmtView::Print(e) => {
                let r = eval(m, e, inner);
                match r.result {
                    Err(x) => fail(r.machine, x),
                    Ok(v) => give(printed(r.machine, display(r.machine, v)), None),
                }
            },
            StmtView::Variable { name, initializer } => {
                let r = eval_optional(m, initializer, inner);
                match r.result {
                    Err(x) => fail(r.machine, x),
                    Ok(v) => give(define_in(r.machine, r.machine.current, name.lexeme, v), None),
                }
            },
            StmtView::Block(statements) => exec_block(
                with_env(m, Some(m.current)),
                statements,
                next_env(m),
                inner,
            ),
            StmtView::If { cond, then_branch, else_branch } => exec_if(
                m,
                cond,
                *then_branch,
                else_branch,
                inner,
            ),
            StmtView::While { cond, body } => exec_while(m, cond, *body, inner),
            StmtView::Function(decl) => give(declare_function(m, decl), None),
            StmtView::Return { keyword, value } => {
                let r = eval_optional(m, value, inner);
                match r.result {
                    Err(x) => fail(r.machine, x),
                    Ok(v) => give(r.machine, Some(EffectView::Return(v))),
                }
            },
            StmtView::Break { keyword } => give(m, Some(EffectView::Break)),
            StmtView::Class { name, super_class, methods } => exec_class(
                m,
                name,
                super_class,
                methods,
                inner,
            ),
        }
    }
}

/// Runs a loop: the condition is evaluated before each turn; `break` ends
/// the loop and is used up by it; `return` ends it and goes on outward.
#[verifier::opaque]
pub open spec fn exec_while(m: MachineView, cond: ExprView, body: StmtView, limit: nat) -> Outcome<
    Option<EffectView>,
>
    decreases limit, 0nat, 0nat,
{
    if limit == 0 {
        fail(m, RuntimeErrorView::LimitExceeded)
    } else {
        let inner = (limit - 1) as nat;
        let c = eval(m, cond, inner);
        match c.result {
            Err(x) => fail(c.machine, x),
            Ok(v) => if truthy(v) {
                let b = exec(c.machine, body, inner);
                match b.result {
                    Err(x) => fail(b.machine, x),
                    Ok(Some(EffectView::Break)) => give(b.machine, None),
                    Ok(Some(EffectView::Return(value))) => give(
                        b.machine,
                        Some(EffectView::Return(value)),
                    ),
                    Ok(None) => exec_while(b.machine, cond, body, inner),
                }
            } else {
                give(c.machine, None)
            },
        }
    }
}

/// Runs statements in a scope and goes back to the scope that was current
/// before, however the statements end.
#[verifier::opaque]
pub open spec fn exec_block(
    m: MachineView,
    statements: Seq<StmtView>,
    env: nat,
    limit: nat,
) -> Outcome<
    Option<EffectView>,
>
    decreases limit, 0nat, 0nat,
{
    if limit == 0 {
        fail(m, RuntimeErrorView::LimitExceeded)
    } else {
        let run = exec_stmts(with_current(m, env), statements, 0, (limit - 1) as nat);
        Outcome { machine: with_current(run.machine, m.current), result: run.result }
    }
}

/// Runs the statements of a sequence from the `i`-th on, up to the first
/// that ends with an effect or an error.
#[verifier::opaque]
pub open spec fn exec_stmts(
    m: MachineView,
    statements: Seq<StmtView>,
    i: nat,
    limit: nat,
) -> Outcome<
    Option<EffectView>,
>
    decreases limit, 1nat, statements.len() - i,
{
    if i >= statements.len() {
        give(m, None)
    } else {
        let r = exec(m, statements[i as int], limit);
        match r.result {
            Err(x) => fail(r.machine, x),
            Ok(Some(effect)) => give(r.machine, Some(effect)),
            Ok(None) => exec_stmts(r.machine, statements, i + 1, limit),
        }
    }
}

} // verus!
