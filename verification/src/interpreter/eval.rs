//! Evaluation of expressions.
use crate::expression::{
    expr_views, Assignment, Binary, Call, Expr, Get, Literal, Logical, SetProperty, Super, Unary,
};
use crate::interpreter::{option_value_view, Interpreter};
use crate::number::Number;
use crate::scanner::{Token, TokenType};
use crate::semantics::{
    self, binary_result, bind_params, call_value, construct, decides, equal_values, eval, eval_args,
    eval_assignment, eval_binary, eval_call, eval_get, eval_logical, eval_set, eval_super,
    eval_unary, exec_block, initializer, invoke, literal_value, returned, unary_result,
};
use crate::statement::{option_effect_view, stmt_views, Function, Stmt, StmtEffect};
use crate::value::{
    is_truthy, value_outcome, CallableWrapper, RuntimeError, RuntimeResult, RuntimeValue,
    ValueView,
};
use vstd::prelude::*;
use vstd::string::*;

verus! {

pub open spec fn value_views(values: Seq<RuntimeValue>) -> Seq<ValueView> {
    values.map_values(|v: RuntimeValue| v@)
}

pub open spec fn values_outcome(r: Result<Vec<RuntimeValue>, RuntimeError>) -> Result<
    Seq<ValueView>,
    crate::value::RuntimeErrorView,
> {
    match r {
        Ok(v) => Ok(value_views(v@)),
        Err(e) => Err(e@),
    }
}

/// Equality of values: `nil` equals `nil`; booleans, numbers and strings
/// equal by value; nothing else is equal.
pub fn are_equal(a: &RuntimeValue, b: &RuntimeValue) -> (r: bool)
    ensures
        r == equal_values(a@, b@),
{
    match (a, b) {
        (RuntimeValue::Nil, RuntimeValue::Nil) => true,
        (RuntimeValue::Bool(x), RuntimeValue::Bool(y)) => *x == *y,
        (RuntimeValue::Number(x), RuntimeValue::Number(y)) => x.equals(*y),
        (RuntimeValue::String(x), RuntimeValue::String(y)) => *x == *y,
        _ => false,
    }
}

/// Applies an operator that takes two numbers.
fn eval_bin_num_operator(left: &RuntimeValue, right: &RuntimeValue, op: &Token) -> (r:
    RuntimeResult)
    requires
        op.token_type == TokenType::Less || op.token_type == TokenType::LessEqual || op.token_type
            == TokenType::Greater || op.token_type == TokenType::GreaterEqual || op.token_type
            == TokenType::Star || op.token_type == TokenType::Minus,
    ensures
        value_outcome(r) == binary_result(op@, left@, right@),
{
    match (left, right) {
        (RuntimeValue::Number(a), RuntimeValue::Number(b)) => Ok(
            match op.token_type {
                TokenType::Less => RuntimeValue::Bool(a.less_than(*b)),
                TokenType::LessEqual => RuntimeValue::Bool(a.less_or_equal(*b)),
                TokenType::Greater => RuntimeValue::Bool(b.less_than(*a)),
                TokenType::GreaterEqual => RuntimeValue::Bool(b.less_or_equal(*a)),
                TokenType::Star => RuntimeValue::Number(a.times(*b)),
                _ => RuntimeValue::Number(a.minus(*b)),
            },
        ),
        _ => Err(RuntimeError::BinaryOperatorExpectsNumbers(op.duplicate())),
    }
}

/// Applies a unary operator to the value of its operand.
pub fn unary_op(operator: &Token, value: &RuntimeValue) -> (r: RuntimeResult)
    ensures
        value_outcome(r) == unary_result(operator@, value@),
{
    match operator.token_type {
        TokenType::Minus => match value {
            RuntimeValue::Number(n) => Ok(RuntimeValue::Number(n.negate())),
            _ => Err(RuntimeError::UnaryMinusExpectsNumber(operator.duplicate())),
        },
        TokenType::Bang => Ok(RuntimeValue::Bool(!is_truthy(value))),
        _ => Err(RuntimeError::UnknownUnaryExpression(operator.duplicate())),
    }
}

/// Applies a binary operator to the values of its operands.
pub fn binary_op(operator: &Token, left: &RuntimeValue, right: &RuntimeValue) -> (r: RuntimeResult)
    ensures
        value_outcome(r) == binary_result(operator@, left@, right@),
{
    match operator.token_type {
        TokenType::EqualEqual => Ok(RuntimeValue::Bool(are_equal(left, right))),
        TokenType::BangEqual => Ok(RuntimeValue::Bool(!are_equal(left, right))),
        TokenType::Less | TokenType::LessEqual | TokenType::Greater | TokenType::GreaterEqual
        | TokenType::Star | TokenType::Minus => eval_bin_num_operator(left, right, operator),
        TokenType::Slash => match (left, right) {
            (RuntimeValue::Number(a), RuntimeValue::Number(b)) => {
                if b.zero() {
                    Err(RuntimeError::DivisionByZero(operator.duplicate()))
                } else {
                    Ok(RuntimeValue::Number(a.divided_by(*b)))
                }
            },
            _ => Err(RuntimeError::BinaryOperatorExpectsNumbers(operator.duplicate())),
        },
        TokenType::Plus => match (left, right) {
            (RuntimeValue::Number(a), RuntimeValue::Number(b)) => Ok(
                RuntimeValue::Number(a.plus(*b)),
            ),
            (RuntimeValue::String(a), RuntimeValue::String(b)) => {
                let mut c = a.clone();
                c.append(b.as_str());
                Ok(RuntimeValue::String(c))
            },
            _ => Err(RuntimeError::BinaryPlusExpectsTwoNumbersOrTwoStrings(operator.duplicate())),
        },
        _ => Err(RuntimeError::UnknownBinaryExpression(operator.duplicate())),
    }
}

/// Whether the left operand decides a logical expression.
pub fn short_circuits(kind: TokenType, left: &RuntimeValue) -> (r: bool)
    ensures
        r == decides(kind, left@),
{
    let truth = is_truthy(left);
    (kind == TokenType::Or && truth) || (kind == TokenType::And && !truth)
}

/// The value of a literal.
pub fn literal(l: &Literal) -> (r: RuntimeValue)
    ensures
        r@ == literal_value(l@),
{
    match l {
        Literal::Number(n) => RuntimeValue::Number(*n),
        Literal::String(s) => RuntimeValue::String(s.clone()),
        Literal::True => RuntimeValue::Bool(true),
        Literal::False => RuntimeValue::Bool(false),
        Literal::Nil => RuntimeValue::Nil,
    }
}

/// The instance that an initializer is bound to; nothing for another function.
pub fn own_instance(interp: &Interpreter, f: &CallableWrapper) -> (r: Option<RuntimeValue>)
    ensures
        option_value_view(r) == semantics::own_instance(interp@, f@),
{
    if f.callable.is_initializer {
        match f.closure {
            Some(c) => {
                let this = "this".to_owned();
                interp.get_at(c, &this, 0)
            },
            None => None,
        }
    } else {
        None
    }
}

/// The value that a call gives: the instance of an initializer, or else
/// what the body returned.
pub fn finish_call(own: Option<RuntimeValue>, effect: Option<StmtEffect>) -> (r: RuntimeValue)
    ensures
        r@ == call_value(option_value_view(own), option_effect_view(effect)),
{
    match own {
        Some(instance) => instance,
        None => match effect {
            Some(StmtEffect::Return(v)) => v,
            _ => RuntimeValue::Nil,
        },
    }
}

impl CallableWrapper {
    /// Calls the function with the values of its arguments, within the
    /// limit of the interpreter.
    pub fn call(&self, args: &Vec<RuntimeValue>, interp: &mut Interpreter) -> (r: RuntimeResult)
        ensures
            final(interp)@ == invoke(
                old(interp)@,
                self@,
                value_views(args@),
                old(interp).limit() as nat,
            ).machine,
            value_outcome(r) == invoke(
                old(interp)@,
                self@,
                value_views(args@),
                old(interp).limit() as nat,
            ).result,
            final(interp).limit() == old(interp).limit(),
    {
        let limit = interp.limit_value();
        interp.invoke(self, args, limit)
    }
}

impl Interpreter {
    /// Evaluates an expression within the limit of the interpreter.
    pub fn evaluate_expr(&mut self, expr: &Expr) -> (r: RuntimeResult)
        ensures
            final(self)@ == eval(old(self)@, expr@, old(self).limit() as nat).machine,
            value_outcome(r) == eval(old(self)@, expr@, old(self).limit() as nat).result,
            final(self).limit() == old(self).limit(),
    {
        let limit = self.limit_value();
        self.evaluate(expr, limit)
    }

    /// Evaluates an expression; nested evaluations get the limit less one.
    pub fn evaluate(&mut self, e: &Expr, limit: u64) -> (r: RuntimeResult)
        ensures
            final(self)@ == eval(old(self)@, e@, limit as nat).machine,
            value_outcome(r) == eval(old(self)@, e@, limit as nat).result,
            final(self).limit() == old(self).limit(),
        decreases limit, 0nat, 0nat,
    {
        proof {
            reveal_with_fuel(eval, 1);
            reveal_with_fuel(eval_unary, 1);
            reveal_with_fuel(eval_binary, 1);
            reveal_with_fuel(eval_logical, 1);
            reveal_with_fuel(eval_assignment, 1);
            reveal_with_fuel(eval_call, 1);
            reveal_with_fuel(eval_get, 1);
            reveal_with_fuel(eval_set, 1);
            reveal_with_fuel(Expr::view, 1);
        }
        if limit == 0 {
            return Err(RuntimeError::LimitExceeded);
        }
        let inner = limit - 1;
        match e {
            Expr::Literal(l) => Ok(literal(l)),
            Expr::Grouping(g) => self.evaluate(&g.0, inner),
            Expr::Unary(u) => self.visit_unary(u, inner),
            Expr::Binary(b) => self.visit_binary(b, inner),
            Expr::Logical(l) => self.visit_logical(l, inner),
            Expr::Variable(v) => self.look_up_var(&v.name, v.hops),
            Expr::This(t) => self.look_up_var(&t.keyword, t.hops),
            Expr::Assignment(a) => self.visit_assignment(a, inner),
            Expr::Call(c) => {
                assert(e@->Call_args =~= expr_views(c.args@));
                self.visit_call(c, inner)
            },
            Expr::Get(g) => self.visit_get(g, inner),
            Expr::SetProperty(s) => self.visit_set(s, inner),
            Expr::Super(s) => self.visit_super(s),
        }
    }

    fn visit_unary(&mut self, e: &Unary, limit: u64) -> (r: RuntimeResult)
        ensures
            final(self)@ == eval_unary(old(self)@, e.operator@, e.right@, limit as nat).machine,
            value_outcome(r) == eval_unary(old(self)@, e.operator@, e.right@, limit as nat).result,
            final(self).limit() == old(self).limit(),
        decreases limit, 1nat, 0nat,
    {
        proof {
            reveal_with_fuel(eval_unary, 1);
            reveal_with_fuel(eval, 1);
        }
        let value = self.evaluate(&e.right, limit)?;
        unary_op(&e.operator, &value)
    }

    fn visit_binary(&mut self, e: &Binary, limit: u64) -> (r: RuntimeResult)
        ensures
            final(self)@ == eval_binary(
                old(self)@,
                e.left@,
                e.operator@,
                e.right@,
                limit as nat,
            ).machine,
            value_outcome(r) == eval_binary(
                old(self)@,
                e.left@,
                e.operator@,
                e.right@,
                limit as nat,
            ).result,
            final(self).limit() == old(self).limit(),
        decreases limit, 1nat, 0nat,
    {
        proof {
            reveal_with_fuel(eval_binary, 1);
            reveal_with_fuel(eval, 1);
        }
        let left = self.evaluate(&e.left, limit)?;
        let right = self.evaluate(&e.right, limit)?;
        binary_op(&e.operator, &left, &right)
    }

    fn visit_logical(&mut self, e: &Logical, limit: u64) -> (r: RuntimeResult)
        ensures
            final(self)@ == eval_logical(
                old(self)@,
                e.left@,
                e.operator@,
                e.right@,
                limit as nat,
            ).machine,
            value_outcome(r) == eval_logical(
                old(self)@,
                e.left@,
                e.operator@,
                e.right@,
                limit as nat,
            ).result,
            final(self).limit() == old(self).limit(),
        decreases limit, 1nat, 0nat,
    {
        proof {
            reveal_with_fuel(eval_logical, 1);
            reveal_with_fuel(eval, 1);
        }
        let left = self.evaluate(&e.left, limit)?;
        if e.operator.token_type != TokenType::Or && e.operator.token_type != TokenType::And {
            return Err(RuntimeError::UnknownBinaryExpression(e.operator.duplicate()));
        }
        if short_circuits(e.operator.token_type, &left) {
            return Ok(left);
        }
        self.evaluate(&e.right, limit)
    }

    fn visit_assignment(&mut self, e: &Assignment, limit: u64) -> (r: RuntimeResult)
        ensures
            final(self)@ == eval_assignment(
                old(self)@,
                e.name@,
                crate::expression::hops_view(e.hops),
                e.value@,
                limit as nat,
            ).machine,
            value_outcome(r) == eval_assignment(
                old(self)@,
                e.name@,
                crate::expression::hops_view(e.hops),
                e.value@,
                limit as nat,
            ).result,
            final(self).limit() == old(self).limit(),
        decreases limit, 1nat, 0nat,
    {
        proof {
            reveal_with_fuel(eval_assignment, 1);
            reveal_with_fuel(eval, 1);
        }
        let v = self.evaluate(&e.value, limit)?;
        if self.assign_var(&e.name, &v, e.hops) {
            Ok(v)
        } else {
            Err(RuntimeError::UndefinedVariable(e.name.duplicate()))
        }
    }

    /// Evaluates the arguments of a call from left to right.
    fn eval_args(&mut self, args: &Vec<Expr>, limit: u64) -> (r: Result<
        Vec<RuntimeValue>,
        RuntimeError,
    >)
        ensures
            final(self)@ == eval_args(
                old(self)@,
                expr_views(args@),
                0,
                Seq::empty(),
                limit as nat,
            ).machine,
            values_outcome(r) == eval_args(
                old(self)@,
                expr_views(args@),
                0,
                Seq::empty(),
                limit as nat,
            ).result,
            final(self).limit() == old(self).limit(),
        decreases limit, 1nat, args@.len() + 1,
    {
        let ghost goal = eval_args(old(self)@, expr_views(args@), 0, Seq::empty(), limit as nat);
        let mut found: Vec<RuntimeValue> = Vec::new();
        let mut i: usize = 0;
        assert(value_views(found@) =~= Seq::empty());
        while i < args.len()
            invariant
                i <= args@.len(),
                self.limit() == old(self).limit(),
                goal == eval_args(old(self)@, expr_views(args@), 0, Seq::empty(), limit as nat),
                goal == eval_args(
                    self@,
                    expr_views(args@),
                    i as nat,
                    value_views(found@),
                    limit as nat,
                ),
            decreases args@.len() - i,
        {
            proof {
                reveal_with_fuel(eval_args, 1);
                reveal_with_fuel(eval, 1);
            }
            let ghost before = value_views(found@);
            assert(expr_views(args@)[i as int] == args@[i as int]@);
            let v = self.evaluate(&args[i], limit)?;
            found.push(v);
            assert(value_views(found@) =~= before.push(v@));
            i += 1;
        }
        proof {
            reveal_with_fuel(eval_args, 1);
        }
        Ok(found)
    }

    fn bind_params(&mut self, env: usize, params: &Vec<Token>, args: &Vec<RuntimeValue>)
        ensures
            final(self)@ == bind_params(
                old(self)@,
                env as nat,
                crate::scanner::token_views(params@),
                value_views(args@),
                0,
            ),
            final(self).limit() == old(self).limit(),
    {
        let mut i: usize = 0;
        while i < args.len() && i < params.len()
            invariant
                self.limit() == old(self).limit(),
                bind_params(
                    self@,
                    env as nat,
                    crate::scanner::token_views(params@),
                    value_views(args@),
                    i as nat,
                ) == bind_params(
                    old(self)@,
                    env as nat,
                    crate::scanner::token_views(params@),
                    value_views(args@),
                    0,
                ),
            decreases args@.len() - i,
        {
            self.define_in(env, &params[i].lexeme, &args[i]);
            i += 1;
        }
    }

    /// Calls a function with the values of its arguments.
    pub fn invoke(&mut self, f: &CallableWrapper, args: &Vec<RuntimeValue>, limit: u64) -> (r:
        RuntimeResult)
        ensures
            final(self)@ == invoke(old(self)@, f@, value_views(args@), limit as nat).machine,
            value_outcome(r) == invoke(old(self)@, f@, value_views(args@), limit as nat).result,
            final(self).limit() == old(self).limit(),
        decreases limit, 0nat, 0nat,
    {
        proof {
            reveal_with_fuel(invoke, 1);
            reveal_with_fuel(exec_block, 1);
            reveal_with_fuel(Function::view, 1);
            reveal_with_fuel(Stmt::view, 1);
        }
        if limit == 0 {
            return Err(RuntimeError::LimitExceeded);
        }
        let own = own_instance(self, f);
        let parent = match f.closure {
            Some(c) => c,
            None => self.globals(),
        };
        let env = self.alloc_env(Some(parent));
        self.bind_params(env, &f.callable.decl.params, args);
        assert(f@.decl.body =~= stmt_views(f.callable.decl.body@));
        let effect = self.run_block(&f.callable.decl.body, env, limit - 1)?;
        Ok(finish_call(own, effect))
    }

    /// Calls a class: makes an instance and runs the own initializer of
    /// the class on it, where it has one.
    fn construct(&mut self, class: usize, args: &Vec<Expr>, right_paren: &Token, limit: u64) -> (r:
        RuntimeResult)
        ensures
            final(self)@ == construct(
                old(self)@,
                class as nat,
                expr_views(args@),
                right_paren@,
                limit as nat,
            ).machine,
            value_outcome(r) == construct(
                old(self)@,
                class as nat,
                expr_views(args@),
                right_paren@,
                limit as nat,
            ).result,
            final(self).limit() == old(self).limit(),
        decreases limit, 2nat, 0nat,
    {
        proof {
            reveal_with_fuel(construct, 1);
            reveal_with_fuel(eval_args, 1);
            reveal_with_fuel(invoke, 1);
        }
        let instance = self.alloc_instance(class);
        match self.own_initializer(class) {
            Some(init) => {
                if init.arity() != args.len() {
                    return Err(
                        RuntimeError::CallableArityMismatch {
                            right_paren: right_paren.duplicate(),
                            expected: init.arity(),
                            found: args.len(),
                        },
                    );
                }
                let values = self.eval_args(args, limit)?;
                let bound = self.bind_method(&init, instance);
                let _ = self.invoke(&bound, &values, limit)?;
                Ok(RuntimeValue::Instance(instance))
            },
            None => {
                if args.len() != 0 {
                    return Err(
                        RuntimeError::CallableArityMismatch {
                            right_paren: right_paren.duplicate(),
                            expected: 0,
                            found: args.len(),
                        },
                    );
                }
                Ok(RuntimeValue::Instance(instance))
            },
        }
    }

    fn visit_call(&mut self, e: &Call, limit: u64) -> (r: RuntimeResult)
        ensures
            final(self)@ == eval_call(
                old(self)@,
                e.callee@,
                e.right_paren@,
                expr_views(e.args@),
                limit as nat,
            ).machine,
            value_outcome(r) == eval_call(
                old(self)@,
                e.callee@,
                e.right_paren@,
                expr_views(e.args@),
                limit as nat,
            ).result,
            final(self).limit() == old(self).limit(),
        decreases limit, 3nat, 0nat,
    {
        proof {
            reveal_with_fuel(eval_call, 1);
            reveal_with_fuel(eval, 1);
            reveal_with_fuel(eval_args, 1);
            reveal_with_fuel(invoke, 1);
            reveal_with_fuel(construct, 1);
        }
        let value = self.evaluate(&e.callee, limit)?;
        match value {
            RuntimeValue::Callable(f) => {
                if f.arity() != e.args.len() {
                    return Err(
                        RuntimeError::CallableArityMismatch {
                            right_paren: e.right_paren.duplicate(),
                            expected: f.arity(),
                            found: e.args.len(),
                        },
                    );
                }
                let args = self.eval_args(&e.args, limit)?;
                self.invoke(&f, &args, limit)
            },
            RuntimeValue::Class(class) => self.construct(class, &e.args, &e.right_paren, limit),
            _ => Err(RuntimeError::NonCallableCalled(e.right_paren.duplicate())),
        }
    }

    fn visit_get(&mut self, e: &Get, limit: u64) -> (r: RuntimeResult)
        ensures
            final(self)@ == eval_get(old(self)@, e.object@, e.name@, limit as nat).machine,
            value_outcome(r) == eval_get(old(self)@, e.object@, e.name@, limit as nat).result,
            final(self).limit() == old(self).limit(),
        decreases limit, 1nat, 0nat,
    {
        proof {
            reveal_with_fuel(eval_get, 1);
            reveal_with_fuel(eval, 1);
        }
        let object = self.evaluate(&e.object, limit)?;
        match object {
            RuntimeValue::Instance(instance) => match self.instance_get(
                instance,
                &e.name.lexeme,
            ) {
                Some(v) => Ok(v),
                None => Err(RuntimeError::UndefinedProperty(e.name.duplicate())),
            },
            _ => Err(RuntimeError::OnlyInstancesHaveProperties(e.name.duplicate())),
        }
    }

    fn visit_set(&mut self, e: &SetProperty, limit: u64) -> (r: RuntimeResult)
        ensures
            final(self)@ == eval_set(
                old(self)@,
                e.object@,
                e.name@,
                e.value@,
                limit as nat,
            ).machine,
            value_outcome(r) == eval_set(
                old(self)@,
                e.object@,
                e.name@,
                e.value@,
                limit as nat,
            ).result,
            final(self).limit() == old(self).limit(),
        decreases limit, 1nat, 0nat,
    {
        proof {
            reveal_with_fuel(eval_set, 1);
            reveal_with_fuel(eval, 1);
        }
        let object = self.evaluate(&e.object, limit)?;
        match object {
            RuntimeValue::Instance(instance) => {
                let v = self.evaluate(&e.value, limit)?;
                self.set_field(instance, &e.name.lexeme, &v);
                Ok(v)
            },
            _ => Err(RuntimeError::OnlyInstancesHaveProperties(e.name.duplicate())),
        }
    }

    fn visit_super(&mut self, e: &Super) -> (r: RuntimeResult)
        ensures
            final(self)@ == eval_super(
                old(self)@,
                e.keyword@,
                e.method@,
                crate::expression::hops_view(e.hops_to_super),
                crate::expression::hops_view(e.hops_to_this),
            ).machine,
            value_outcome(r) == eval_super(
                old(self)@,
                e.keyword@,
                e.method@,
                crate::expression::hops_view(e.hops_to_super),
                crate::expression::hops_view(e.hops_to_this),
            ).result,
            final(self).limit() == old(self).limit(),
    {
        let super_class = self.look_up_var(&e.keyword, e.hops_to_super)?;
        match super_class {
            RuntimeValue::Class(class) => {
                let this = crate::resolver::provided(TokenType::This, "this");
                let instance = self.look_up_var(&this, e.hops_to_this)?;
                match instance {
                    RuntimeValue::Instance(i) => match self.find_method(class, &e.method.lexeme) {
                        Some(method) => Ok(RuntimeValue::Callable(self.bind_method(&method, i))),
                        None => Err(RuntimeError::UndefinedProperty(e.method.duplicate())),
                    },
                    _ => Err(RuntimeError::OnlyInstancesHaveProperties(e.keyword.duplicate())),
                }
            },
            _ => Err(RuntimeError::SuperClassMustBeAClass(e.keyword.duplicate())),
        }
    }
}

} // verus!
