//! Execution of statements.
use crate::expression::{option_expr_view, Expr, ExprView, Variable};
use crate::interpreter::{Class, Interpreter};
use crate::resolver::statements::is_initializer;
use crate::scanner::Token;
use crate::semantics::{
    declare_class, declare_function, eval, eval_optional, eval_super_class, exec, exec_block,
    exec_class, exec_if, exec_stmts, exec_while, fail, give, method_table, EffectView,
};
use crate::statement::{
    self, function_views, option_effect_view, option_variable_view, stmt_views, Function, Stmt,
    StmtEffect,
};
use crate::table::Table;
use crate::value::{
    is_truthy, CallableView, CallableWrapper, RuntimeError, RuntimeErrorView, RuntimeValue,
};
use std::rc::Rc;
use vstd::prelude::*;
use vstd::string::*;

verus! {

pub type ExecResult = Result<Option<StmtEffect>, RuntimeError>;

/// Where a program stands after one of its statements has run.
pub enum Step {
    /// The statement at this place is the next to run.
    Next(usize),
    /// Nothing is left to run: the last statement has run, or one has ended
    /// with this effect.
    Done(Option<StmtEffect>),
}

pub open spec fn effect_outcome(r: ExecResult) -> Result<Option<EffectView>, RuntimeErrorView> {
    match r {
        Ok(e) => Ok(option_effect_view(e)),
        Err(e) => Err(e@),
    }
}

pub open spec fn class_outcome(r: Result<Option<usize>, RuntimeError>) -> Result<
    Option<nat>,
    RuntimeErrorView,
> {
    match r {
        Ok(c) => Ok(crate::value::place(c)),
        Err(e) => Err(e@),
    }
}

/// The callable for a declaration, closed over a scope.
pub fn make_callable(decl: &Function, is_initializer: bool, closure: usize) -> (r: CallableWrapper)
    ensures
        r@ == (CallableView { decl: decl@, is_initializer, closure: Some(closure as nat) }),
{
    CallableWrapper {
        callable: crate::value::Function { decl: Rc::new(decl.duplicate()), is_initializer },
        closure: Some(closure),
    }
}

/// The table of the methods of a class, each closed over `closure`.
pub fn make_method_table(methods: &Vec<Function>, closure: usize) -> (r: Table<CallableWrapper>)
    ensures
        r@ == method_table(function_views(methods@), closure as nat, 0, Map::empty()),
{
    let mut table: Table<CallableWrapper> = Table::new();
    let mut i: usize = 0;
    while i < methods.len()
        invariant
            i <= methods@.len(),
            method_table(function_views(methods@), closure as nat, i as nat, table@) == method_table(
                function_views(methods@),
                closure as nat,
                0,
                Map::empty(),
            ),
        decreases methods@.len() - i,
    {
        proof {
            reveal_with_fuel(Function::view, 1);
            reveal_with_fuel(Stmt::view, 1);
        }
        let method = make_callable(&methods[i], is_initializer(&methods[i]), closure);
        table.set(&methods[i].name.lexeme, method);
        i += 1;
    }
    table
}

impl Interpreter {
    /// Executes statements in the current scope, up to the first that ends
    /// with an effect or an error.
    pub fn execute(&mut self, statements: &Vec<Stmt>) -> (r: ExecResult)
        ensures
            final(self)@ == exec_stmts(
                old(self)@,
                stmt_views(statements@),
                0,
                old(self).limit() as nat,
            ).machine,
            effect_outcome(r) == exec_stmts(
                old(self)@,
                stmt_views(statements@),
                0,
                old(self).limit() as nat,
            ).result,
            final(self).limit() == old(self).limit(),
    {
        let limit = self.limit_value();
        self.run(statements, limit)
    }

    /// Executes statements in the scope at `env` and goes back to the
    /// scope that was current before.
    pub fn execute_block(&mut self, s: &Vec<Stmt>, env: usize) -> (r: ExecResult)
        ensures
            final(self)@ == exec_block(
                old(self)@,
                stmt_views(s@),
                env as nat,
                old(self).limit() as nat,
            ).machine,
            effect_outcome(r) == exec_block(
                old(self)@,
                stmt_views(s@),
                env as nat,
                old(self).limit() as nat,
            ).result,
            final(self).limit() == old(self).limit(),
    {
        let limit = self.limit_value();
        self.run_block(s, env, limit)
    }

    /// Executes the statement at `at` of a program and says where the
    /// program stands then, so that a host can take the output between
    /// two statements. What is left to run after a step is what was left
    /// to run before it: the steps of a program, taken from 0 until one is
    /// done or fails, end as `execute` does.
    pub fn step(&mut self, statements: &Vec<Stmt>, at: usize) -> (r: Result<Step, RuntimeError>)
        ensures
            final(self).limit() == old(self).limit(),
            match r {
                Ok(Step::Next(next)) => next == at + 1 && next < statements@.len() && exec_stmts(
                    final(self)@,
                    stmt_views(statements@),
                    next as nat,
                    old(self).limit() as nat,
                ) == exec_stmts(
                    old(self)@,
                    stmt_views(statements@),
                    at as nat,
                    old(self).limit() as nat,
                ),
                Ok(Step::Done(effect)) => exec_stmts(
                    old(self)@,
                    stmt_views(statements@),
                    at as nat,
                    old(self).limit() as nat,
                ) == give(final(self)@, option_effect_view(effect)),
                Err(e) => exec_stmts(
                    old(self)@,
                    stmt_views(statements@),
                    at as nat,
                    old(self).limit() as nat,
                ) == fail::<Option<EffectView>>(final(self)@, e@),
            },
    {
        proof {
            reveal_with_fuel(exec_stmts, 1);
            reveal_with_fuel(exec, 1);
        }
        let ghost views = stmt_views(statements@);
        let limit = self.limit_value();
        let ghost before = exec_stmts(self@, views, at as nat, limit as nat);
        if at >= statements.len() {
            return Ok(Step::Done(None));
        }
        assert(views[at as int] == statements@[at as int]@);
        let ghost one = exec(self@, views[at as int], limit as nat);
        assert(before == match one.result {
            Err(x) => fail(one.machine, x),
            Ok(Some(effect)) => give(one.machine, Some(effect)),
            Ok(None) => exec_stmts(one.machine, views, at as nat + 1, limit as nat),
        });
        match self.execute_statement(&statements[at], limit) {
            Err(e) => Err(e),
            Ok(Some(effect)) => Ok(Step::Done(Some(effect))),
            Ok(None) => {
                assert(one.result == Ok::<Option<EffectView>, RuntimeErrorView>(None));
                assert(before == exec_stmts(self@, views, (at + 1) as nat, limit as nat));
                if at + 1 < statements.len() {
                    Ok(Step::Next(at + 1))
                } else {
                    Ok(Step::Done(None))
                }
            },
        }
    }

    pub(crate) fn run(&mut self, statements: &Vec<Stmt>, limit: u64) -> (r: ExecResult)
        ensures
            final(self)@ == exec_stmts(old(self)@, stmt_views(statements@), 0, limit as nat).machine,
            effect_outcome(r) == exec_stmts(
                old(self)@,
                stmt_views(statements@),
                0,
                limit as nat,
            ).result,
            final(self).limit() == old(self).limit(),
        decreases limit, 1nat, statements@.len() + 1,
    {
        let ghost goal = exec_stmts(old(self)@, stmt_views(statements@), 0, limit as nat);
        let mut i: usize = 0;
        while i < statements.len()
            invariant
                i <= statements@.len(),
                self.limit() == old(self).limit(),
                goal == exec_stmts(old(self)@, stmt_views(statements@), 0, limit as nat),
                goal == exec_stmts(self@, stmt_views(statements@), i as nat, limit as nat),
            decreases statements@.len() - i,
        {
            proof {
                reveal_with_fuel(exec_stmts, 1);
                reveal_with_fuel(exec, 1);
            }
            assert(stmt_views(statements@)[i as int] == statements@[i as int]@);
            let effect = self.execute_statement(&statements[i], limit)?;
            match effect {
                Some(e) => {
                    return Ok(Some(e));
                },
                None => {},
            }
            i += 1;
        }
        proof {
            reveal_with_fuel(exec_stmts, 1);
        }
        Ok(None)
    }

    pub(crate) fn run_block(&mut self, s: &Vec<Stmt>, env: usize, limit: u64) -> (r: ExecResult)
        ensures
            final(self)@ == exec_block(old(self)@, stmt_views(s@), env as nat, limit as nat).machine,
            effect_outcome(r) == exec_block(
                old(self)@,
                stmt_views(s@),
                env as nat,
                limit as nat,
            ).result,
            final(self).limit() == old(self).limit(),
        decreases limit, 0nat, 0nat,
    {
        proof {
            reveal_with_fuel(exec_block, 1);
            reveal_with_fuel(exec_stmts, 1);
        }
        if limit == 0 {
            return Err(RuntimeError::LimitExceeded);
        }
        let previous = self.current();
        self.set_current(env);
        let r = self.run(s, limit - 1);
        self.set_current(previous);
        r
    }

    fn eval_optional(&mut self, e: &Option<Expr>, limit: u64) -> (r: Result<
        RuntimeValue,
        RuntimeError,
    >)
        ensures
            final(self)@ == eval_optional(old(self)@, option_expr_view(*e), limit as nat).machine,
            crate::value::value_outcome(r) == eval_optional(
                old(self)@,
                option_expr_view(*e),
                limit as nat,
            ).result,
            final(self).limit() == old(self).limit(),
        decreases limit, 1nat, 0nat,
    {
        proof {
            reveal_with_fuel(eval_optional, 1);
            reveal_with_fuel(eval, 1);
        }
        match e {
            Some(expr) => self.evaluate(expr, limit),
            None => Ok(RuntimeValue::Nil),
        }
    }

    fn visit_if(&mut self, s: &statement::If, limit: u64) -> (r: ExecResult)
        ensures
            final(self)@ == exec_if(
                old(self)@,
                s.cond@,
                s.then_branch@,
                option_box_stmt_view(s.else_branch),
                limit as nat,
            ).machine,
            effect_outcome(r) == exec_if(
                old(self)@,
                s.cond@,
                s.then_branch@,
                option_box_stmt_view(s.else_branch),
                limit as nat,
            ).result,
            final(self).limit() == old(self).limit(),
        decreases limit, 1nat, 0nat,
    {
        proof {
            reveal_with_fuel(exec_if, 1);
            reveal_with_fuel(eval, 1);
            reveal_with_fuel(exec, 1);
        }
        let cond = self.evaluate(&s.cond, limit)?;
        if is_truthy(&cond) {
            self.execute_statement(&s.then_branch, limit)
        } else {
            match &s.else_branch {
                Some(stmt) => self.execute_statement(stmt, limit),
                None => Ok(None),
            }
        }
    }

    fn visit_while(&mut self, s: &statement::While, limit: u64) -> (r: ExecResult)
        ensures
            final(self)@ == exec_while(old(self)@, s.cond@, s.body@, limit as nat).machine,
            effect_outcome(r) == exec_while(old(self)@, s.cond@, s.body@, limit as nat).result,
            final(self).limit() == old(self).limit(),
        decreases limit, 0nat, 0nat,
    {
        let ghost goal = exec_while(old(self)@, s.cond@, s.body@, limit as nat);
        let mut left = limit;
        loop
            invariant
                left <= limit,
                self.limit() == old(self).limit(),
                goal == exec_while(old(self)@, s.cond@, s.body@, limit as nat),
                goal == exec_while(self@, s.cond@, s.body@, left as nat),
            decreases left,
        {
            proof {
                reveal_with_fuel(exec_while, 1);
                reveal_with_fuel(eval, 1);
                reveal_with_fuel(exec, 1);
            }
            if left == 0 {
                return Err(RuntimeError::LimitExceeded);
            }
            left = left - 1;
            let cond = self.evaluate(&s.cond, left)?;
            if !is_truthy(&cond) {
                return Ok(None);
            }
            let effect = self.execute_statement(&s.body, left)?;
            match effect {
                Some(StmtEffect::Break) => {
                    return Ok(None);
                },
                Some(StmtEffect::Return(v)) => {
                    return Ok(Some(StmtEffect::Return(v)));
                },
                None => {},
            }
        }
    }

    /// Declares a function in the current scope; it closes over that scope.
    fn visit_function(&mut self, s: &Function)
        ensures
            final(self)@ == declare_function(old(self)@, s@),
            final(self).limit() == old(self).limit(),
    {
        proof {
            reveal_with_fuel(Function::view, 1);
            reveal_with_fuel(Stmt::view, 1);
        }
        let current = self.current();
        let value = RuntimeValue::Callable(make_callable(s, false, current));
        self.define_in(current, &s.name.lexeme, &value);
    }

    fn eval_super_class(&mut self, sup: &Option<Variable>, limit: u64) -> (r: Result<
        Option<usize>,
        RuntimeError,
    >)
        ensures
            final(self)@ == eval_super_class(
                old(self)@,
                option_variable_view(*sup),
                limit as nat,
            ).machine,
            class_outcome(r) == eval_super_class(
                old(self)@,
                option_variable_view(*sup),
                limit as nat,
            ).result,
            final(self).limit() == old(self).limit(),
        decreases limit, 1nat, 0nat,
    {
        proof {
            reveal_with_fuel(eval_super_class, 1);
            reveal_with_fuel(eval, 1);
        }
        match sup {
            None => Ok(None),
            Some(v) => {
                let e = Expr::Variable(v.duplicate());
                assert(e@ == (ExprView::Variable { name: v@.name, hops: v@.hops })) by {
                    reveal_with_fuel(Expr::view, 1);
                }
                match self.evaluate(&e, limit)? {
                    RuntimeValue::Class(class) => Ok(Some(class)),
                    _ => Err(RuntimeError::SuperClassMustBeAClass(v.name.duplicate())),
                }
            },
        }
    }

    /// Declares a class whose super class is known.
    fn declare_class(&mut self, name: &Token, parent: Option<usize>, methods: &Vec<Function>)
        ensures
            final(self)@ == declare_class(
                old(self)@,
                name@,
                crate::value::place(parent),
                function_views(methods@),
            ),
            final(self).limit() == old(self).limit(),
    {
        let previous = self.current();
        self.define_in(previous, &name.lexeme, &RuntimeValue::Nil);
        match parent {
            Some(class) => {
                let env = self.alloc_env(Some(previous));
                let sup = "super".to_owned();
                self.define_in(env, &sup, &RuntimeValue::Class(class));
                self.set_current(env);
            },
            None => {},
        }
        let table = make_method_table(methods, self.current());
        self.set_current(previous);
        let id = self.alloc_class(Class::new(name.lexeme.as_str(), parent, table));
        let _ = self.assign_at(previous, &name.lexeme, &RuntimeValue::Class(id), 0);
    }

    fn visit_class(&mut self, c: &statement::Class, limit: u64) -> (r: ExecResult)
        ensures
            final(self)@ == exec_class(
                old(self)@,
                c.name@,
                option_variable_view(c.super_class),
                function_views(c.methods@),
                limit as nat,
            ).machine,
            effect_outcome(r) == exec_class(
                old(self)@,
                c.name@,
                option_variable_view(c.super_class),
                function_views(c.methods@),
                limit as nat,
            ).result,
            final(self).limit() == old(self).limit(),
        decreases limit, 2nat, 0nat,
    {
        proof {
            reveal_with_fuel(exec_class, 1);
            reveal_with_fuel(eval_super_class, 1);
        }
        let parent = self.eval_super_class(&c.super_class, limit)?;
        self.declare_class(&c.name, parent, &c.methods);
        Ok(None)
    }

    /// Executes a statement; nested evaluations get the limit less one.
    pub fn execute_statement(&mut self, st: &Stmt, limit: u64) -> (r: ExecResult)
        ensures
            final(self)@ == exec(old(self)@, st@, limit as nat).machine,
            effect_outcome(r) == exec(old(self)@, st@, limit as nat).result,
            final(self).limit() == old(self).limit(),
        decreases limit, 0nat, 0nat,
    {
        proof {
            reveal_with_fuel(exec, 1);
            reveal_with_fuel(eval, 1);
            reveal_with_fuel(eval_optional, 1);
            reveal_with_fuel(exec_if, 1);
            reveal_with_fuel(exec_class, 1);
            reveal_with_fuel(exec_while, 1);
            reveal_with_fuel(exec_block, 1);
            reveal_with_fuel(Stmt::view, 1);
            reveal_with_fuel(Function::view, 1);
        }
        if limit == 0 {
            return Err(RuntimeError::LimitExceeded);
        }
        let inner = limit - 1;
        match st {
            Stmt::Expression(s) => {
                let _ = self.evaluate(&s.expr, inner)?;
                Ok(None)
            },
            Stmt::Print(s) => {
                let v = self.evaluate(&s.expr, inner)?;
                let line = self.display(&v);
                self.print(line);
                Ok(None)
            },
            Stmt::Variable(s) => {
                let v = self.eval_optional(&s.initializer, inner)?;
                let current = self.current();
                self.define_in(current, &s.name.lexeme, &v);
                Ok(None)
            },
            Stmt::Block(s) => {
                let current = self.current();
                let env = self.alloc_env(Some(current));
                assert(st@->Block_0 =~= stmt_views(s.statements@));
                self.run_block(&s.statements, env, inner)
            },
            Stmt::If(s) => self.visit_if(s, inner),
            Stmt::While(s) => self.visit_while(s, inner),
            Stmt::Function(f) => {
                self.visit_function(f);
                Ok(None)
            },
            Stmt::Return(s) => {
                let v = self.eval_optional(&s.value, inner)?;
                Ok(Some(StmtEffect::Return(v)))
            },
            Stmt::Break(_) => Ok(Some(StmtEffect::Break)),
            Stmt::Class(c) => {
                assert(st@->Class_methods =~= function_views(c.methods@));
                self.visit_class(c, inner)
            },
        }
    }
}

pub open spec fn option_box_stmt_view(s: Option<Box<Stmt>>) -> Option<Box<statement::StmtView>> {
    match s {
        Some(s) => Some(Box::new(s@)),
        None => None,
    }
}

} // verus!
