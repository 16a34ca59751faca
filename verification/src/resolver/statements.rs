//! The walk over statements and declarations.
use crate::expression::{option_expr_view, Expr, Variable};
use crate::resolver::rules::{
    cleared, declare_params, method_context, resolve_expr, resolve_function, resolve_methods,
    resolve_optional, resolve_program, resolve_stmt, resolve_stmts, resolve_super_class,
};
use crate::resolver::{
    begin_scope, declare, define, error_views, warning_views, Context, ResolutionError,
    ResolutionErrorView, ResolutionResult, Resolver, WarningView,
};
use crate::scanner::{token_views, Token};
use crate::statement::{self, function_views, option_variable_view, stmt_views, Stmt, StmtView};
use crate::text::same_text;
use vstd::prelude::*;
use vstd::string::*;
use vstd::utf8::is_ascii_chars;

verus! {

impl Resolver {
    fn resolve_optional(&mut self, e: &mut Option<Expr>)
        ensures
            final(self)@ == resolve_optional(old(self)@, option_expr_view(*old(e))).state,
            option_expr_view(*final(e)) == resolve_optional(
                old(self)@,
                option_expr_view(*old(e)),
            ).tree,
    {
        match e {
            Some(expr) => {
                self.resolve_expr(expr);
            },
            None => {},
        }
    }

    fn declare_params(&mut self, params: &Vec<Token>)
        ensures
            final(self)@ == declare_params(old(self)@, token_views(params@), 0),
    {
        let mut i: usize = 0;
        while i < params.len()
            invariant
                i <= params@.len(),
                declare_params(self@, token_views(params@), i as nat) == declare_params(
                    old(self)@,
                    token_views(params@),
                    0,
                ),
            decreases params@.len() - i,
        {
            self.declare(&params[i]);
            self.define(&params[i]);
            i += 1;
        }
    }

    /// Resolves a function or a method: its parameters and its body live in
    /// a scope of their own.
    pub(crate) fn resolve_function(&mut self, f: &mut statement::Function)
        ensures
            final(self)@ == resolve_function(old(self)@, old(f)@).state,
            final(f)@ == resolve_function(old(self)@, old(f)@).tree,
        decreases *old(f),
    {
        proof {
            reveal_with_fuel(resolve_function, 1);
            reveal_with_fuel(resolve_stmts, 1);
            reveal_with_fuel(statement::Function::view, 1);
            reveal_with_fuel(Stmt::view, 1);
        }
        self.begin_scope();
        self.declare_params(&f.params);
        assert(stmt_views(f.body@) =~= old(f)@.body);
        self.resolve_stmts(&mut f.body);
        assert(f@.body =~= stmt_views(f.body@));
        self.end_scope();
    }

    pub(crate) fn resolve_stmts(&mut self, stmts: &mut Vec<Stmt>)
        ensures
            final(self)@ == resolve_stmts(
                old(self)@,
                stmt_views(old(stmts)@),
                0,
                Seq::empty(),
            ).state,
            stmt_views(final(stmts)@) == resolve_stmts(
                old(self)@,
                stmt_views(old(stmts)@),
                0,
                Seq::empty(),
            ).tree,
        decreases *old(stmts),
    {
        let ghost before = stmts@;
        let ghost goal = resolve_stmts(old(self)@, stmt_views(before), 0, Seq::empty());
        let mut i: usize = 0;
        assert(stmt_views(stmts@).subrange(0, 0) =~= Seq::empty());
        while i < stmts.len()
            invariant
                i <= stmts@.len(),
                stmts@.len() == before.len(),
                before == old(stmts)@,
                forall|j: int| i <= j < before.len() ==> stmts@[j] == before[j],
                forall|j: int| 0 <= j < before.len() ==> decreases_to!(*old(stmts) => before[j]),
                goal == resolve_stmts(
                    self@,
                    stmt_views(before),
                    i as nat,
                    stmt_views(stmts@).subrange(0, i as int),
                ),
            decreases stmts@.len() - i,
        {
            proof {
                reveal_with_fuel(resolve_stmts, 1);
                reveal_with_fuel(resolve_stmt, 1);
            }
            let ghost done = stmt_views(stmts@).subrange(0, i as int);
            let ghost state = self@;
            assert(stmt_views(before)[i as int] == before[i as int]@);
            self.resolve_stmt(&mut stmts[i]);
            assert(stmt_views(stmts@).subrange(0, i + 1) =~= done.push(
                resolve_stmt(state, stmt_views(before)[i as int]).tree,
            ));
            i += 1;
        }
        proof {
            reveal_with_fuel(resolve_stmts, 1);
            assert(stmt_views(stmts@).subrange(0, i as int) =~= stmt_views(stmts@));
        }
    }

    fn resolve_methods(&mut self, methods: &mut Vec<statement::Function>)
        ensures
            final(self)@ == resolve_methods(
                old(self)@,
                function_views(old(methods)@),
                0,
                Seq::empty(),
            ).state,
            function_views(final(methods)@) == resolve_methods(
                old(self)@,
                function_views(old(methods)@),
                0,
                Seq::empty(),
            ).tree,
        decreases *old(methods),
    {
        let ghost before = methods@;
        let ghost goal = resolve_methods(old(self)@, function_views(before), 0, Seq::empty());
        let mut i: usize = 0;
        assert(function_views(methods@).subrange(0, 0) =~= Seq::empty());
        while i < methods.len()
            invariant
                i <= methods@.len(),
                methods@.len() == before.len(),
                before == old(methods)@,
                forall|j: int| i <= j < before.len() ==> methods@[j] == before[j],
                forall|j: int| 0 <= j < before.len() ==> decreases_to!(*old(methods) => before[j]),
                goal == resolve_methods(
                    self@,
                    function_views(before),
                    i as nat,
                    function_views(methods@).subrange(0, i as int),
                ),
            decreases methods@.len() - i,
        {
            proof {
                reveal_with_fuel(resolve_methods, 1);
                reveal_with_fuel(resolve_function, 1);
                reveal_strlit("init");
            }
            let ghost done = function_views(methods@).subrange(0, i as int);
            let ghost state = self@;
            assert(function_views(before)[i as int] == before[i as int]@);
            let context = if is_initializer(&methods[i]) {
                Context::InitializerMethod
            } else {
                Context::Method
            };
            self.push_context(context);
            let ghost pushed = self@;
            self.resolve_function(&mut methods[i]);
            self.pop_context();
            assert(function_views(methods@).subrange(0, i + 1) =~= done.push(
                resolve_function(pushed, function_views(before)[i as int]).tree,
            ));
            i += 1;
        }
        proof {
            reveal_with_fuel(resolve_methods, 1);
            assert(function_views(methods@).subrange(0, i as int) =~= function_views(methods@));
        }
    }

    fn resolve_super_class(&mut self, name: &Token, sup: &mut Option<Variable>)
        ensures
            final(self)@ == resolve_super_class(
                old(self)@,
                name@,
                option_variable_view(*old(sup)),
            ).state,
            option_variable_view(*final(sup)) == resolve_super_class(
                old(self)@,
                name@,
                option_variable_view(*old(sup)),
            ).tree,
    {
        match sup {
            Some(v) => {
                v.hops = self.look_up(&v.name);
                if v.name.lexeme == name.lexeme {
                    self.add_err(ResolutionError::ClassCantInheritFromItself(v.name.duplicate()));
                }
            },
            None => {},
        }
    }

    fn visit_class(&mut self, c: &mut statement::Class)
        ensures
            final(self)@ == resolve_stmt(
                old(self)@,
                StmtView::Class {
                    name: old(c).name@,
                    super_class: option_variable_view(old(c).super_class),
                    methods: function_views(old(c).methods@),
                },
            ).state,
            (StmtView::Class {
                name: final(c).name@,
                super_class: option_variable_view(final(c).super_class),
                methods: function_views(final(c).methods@),
            }) == resolve_stmt(
                old(self)@,
                StmtView::Class {
                    name: old(c).name@,
                    super_class: option_variable_view(old(c).super_class),
                    methods: function_views(old(c).methods@),
                },
            ).tree,
        decreases *old(c),
    {
        proof {
            reveal_with_fuel(resolve_stmt, 1);
            reveal_with_fuel(resolve_methods, 1);
        }
        self.push_context(Context::Class);
        self.declare(&c.name);
        self.define(&c.name);
        self.resolve_super_class(&c.name, &mut c.super_class);
        let inherits = c.super_class.is_some();
        if inherits {
            self.begin_scope();
            self.define_super();
        }
        self.begin_scope();
        self.define_this();
        self.resolve_methods(&mut c.methods);
        self.end_scope();
        if inherits {
            self.end_scope();
        }
        self.pop_context();
    }

    fn visit_return(&mut self, s: &mut statement::Return)
        ensures
            final(self)@ == resolve_stmt(
                old(self)@,
                StmtView::Return { keyword: old(s).keyword@, value: option_expr_view(old(s).value) },
            ).state,
            (StmtView::Return { keyword: final(s).keyword@, value: option_expr_view(final(s).value) })
                == resolve_stmt(
                old(self)@,
                StmtView::Return { keyword: old(s).keyword@, value: option_expr_view(old(s).value) },
            ).tree,
    {
        proof {
            reveal_with_fuel(resolve_stmt, 1);
        }
        match self.function_context() {
            None => {
                self.add_err(ResolutionError::ReturnNotInFunction(s.keyword.duplicate()));
            },
            Some(context) => {
                if context == Context::InitializerMethod && s.value.is_some() {
                    self.add_err(
                        ResolutionError::CantReturnValueFromAnInitializer(s.keyword.duplicate()),
                    );
                } else {
                    self.resolve_optional(&mut s.value);
                }
            },
        }
    }

    fn visit_break(&mut self, s: &statement::Break)
        ensures
            final(self)@ == resolve_stmt(old(self)@, StmtView::Break { keyword: s.keyword@ }).state,
    {
        proof {
            reveal_with_fuel(resolve_stmt, 1);
        }
        if !self.in_loop() {
            self.add_err(ResolutionError::BreakNotInLoop(s.keyword.duplicate()));
        }
    }

    /// Resolves a statement in place.
    pub(crate) fn resolve_stmt(&mut self, st: &mut Stmt)
        ensures
            final(self)@ == resolve_stmt(old(self)@, old(st)@).state,
            final(st)@ == resolve_stmt(old(self)@, old(st)@).tree,
        decreases *old(st),
    {
        proof {
            reveal_with_fuel(resolve_stmt, 1);
            reveal_with_fuel(resolve_stmts, 1);
            reveal_with_fuel(resolve_function, 1);
            reveal_with_fuel(Stmt::view, 1);
            reveal_with_fuel(statement::Function::view, 1);
        }
        match st {
            Stmt::Expression(s) => {
                self.resolve_expr(&mut s.expr);
            },
            Stmt::Print(s) => {
                self.resolve_expr(&mut s.expr);
            },
            Stmt::Variable(s) => {
                self.declare(&s.name);
                self.resolve_optional(&mut s.initializer);
                self.define(&s.name);
            },
            Stmt::Block(b) => {
                self.begin_scope();
                assert(stmt_views(b.statements@) =~= old(st)@->Block_0);
                self.resolve_stmts(&mut b.statements);
                self.end_scope();
                assert(st@->Block_0 =~= stmt_views(b.statements@));
            },
            Stmt::If(s) => {
                self.resolve_expr(&mut s.cond);
                self.resolve_stmt(&mut s.then_branch);
                match &mut s.else_branch {
                    Some(other) => {
                        self.resolve_stmt(other);
                    },
                    None => {},
                }
            },
            Stmt::While(s) => {
                self.push_context(Context::Loop);
                self.resolve_expr(&mut s.cond);
                self.resolve_stmt(&mut s.body);
                self.pop_context();
            },
            Stmt::Function(f) => {
                self.push_context(Context::Function);
                self.declare(&f.name);
                self.define(&f.name);
                self.resolve_function(f);
                self.pop_context();
            },
            Stmt::Return(s) => {
                self.visit_return(s);
            },
            Stmt::Break(s) => {
                self.visit_break(s);
            },
            Stmt::Class(c) => {
                assert(function_views(c.methods@) =~= old(st)@->Class_methods);
                self.visit_class(c);
                assert(st@->Class_methods =~= function_views(c.methods@));
            },
        }
    }

    /// Resolves a program in place and hands out what was reported.
    pub fn resolve(&mut self, stmts: &mut Vec<Stmt>) -> (r: ResolutionResult)
        ensures
            stmt_views(final(stmts)@) == resolve_program(old(self)@, stmt_views(old(stmts)@)).tree,
            final(self)@ == cleared(resolve_program(old(self)@, stmt_views(old(stmts)@)).state),
            reported_warnings(r) == resolve_program(
                old(self)@,
                stmt_views(old(stmts)@),
            ).state.warnings,
            reported_errors(r) == resolve_program(old(self)@, stmt_views(old(stmts)@)).state.errors,
            r.warnings is Some ==> r.warnings->Some_0@.len() > 0,
            r.errors is Some ==> r.errors->Some_0@.len() > 0,
    {
        self.resolve_stmts(stmts);
        let warnings = self.take_warnings();
        let errors = self.take_errors();
        ResolutionResult {
            warnings: if warnings.len() > 0 {
                Some(warnings)
            } else {
                None
            },
            errors: if errors.len() > 0 {
                Some(errors)
            } else {
                None
            },
        }
    }

    /// Resolves one expression in place. Warnings are dropped; the errors,
    /// where there are any, are the result.
    pub fn resolve_single_expr(&mut self, expr: &mut Expr) -> (r: Result<(), Vec<ResolutionError>>)
        ensures
            final(expr)@ == resolve_expr(old(self)@, old(expr)@).tree,
            final(self)@ == cleared(resolve_expr(old(self)@, old(expr)@).state),
            match r {
                Ok(_) => resolve_expr(old(self)@, old(expr)@).state.errors.len() == 0,
                Err(errors) => errors@.len() > 0 && error_views(errors@) == resolve_expr(
                    old(self)@,
                    old(expr)@,
                ).state.errors,
            },
    {
        self.resolve_expr(expr);
        let _ = self.take_warnings();
        let errors = self.take_errors();
        if errors.len() > 0 {
            Err(errors)
        } else {
            Ok(())
        }
    }
}

/// Whether a method is the initializer of its class.
pub fn is_initializer(f: &statement::Function) -> (r: bool)
    ensures
        r == (method_context(f@) == Context::InitializerMethod),
        r == (f.name@.lexeme == "init"@),
{
    proof {
        reveal_with_fuel(statement::Function::view, 1);
        reveal_with_fuel(Stmt::view, 1);
    }
    proof {
        reveal_strlit("init");
    }
    let name = f.name.lexeme.as_str();
    assert(is_ascii("init"));
    if name.is_ascii() {
        same_text(name, "init")
    } else {
        assert(!is_ascii_chars(name@));
        assert(is_ascii_chars("init"@));
        false
    }
}

/// The warnings that a result holds; none where it holds no list.
pub open spec fn reported_warnings(r: ResolutionResult) -> Seq<WarningView> {
    match r.warnings {
        Some(w) => warning_views(w@),
        None => Seq::empty(),
    }
}

/// The errors that a result holds; none where it holds no list.
pub open spec fn reported_errors(r: ResolutionResult) -> Seq<ResolutionErrorView> {
    match r.errors {
        Some(e) => error_views(e@),
        None => Seq::empty(),
    }
}

} // verus!
