//! The walk over the syntax tree that writes the hops into it.
use crate::expression::{expr_views, Expr, ExprView, Variable};
use crate::resolver::rules::{lookup, resolve_expr, resolve_exprs};
use crate::resolver::{ResolutionError, Resolver};
use crate::scanner::Token;
use vstd::prelude::*;

verus! {

impl Resolver {
    pub(crate) fn look_up(&mut self, name: &Token) -> (r: Option<usize>)
        ensures
            final(self)@ == lookup(old(self)@, name@.lexeme).state,
            crate::expression::hops_view(r) == lookup(old(self)@, name@.lexeme).tree,
    {
        self.resolve_local(&name.lexeme)
    }

    fn resolve_args(&mut self, args: &mut Vec<Expr>)
        ensures
            final(self)@ == resolve_exprs(
                old(self)@,
                expr_views(old(args)@),
                0,
                Seq::empty(),
            ).state,
            expr_views(final(args)@) == resolve_exprs(
                old(self)@,
                expr_views(old(args)@),
                0,
                Seq::empty(),
            ).tree,
        decreases *old(args),
    {
        let ghost before = args@;
        let ghost goal = resolve_exprs(old(self)@, expr_views(before), 0, Seq::empty());
        let mut i: usize = 0;
        assert(expr_views(args@).subrange(0, 0) =~= Seq::empty());
        while i < args.len()
            invariant
                i <= args@.len(),
                args@.len() == before.len(),
                before == old(args)@,
                forall|j: int| i <= j < before.len() ==> args@[j] == before[j],
                forall|j: int| 0 <= j < before.len() ==> decreases_to!(*old(args) => before[j]),
                goal == resolve_exprs(
                    self@,
                    expr_views(before),
                    i as nat,
                    expr_views(args@).subrange(0, i as int),
                ),
            decreases args@.len() - i,
        {
            proof {
                reveal_with_fuel(resolve_exprs, 1);
                reveal_with_fuel(resolve_expr, 1);
            }
            let ghost done = expr_views(args@).subrange(0, i as int);
            let ghost state = self@;
            assert(expr_views(before)[i as int] == before[i as int]@);
            self.resolve_expr(&mut args[i]);
            assert(expr_views(args@).subrange(0, i + 1) =~= done.push(
                resolve_expr(state, expr_views(before)[i as int]).tree,
            ));
            i += 1;
        }
        proof {
            reveal_with_fuel(resolve_exprs, 1);
            assert(expr_views(args@).subrange(0, i as int) =~= expr_views(args@));
        }
    }

    fn visit_variable(&mut self, e: &mut Variable)
        ensures
            final(self)@ == resolve_expr(
                old(self)@,
                ExprView::Variable { name: old(e)@.name, hops: old(e)@.hops },
            ).state,
            (ExprView::Variable { name: final(e)@.name, hops: final(e)@.hops }) == resolve_expr(
                old(self)@,
                ExprView::Variable { name: old(e)@.name, hops: old(e)@.hops },
            ).tree,
    {
        proof {
            reveal_with_fuel(resolve_expr, 1);
        }
        if self.reads_own_initializer(&e.name.lexeme) {
            self.add_err(ResolutionError::CantReadLocalVarInItsInitializer(e.name.duplicate()));
            return ;
        }
        e.hops = self.look_up(&e.name);
    }

    /// Resolves an expression in place.
    pub(crate) fn resolve_expr(&mut self, e: &mut Expr)
        ensures
            final(self)@ == resolve_expr(old(self)@, old(e)@).state,
            final(e)@ == resolve_expr(old(self)@, old(e)@).tree,
        decreases *old(e),
    {
        proof {
            reveal_with_fuel(resolve_expr, 1);
            reveal_with_fuel(resolve_exprs, 1);
            reveal_with_fuel(Expr::view, 1);
        }
        match e {
            Expr::Literal(_) => {},
            Expr::Unary(u) => {
                self.resolve_expr(&mut u.right);
            },
            Expr::Binary(b) => {
                self.resolve_expr(&mut b.left);
                self.resolve_expr(&mut b.right);
            },
            Expr::Logical(b) => {
                self.resolve_expr(&mut b.left);
                self.resolve_expr(&mut b.right);
            },
            Expr::Grouping(g) => {
                self.resolve_expr(&mut g.0);
            },
            Expr::Variable(v) => {
                self.visit_variable(v);
            },
            Expr::Assignment(a) => {
                self.resolve_expr(&mut a.value);
                a.hops = self.look_up(&a.name);
            },
            Expr::Call(c) => {
                self.resolve_expr(&mut c.callee);
                let ghost before = expr_views(c.args@);
                assert(before =~= old(e)@->Call_args);
                self.resolve_args(&mut c.args);
                assert(e@->Call_args =~= expr_views(c.args@));
            },
            Expr::Get(g) => {
                self.resolve_expr(&mut g.object);
            },
            Expr::SetProperty(p) => {
                self.resolve_expr(&mut p.object);
                self.resolve_expr(&mut p.value);
            },
            Expr::This(t) => {
                if !self.in_class() {
                    self.add_err(ResolutionError::ThisNotInsideClass(t.keyword.duplicate()));
                } else {
                    t.hops = self.look_up(&t.keyword);
                }
            },
            Expr::Super(s) => {
                s.hops_to_super = self.look_up(&s.keyword);
                let this = crate::resolver::provided(crate::scanner::TokenType::This, "this");
                s.hops_to_this = self.look_up(&this);
            },
        }
    }
}

} // verus!
