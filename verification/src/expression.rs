//! Expressions of the syntax tree.
use crate::number::Number;
use crate::scanner::{Token, TokenView};
use vstd::prelude::*;

verus! {

/// A literal value in the source.
#[derive(Clone, Debug)]
pub enum Literal {
    Number(Number),
    String(String),
    True,
    False,
    Nil,
}

/// An operator before its operand.
#[derive(Debug)]
pub struct Unary {
    pub operator: Token,
    pub right: Box<Expr>,
}

/// An operator between two operands, both of which are evaluated.
#[derive(Debug)]
pub struct Binary {
    pub left: Box<Expr>,
    pub right: Box<Expr>,
    pub operator: Token,
}

/// `and` or `or` between two operands, the second of which may be skipped.
#[derive(Debug)]
pub struct Logical {
    pub left: Box<Expr>,
    pub right: Box<Expr>,
    pub operator: Token,
}

/// An expression in parentheses.
#[derive(Debug)]
pub struct Grouping(pub Box<Expr>);

/// A use of a variable.
#[derive(Debug)]
pub struct Variable {
    pub name: Token,
    /// The number of scopes between the use and the declaration; `None` for a global.
    pub hops: Option<usize>,
}

/// An assignment to a variable.
#[derive(Debug)]
pub struct Assignment {
    pub name: Token,
    /// The number of scopes between the assignment and the declaration; `None` for a global.
    pub hops: Option<usize>,
    pub value: Box<Expr>,
}

/// A call, with the closing parenthesis to report errors at.
#[derive(Debug)]
pub struct Call {
    pub right_paren: Token,
    pub callee: Box<Expr>,
    pub args: Vec<Expr>,
}

/// A property read off an object.
#[derive(Debug)]
pub struct Get {
    pub name: Token,
    pub object: Box<Expr>,
}

/// A property set on an object.
#[derive(Debug)]
pub struct SetProperty {
    pub name: Token,
    pub object: Box<Expr>,
    pub value: Box<Expr>,
}

/// A use of `this`.
#[derive(Debug)]
pub struct This {
    pub keyword: Token,
    /// The number of scopes up to the one that binds `this`.
    pub hops: Option<usize>,
}

/// A method looked up in the super class: `super.method`.
#[derive(Debug)]
pub struct Super {
    pub keyword: Token,
    pub method: Token,
    pub hops_to_super: Option<usize>,
    pub hops_to_this: Option<usize>,
}

/// An expression.
#[derive(Debug)]
pub enum Expr {
    Literal(Literal),
    Unary(Unary),
    Binary(Binary),
    Logical(Logical),
    Grouping(Grouping),
    Variable(Variable),
    Assignment(Assignment),
    Call(Call),
    Get(Get),
    SetProperty(SetProperty),
    This(This),
    Super(Super),
}

/// What an assignment may write to.
pub enum AssignTarget {
    Var { name: Token },
    Get { object: Box<Expr>, name: Token },
}

/// The mathematical model of a literal.
pub enum LiteralView {
    Number(Number),
    String(Seq<char>),
    True,
    False,
    Nil,
}

/// The mathematical model of an expression.
pub enum ExprView {
    Literal(LiteralView),
    Unary { operator: TokenView, right: Box<ExprView> },
    Binary { left: Box<ExprView>, right: Box<ExprView>, operator: TokenView },
    Logical { left: Box<ExprView>, right: Box<ExprView>, operator: TokenView },
    Grouping(Box<ExprView>),
    Variable { name: TokenView, hops: Option<nat> },
    Assignment { name: TokenView, hops: Option<nat>, value: Box<ExprView> },
    Call { right_paren: TokenView, callee: Box<ExprView>, args: Seq<ExprView> },
    Get { name: TokenView, object: Box<ExprView> },
    SetProperty { name: TokenView, object: Box<ExprView>, value: Box<ExprView> },
    This { keyword: TokenView, hops: Option<nat> },
    Super {
        keyword: TokenView,
        method: TokenView,
        hops_to_super: Option<nat>,
        hops_to_this: Option<nat>,
    },
}

/// The mathematical model of a use of a variable.
pub struct VariableView {
    pub name: TokenView,
    pub hops: Option<nat>,
}

/// The mathematical model of an assignment target.
pub enum AssignTargetView {
    Var { name: TokenView },
    Get { object: ExprView, name: TokenView },
}

impl View for Literal {
    type V = LiteralView;

    open spec fn view(&self) -> LiteralView {
        match self {
            Literal::Number(n) => LiteralView::Number(*n),
            Literal::String(s) => LiteralView::String(s@),
            Literal::True => LiteralView::True,
            Literal::False => LiteralView::False,
            Literal::Nil => LiteralView::Nil,
        }
    }
}

impl Literal {
    pub fn duplicate(&self) -> (r: Literal)
        ensures
            r@ == self@,
    {
        match self {
            Literal::Number(n) => Literal::Number(*n),
            Literal::String(s) => Literal::String(s.clone()),
            Literal::True => Literal::True,
            Literal::False => Literal::False,
            Literal::Nil => Literal::Nil,
        }
    }
}

impl View for Variable {
    type V = VariableView;

    open spec fn view(&self) -> VariableView {
        VariableView { name: self.name@, hops: hops_view(self.hops) }
    }
}

impl Variable {
    pub fn duplicate(&self) -> (r: Variable)
        ensures
            r@ == self@,
    {
        Variable { name: self.name.duplicate(), hops: self.hops }
    }
}

/// The hops of a node, as the number that they are.
pub open spec fn hops_view(h: Option<usize>) -> Option<nat> {
    match h {
        Some(h) => Some(h as nat),
        None => None,
    }
}

/// The literal `nil`.
pub open spec fn nil_view() -> ExprView {
    ExprView::Literal(LiteralView::Nil)
}

impl Expr {
    #[verifier::opaque]
    pub open spec fn view(&self) -> ExprView
        decreases self,
    {
        match self {
            Expr::Literal(l) => ExprView::Literal(l@),
            Expr::Unary(e) => ExprView::Unary { operator: e.operator@, right: Box::new(e.right@) },
            Expr::Binary(e) => ExprView::Binary {
                left: Box::new(e.left@),
                right: Box::new(e.right@),
                operator: e.operator@,
            },
            Expr::Logical(e) => ExprView::Logical {
                left: Box::new(e.left@),
                right: Box::new(e.right@),
                operator: e.operator@,
            },
            Expr::Grouping(e) => ExprView::Grouping(Box::new(e.0@)),
            Expr::Variable(e) => ExprView::Variable { name: e.name@, hops: hops_view(e.hops) },
            Expr::Assignment(e) => ExprView::Assignment {
                name: e.name@,
                hops: hops_view(e.hops),
                value: Box::new(e.value@),
            },
            Expr::Call(e) => ExprView::Call {
                right_paren: e.right_paren@,
                callee: Box::new(e.callee@),
                args: Seq::new(
                    e.args@.len(),
                    |i: int|
                        if 0 <= i < e.args@.len() {
                            e.args@[i]@
                        } else {
                            nil_view()
                        },
                ),
            },
            Expr::Get(e) => ExprView::Get { name: e.name@, object: Box::new(e.object@) },
            Expr::SetProperty(e) => ExprView::SetProperty {
                name: e.name@,
                object: Box::new(e.object@),
                value: Box::new(e.value@),
            },
            Expr::This(e) => ExprView::This { keyword: e.keyword@, hops: hops_view(e.hops) },
            Expr::Super(e) => ExprView::Super {
                keyword: e.keyword@,
                method: e.method@,
                hops_to_super: hops_view(e.hops_to_super),
                hops_to_this: hops_view(e.hops_to_this),
            },
        }
    }
}

/// The views of a sequence of expressions, in order.
pub open spec fn expr_views(es: Seq<Expr>) -> Seq<ExprView> {
    Seq::new(
        es.len(),
        |i: int|
            if 0 <= i < es.len() {
                es[i]@
            } else {
                nil_view()
            },
    )
}

/// The model of an optional expression.
pub open spec fn option_expr_view(e: Option<Expr>) -> Option<ExprView> {
    match e {
        Some(e) => Some(e@),
        None => None,
    }
}

/// The views of a sequence with one more expression.
pub proof fn lemma_expr_views_push(es: Seq<Expr>, e: Expr)
    ensures
        expr_views(es.push(e)) == expr_views(es).push(e@),
{
    assert(expr_views(es.push(e)) =~= expr_views(es).push(e@));
}

impl View for AssignTarget {
    type V = AssignTargetView;

    open spec fn view(&self) -> AssignTargetView {
        match self {
            AssignTarget::Var { name } => AssignTargetView::Var { name: name@ },
            AssignTarget::Get { object, name } => AssignTargetView::Get {
                object: object@,
                name: name@,
            },
        }
    }
}

/// The target that an expression names, where it names one: a variable, or
/// a property of an object.
pub open spec fn assign_target(e: ExprView) -> Option<AssignTargetView> {
    match e {
        ExprView::Variable { name, hops } => Some(AssignTargetView::Var { name }),
        ExprView::Get { name, object } => Some(AssignTargetView::Get { object: *object, name }),
        _ => None,
    }
}

impl Expr {
    /// Reads a parsed expression as the left side of an assignment.
    pub fn as_assign_target(self) -> (r: Option<AssignTarget>)
        ensures
            match r {
                Some(t) => assign_target(self@) == Some(t@),
                None => assign_target(self@) is None,
            },
    {
        proof {
            reveal_with_fuel(Expr::view, 1);
        }
        match self {
            Expr::Variable(v) => Some(AssignTarget::Var { name: v.name }),
            Expr::Get(g) => Some(AssignTarget::Get { object: g.object, name: g.name }),
            _ => None,
        }
    }

    /// A copy of the expression.
    pub fn duplicate(&self) -> (r: Expr)
        ensures
            r@ == self@,
        decreases self,
    {
        proof {
            reveal_with_fuel(Expr::view, 1);
        }
        match self {
            Expr::Literal(l) => Expr::Literal(l.duplicate()),
            Expr::Unary(e) => Expr::Unary(
                Unary { operator: e.operator.duplicate(), right: Box::new(e.right.duplicate()) },
            ),
            Expr::Binary(e) => Expr::Binary(
                Binary {
                    left: Box::new(e.left.duplicate()),
                    right: Box::new(e.right.duplicate()),
                    operator: e.operator.duplicate(),
                },
            ),
            Expr::Logical(e) => Expr::Logical(
                Logical {
                    left: Box::new(e.left.duplicate()),
                    right: Box::new(e.right.duplicate()),
                    operator: e.operator.duplicate(),
                },
            ),
            Expr::Grouping(e) => Expr::Grouping(Grouping(Box::new(e.0.duplicate()))),
            Expr::Variable(e) => Expr::Variable(
                Variable { name: e.name.duplicate(), hops: e.hops },
            ),
            Expr::Assignment(e) => Expr::Assignment(
                Assignment {
                    name: e.name.duplicate(),
                    hops: e.hops,
                    value: Box::new(e.value.duplicate()),
                },
            ),
            Expr::Call(e) => {
                let mut args: Vec<Expr> = Vec::new();
                let mut i: usize = 0;
                while i < e.args.len()
                    invariant
                        i <= e.args@.len(),
                        args@.len() == i,
                        forall|j: int| 0 <= j < i ==> args@[j]@ == e.args@[j]@,
                        forall|j: int|
                            0 <= j < e.args@.len() ==> decreases_to!(self => e.args@[j]),
                    decreases e.args@.len() - i,
                {
                    let copy = e.args[i].duplicate();
                    args.push(copy);
                    i += 1;
                }
                let r = Expr::Call(
                    Call {
                        right_paren: e.right_paren.duplicate(),
                        callee: Box::new(e.callee.duplicate()),
                        args,
                    },
                );
                assert(r@->Call_args =~= self@->Call_args);
                r
            },
            Expr::Get(e) => Expr::Get(
                Get { name: e.name.duplicate(), object: Box::new(e.object.duplicate()) },
            ),
            Expr::SetProperty(e) => Expr::SetProperty(
                SetProperty {
                    name: e.name.duplicate(),
                    object: Box::new(e.object.duplicate()),
                    value: Box::new(e.value.duplicate()),
                },
            ),
            Expr::This(e) => Expr::This(This { keyword: e.keyword.duplicate(), hops: e.hops }),
            Expr::Super(e) => Expr::Super(
                Super {
                    keyword: e.keyword.duplicate(),
                    method: e.method.duplicate(),
                    hops_to_super: e.hops_to_super,
                    hops_to_this: e.hops_to_this,
                },
            ),
        }
    }
}

impl Expr {
    /// A literal expression.
    pub fn literal(value: Literal) -> (r: Expr)
        ensures
            r@ == ExprView::Literal(value@),
    {
        reveal_with_fuel(Expr::view, 1);
        Expr::Literal(value)
    }

    /// A unary expression.
    pub fn unary(operator: Token, right: Expr) -> (r: Expr)
        ensures
            r@ == (ExprView::Unary { operator: operator@, right: Box::new(right@) }),
    {
        reveal_with_fuel(Expr::view, 1);
        Expr::Unary(Unary { operator, right: Box::new(right) })
    }

    /// A binary expression.
    pub fn binary(left: Expr, operator: Token, right: Expr) -> (r: Expr)
        ensures
            r@ == (ExprView::Binary {
                left: Box::new(left@),
                right: Box::new(right@),
                operator: operator@,
            }),
    {
        reveal_with_fuel(Expr::view, 1);
        Expr::Binary(Binary { left: Box::new(left), right: Box::new(right), operator })
    }

    /// A logical expression.
    pub fn logical(left: Expr, operator: Token, right: Expr) -> (r: Expr)
        ensures
            r@ == (ExprView::Logical {
                left: Box::new(left@),
                right: Box::new(right@),
                operator: operator@,
            }),
    {
        reveal_with_fuel(Expr::view, 1);
        Expr::Logical(Logical { left: Box::new(left), right: Box::new(right), operator })
    }

    /// An expression in parentheses.
    pub fn grouping(inner: Expr) -> (r: Expr)
        ensures
            r@ == ExprView::Grouping(Box::new(inner@)),
    {
        reveal_with_fuel(Expr::view, 1);
        Expr::Grouping(Grouping(Box::new(inner)))
    }

    /// A use of a variable that is not resolved yet.
    pub fn variable(name: Token) -> (r: Expr)
        ensures
            r@ == (ExprView::Variable { name: name@, hops: None }),
    {
        reveal_with_fuel(Expr::view, 1);
        Expr::Variable(Variable { name, hops: None })
    }

    /// An assignment to a variable that is not resolved yet.
    pub fn assignment(name: Token, value: Expr) -> (r: Expr)
        ensures
            r@ == (ExprView::Assignment { name: name@, hops: None, value: Box::new(value@) }),
    {
        reveal_with_fuel(Expr::view, 1);
        Expr::Assignment(Assignment { name, hops: None, value: Box::new(value) })
    }

    /// A call expression.
    pub fn call(callee: Expr, right_paren: Token, args: Vec<Expr>) -> (r: Expr)
        ensures
            r@ == (ExprView::Call {
                right_paren: right_paren@,
                callee: Box::new(callee@),
                args: expr_views(args@),
            }),
    {
        reveal_with_fuel(Expr::view, 1);
        let r = Expr::Call(Call { right_paren, callee: Box::new(callee), args });
        assert(r@->Call_args =~= expr_views(args@));
        r
    }

    /// A property read off an object.
    pub fn get(object: Expr, name: Token) -> (r: Expr)
        ensures
            r@ == (ExprView::Get { name: name@, object: Box::new(object@) }),
    {
        reveal_with_fuel(Expr::view, 1);
        Expr::Get(Get { name, object: Box::new(object) })
    }

    /// A property set on an object.
    pub fn set_property(object: Box<Expr>, name: Token, value: Expr) -> (r: Expr)
        ensures
            r@ == (ExprView::SetProperty {
                name: name@,
                object: Box::new(object@),
                value: Box::new(value@),
            }),
    {
        reveal_with_fuel(Expr::view, 1);
        Expr::SetProperty(SetProperty { name, object, value: Box::new(value) })
    }

    /// A use of `this` that is not resolved yet.
    pub fn this(keyword: Token) -> (r: Expr)
        ensures
            r@ == (ExprView::This { keyword: keyword@, hops: None }),
    {
        reveal_with_fuel(Expr::view, 1);
        Expr::This(This { keyword, hops: None })
    }

    /// A use of `super` that is not resolved yet.
    pub fn super_method(keyword: Token, method: Token) -> (r: Expr)
        ensures
            r@ == (ExprView::Super {
                keyword: keyword@,
                method: method@,
                hops_to_super: None,
                hops_to_this: None,
            }),
    {
        reveal_with_fuel(Expr::view, 1);
        Expr::Super(Super { keyword, method, hops_to_super: None, hops_to_this: None })
    }
}

} // verus!
