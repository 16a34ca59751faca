//! What holds of evaluation, whatever the program.
use crate::expression::ExprView;
use crate::machine::{
    ancestor, lemma_ancestor_in_range, next_instance, read_at, read_var, write_var, MachineView,
};
use crate::number::{is_decimal, is_zero_numeral, Number};
use crate::resolver::rules::resolve_stmt;
use crate::resolver::{enclosing_function, Context, ResolutionErrorView, ResolverView};
use crate::scanner::{TokenType, TokenView};
use crate::semantics::{
    binary_result, construct, decides, eval, eval_logical, invoke, EffectView,
};
use crate::statement::StmtView;
use crate::value::{truthy, CallableView, RuntimeErrorView, ValueView};
use vstd::prelude::*;

verus! {

/// Exactly `nil` and `false` are falsy: zero, the empty string and every
/// other value are truthy.
pub proof fn lemma_truthiness(v: ValueView)
    ensures
        !truthy(v) <==> (v == ValueView::Nil || v == ValueView::Bool(false)),
{
}

/// `+` takes two numbers or two strings and nothing else; the sum of
/// numbers is a number, and the sum of strings is the one string after the
/// other.
pub proof fn lemma_plus(operator: TokenView, l: ValueView, r: ValueView)
    requires
        operator.token_type == TokenType::Plus,
    ensures
        binary_result(operator, l, r) is Ok <==> (l is Number && r is Number) || (l is String
            && r is String),
        l is Number && r is Number ==> binary_result(operator, l, r)->Ok_0 is Number,
        l is String && r is String ==> binary_result(operator, l, r) == Ok::<
            ValueView,
            RuntimeErrorView,
        >(ValueView::String(l->String_0 + r->String_0)),
        binary_result(operator, l, r) is Err ==> binary_result(operator, l, r)->Err_0
            == RuntimeErrorView::BinaryPlusExpectsTwoNumbersOrTwoStrings(operator),
{
}

/// Division by either zero is an error, whatever the dividend.
pub proof fn lemma_division_by_zero(operator: TokenView, l: ValueView, r: ValueView)
    requires
        operator.token_type == TokenType::Slash,
        l is Number,
        r is Number,
    ensures
        r->Number_0.is_zero() <==> binary_result(operator, l, r) == Err::<
            ValueView,
            RuntimeErrorView,
        >(RuntimeErrorView::DivisionByZero(operator)),
        !r->Number_0.is_zero() ==> binary_result(operator, l, r) is Ok,
{
}

/// Division by a numeral of zeros is an error: `0`, `0.0` and `000.000` are
/// zero as they stand in a source text.
pub proof fn lemma_division_by_a_zero_numeral(operator: TokenView, l: ValueView, text: Seq<char>)
    requires
        operator.token_type == TokenType::Slash,
        l is Number,
        is_decimal(text),
        is_zero_numeral(text),
    ensures
        Number::decimal_value(text) == Some(Number { bits: 0 }),
        binary_result(operator, l, ValueView::Number(Number::decimal_value(text)->Some_0)) == Err::<
            ValueView,
            RuntimeErrorView,
        >(RuntimeErrorView::DivisionByZero(operator)),
{
}

/// Where the left operand decides, a logical expression is its left
/// operand: the same value and the same state, so that nothing of the right
/// operand was evaluated. A falsy left operand decides `and`, a truthy one `or`.
pub proof fn lemma_short_circuit(
    m: MachineView,
    left: ExprView,
    operator: TokenView,
    right: ExprView,
    limit: nat,
)
    requires
        operator.token_type == TokenType::And || operator.token_type == TokenType::Or,
        eval(m, left, limit).result is Ok,
        decides(operator.token_type, eval(m, left, limit).result->Ok_0),
    ensures
        eval_logical(m, left, operator, right, limit) == eval(m, left, limit),
        operator.token_type == TokenType::And ==> !truthy(eval(m, left, limit).result->Ok_0),
        operator.token_type == TokenType::Or ==> truthy(eval(m, left, limit).result->Ok_0),
{
    reveal_with_fuel(eval_logical, 1);
    reveal_with_fuel(eval, 1);
}

/// Where the left operand does not decide, a logical expression is its
/// right operand, evaluated in the state that the left one left.
pub proof fn lemma_no_short_circuit(
    m: MachineView,
    left: ExprView,
    operator: TokenView,
    right: ExprView,
    limit: nat,
)
    requires
        operator.token_type == TokenType::And || operator.token_type == TokenType::Or,
        eval(m, left, limit).result is Ok,
        !decides(operator.token_type, eval(m, left, limit).result->Ok_0),
    ensures
        eval_logical(m, left, operator, right, limit) == eval(
            eval(m, left, limit).machine,
            right,
            limit,
        ),
{
    reveal_with_fuel(eval_logical, 1);
    reveal_with_fuel(eval, 1);
}

/// A call of a class that succeeds gives the instance that the call made,
/// whatever the initializer returned.
pub proof fn lemma_construct_gives_the_instance(
    m: MachineView,
    class: nat,
    args: Seq<ExprView>,
    right_paren: TokenView,
    limit: nat,
)
    ensures
        construct(m, class, args, right_paren, limit).result is Ok ==> construct(
            m,
            class,
            args,
            right_paren,
            limit,
        ).result->Ok_0 == ValueView::Instance(next_instance(m)),
{
    reveal_with_fuel(construct, 1);
}

/// A call of an initializer that ends without an error gives the instance
/// that the initializer was bound to, the very value that its closure bound
/// `this` to when it was called: whether its body returned early or ran
/// to its end, and whatever it did on the way.
pub proof fn lemma_initializer_gives_this(
    m: MachineView,
    f: CallableView,
    args: Seq<ValueView>,
    limit: nat,
    closure: nat,
    this: ValueView,
)
    requires
        f.is_initializer,
        f.closure == Some(closure),
        read_at(m, closure, "this"@, 0) == Some(this),
        invoke(m, f, args, limit).result is Ok,
    ensures
        invoke(m, f, args, limit).result == Ok::<ValueView, RuntimeErrorView>(this),
{
    reveal_with_fuel(invoke, 1);
}

/// `return` with a value inside an initializer is an error of resolution,
/// and the value is left unresolved.
pub proof fn lemma_initializer_returns_no_value(
    s: ResolverView,
    keyword: TokenView,
    value: ExprView,
)
    requires
        enclosing_function(s.context, s.context.len()) == Some(Context::InitializerMethod),
    ensures
        resolve_stmt(s, StmtView::Return { keyword, value: Some(value) }).state.errors
            == s.errors.push(ResolutionErrorView::CantReturnValueFromAnInitializer(keyword)),
        resolve_stmt(s, StmtView::Return { keyword, value: Some(value) }).tree
            == (StmtView::Return { keyword, value: Some(value) }),
{
    reveal_with_fuel(resolve_stmt, 1);
}

/// A variable with hops is read from the scope that many parents out from
/// the current scope, and from no other.
pub proof fn lemma_hops_are_parent_links(m: MachineView, name: Seq<char>, hops: nat, v: ValueView)
    requires
        read_var(m, name, Some(hops)) == Some(v),
    ensures
        ancestor(m.envs, m.current, hops) is Some,
        ({
            let at = ancestor(m.envs, m.current, hops)->Some_0;
            at < m.envs.len() && m.envs[at as int].bindings.contains_key(name)
                && m.envs[at as int].bindings[name] == v
        }),
{
    lemma_ancestor_in_range(m, m.current, hops);
}

/// An assignment to a variable with hops changes the binding in the scope
/// that many parents out from the current scope and nothing else; where
/// that scope does not bind the name, nothing is assigned.
pub proof fn lemma_assignment_writes_where_reading_reads(
    m: MachineView,
    name: Seq<char>,
    hops: Option<nat>,
    v: ValueView,
)
    ensures
        write_var(m, name, v, hops) is Some <==> read_var(m, name, hops) is Some,
        write_var(m, name, v, hops) is Some ==> read_var(
            write_var(m, name, v, hops)->Some_0,
            name,
            hops,
        ) == Some(v),
{
    let env = match hops {
        Some(h) => m.current,
        None => m.globals,
    };
    let h: nat = match hops {
        Some(h) => h,
        None => 0,
    };
    lemma_ancestor_in_range(m, env, h);
    if write_var(m, name, v, hops) is Some {
        let at = ancestor(m.envs, env, h)->Some_0;
        let after = write_var(m, name, v, hops)->Some_0;
        lemma_ancestor_unchanged(m, after, env, h);
    }
}

proof fn lemma_ancestor_unchanged(m: MachineView, after: MachineView, env: nat, hops: nat)
    requires
        after.envs.len() == m.envs.len(),
        forall|i: int| 0 <= i < m.envs.len() ==> after.envs[i].parent == m.envs[i].parent,
    ensures
        ancestor(after.envs, env, hops) == ancestor(m.envs, env, hops),
    decreases hops,
{
    if env < m.envs.len() && hops > 0 {
        match m.envs[env as int].parent {
            Some(p) => lemma_ancestor_unchanged(m, after, p, (hops - 1) as nat),
            None => {},
        }
    }
}

} // verus!
