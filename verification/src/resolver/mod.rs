//! The static resolver: one pass over the syntax tree that writes into every
//! use of a variable, of `this` and of `super` the number of scopes between
//! the use and the declaration, and reports what a program may not do.
pub mod laws;
pub mod rules;
pub mod statements;
pub mod walk;

use crate::scanner::{Token, TokenType, TokenView};
use vstd::prelude::*;

verus! {

/// Whether the initializer of a variable is still being resolved.
#[derive(Copy, Clone, Debug, PartialEq, Eq, Structural)]
pub enum VarInitializerState {
    Unresolved,
    Resolved,
}

/// What the resolver knows of a local variable.
#[derive(Debug)]
pub struct LocalVarState {
    pub var_name: Token,
    pub init_state: VarInitializerState,
    pub used: bool,
}

/// The mathematical model of a local variable.
pub struct LocalView {
    pub name: TokenView,
    pub resolved: bool,
    pub used: bool,
}

impl View for LocalVarState {
    type V = LocalView;

    open spec fn view(&self) -> LocalView {
        LocalView {
            name: self.var_name@,
            resolved: self.init_state == VarInitializerState::Resolved,
            used: self.used,
        }
    }
}

/// What encloses the statement that is being resolved.
#[derive(Copy, Clone, Debug, PartialEq, Eq, Structural)]
pub enum Context {
    Function,
    Method,
    InitializerMethod,
    Loop,
    Class,
}

/// What a program may not do.
#[derive(Debug)]
pub enum ResolutionError {
    VariableAlreadyDeclared(Token),
    CantReadLocalVarInItsInitializer(Token),
    ReturnNotInFunction(Token),
    CantReturnValueFromAnInitializer(Token),
    BreakNotInLoop(Token),
    ThisNotInsideClass(Token),
    ClassCantInheritFromItself(Token),
}

/// The mathematical model of a resolution error.
pub enum ResolutionErrorView {
    VariableAlreadyDeclared(TokenView),
    CantReadLocalVarInItsInitializer(TokenView),
    ReturnNotInFunction(TokenView),
    CantReturnValueFromAnInitializer(TokenView),
    BreakNotInLoop(TokenView),
    ThisNotInsideClass(TokenView),
    ClassCantInheritFromItself(TokenView),
}

impl View for ResolutionError {
    type V = ResolutionErrorView;

    open spec fn view(&self) -> ResolutionErrorView {
        match self {
            ResolutionError::VariableAlreadyDeclared(t) => ResolutionErrorView::VariableAlreadyDeclared(
                t@,
            ),
            ResolutionError::CantReadLocalVarInItsInitializer(t) => {
                ResolutionErrorView::CantReadLocalVarInItsInitializer(t@)
            },
            ResolutionError::ReturnNotInFunction(t) => ResolutionErrorView::ReturnNotInFunction(t@),
            ResolutionError::CantReturnValueFromAnInitializer(t) => {
                ResolutionErrorView::CantReturnValueFromAnInitializer(t@)
            },
            ResolutionError::BreakNotInLoop(t) => ResolutionErrorView::BreakNotInLoop(t@),
            ResolutionError::ThisNotInsideClass(t) => ResolutionErrorView::ThisNotInsideClass(t@),
            ResolutionError::ClassCantInheritFromItself(t) => {
                ResolutionErrorView::ClassCantInheritFromItself(t@)
            },
        }
    }
}

/// What a program had better not do.
#[derive(Debug)]
pub enum Warning {
    UnusedLocalVar(Token),
}

/// The mathematical model of a warning.
pub enum WarningView {
    UnusedLocalVar(TokenView),
}

impl View for Warning {
    type V = WarningView;

    open spec fn view(&self) -> WarningView {
        match self {
            Warning::UnusedLocalVar(t) => WarningView::UnusedLocalVar(t@),
        }
    }
}

/// What the resolver found: warnings and errors, each absent where there are none.
pub struct ResolutionResult {
    pub warnings: Option<Vec<Warning>>,
    pub errors: Option<Vec<ResolutionError>>,
}

pub open spec fn local_views(scope: Seq<LocalVarState>) -> Seq<LocalView> {
    scope.map_values(|l: LocalVarState| l@)
}

pub open spec fn scope_views(scopes: Seq<Vec<LocalVarState>>) -> Seq<Seq<LocalView>> {
    scopes.map_values(|s: Vec<LocalVarState>| local_views(s@))
}

pub open spec fn error_views(errors: Seq<ResolutionError>) -> Seq<ResolutionErrorView> {
    errors.map_values(|e: ResolutionError| e@)
}

pub open spec fn warning_views(warnings: Seq<Warning>) -> Seq<WarningView> {
    warnings.map_values(|w: Warning| w@)
}

/// The mathematical model of a resolver: its scopes from the outermost to
/// the innermost, what it has reported, and the enclosing contexts from the
/// outermost to the innermost.
pub struct ResolverView {
    pub scopes: Seq<Seq<LocalView>>,
    pub errors: Seq<ResolutionErrorView>,
    pub warnings: Seq<WarningView>,
    pub context: Seq<Context>,
}

/// The resolver: its scopes, what it has found, and the enclosing contexts.
pub struct Resolver {
    pub(crate) scopes: Vec<Vec<LocalVarState>>,
    pub(crate) errors: Vec<ResolutionError>,
    pub(crate) warnings: Vec<Warning>,
    pub(crate) context: Vec<Context>,
}

impl View for Resolver {
    type V = ResolverView;

    closed spec fn view(&self) -> ResolverView {
        ResolverView {
            scopes: scope_views(self.scopes@),
            errors: error_views(self.errors@),
            warnings: warning_views(self.warnings@),
            context: self.context@,
        }
    }
}

/// The place of the entry for a name in a scope, at `from` or after.
pub open spec fn position(scope: Seq<LocalView>, lexeme: Seq<char>, from: nat) -> Option<nat>
    decreases scope.len() - from,
{
    if from >= scope.len() {
        None
    } else if scope[from as int].name.lexeme == lexeme {
        Some(from)
    } else {
        position(scope, lexeme, from + 1)
    }
}

/// The scope with `entry` in place of the entry of the same name; with
/// `entry` at the end where the scope has none of that name.
pub open spec fn put(scope: Seq<LocalView>, entry: LocalView) -> Seq<LocalView> {
    match position(scope, entry.name.lexeme, 0) {
        Some(i) => scope.update(i as int, entry),
        None => scope.push(entry),
    }
}

/// The scopes with the innermost one replaced.
pub open spec fn with_top(s: ResolverView, top: Seq<LocalView>) -> ResolverView {
    ResolverView { scopes: s.scopes.update(s.scopes.len() - 1, top), ..s }
}

/// The resolver with one more error.
pub open spec fn with_error(s: ResolverView, e: ResolutionErrorView) -> ResolverView {
    ResolverView { errors: s.errors.push(e), ..s }
}

/// The resolver inside one more scope, which is empty.
pub open spec fn begin_scope(s: ResolverView) -> ResolverView {
    ResolverView { scopes: s.scopes.push(Seq::empty()), ..s }
}

/// The warnings for the entries of a scope from `from` on that were never used.
pub open spec fn unused_from(scope: Seq<LocalView>, from: nat, found: Seq<WarningView>) -> Seq<
    WarningView,
>
    decreases scope.len() - from,
{
    if from >= scope.len() {
        found
    } else if scope[from as int].used {
        unused_from(scope, from + 1, found)
    } else {
        unused_from(scope, from + 1, found.push(WarningView::UnusedLocalVar(scope[from as int].name)))
    }
}

/// Leaves the innermost scope, with a warning for each of its entries that
/// was never used.
pub open spec fn end_scope(s: ResolverView) -> ResolverView {
    if s.scopes.len() == 0 {
        s
    } else {
        ResolverView {
            scopes: s.scopes.drop_last(),
            warnings: unused_from(s.scopes.last(), 0, s.warnings),
            ..s
        }
    }
}

/// Declares a name in the innermost scope: not yet resolved, not yet used.
/// A name that the scope holds already is an error. Outside every scope
/// nothing is recorded: the name is a global.
pub open spec fn declare(s: ResolverView, name: TokenView) -> ResolverView {
    if s.scopes.len() == 0 {
        s
    } else if position(s.scopes.last(), name.lexeme, 0) is Some {
        with_error(s, ResolutionErrorView::VariableAlreadyDeclared(name))
    } else {
        with_top(s, s.scopes.last().push(LocalView { name, resolved: false, used: false }))
    }
}

/// Marks a name of the innermost scope as resolved (and as not yet used).
pub open spec fn define(s: ResolverView, name: TokenView) -> ResolverView {
    if s.scopes.len() == 0 {
        s
    } else {
        with_top(s, put(s.scopes.last(), LocalView { name, resolved: true, used: false }))
    }
}

/// Binds a name that the language provides, which is never reported as unused.
pub open spec fn define_provided(s: ResolverView, name: TokenView) -> ResolverView {
    if s.scopes.len() == 0 {
        s
    } else {
        with_top(s, put(s.scopes.last(), LocalView { name, resolved: true, used: true }))
    }
}

/// A token that stands nowhere in the source.
pub open spec fn provided_token(token_type: TokenType, lexeme: Seq<char>) -> TokenView {
    TokenView { token_type, lexeme, literal: None, line: 0, column: 0 }
}

/// The token of `this` where the language provides it.
pub open spec fn this_token() -> TokenView {
    provided_token(TokenType::This, "this"@)
}

/// The token of `super` where the language provides it.
pub open spec fn super_token() -> TokenView {
    provided_token(TokenType::Super, "super"@)
}

/// The number of scopes between the innermost scope and the nearest one
/// that holds the name, looking outward from `depth` scopes out.
pub open spec fn hops_from(
    scopes: Seq<Seq<LocalView>>,
    lexeme: Seq<char>,
    depth: nat,
) -> Option<nat>
    decreases scopes.len() - depth,
{
    if depth >= scopes.len() {
        None
    } else if position(scopes[scopes.len() - 1 - depth], lexeme, 0) is Some {
        Some(depth)
    } else {
        hops_from(scopes, lexeme, depth + 1)
    }
}

/// The number of scopes between a use in the innermost scope and the
/// declaration of the name; `None` for a name that no scope holds.
pub open spec fn hops_to(scopes: Seq<Seq<LocalView>>, lexeme: Seq<char>) -> Option<nat> {
    hops_from(scopes, lexeme, 0)
}

/// The scope with the entry of a name marked as used.
pub open spec fn mark_used(scope: Seq<LocalView>, lexeme: Seq<char>) -> Seq<LocalView> {
    match position(scope, lexeme, 0) {
        Some(i) => scope.update(i as int, LocalView { used: true, ..scope[i as int] }),
        None => scope,
    }
}

/// Looks a name up from the innermost scope outward and marks the entry
/// that it finds as used.
pub open spec fn resolve_local(s: ResolverView, lexeme: Seq<char>) -> ResolverView {
    match hops_to(s.scopes, lexeme) {
        Some(d) => {
            let at = s.scopes.len() - 1 - d;
            ResolverView { scopes: s.scopes.update(at, mark_used(s.scopes[at], lexeme)), ..s }
        },
        None => s,
    }
}

/// Whether a name is declared in the innermost scope and not yet defined.
pub open spec fn in_own_initializer(s: ResolverView, lexeme: Seq<char>) -> bool {
    s.scopes.len() > 0 && match position(s.scopes.last(), lexeme, 0) {
        Some(i) => !s.scopes.last()[i as int].resolved,
        None => false,
    }
}

/// Whether a context is a function, a method or an initializer.
pub open spec fn is_function_context(c: Context) -> bool {
    c == Context::Function || c == Context::Method || c == Context::InitializerMethod
}

/// The innermost function, method or initializer among the first `n` contexts.
pub open spec fn enclosing_function(context: Seq<Context>, n: nat) -> Option<Context>
    decreases n,
{
    if n == 0 || n > context.len() {
        None
    } else if is_function_context(context[n - 1]) {
        Some(context[n - 1])
    } else {
        enclosing_function(context, (n - 1) as nat)
    }
}

/// Whether, among the first `n` contexts, a loop is met before any function
/// on the way outward.
pub open spec fn inside_loop(context: Seq<Context>, n: nat) -> bool
    decreases n,
{
    if n == 0 || n > context.len() {
        false
    } else if context[n - 1] == Context::Loop {
        true
    } else if is_function_context(context[n - 1]) {
        false
    } else {
        inside_loop(context, (n - 1) as nat)
    }
}

/// Whether a class is among the first `n` contexts.
pub open spec fn inside_class(context: Seq<Context>, n: nat) -> bool
    decreases n,
{
    if n == 0 || n > context.len() {
        false
    } else if context[n - 1] == Context::Class {
        true
    } else {
        inside_class(context, (n - 1) as nat)
    }
}

/// The resolver inside one more context.
pub open spec fn push_context(s: ResolverView, c: Context) -> ResolverView {
    ResolverView { context: s.context.push(c), ..s }
}

/// The resolver outside the innermost context.
pub open spec fn pop_context(s: ResolverView) -> ResolverView {
    if s.context.len() == 0 {
        s
    } else {
        ResolverView { context: s.context.drop_last(), ..s }
    }
}

/// The place of the entry for a name in a scope.
pub fn find_local(scope: &Vec<LocalVarState>, lexeme: &String) -> (r: Option<usize>)
    ensures
        match r {
            Some(i) => position(local_views(scope@), lexeme@, 0) == Some(i as nat) && i
                < scope@.len(),
            None => position(local_views(scope@), lexeme@, 0) is None,
        },
{
    let mut i: usize = 0;
    while i < scope.len()
        invariant
            i <= scope@.len(),
            position(local_views(scope@), lexeme@, 0) == position(
                local_views(scope@),
                lexeme@,
                i as nat,
            ),
        decreases scope@.len() - i,
    {
        if scope[i].var_name.lexeme == *lexeme {
            return Some(i);
        }
        i += 1;
    }
    None
}

/// Puts an entry into a scope, in place of the entry of the same name where
/// there is one.
pub fn put_local(scope: &mut Vec<LocalVarState>, entry: LocalVarState)
    ensures
        local_views(final(scope)@) == put(local_views(old(scope)@), entry@),
{
    match find_local(scope, &entry.var_name.lexeme) {
        Some(i) => {
            scope[i] = entry;
            assert(local_views(scope@) =~= put(local_views(old(scope)@), entry@));
        },
        None => {
            scope.push(entry);
            assert(local_views(scope@) =~= put(local_views(old(scope)@), entry@));
        },
    }
}

impl Resolver {
    /// A resolver outside every scope and every context, with nothing reported.
    pub fn new() -> (r: Resolver)
        ensures
            r@ == (ResolverView {
                scopes: Seq::empty(),
                errors: Seq::empty(),
                warnings: Seq::empty(),
                context: Seq::empty(),
            }),
    {
        let r = Resolver {
            scopes: Vec::new(),
            errors: Vec::new(),
            warnings: Vec::new(),
            context: Vec::new(),
        };
        assert(r@.scopes =~= Seq::empty());
        assert(r@.errors =~= Seq::empty());
        assert(r@.warnings =~= Seq::empty());
        r
    }

    /// Hands out the warnings and keeps none.
    pub(crate) fn take_warnings(&mut self) -> (r: Vec<Warning>)
        ensures
            warning_views(r@) == old(self)@.warnings,
            final(self)@ == (ResolverView { warnings: Seq::empty(), ..old(self)@ }),
    {
        let mut out: Vec<Warning> = Vec::new();
        core::mem::swap(&mut out, &mut self.warnings);
        assert(warning_views(self.warnings@) =~= Seq::empty());
        out
    }

    /// Hands out the errors and keeps none.
    pub(crate) fn take_errors(&mut self) -> (r: Vec<ResolutionError>)
        ensures
            error_views(r@) == old(self)@.errors,
            final(self)@ == (ResolverView { errors: Seq::empty(), ..old(self)@ }),
    {
        let mut out: Vec<ResolutionError> = Vec::new();
        core::mem::swap(&mut out, &mut self.errors);
        assert(error_views(self.errors@) =~= Seq::empty());
        out
    }

    pub(crate) fn begin_scope(&mut self)
        ensures
            final(self)@ == begin_scope(old(self)@),
    {
        self.scopes.push(Vec::new());
        assert(local_views(Seq::<LocalVarState>::empty()) =~= Seq::empty());
        assert(scope_views(self.scopes@) =~= scope_views(old(self).scopes@).push(Seq::empty()));
    }

    pub(crate) fn check_for_unused_locals(&mut self)
        ensures
            final(self)@.scopes == old(self)@.scopes,
            final(self)@.errors == old(self)@.errors,
            final(self)@.context == old(self)@.context,
            final(self)@.warnings == (if old(self)@.scopes.len() == 0 {
                old(self)@.warnings
            } else {
                unused_from(old(self)@.scopes.last(), 0, old(self)@.warnings)
            }),
    {
        let n = self.scopes.len();
        if n == 0 {
            return ;
        }
        let ghost top = old(self)@.scopes.last();
        let mut i: usize = 0;
        while i < self.scopes[n - 1].len()
            invariant
                n == self.scopes@.len(),
                n > 0,
                self.scopes == old(self).scopes,
                self.errors == old(self).errors,
                self.context == old(self).context,
                top == local_views(self.scopes@[n - 1]@),
                i <= top.len(),
                unused_from(top, i as nat, warning_views(self.warnings@)) == unused_from(
                    top,
                    0,
                    old(self)@.warnings,
                ),
            decreases top.len() - i,
        {
            if !self.scopes[n - 1][i].used {
                let ghost before = warning_views(self.warnings@);
                let token = self.scopes[n - 1][i].var_name.duplicate();
                self.warnings.push(Warning::UnusedLocalVar(token));
                assert(warning_views(self.warnings@) =~= before.push(
                    WarningView::UnusedLocalVar(top[i as int].name),
                ));
            }
            i += 1;
        }
    }

    pub(crate) fn end_scope(&mut self)
        ensures
            final(self)@ == end_scope(old(self)@),
    {
        self.check_for_unused_locals();
        if self.scopes.len() > 0 {
            let ghost before = self.scopes@;
            let _ = self.scopes.pop();
            assert(scope_views(self.scopes@) =~= scope_views(before).drop_last());
        }
    }

    pub(crate) fn add_err(&mut self, e: ResolutionError)
        ensures
            final(self)@ == with_error(old(self)@, e@),
    {
        self.errors.push(e);
        assert(error_views(self.errors@) =~= error_views(old(self).errors@).push(e@));
    }

    pub(crate) fn push_context(&mut self, c: Context)
        ensures
            final(self)@ == push_context(old(self)@, c),
    {
        self.context.push(c);
    }

    pub(crate) fn pop_context(&mut self)
        ensures
            final(self)@ == pop_context(old(self)@),
    {
        if self.context.len() > 0 {
            let _ = self.context.pop();
            assert(self.context@ =~= old(self).context@.drop_last());
        }
    }

    pub(crate) fn declare(&mut self, name: &Token)
        ensures
            final(self)@ == declare(old(self)@, name@),
    {
        let n = self.scopes.len();
        if n == 0 {
            return ;
        }
        match find_local(&self.scopes[n - 1], &name.lexeme) {
            Some(_) => {
                self.add_err(ResolutionError::VariableAlreadyDeclared(name.duplicate()));
            },
            None => {
                let entry = LocalVarState {
                    var_name: name.duplicate(),
                    init_state: VarInitializerState::Unresolved,
                    used: false,
                };
                let ghost before = local_views(self.scopes@[n - 1]@);
                self.scopes[n - 1].push(entry);
                assert(local_views(self.scopes@[n - 1]@) =~= before.push(entry@));
                assert(scope_views(self.scopes@) =~= scope_views(old(self).scopes@).update(
                    n - 1,
                    before.push(entry@),
                ));
            },
        }
    }

    fn put(&mut self, entry: LocalVarState)
        ensures
            final(self)@ == (if old(self)@.scopes.len() == 0 {
                old(self)@
            } else {
                with_top(old(self)@, put(old(self)@.scopes.last(), entry@))
            }),
    {
        let n = self.scopes.len();
        if n == 0 {
            return ;
        }
        let ghost before = local_views(self.scopes@[n - 1]@);
        put_local(&mut self.scopes[n - 1], entry);
        assert(scope_views(self.scopes@) =~= scope_views(old(self).scopes@).update(
            n - 1,
            put(before, entry@),
        ));
    }

    pub(crate) fn define(&mut self, name: &Token)
        ensures
            final(self)@ == define(old(self)@, name@),
    {
        self.put(
            LocalVarState {
                var_name: name.duplicate(),
                init_state: VarInitializerState::Resolved,
                used: false,
            },
        );
    }

    pub(crate) fn define_this(&mut self)
        ensures
            final(self)@ == define_provided(old(self)@, this_token()),
    {
        self.put(
            LocalVarState {
                var_name: provided(TokenType::This, "this"),
                init_state: VarInitializerState::Resolved,
                used: true,
            },
        );
    }

    pub(crate) fn define_super(&mut self)
        ensures
            final(self)@ == define_provided(old(self)@, super_token()),
    {
        self.put(
            LocalVarState {
                var_name: provided(TokenType::Super, "super"),
                init_state: VarInitializerState::Resolved,
                used: true,
            },
        );
    }

    /// Looks a name up from the innermost scope outward, marks what it finds
    /// as used, and gives the number of scopes in between.
    pub(crate) fn resolve_local(&mut self, lexeme: &String) -> (r: Option<usize>)
        ensures
            final(self)@ == resolve_local(old(self)@, lexeme@),
            crate::expression::hops_view(r) == hops_to(old(self)@.scopes, lexeme@),
    {
        let n = self.scopes.len();
        let mut depth: usize = 0;
        while depth < n
            invariant
                n == self.scopes@.len(),
                depth <= n,
                *self == *old(self),
                hops_from(self@.scopes, lexeme@, depth as nat) == hops_to(self@.scopes, lexeme@),
            decreases n - depth,
        {
            let at = n - 1 - depth;
            match find_local(&self.scopes[at], lexeme) {
                Some(i) => {
                    let ghost before = local_views(self.scopes@[at as int]@);
                    self.scopes[at][i].used = true;
                    assert(local_views(self.scopes@[at as int]@) =~= mark_used(before, lexeme@));
                    assert(scope_views(self.scopes@) =~= scope_views(old(self).scopes@).update(
                        at as int,
                        mark_used(before, lexeme@),
                    ));
                    return Some(depth);
                },
                None => {},
            }
            depth += 1;
        }
        None
    }

    pub(crate) fn reads_own_initializer(&self, lexeme: &String) -> (r: bool)
        ensures
            r == in_own_initializer(self@, lexeme@),
    {
        let n = self.scopes.len();
        if n == 0 {
            return false;
        }
        match find_local(&self.scopes[n - 1], lexeme) {
            Some(i) => self.scopes[n - 1][i].init_state == VarInitializerState::Unresolved,
            None => false,
        }
    }

    pub(crate) fn function_context(&self) -> (r: Option<Context>)
        ensures
            r == enclosing_function(self@.context, self@.context.len()),
    {
        let mut n = self.context.len();
        while n > 0
            invariant
                n <= self.context@.len(),
                enclosing_function(self@.context, n as nat) == enclosing_function(
                    self@.context,
                    self@.context.len(),
                ),
            decreases n,
        {
            let c = self.context[n - 1];
            if c == Context::Function || c == Context::Method || c == Context::InitializerMethod {
                return Some(c);
            }
            n -= 1;
        }
        None
    }

    pub(crate) fn in_loop(&self) -> (r: bool)
        ensures
            r == inside_loop(self@.context, self@.context.len()),
    {
        let mut n = self.context.len();
        while n > 0
            invariant
                n <= self.context@.len(),
                inside_loop(self@.context, n as nat) == inside_loop(
                    self@.context,
                    self@.context.len(),
                ),
            decreases n,
        {
            let c = self.context[n - 1];
            if c == Context::Loop {
                return true;
            }
            if c == Context::Function || c == Context::Method || c == Context::InitializerMethod {
                return false;
            }
            n -= 1;
        }
        false
    }

    pub(crate) fn in_class(&self) -> (r: bool)
        ensures
            r == inside_class(self@.context, self@.context.len()),
    {
        let mut n = self.context.len();
        while n > 0
            invariant
                n <= self.context@.len(),
                inside_class(self@.context, n as nat) == inside_class(
                    self@.context,
                    self@.context.len(),
                ),
            decreases n,
        {
            if self.context[n - 1] == Context::Class {
                return true;
            }
            n -= 1;
        }
        false
    }
}

/// The token of a name that the language provides; it has no place in the source.
pub fn provided(token_type: TokenType, lexeme: &str) -> (r: Token)
    ensures
        r@ == provided_token(token_type, lexeme@),
{
    Token { token_type, lexeme: lexeme.to_owned(), literal: None, line: 0, column: 0 }
}

} // verus!
