//! What the parser makes is plain: no branch of an `if` and no body of a
//! loop is a declaration.
use crate::grammar::{
    block, block_rest, block_statement, break_statement, class_body, class_declaration,
    declaration, desugared_for, expression_statement, for_initializer, for_statement, function,
    function_declaration, if_statement, print_statement, program, program_statements, remaining,
    return_statement, statement, step, var_declaration, while_statement,
};
use crate::scanner::TokenView;
use crate::scoping::resolution::{declares, plain_function, plain_stmt};
use crate::statement::{FunctionView, StmtView};
use vstd::prelude::*;

verus! {

pub open spec fn plain_stmts(ss: Seq<StmtView>) -> bool {
    forall|i: int| 0 <= i < ss.len() ==> plain_stmt(#[trigger] ss[i])
}

pub open spec fn plain_functions(fs: Seq<FunctionView>) -> bool {
    forall|i: int| 0 <= i < fs.len() ==> plain_function(#[trigger] fs[i])
}

proof fn lemma_plain_push(ss: Seq<StmtView>, s: StmtView)
    requires
        plain_stmts(ss),
        plain_stmt(s),
    ensures
        plain_stmts(ss.push(s)),
{
    assert forall|i: int| 0 <= i < ss.push(s).len() implies plain_stmt(
        #[trigger] ss.push(s)[i],
    ) by {
        if i < ss.len() {
            assert(ss.push(s)[i] == ss[i]);
        }
    }
}

proof fn lemma_plain_functions_push(fs: Seq<FunctionView>, f: FunctionView)
    requires
        plain_functions(fs),
        plain_function(f),
    ensures
        plain_functions(fs.push(f)),
{
    assert forall|i: int| 0 <= i < fs.push(f).len() implies plain_function(
        #[trigger] fs.push(f)[i],
    ) by {
        if i < fs.len() {
            assert(fs.push(f)[i] == fs[i]);
        }
    }
}

proof fn lemma_plain_block_rest(tokens: Seq<TokenView>, pos: nat, found: Seq<StmtView>)
    requires
        plain_stmts(found),
    ensures
        block_rest(tokens, pos, found).result matches Ok(ss) ==> plain_stmts(ss),
    decreases remaining(tokens, pos), 32nat,
{
    reveal_with_fuel(block_rest, 1);
    reveal_with_fuel(declaration, 1);
    if pos < tokens.len() && tokens[pos as int].token_type != crate::scanner::TokenType::RightBrace {
        lemma_plain_declaration(tokens, pos);
        let d = declaration(tokens, pos);
        if let Ok(s) = d.result {
            lemma_plain_push(found, s);
            lemma_plain_block_rest(tokens, pos + step(d.used), found.push(s));
        }
    }
}

proof fn lemma_plain_block(tokens: Seq<TokenView>, pos: nat)
    ensures
        block(tokens, pos).result matches Ok(ss) ==> plain_stmts(ss),
    decreases remaining(tokens, pos), 24nat,
{
    reveal_with_fuel(block, 1);
    reveal_with_fuel(block_rest, 1);
    if crate::grammar::expect(tokens, pos, crate::scanner::TokenType::LeftBrace).result is Ok {
        lemma_plain_block_rest(tokens, pos + 1, Seq::empty());
    }
}

proof fn lemma_plain_function(tokens: Seq<TokenView>, pos: nat)
    ensures
        function(tokens, pos).result matches Ok(f) ==> plain_function(f),
    decreases remaining(tokens, pos), 25nat,
{
    reveal_with_fuel(function, 1);
    reveal_with_fuel(block, 1);
    reveal(crate::grammar::parameters);
    if let Ok(f) = function(tokens, pos).result {
        let p = crate::grammar::parameters(tokens, pos + 2);
        lemma_plain_block(tokens, pos + 3 + p.used);
    }
}

proof fn lemma_plain_class_body(
    tokens: Seq<TokenView>,
    pos: nat,
    name: TokenView,
    found: Seq<FunctionView>,
)
    requires
        plain_functions(found),
    ensures
        class_body(tokens, pos, name, found).result matches Ok(fs) ==> plain_functions(fs),
    decreases remaining(tokens, pos), 29nat,
{
    reveal_with_fuel(class_body, 1);
    reveal_with_fuel(function, 1);
    if pos < tokens.len() && tokens[pos as int].token_type != crate::scanner::TokenType::RightBrace {
        lemma_plain_function(tokens, pos);
        let f = function(tokens, pos);
        if let Ok(method) = f.result {
            lemma_plain_functions_push(found, method);
            lemma_plain_class_body(tokens, pos + step(f.used), name, found.push(method));
        }
    }
}

proof fn lemma_plain_class(tokens: Seq<TokenView>, pos: nat)
    ensures
        class_declaration(tokens, pos).result matches Ok(s) ==> plain_stmt(s),
    decreases remaining(tokens, pos), 30nat,
{
    reveal_with_fuel(class_declaration, 1);
    reveal_with_fuel(class_body, 1);
    reveal(crate::grammar::super_class);
    if let Ok(s) = class_declaration(tokens, pos).result {
        let sup = crate::grammar::super_class(tokens, pos + 2);
        lemma_plain_class_body(tokens, pos + 3 + sup.used, tokens[(pos + 1) as int], Seq::empty());
    }
}

proof fn lemma_plain_if(tokens: Seq<TokenView>, pos: nat)
    ensures
        if_statement(tokens, pos).result matches Ok(s) ==> plain_stmt(s),
    decreases remaining(tokens, pos), 25nat,
{
    reveal_with_fuel(if_statement, 1);
    reveal_with_fuel(statement, 1);
    reveal_with_fuel(crate::grammar::expression, 1);
    if let Ok(s) = if_statement(tokens, pos).result {
        let c = crate::grammar::expression(tokens, pos + 2);
        lemma_plain_statement(tokens, pos + 3 + c.used);
        let t = statement(tokens, pos + 3 + c.used);
        if crate::grammar::kind_at(tokens, pos + 3 + c.used + t.used) == Some(
            crate::scanner::TokenType::Else,
        ) {
            lemma_plain_statement(tokens, pos + 4 + c.used + t.used);
        }
    }
}

proof fn lemma_plain_while(tokens: Seq<TokenView>, pos: nat)
    ensures
        while_statement(tokens, pos).result matches Ok(s) ==> plain_stmt(s),
    decreases remaining(tokens, pos), 25nat,
{
    reveal_with_fuel(while_statement, 1);
    reveal_with_fuel(statement, 1);
    reveal_with_fuel(crate::grammar::expression, 1);
    if let Ok(s) = while_statement(tokens, pos).result {
        let c = crate::grammar::expression(tokens, pos + 2);
        lemma_plain_statement(tokens, pos + 3 + c.used);
    }
}

proof fn lemma_plain_for(tokens: Seq<TokenView>, pos: nat)
    ensures
        for_statement(tokens, pos).result matches Ok(s) ==> plain_stmt(s),
    decreases remaining(tokens, pos), 26nat,
{
    reveal_with_fuel(for_statement, 1);
    reveal_with_fuel(statement, 1);
    reveal_with_fuel(for_initializer, 1);
    reveal_with_fuel(crate::grammar::for_condition, 1);
    reveal_with_fuel(crate::grammar::for_increment, 1);
    reveal_with_fuel(var_declaration, 1);
    reveal_with_fuel(expression_statement, 1);
    if let Ok(s) = for_statement(tokens, pos).result {
        let left_paren = tokens[(pos + 1) as int];
        let i = for_initializer(tokens, pos + 2, left_paren);
        let c = crate::grammar::for_condition(tokens, pos + 2 + i.used, left_paren);
        let n = crate::grammar::for_increment(tokens, pos + 3 + i.used + c.used);
        let at = pos + 4 + i.used + c.used + n.used;
        lemma_plain_statement(tokens, at);
        let body = statement(tokens, at).result->Ok_0;
        let initializer = i.result->Ok_0;
        let increment = n.result->Ok_0;
        let stepped = match increment {
            Some(inc) => StmtView::Block(seq![body, StmtView::Expression(inc)]),
            None => body,
        };
        assert(plain_stmt(stepped) && !declares(stepped)) by {
            if let Some(inc) = increment {
                let pair = seq![body, StmtView::Expression(inc)];
                assert forall|k: int| 0 <= k < pair.len() implies plain_stmt(#[trigger] pair[k]) by {}
            }
        }
        let test = match c.result->Ok_0 {
            Some(cond) => cond,
            None => crate::expression::ExprView::Literal(crate::expression::LiteralView::True),
        };
        let looped = StmtView::While { cond: test, body: Box::new(stepped) };
        assert(plain_stmt(looped));
        if let Some(init) = initializer {
            assert(plain_stmt(init));
            let pair = seq![init, looped];
            assert forall|k: int| 0 <= k < pair.len() implies plain_stmt(#[trigger] pair[k]) by {}
        }
        assert(s == desugared_for(initializer, c.result->Ok_0, increment, body));
    }
}

/// A statement that parses is plain and is no declaration.
pub proof fn lemma_plain_statement(tokens: Seq<TokenView>, pos: nat)
    ensures
        statement(tokens, pos).result matches Ok(s) ==> plain_stmt(s) && !declares(s),
    decreases remaining(tokens, pos), 27nat,
{
    reveal_with_fuel(statement, 1);
    reveal_with_fuel(if_statement, 1);
    reveal_with_fuel(for_statement, 1);
    reveal_with_fuel(while_statement, 1);
    reveal_with_fuel(print_statement, 1);
    reveal_with_fuel(return_statement, 1);
    reveal_with_fuel(block_statement, 1);
    reveal_with_fuel(expression_statement, 1);
    reveal_with_fuel(block, 1);
    reveal(break_statement);
    lemma_plain_if(tokens, pos);
    lemma_plain_for(tokens, pos);
    lemma_plain_while(tokens, pos);
    lemma_plain_block(tokens, pos);
    lemma_for_is_no_declaration(tokens, pos);
}

proof fn lemma_for_is_no_declaration(tokens: Seq<TokenView>, pos: nat)
    ensures
        for_statement(tokens, pos).result matches Ok(s) ==> !declares(s),
{
    reveal_with_fuel(for_statement, 1);
}

/// A declaration that parses is plain.
pub proof fn lemma_plain_declaration(tokens: Seq<TokenView>, pos: nat)
    ensures
        declaration(tokens, pos).result matches Ok(s) ==> plain_stmt(s),
    decreases remaining(tokens, pos), 31nat,
{
    reveal_with_fuel(declaration, 1);
    reveal_with_fuel(statement, 1);
    reveal_with_fuel(var_declaration, 1);
    reveal_with_fuel(function_declaration, 1);
    reveal_with_fuel(class_declaration, 1);
    reveal_with_fuel(function, 1);
    lemma_plain_statement(tokens, pos);
    lemma_plain_class(tokens, pos);
    if function_declaration(tokens, pos).result is Ok {
        lemma_plain_function(tokens, pos + 1);
    }
}

proof fn lemma_plain_program(tokens: Seq<TokenView>, pos: nat, found: Seq<StmtView>)
    requires
        plain_stmts(found),
    ensures
        plain_stmts(program_statements(tokens, pos, found)),
    decreases remaining(tokens, pos),
{
    if pos < tokens.len() {
        lemma_plain_declaration(tokens, pos);
        let d = declaration(tokens, pos);
        match d.result {
            Ok(s) => {
                lemma_plain_push(found, s);
                lemma_plain_program(tokens, pos + step(d.used), found.push(s));
            },
            Err(_) => {
                lemma_plain_program(
                    tokens,
                    pos + d.used + crate::grammar::skipped(tokens, pos + d.used),
                    found,
                );
            },
        }
    }
}

/// Every program that parses is plain: the parser puts no declaration
/// where a branch or a loop could skip it.
pub proof fn lemma_parsed_programs_are_plain(tokens: Seq<TokenView>)
    ensures
        program(tokens) matches Ok(statements) ==> plain_stmts(statements),
{
    lemma_plain_program(tokens, 0, Seq::empty());
}

} // verus!
