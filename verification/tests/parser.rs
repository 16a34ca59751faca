use rlox::expression::{Expr, Literal};
use rlox::grammar::ParseErrorType;
use rlox::parser::{scan_parse, ParseError, Parser, SourceError};
use rlox::scanner::{scan, ScanError, Token, TokenType};
use rlox::statement::Stmt;

fn tokens_of(source: &str) -> Vec<Token> {
    match scan(source) {
        Ok(tokens) => tokens,
        Err(_) => panic!("scan failed"),
    }
}

// A LISP-like string for an expression.
fn show(e: &Expr) -> String {
    match e {
        Expr::Literal(l) => match l {
            Literal::Number(n) => f64::from_bits(n.bits).to_string(),
            Literal::String(s) => s.clone(),
            Literal::True => "true".to_owned(),
            Literal::False => "false".to_owned(),
            Literal::Nil => "nil".to_owned(),
        },
        Expr::Unary(e) => format!("({} {})", e.operator.lexeme, show(&e.right)),
        Expr::Binary(e) => format!("({} {} {})", e.operator.lexeme, show(&e.left), show(&e.right)),
        Expr::Logical(e) => format!("({} {} {})", e.operator.lexeme, show(&e.left), show(&e.right)),
        Expr::Grouping(e) => format!("(group {})", show(&e.0)),
        Expr::Variable(e) => e.name.lexeme.clone(),
        Expr::Assignment(e) => format!("(:= {} {})", e.name.lexeme, show(&e.value)),
        Expr::Call(e) => {
            let args: Vec<String> = e.args.iter().map(show).collect();
            format!("(call {} {})", show(&e.callee), args.join(","))
        }
        Expr::Get(e) => format!("(get {} {})", show(&e.object), e.name.lexeme),
        Expr::SetProperty(e) => {
            format!("(set {} {} {})", show(&e.object), e.name.lexeme, show(&e.value))
        }
        Expr::This(_) => "this".to_owned(),
        Expr::Super(e) => format!("(super {})", e.method.lexeme),
    }
}

fn show_stmt(s: &Stmt) -> String {
    match s {
        Stmt::Expression(s) => format!("(expr {})", show(&s.expr)),
        Stmt::Print(s) => format!("(print {})", show(&s.expr)),
        Stmt::Variable(s) => match &s.initializer {
            Some(e) => format!("(var {} {})", s.name.lexeme, show(e)),
            None => format!("(var {})", s.name.lexeme),
        },
        Stmt::Block(s) => {
            let inner: Vec<String> = s.statements.iter().map(show_stmt).collect();
            format!("(block {})", inner.join(" "))
        }
        Stmt::If(s) => match &s.else_branch {
            Some(e) => format!(
                "(if {} {} {})",
                show(&s.cond),
                show_stmt(&s.then_branch),
                show_stmt(e)
            ),
            None => format!("(if {} {})", show(&s.cond), show_stmt(&s.then_branch)),
        },
        Stmt::While(s) => format!("(while {} {})", show(&s.cond), show_stmt(&s.body)),
        Stmt::Function(f) => {
            let params: Vec<String> = f.params.iter().map(|p| p.lexeme.clone()).collect();
            let body: Vec<String> = f.body.iter().map(show_stmt).collect();
            format!("(fun {} ({}) {})", f.name.lexeme, params.join(","), body.join(" "))
        }
        Stmt::Return(s) => match &s.value {
            Some(e) => format!("(return {})", show(e)),
            None => "(return)".to_owned(),
        },
        Stmt::Break(_) => "(break)".to_owned(),
        Stmt::Class(c) => {
            let methods: Vec<String> = c.methods.iter().map(|m| m.name.lexeme.clone()).collect();
            match &c.super_class {
                Some(s) => format!(
                    "(class {} < {} {})",
                    c.name.lexeme,
                    s.name.lexeme,
                    methods.join(",")
                ),
                None => format!("(class {} {})", c.name.lexeme, methods.join(",")),
            }
        }
    }
}

fn expr_string(source: &str) -> String {
    match Parser::new(&tokens_of(source)).parse_single_expr() {
        Ok(e) => show(&e),
        Err(_) => panic!("parse failed"),
    }
}

fn program_string(source: &str) -> String {
    match Parser::new(&tokens_of(source)).parse() {
        Ok(statements) => {
            let all: Vec<String> = statements.iter().map(show_stmt).collect();
            all.join(" ")
        }
        Err(_) => panic!("parse failed"),
    }
}

fn errors_of(source: &str) -> Vec<ParseError> {
    match Parser::new(&tokens_of(source)).parse() {
        Ok(_) => panic!("parse succeeded"),
        Err(errors) => errors,
    }
}

#[test]
fn parse_invalid_expression_fails() {
    let parser = Parser::new(&tokens_of("< 10"));
    assert!(parser.parse().is_err());

    let parser = Parser::new(&tokens_of("=== 10"));
    assert!(parser.parse().is_err());

    let parser = Parser::new(&tokens_of("(1 + 2"));
    assert!(parser.parse().is_err());

    let parser = Parser::new(&tokens_of("1,"));
    assert!(parser.parse().is_err());
}

#[test]
fn parse_primary_expressions() {
    let primaries = ["nil", "12.5", "\"str\"", "true", "false", "name"];
    for primary in primaries {
        let parser = Parser::new(&tokens_of(primary));
        let expr = parser.parse_single_expr();

        assert!(expr.is_ok());
    }
}

#[test]
fn parse_grouping() {
    let parser = Parser::new(&tokens_of("(nil)"));
    let expr = parser.parse_single_expr();

    assert!(expr.is_ok());
    if expr.is_ok() {
        let str = show(&expr.unwrap());
        assert_eq!(str, "(group nil)");
    }
}

#[test]
fn parse_unary() {
    let parser = Parser::new(&tokens_of("---12.5"));
    let expr = parser.parse_single_expr();

    assert!(expr.is_ok());
    if expr.is_ok() {
        let str = show(&expr.unwrap());
        assert_eq!(str, "(- (- (- 12.5)))");
    }
}

#[test]
fn parse_factor() {
    let parser = Parser::new(&tokens_of("2 * 3 / -2"));
    let expr = parser.parse_single_expr();

    assert!(expr.is_ok());
    if expr.is_ok() {
        let str = show(&expr.unwrap());
        assert_eq!(str, "(/ (* 2 3) (- 2))");
    }
}

#[test]
fn parse_logical() {
    let parser = Parser::new(&tokens_of("true or false and true"));
    let expr = parser.parse_single_expr();

    assert!(expr.is_ok());
    if expr.is_ok() {
        let str = show(&expr.unwrap());
        assert_eq!(str, "(or true (and false true))");
    }
}

#[test]
fn parse_term() {
    let parser = Parser::new(&tokens_of("2 - 3 + 5 * -2"));
    let expr = parser.parse_single_expr();

    assert!(expr.is_ok());
    if expr.is_ok() {
        let str = show(&expr.unwrap());
        assert_eq!(str, "(+ (- 2 3) (* 5 (- 2)))");
    }
}

#[test]
fn parse_comparison() {
    let parser = Parser::new(&tokens_of("2 > 3 * 2 - 10"));
    let expr = parser.parse_single_expr();

    assert!(expr.is_ok());
    if expr.is_ok() {
        let str = show(&expr.unwrap());
        assert_eq!(str, "(> 2 (- (* 3 2) 10))");
    }
}

#[test]
fn parse_equality() {
    let parser = Parser::new(&tokens_of("2 > 3 * 2 - 10 == false"));
    let expr = parser.parse_single_expr();

    assert!(expr.is_ok());
    if expr.is_ok() {
        let str = show(&expr.unwrap());
        assert_eq!(str, "(== (> 2 (- (* 3 2) 10)) false)");
    }
}

#[test]
fn parse_var_decl_valid_succeeds() {
    let tokens = tokens_of("var x = 10; var y;");
    assert!(Parser::new(&tokens).parse().is_ok());
}

#[test]
fn parse_var_decl_invalid_fails() {
    let tokens = tokens_of("var x, y;");
    assert!(Parser::new(&tokens).parse().is_err());
}

#[test]
fn parse_expr_stmt() {
    let tokens = tokens_of("2;");
    assert!(Parser::new(&tokens).parse().is_ok());
}

#[test]
fn parse_print_stmt() {
    let tokens = tokens_of("print 2;");
    assert!(Parser::new(&tokens).parse().is_ok());
}

#[test]
fn parse_block_stmt_valid_succeeds() {
    let tokens = tokens_of("{ { 2; 3; { } } }");
    assert!(Parser::new(&tokens).parse().is_ok());
}

#[test]
fn parse_block_stmt_invalid_fails() {
    let invalid_sources = ["{ 2 }", "{ { 2; 3; }"];

    for src in invalid_sources.iter() {
        let tokens = tokens_of(src);
        assert!(Parser::new(&tokens).parse().is_err());
    }
}

#[test]
fn parse_if_stmt_valid_succeeds() {
    let valid_sources = [
        "if (x) print x;",
        "if (x) { print x; }",
        "if (x) print x; else print y;",
        "if (x) { print x; } else { print y; }",
        "if (x) { print x; } else print y;",
        "if (x) print x; else { print y; }",
    ];

    for src in valid_sources.iter() {
        let tokens = tokens_of(src);
        assert!(Parser::new(&tokens).parse().is_ok());
    }
}

#[test]
fn parse_if_stmt_invalid_fails() {
    let invalid_sources = [
        "if x print x;",
        "if (x print x;",
        "if x) print x;",
        "if (x) print x; else",
        "if (x;) print x;",
    ];

    for src in invalid_sources.iter() {
        let tokens = tokens_of(src);
        assert!(Parser::new(&tokens).parse().is_err());
    }
}

#[test]
fn parse_while_stmt_valid_succeeds() {
    let valid_sources = ["while (x) print x;", "while (x) { print x; }"];

    for src in valid_sources.iter() {
        let tokens = tokens_of(src);
        assert!(Parser::new(&tokens).parse().is_ok());
    }
}

#[test]
fn parse_while_stmt_invalid_fails() {
    let invalid_sources = [
        "while x) { print x; }",
        "while (x { print x; }",
        "while (x;) { print x; }",
    ];

    for src in invalid_sources.iter() {
        let tokens = tokens_of(src);
        assert!(Parser::new(&tokens).parse().is_err());
    }
}

#[test]
fn parse_for_stmt_valid_succeeds() {
    let valid_sources = [
        "for (i = 0; i < 5; i = i + 1) print i;",
        "for (var i = 0; i < 5; i = i + 1) print i;",
        "for (; i < 5; i = i + 1) print i;",
        "for (i = 0;; i = i + 1) print i;",
        "for (i = 0; i < 5;) print i;",
        "for (i = 0;;) print i;",
        "for (;true;) print i;",
        "for (;; i = i + 1) print i;",
        "for (;;) print i;",
    ];

    for src in valid_sources.iter() {
        let tokens = tokens_of(src);
        assert!(Parser::new(&tokens).parse().is_ok());
    }
}

#[test]
fn parse_for_stmt_invalid_fails() {
    let invalid_sources = [
        "for (i = 0; i >=0 ) {}",
        "for (i = 0; i > 0; i = i + 1 {}",
        "for i = 0; i > 0; i = i + 1) {}",
        "for (i = 0 i > 0; i = i + 1) {}",
        "for () {}",
    ];

    for src in invalid_sources.iter() {
        let tokens = tokens_of(src);
        assert!(Parser::new(&tokens).parse().is_err());
    }
}

#[test]
fn parse_call_expr_valid_succeeds() {
    let valid_sources = [
        "myfun()",
        "my_fun()()",
        "my_fun(1)",
        "my_fun(1, 2)",
        "my_fun(1, 2, 3)",
        "my_fun(1, 2, 3)()()",
        "my_fun(1, 2, 3)()(2, 3)",
    ];

    for src in valid_sources.iter() {
        let tokens = tokens_of(src);
        assert!(Parser::new(&tokens).parse_single_expr().is_ok());
    }

    let tokens = tokens_of(&"my_fun(1)(2)");
    let expr = Parser::new(&tokens).parse_single_expr();

    assert!(expr.is_ok());
    let s = show(&expr.unwrap());
    assert_eq!(s, "(call (call my_fun 1) 2)");
}

#[test]
fn parse_call_expr_invalid_fails() {
    let invalid_sources = [
        "myfun(",
        "myfun(1",
        "myfun(1, 2",
        "myfun(1,)",
        "myfun(1,,)",
        "myfun(1)(",
    ];

    for src in invalid_sources.iter() {
        let tokens = tokens_of(src);
        assert!(Parser::new(&tokens).parse_single_expr().is_err());
    }
}

#[test]
fn parse_fun_stmt_valid_succeeds() {
    let valid_sources = [
        "fun myfun() { }",
        "fun myfun(a) { print a; }",
        "fun myfun(a, b) { }",
        "fun myfun(a, b, c) { }",
    ];

    for src in valid_sources.iter() {
        let tokens = tokens_of(src);
        assert!(Parser::new(&tokens).parse().is_ok());
    }
}

#[test]
fn parse_fun_stmt_invalid_fails() {
    let invalid_sources = [
        "fun myfun() print 1;",
        "fun myfun {}",
        "fun myfun( {}",
        "fun myfun) {}",
        "fun myfun(a,) {}",
        "fun myfun(x = 1) {}",
    ];

    for src in invalid_sources.iter() {
        let tokens = tokens_of(src);
        assert!(Parser::new(&tokens).parse().is_err());
    }
}

#[test]
fn parse_assignment_is_right_associative() {
    assert_eq!(expr_string("a = b = 3"), "(:= a (:= b 3))");
    assert_eq!(expr_string("a = 1 or 2"), "(:= a (or 1 2))");
}

#[test]
fn parse_assignment_to_property_sets_it() {
    assert_eq!(expr_string("a.b = 3"), "(set a b 3)");
    assert_eq!(expr_string("a.b.c = d.e"), "(set (get a b) c (get d e))");
    assert_eq!(expr_string("f().x = 1"), "(set (call f ) x 1)");
    assert_eq!(expr_string("this.x = x"), "(set this x x)");
}

#[test]
fn parse_rejects_other_assignment_targets() {
    for source in ["1 = 2", "a + b = 3", "(a) = 1", "f() = 1", "this = 1", "\"s\" = 1", "-a = 1"] {
        match Parser::new(&tokens_of(source)).parse_single_expr() {
            Err(e) => {
                assert!(matches!(e.error_type, ParseErrorType::InvalidAssignment));
                assert_eq!(e.token.map(|t| t.token_type), Some(TokenType::Equal));
            }
            Ok(_) => panic!("accepted an invalid target"),
        }
    }
}

#[test]
fn parse_calls_and_properties_chain_to_the_left() {
    assert_eq!(expr_string("a.b.c"), "(get (get a b) c)");
    assert_eq!(expr_string("a.b(1).c(2, 3)"), "(call (get (call (get a b) 1) c) 2,3)");
    assert_eq!(expr_string("a(b)(c).d"), "(get (call (call a b) c) d)");
}

#[test]
fn parse_this_and_super() {
    assert_eq!(expr_string("this"), "this");
    assert_eq!(expr_string("this.x + 1"), "(+ (get this x) 1)");
    assert_eq!(expr_string("super.speak()"), "(call (super speak) )");
    assert!(Parser::new(&tokens_of("super")).parse_single_expr().is_err());
    assert!(Parser::new(&tokens_of("super.")).parse_single_expr().is_err());
    assert!(Parser::new(&tokens_of("super speak")).parse_single_expr().is_err());
}

#[test]
fn parse_precedence_of_all_levels() {
    assert_eq!(
        expr_string("a or b and c == d < e + f * -g"),
        "(or a (and b (== c (< d (+ e (* f (- g)))))))"
    );
    assert_eq!(expr_string("1 - 2 - 3"), "(- (- 1 2) 3)");
    assert_eq!(expr_string("1 < 2 <= 3 > 4 >= 5"), "(>= (> (<= (< 1 2) 3) 4) 5)");
    assert_eq!(expr_string("a == b != c"), "(!= (== a b) c)");
    assert_eq!(expr_string("!!a"), "(! (! a))");
    assert_eq!(expr_string("(1 + 2) * 3"), "(* (group (+ 1 2)) 3)");
    assert_eq!(expr_string("a and b or c and d"), "(or (and a b) (and c d))");
}

#[test]
fn parse_single_expr_rejects_leftover_input() {
    match Parser::new(&tokens_of("1 2")).parse_single_expr() {
        Err(e) => {
            assert!(matches!(e.error_type, ParseErrorType::ExpectedExpression));
            let token = e.token.unwrap();
            assert_eq!(token.lexeme, "1");
        }
        Ok(_) => panic!("accepted leftover input"),
    }
    assert!(Parser::new(&tokens_of("1;")).parse_single_expr().is_err());
    match Parser::new(&tokens_of("")).parse_single_expr() {
        Err(e) => {
            assert!(matches!(e.error_type, ParseErrorType::ExpectedExpression));
            assert!(e.token.is_none());
        }
        Ok(_) => panic!("accepted empty input"),
    }
}

#[test]
fn parse_for_is_written_as_while() {
    assert_eq!(
        program_string("for (var i = 0; i < 5; i = i + 1) print i;"),
        "(block (var i 0) (while (< i 5) (block (print i) (expr (:= i (+ i 1))))))"
    );
    assert_eq!(program_string("for (;;) print i;"), "(while true (print i))");
    assert_eq!(
        program_string("for (i = 0;;) print i;"),
        "(block (expr (:= i 0)) (while true (print i)))"
    );
    assert_eq!(
        program_string("for (; i < 2;) {}"),
        "(while (< i 2) (block ))"
    );
    assert_eq!(
        program_string("for (;; i = 1) f();"),
        "(while true (block (expr (call f )) (expr (:= i 1))))"
    );
}

#[test]
fn parse_for_reports_missing_clauses_at_the_parenthesis() {
    let errors = errors_of("for (");
    assert_eq!(errors.len(), 1);
    assert!(matches!(
        errors[0].error_type,
        ParseErrorType::ExpectedForLoopInitializerOrSemiColon
    ));
    assert_eq!(errors[0].token.as_ref().map(|t| t.token_type), Some(TokenType::LeftParen));

    let errors = errors_of("for (;");
    assert_eq!(errors.len(), 1);
    assert!(matches!(
        errors[0].error_type,
        ParseErrorType::ExpectedForLoopConditionOrSemiColon
    ));
    assert_eq!(errors[0].token.as_ref().map(|t| t.column), Some(5));
}

#[test]
fn parse_statements_of_every_kind() {
    assert_eq!(program_string("var a; var b = 1;"), "(var a) (var b 1)");
    assert_eq!(program_string("print 1; 2;"), "(print 1) (expr 2)");
    assert_eq!(program_string("{ a; { b; } }"), "(block (expr a) (block (expr b)))");
    assert_eq!(
        program_string("if (a) b; else if (c) d; else e;"),
        "(if a (expr b) (if c (expr d) (expr e)))"
    );
    assert_eq!(program_string("while (a) break;"), "(while a (break))");
    assert_eq!(
        program_string("fun f(a, b) { return a; return; }"),
        "(fun f (a,b) (return a) (return))"
    );
    assert_eq!(program_string(""), "");
}

#[test]
fn parse_else_binds_to_the_nearest_if() {
    assert_eq!(
        program_string("if (a) if (b) c; else d;"),
        "(if a (if b (expr c) (expr d)))"
    );
}

#[test]
fn parse_class_declarations() {
    assert_eq!(program_string("class A {}"), "(class A )");
    assert_eq!(
        program_string("class A { init(x) { this.x = x; } speak() { print this.x; } }"),
        "(class A init,speak)"
    );
    assert_eq!(
        program_string("class B < A { speak() { super.speak(); } }"),
        "(class B < A speak)"
    );
    match &Parser::new(&tokens_of("class B < A { m(a, b) { return a; } }")).parse().ok().unwrap()[0]
    {
        Stmt::Class(c) => {
            assert_eq!(c.methods.len(), 1);
            assert_eq!(c.methods[0].params.len(), 2);
            assert_eq!(c.methods[0].body.len(), 1);
            let sup = c.super_class.as_ref().unwrap();
            assert_eq!(sup.name.lexeme, "A");
            assert!(sup.hops.is_none());
        }
        _ => panic!("expected a class"),
    }
}

#[test]
fn parse_class_errors() {
    let errors = errors_of("class A { m() {}");
    assert_eq!(errors.len(), 1);
    assert!(matches!(
        errors[0].error_type,
        ParseErrorType::ExpectedRightBraceAfterClassBody
    ));
    assert_eq!(errors[0].token.as_ref().map(|t| t.lexeme.clone()), Some("A".to_owned()));

    for source in ["class {}", "class A < {}", "class A B {}", "class A { fun m() {} }", "class A { 1 }"] {
        let errors = errors_of(source);
        assert!(matches!(errors[0].error_type, ParseErrorType::ExpectedToken { .. }));
    }
}

#[test]
fn parse_expected_token_names_what_was_found() {
    let errors = errors_of("print 1");
    assert_eq!(errors.len(), 1);
    match errors[0].error_type {
        ParseErrorType::ExpectedToken { expected, found } => {
            assert_eq!(expected, TokenType::Semicolon);
            assert_eq!(found, None);
        }
        _ => panic!("expected a missing token"),
    }
    assert!(errors[0].token.is_none());

    let errors = errors_of("var 1 = 2;");
    match errors[0].error_type {
        ParseErrorType::ExpectedToken { expected, found } => {
            assert_eq!(expected, TokenType::Identifier);
            assert_eq!(found, Some(TokenType::Number));
        }
        _ => panic!("expected a missing token"),
    }
    assert_eq!(errors[0].token.as_ref().map(|t| t.column), Some(5));
}

#[test]
fn parse_expected_expression_names_the_token() {
    let errors = errors_of("print ;");
    assert_eq!(errors.len(), 1);
    assert!(matches!(errors[0].error_type, ParseErrorType::ExpectedExpression));
    assert_eq!(errors[0].token.as_ref().map(|t| t.token_type), Some(TokenType::Semicolon));

    let errors = errors_of("1 +");
    assert!(matches!(errors[0].error_type, ParseErrorType::ExpectedExpression));
    assert!(errors[0].token.is_none());
}

#[test]
fn parse_recovers_at_statement_boundaries() {
    // the token after an error is skipped too, whatever it is
    let errors = errors_of("var = 1; print 2; var y = ; print 3 print 4;");
    assert_eq!(errors.len(), 2);
    assert_eq!(errors[0].token.as_ref().map(|t| t.column), Some(5));
    assert_eq!(errors[1].token.as_ref().map(|t| t.column), Some(27));

    let errors = errors_of("var = 1; print 2; var y = ; ; print 3 print 4;");
    assert_eq!(errors.len(), 3);
    assert_eq!(errors[2].token.as_ref().map(|t| t.column), Some(39));

    // recovery stops before a keyword that starts a statement
    let errors = errors_of("1 + * 2 var x = ; 3");
    assert_eq!(errors.len(), 2);
    assert!(matches!(errors[0].error_type, ParseErrorType::ExpectedExpression));
    assert_eq!(errors[0].token.as_ref().map(|t| t.token_type), Some(TokenType::Star));
    assert!(matches!(errors[1].error_type, ParseErrorType::ExpectedExpression));
    assert_eq!(errors[1].token.as_ref().map(|t| t.token_type), Some(TokenType::Semicolon));

    // statements before an error are discarded with it
    assert!(Parser::new(&tokens_of("print 1; print ;")).parse().is_err());
}

#[test]
fn parse_number_token_without_payload_is_no_expression() {
    let token = Token {
        token_type: TokenType::Number,
        lexeme: "1".to_owned(),
        literal: None,
        line: 1,
        column: 1,
    };
    match Parser::new(&[token]).parse_single_expr() {
        Err(e) => assert!(matches!(e.error_type, ParseErrorType::ExpectedExpression)),
        Ok(_) => panic!("accepted a number without value"),
    }
}

#[test]
fn scan_parse_gives_statements_or_the_errors() {
    assert_eq!(scan_parse("print 1; var a = 2;").ok().map(|s| s.len()), Some(2));
    assert_eq!(scan_parse("").ok().map(|s| s.len()), Some(0));
    assert!(matches!(scan_parse("print 1; print"), Err(SourceError::Parse(e)) if e.len() == 1));
    assert!(matches!(scan_parse("print #;"), Err(SourceError::Scan(ScanError::TokenError(_)))));
    assert!(matches!(
        scan_parse("print é;"),
        Err(SourceError::Scan(ScanError::NonAsciiCharacterFound))
    ));
}
