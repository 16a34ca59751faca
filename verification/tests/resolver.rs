use rlox::expression::Expr;
use rlox::parser::Parser;
use rlox::resolver::{ResolutionError, ResolutionResult, Resolver, Warning};
use rlox::scanner::scan;
use rlox::statement::Stmt;
use rlox::table::Table;

fn parse(source: &str) -> Vec<Stmt> {
    let tokens = scan(source).ok().expect("scan failed");
    Parser::new(&tokens).parse().ok().expect("parse failed")
}

fn resolve(source: &str) -> (Vec<Stmt>, ResolutionResult) {
    let mut statements = parse(source);
    let mut resolver = Resolver::new();
    let result = resolver.resolve(&mut statements);
    (statements, result)
}

fn errors(source: &str) -> Vec<ResolutionError> {
    resolve(source).1.errors.unwrap_or_default()
}

fn warnings(source: &str) -> Vec<String> {
    resolve(source)
        .1
        .warnings
        .unwrap_or_default()
        .into_iter()
        .map(|w| match w {
            Warning::UnusedLocalVar(t) => t.lexeme,
        })
        .collect()
}

// Every hops annotation of a program, in source order, as text.
fn hops_of_expr(e: &Expr, out: &mut Vec<String>) {
    let show = |h: &Option<usize>| match h {
        Some(h) => h.to_string(),
        None => "g".to_owned(),
    };
    match e {
        Expr::Literal(_) => {}
        Expr::Unary(e) => hops_of_expr(&e.right, out),
        Expr::Binary(e) => {
            hops_of_expr(&e.left, out);
            hops_of_expr(&e.right, out);
        }
        Expr::Logical(e) => {
            hops_of_expr(&e.left, out);
            hops_of_expr(&e.right, out);
        }
        Expr::Grouping(e) => hops_of_expr(&e.0, out),
        Expr::Variable(e) => out.push(format!("{}:{}", e.name.lexeme, show(&e.hops))),
        Expr::Assignment(e) => {
            hops_of_expr(&e.value, out);
            out.push(format!("{}={}", e.name.lexeme, show(&e.hops)));
        }
        Expr::Call(e) => {
            hops_of_expr(&e.callee, out);
            for a in e.args.iter() {
                hops_of_expr(a, out);
            }
        }
        Expr::Get(e) => hops_of_expr(&e.object, out),
        Expr::SetProperty(e) => {
            hops_of_expr(&e.object, out);
            hops_of_expr(&e.value, out);
        }
        Expr::This(e) => out.push(format!("this:{}", show(&e.hops))),
        Expr::Super(e) => out.push(format!(
            "super:{}/{}",
            show(&e.hops_to_super),
            show(&e.hops_to_this)
        )),
    }
}

fn hops_of_stmt(s: &Stmt, out: &mut Vec<String>) {
    match s {
        Stmt::Expression(s) => hops_of_expr(&s.expr, out),
        Stmt::Print(s) => hops_of_expr(&s.expr, out),
        Stmt::Variable(s) => {
            if let Some(e) = &s.initializer {
                hops_of_expr(e, out);
            }
        }
        Stmt::Block(s) => {
            for st in s.statements.iter() {
                hops_of_stmt(st, out);
            }
        }
        Stmt::If(s) => {
            hops_of_expr(&s.cond, out);
            hops_of_stmt(&s.then_branch, out);
            if let Some(e) = &s.else_branch {
                hops_of_stmt(e, out);
            }
        }
        Stmt::While(s) => {
            hops_of_expr(&s.cond, out);
            hops_of_stmt(&s.body, out);
        }
        Stmt::Function(f) => {
            for st in f.body.iter() {
                hops_of_stmt(st, out);
            }
        }
        Stmt::Return(s) => {
            if let Some(e) = &s.value {
                hops_of_expr(e, out);
            }
        }
        Stmt::Break(_) => {}
        Stmt::Class(c) => {
            if let Some(s) = &c.super_class {
                out.push(format!(
                    "<{}:{}",
                    s.name.lexeme,
                    match s.hops {
                        Some(h) => h.to_string(),
                        None => "g".to_owned(),
                    }
                ));
            }
            for m in c.methods.iter() {
                for st in m.body.iter() {
                    hops_of_stmt(st, out);
                }
            }
        }
    }
}

fn hops(statements: &Vec<Stmt>) -> String {
    let mut out = Vec::new();
    for s in statements.iter() {
        hops_of_stmt(s, &mut out);
    }
    out.join(" ")
}

fn resolved_hops(source: &str) -> String {
    let (statements, result) = resolve(source);
    assert!(result.errors.is_none());
    hops(&statements)
}

#[test]
fn reading_a_local_in_its_own_initializer_is_an_error() {
    let found = errors("{ var a = a; }");
    assert_eq!(found.len(), 1);
    match &found[0] {
        ResolutionError::CantReadLocalVarInItsInitializer(t) => {
            assert_eq!(t.lexeme, "a");
            assert_eq!((t.line, t.column), (1, 11));
        }
        other => panic!("unexpected {:?}", other),
    }
    // at global scope nothing is tracked
    assert!(errors("var a = a;").is_empty());
    // the outer variable may be read while the inner one is not declared yet
    assert!(errors("{ var a = 1; { var b = a; print b; } }").is_empty());
}

#[test]
fn return_outside_of_a_function_is_an_error() {
    let found = errors("return 1;");
    assert_eq!(found.len(), 1);
    assert!(matches!(&found[0], ResolutionError::ReturnNotInFunction(t) if t.lexeme == "return"));
    assert!(matches!(
        &errors("while (true) { return; }")[0],
        ResolutionError::ReturnNotInFunction(_)
    ));
    assert!(errors("fun f() { return 1; }").is_empty());
    assert!(errors("fun f() { while (true) { return 1; } }").is_empty());
    assert!(errors("class A { m() { return 1; } }").is_empty());
}

#[test]
fn break_outside_of_a_loop_is_an_error() {
    let found = errors("break;");
    assert_eq!(found.len(), 1);
    assert!(matches!(&found[0], ResolutionError::BreakNotInLoop(t) if t.lexeme == "break"));
    assert!(errors("while (true) break;").is_empty());
    assert!(errors("while (true) { if (a) { break; } }").is_empty());
    assert!(errors("for (;;) break;").is_empty());
    // a function inside a loop is no loop
    assert!(matches!(
        &errors("while (true) { fun f() { break; } }")[0],
        ResolutionError::BreakNotInLoop(_)
    ));
    assert!(matches!(
        &errors("fun f() { break; }")[0],
        ResolutionError::BreakNotInLoop(_)
    ));
    assert!(errors("fun f() { while (true) break; }").is_empty());
}

#[test]
fn a_class_cannot_inherit_from_itself() {
    let found = errors("class X < X {}");
    assert_eq!(found.len(), 1);
    match &found[0] {
        ResolutionError::ClassCantInheritFromItself(t) => {
            assert_eq!(t.lexeme, "X");
            assert_eq!(t.column, 11);
        }
        other => panic!("unexpected {:?}", other),
    }
    assert!(errors("class Y {} class X < Y {}").is_empty());
    // the contexts are balanced after the error
    let found = errors("class X < X {} print this;");
    assert_eq!(found.len(), 2);
    assert!(matches!(&found[1], ResolutionError::ThisNotInsideClass(_)));
}

#[test]
fn declaring_a_local_twice_is_an_error() {
    let found = errors("{ var a = 1; var a = 2; print a; }");
    assert_eq!(found.len(), 1);
    assert!(matches!(
        &found[0],
        ResolutionError::VariableAlreadyDeclared(t) if t.lexeme == "a" && t.column == 18
    ));
    assert!(errors("var a = 1; var a = 2;").is_empty());
    assert!(errors("{ var a = 1; { var a = 2; print a; } print a; }").is_empty());
    assert!(matches!(
        &errors("fun f(a, a) { print a; }")[0],
        ResolutionError::VariableAlreadyDeclared(_)
    ));
    assert!(matches!(
        &errors("fun f(a) { var a = 1; print a; }")[0],
        ResolutionError::VariableAlreadyDeclared(_)
    ));
}

#[test]
fn this_outside_of_a_class_is_an_error() {
    assert!(matches!(&errors("print this;")[0], ResolutionError::ThisNotInsideClass(_)));
    assert!(matches!(
        &errors("fun f() { return this; }")[0],
        ResolutionError::ThisNotInsideClass(_)
    ));
    assert!(errors("class A { m() { return this; } }").is_empty());
    assert!(errors("class A { m() { fun g() { return this; } return g; } }").is_empty());
}

#[test]
fn an_initializer_cannot_return_a_value() {
    let found = errors("class A { init() { return 1; } }");
    assert_eq!(found.len(), 1);
    assert!(matches!(&found[0], ResolutionError::CantReturnValueFromAnInitializer(_)));
    assert!(errors("class A { init() { return; } }").is_empty());
    assert!(errors("class A { other() { return 1; } }").is_empty());
    // a function inside the initializer may return what it likes
    assert!(errors("class A { init() { fun f() { return 1; } f(); } }").is_empty());
}

#[test]
fn hops_count_the_scopes_between_use_and_declaration() {
    assert_eq!(resolved_hops("var a = 1; print a;"), "a:g");
    assert_eq!(resolved_hops("{ var a = 1; print a; }"), "a:0");
    assert_eq!(resolved_hops("{ var a = 1; { print a; } }"), "a:1");
    assert_eq!(resolved_hops("{ var a = 1; { { a = a + 1; } } }"), "a:2 a=2");
    assert_eq!(
        resolved_hops("{ var a = 1; { var a = 2; print a; } print a; }"),
        "a:0 a:0"
    );
    assert_eq!(
        resolved_hops("fun f(x) { print x; print y; { print x; } }"),
        "x:0 y:g x:1"
    );
    assert_eq!(
        resolved_hops("{ var i = 0; fun inc() { i = i + 1; return i; } inc(); }"),
        "i:1 i=1 i:1 inc:0"
    );
}

#[test]
fn hops_of_this_and_super() {
    assert_eq!(
        resolved_hops("class A { m() { return this; } }"),
        "this:1"
    );
    assert_eq!(
        resolved_hops("class A {} class B < A { m() { super.m(); { this.x; } } }"),
        "<A:g super:2/1 this:2"
    );
    assert_eq!(
        resolved_hops("{ class A {} class B < A { m() { return super.m; } } }"),
        "<A:0 super:2/1"
    );
}

#[test]
fn the_scope_of_a_name_is_fixed_where_it_is_used() {
    // `a` in show is resolved before the local `a` is declared
    assert_eq!(
        resolved_hops(
            "var a = \"global\"; { fun show() { print a; } show(); var a = \"local\"; show(); print a; }"
        ),
        "a:g show:0 show:0 a:0"
    );
}

#[test]
fn unused_locals_are_warned_about() {
    assert_eq!(warnings("{ var a = 1; }"), vec!["a"]);
    assert_eq!(warnings("{ var a = 1; var b = 2; print a; }"), vec!["b"]);
    assert_eq!(warnings("{ var a; var b; var c; print b; }"), vec!["a", "c"]);
    assert!(warnings("var a = 1;").is_empty());
    assert!(warnings("{ var a = 1; print a; }").is_empty());
    assert_eq!(warnings("fun f(a, b) { return a; }"), vec!["b"]);
    // `this` and `super` are never reported
    assert!(warnings("class A {} class B < A { m() {} }").is_empty());
    // an assignment counts as a use
    assert!(warnings("{ var a; a = 1; }").is_empty());
    // inner scopes report first
    assert_eq!(warnings("{ var a; { var b; } }"), vec!["b", "a"]);
}

#[test]
fn resolving_twice_gives_the_same_hops() {
    let source = "var g = 1; { var a = 1; fun f(x) { return x + a + g; } class C { m() { return this; } } print f(a); print C; }";
    let mut statements = parse(source);
    let first = Resolver::new().resolve(&mut statements);
    assert!(first.errors.is_none());
    let once = hops(&statements);
    let second = Resolver::new().resolve(&mut statements);
    assert!(second.errors.is_none());
    assert_eq!(hops(&statements), once);
    assert_eq!(once, "x:0 a:1 g:g this:1 f:0 a:0 C:0");
}

#[test]
fn resolution_keeps_the_shape_of_the_program() {
    let source = "{ var a = 1; while (a < 3) { a = a + 1; if (a == 2) break; } print a; }";
    let before = format!("{:?}", parse(source))
        .replace("Some(0)", "None")
        .replace("Some(1)", "None")
        .replace("Some(2)", "None");
    let (statements, result) = resolve(source);
    assert!(result.errors.is_none());
    let after = format!("{:?}", statements)
        .replace("Some(0)", "None")
        .replace("Some(1)", "None")
        .replace("Some(2)", "None");
    assert_eq!(before, after);
}

#[test]
fn resolve_hands_out_what_it_found_and_keeps_nothing() {
    let mut resolver = Resolver::new();
    let mut statements = parse("{ var unused; } return;");
    let result = resolver.resolve(&mut statements);
    assert_eq!(result.warnings.map(|w| w.len()), Some(1));
    assert_eq!(result.errors.map(|e| e.len()), Some(1));
    let mut statements = parse("print 1;");
    let result = resolver.resolve(&mut statements);
    assert!(result.warnings.is_none());
    assert!(result.errors.is_none());
}

#[test]
fn resolve_single_expr_reports_errors_only() {
    let tokens = scan("this").ok().unwrap();
    let mut expr = Parser::new(&tokens).parse_single_expr().ok().unwrap();
    let mut resolver = Resolver::new();
    match resolver.resolve_single_expr(&mut expr) {
        Err(errors) => {
            assert_eq!(errors.len(), 1);
            assert!(matches!(&errors[0], ResolutionError::ThisNotInsideClass(_)));
        }
        Ok(_) => panic!("accepted this outside a class"),
    }
    let tokens = scan("a + b * 2").ok().unwrap();
    let mut expr = Parser::new(&tokens).parse_single_expr().ok().unwrap();
    assert!(resolver.resolve_single_expr(&mut expr).is_ok());
}

#[test]
fn the_table_keeps_the_last_value_of_a_name() {
    let mut table: Table<rlox::RuntimeValue> = Table::new();
    let a = "a".to_owned();
    let b = "b".to_owned();
    assert!(!table.contains(&a));
    assert!(table.get(&a).is_none());
    table.set(&a, rlox::RuntimeValue::Bool(true));
    table.set(&b, rlox::RuntimeValue::Nil);
    assert!(table.contains(&a));
    assert!(matches!(table.get(&a), Some(rlox::RuntimeValue::Bool(true))));
    table.set(&a, rlox::RuntimeValue::Bool(false));
    assert!(matches!(table.get(&a), Some(rlox::RuntimeValue::Bool(false))));
    assert!(matches!(table.get(&b), Some(rlox::RuntimeValue::Nil)));
    assert!(table.get(&"c".to_owned()).is_none());
}

#[test]
fn hops_name_the_nearest_scope_that_declared_the_name_before() {
    assert_eq!(resolved_hops("{ var a = 1; { print a; var a = 2; print a; } }"), "a:1 a:0");
    assert_eq!(resolved_hops("{ var a = 1; { fun f() { return a; } var a = 2; print f(); } }"), "a:2 f:0");
    assert_eq!(resolved_hops("var a = 1; var a = a + 1; print a;"), "a:g a:g");
    assert_eq!(resolved_hops("{ print b; } var b = 1;"), "b:g");
}
