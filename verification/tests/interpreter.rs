use rlox::expression::Expr;
use rlox::interpreter::env::Environment;
use rlox::interpreter::exec::Step;
use rlox::interpreter::Interpreter;
use rlox::number::Number;
use rlox::parser::Parser;
use rlox::resolver::Resolver;
use rlox::scanner::{scan, Token, TokenType};
use rlox::statement::Stmt;
use rlox::{is_truthy, Rendered, RuntimeError, RuntimeValue};

fn text(line: &Rendered) -> String {
    match line {
        Rendered::Text(s) => s.clone(),
        Rendered::Number(n) => f64::from_bits(n.bits).to_string(),
    }
}

// Runs a program; gives what it printed and how it ended.
fn run_with(interp: &mut Interpreter, source: &str) -> (Vec<String>, Option<RuntimeError>) {
    let tokens = scan(source).ok().expect("scan failed");
    let mut statements = Parser::new(&tokens).parse().ok().expect("parse failed");
    let result = Resolver::new().resolve(&mut statements);
    assert!(result.errors.is_none(), "resolution failed");
    let outcome = interp.execute(&statements);
    let printed = interp.take_output().iter().map(text).collect();
    (printed, outcome.err())
}

fn run(source: &str) -> Vec<String> {
    let mut interp = Interpreter::new();
    let (printed, error) = run_with(&mut interp, source);
    assert!(error.is_none(), "runtime error: {:?}", error);
    printed
}

fn fails(source: &str) -> RuntimeError {
    let mut interp = Interpreter::new();
    match run_with(&mut interp, source).1 {
        Some(e) => e,
        None => panic!("no runtime error"),
    }
}

fn value_of(source: &str) -> Result<RuntimeValue, RuntimeError> {
    let tokens = scan(source).ok().expect("scan failed");
    let mut expr = Parser::new(&tokens).parse_single_expr().ok().expect("parse failed");
    assert!(Resolver::new().resolve_single_expr(&mut expr).is_ok());
    Interpreter::new().evaluate_expr(&expr)
}

fn number_of(source: &str) -> f64 {
    match value_of(source) {
        Ok(RuntimeValue::Number(n)) => f64::from_bits(n.bits),
        _ => panic!("no number"),
    }
}

fn bool_of(source: &str) -> bool {
    match value_of(source) {
        Ok(RuntimeValue::Bool(b)) => b,
        _ => panic!("no boolean"),
    }
}

#[test]
fn arithmetic_and_precedence() {
    assert_eq!(run("print 1 + 2 * 3;  print (1 + 2) * 3;"), vec!["7", "9"]);
    assert_eq!(number_of("10 - 4 - 3"), 3.0);
    assert_eq!(number_of("2 * 3 / 4"), 1.5);
    assert_eq!(number_of("-(1 + 2)"), -3.0);
    assert_eq!(number_of("0.1 + 0.2"), 0.1 + 0.2);
    assert_eq!(number_of("1 / 3"), 1.0 / 3.0);
    assert_eq!(run("print 0.1 + 0.2; print 1 / 4; print -0.5;"), vec!["0.30000000000000004", "0.25", "-0.5"]);
}

#[test]
fn closures_capture_and_do_not_snapshot() {
    let source = "
        fun makeCounter() { var i = 0; fun inc() { i = i + 1; return i; } return inc; }
        var c = makeCounter(); print c(); print c(); print c();
    ";
    assert_eq!(run(source), vec!["1", "2", "3"]);
    let source = "
        fun makeCounter() { var i = 0; fun inc() { i = i + 1; return i; } return inc; }
        var a = makeCounter(); var b = makeCounter(); print a(); print a(); print b();
    ";
    assert_eq!(run(source), vec!["1", "2", "1"]);
}

#[test]
fn lexical_scope_is_fixed_at_definition() {
    let source = "
        var a = \"global\";
        { fun show() { print a; } show(); var a = \"local\"; show(); }
    ";
    assert_eq!(run(source), vec!["\"global\"", "\"global\""]);
}

#[test]
fn inheritance_and_super() {
    let source = "
        class A { speak() { print \"A\"; } }
        class B < A { speak() { super.speak(); print \"B\"; } }
        B().speak();
    ";
    assert_eq!(run(source), vec!["\"A\"", "\"B\""]);
    let source = "
        class A { name() { return \"A\"; } hello() { return this.name(); } }
        class B < A { name() { return \"B\"; } }
        class C < B {}
        print C().hello(); print A().hello();
    ";
    assert_eq!(run(source), vec!["\"B\"", "\"A\""]);
}

#[test]
fn initializer_returns_the_instance() {
    let source = "
        class P { init(x) { this.x = x; } }
        var p = P(42); print p.x;
    ";
    assert_eq!(run(source), vec!["42"]);
    let source = "
        class P { init(x) { this.x = x; if (x > 1) return; this.x = 0; } }
        print P(42).x; print P(1).x;
        var p = P(5); print p.init(7).x; print p.x;
    ";
    assert_eq!(run(source), vec!["42", "0", "7", "7"]);
}

#[test]
fn break_leaves_the_innermost_loop_and_return_unwinds() {
    let source = "
        fun f() { var i = 0; while (true) { if (i == 3) return i; i = i + 1; } }
        print f();
    ";
    assert_eq!(run(source), vec!["3"]);
    let source = "
        var i = 0;
        while (i < 3) {
            var j = 0;
            while (true) { j = j + 1; if (j == 2) break; }
            print i * 10 + j;
            i = i + 1;
        }
        for (var k = 0; k < 10; k = k + 1) { if (k == 2) break; print k; }
    ";
    assert_eq!(run(source), vec!["2", "12", "22", "0", "1"]);
}

#[test]
fn calling_what_is_no_function_is_an_error() {
    match fails("1();") {
        RuntimeError::NonCallableCalled(t) => assert_eq!(t.token_type, TokenType::RightParen),
        other => panic!("unexpected {:?}", other),
    }
    assert!(matches!(fails("\"f\"();"), RuntimeError::NonCallableCalled(_)));
    assert!(matches!(fails("nil();"), RuntimeError::NonCallableCalled(_)));
    assert!(matches!(fails("class A {} A()();"), RuntimeError::NonCallableCalled(_)));
}

#[test]
fn plus_takes_two_numbers_or_two_strings() {
    match fails("\"a\" + 1;") {
        RuntimeError::BinaryPlusExpectsTwoNumbersOrTwoStrings(t) => {
            assert_eq!(t.lexeme, "+");
            assert_eq!(t.column, 5);
        }
        other => panic!("unexpected {:?}", other),
    }
    assert!(matches!(
        fails("1 + \"a\";"),
        RuntimeError::BinaryPlusExpectsTwoNumbersOrTwoStrings(_)
    ));
    assert!(matches!(
        fails("nil + nil;"),
        RuntimeError::BinaryPlusExpectsTwoNumbersOrTwoStrings(_)
    ));
    assert!(matches!(
        fails("true + 1;"),
        RuntimeError::BinaryPlusExpectsTwoNumbersOrTwoStrings(_)
    ));
    assert_eq!(run("print \"a\" + \"b\" + \"\"; print 1 + 2;"), vec!["\"ab\"", "3"]);
    assert!(matches!(value_of("\"x\" + \"y\""), Ok(RuntimeValue::String(s)) if s == "xy"));
    assert!(matches!(value_of("1 + 1"), Ok(RuntimeValue::Number(_))));
}

#[test]
fn division_by_zero_is_an_error() {
    match fails("1 / 0;") {
        RuntimeError::DivisionByZero(t) => assert_eq!(t.lexeme, "/"),
        other => panic!("unexpected {:?}", other),
    }
    assert!(matches!(fails("0 / 0;"), RuntimeError::DivisionByZero(_)));
    assert!(matches!(fails("1 / -0;"), RuntimeError::DivisionByZero(_)));
    assert!(matches!(fails("1 / (1 - 1);"), RuntimeError::DivisionByZero(_)));
    assert!(matches!(
        fails("1 / \"0\";"),
        RuntimeError::BinaryOperatorExpectsNumbers(_)
    ));
    assert_eq!(number_of("0 / 1"), 0.0);
}

#[test]
fn exactly_nil_and_false_are_falsy() {
    assert!(!is_truthy(&RuntimeValue::Nil));
    assert!(!is_truthy(&RuntimeValue::Bool(false)));
    assert!(is_truthy(&RuntimeValue::Bool(true)));
    assert!(is_truthy(&RuntimeValue::Number(Number::from_bits(0))));
    assert!(is_truthy(&RuntimeValue::Number(Number::from_bits((-0.0f64).to_bits()))));
    assert!(is_truthy(&RuntimeValue::Number(Number::from_bits(f64::NAN.to_bits()))));
    assert!(is_truthy(&RuntimeValue::String(String::new())));
    assert!(is_truthy(&RuntimeValue::String("false".to_owned())));
    assert!(is_truthy(&RuntimeValue::Class(0)));
    assert!(is_truthy(&RuntimeValue::Instance(0)));
    assert_eq!(
        run("if (0) print 1; if (\"\") print 2; if (nil) print 3; if (false) print 4; if (!nil) print 5;"),
        vec!["1", "2", "5"]
    );
    assert!(bool_of("!nil"));
    assert!(bool_of("!false"));
    assert!(!bool_of("!0"));
    assert!(!bool_of("!\"\""));
}

#[test]
fn logical_operators_short_circuit() {
    let source = "
        var calls = 0;
        fun touch(v) { calls = calls + 1; return v; }
        print false and touch(1);
        print nil and touch(1);
        print true or touch(1);
        print 0 or touch(1);
        print calls;
        print true and touch(2);
        print nil or touch(3);
        print calls;
    ";
    assert_eq!(run(source), vec!["false", "nil", "true", "0", "0", "2", "3", "2"]);
}

#[test]
fn operands_are_evaluated_from_left_to_right() {
    let source = "
        fun say(v) { print v; return v; }
        say(1) + say(2) * say(3);
        fun three(a, b, c) {}
        three(say(4), say(5), say(6));
        say(7) == say(8);
    ";
    assert_eq!(run(source), vec!["1", "2", "3", "4", "5", "6", "7", "8"]);
}

#[test]
fn equality_compares_by_value() {
    assert!(bool_of("nil == nil"));
    assert!(bool_of("true == true"));
    assert!(!bool_of("true == false"));
    assert!(bool_of("1 == 1"));
    assert!(bool_of("0 == -0"));
    assert!(!bool_of("1 == 2"));
    assert!(bool_of("\"a\" == \"a\""));
    assert!(!bool_of("\"a\" == \"b\""));
    assert!(!bool_of("1 == \"1\""));
    assert!(!bool_of("nil == false"));
    assert!(!bool_of("0 == false"));
    assert!(bool_of("1 != 2"));
    assert!(!bool_of("nil != nil"));
    assert_eq!(
        run("var big = 100000000000000000000 * 100000000000000000000; var inf = big * big * big * big * big * big * big * big * big * big * big * big * big * big * big * big; var nan = inf - inf; print nan == nan; print nan != nan; print inf == inf;"),
        vec!["false", "true", "true"]
    );
    // functions, classes and instances are equal to nothing
    assert_eq!(
        run("fun f() {} class A {} var a = A(); print f == f; print A == A; print a == a;"),
        vec!["false", "false", "false"]
    );
}

#[test]
fn comparisons_take_numbers() {
    assert!(bool_of("1 < 2"));
    assert!(!bool_of("2 < 1"));
    assert!(bool_of("2 <= 2"));
    assert!(bool_of("3 > 2"));
    assert!(bool_of("3 >= 3"));
    assert!(!bool_of("-1 > 0"));
    assert!(bool_of("-2 < -1"));
    assert!(!bool_of("0 < -0"));
    for source in ["1 < \"2\";", "nil > 1;", "true <= false;", "\"a\" >= \"b\";", "1 - \"1\";", "nil * 2;"] {
        assert!(matches!(fails(source), RuntimeError::BinaryOperatorExpectsNumbers(_)));
    }
    assert!(matches!(fails("-\"a\";"), RuntimeError::UnaryMinusExpectsNumber(_)));
    assert!(matches!(fails("-nil;"), RuntimeError::UnaryMinusExpectsNumber(_)));
}

#[test]
fn undefined_variables_are_errors() {
    match fails("print missing;") {
        RuntimeError::UndefinedVariable(t) => assert_eq!(t.lexeme, "missing"),
        other => panic!("unexpected {:?}", other),
    }
    assert!(matches!(fails("missing = 1;"), RuntimeError::UndefinedVariable(_)));
    assert_eq!(run("var a; print a; a = 2; print a; var a = 3; print a;"), vec!["nil", "2", "3"]);
    assert_eq!(run("var a = 1; { var a = 2; print a; } print a;"), vec!["2", "1"]);
    assert_eq!(run("var a = 1; { a = 2; } print a;"), vec!["2"]);
    assert_eq!(run("var a; print a = 5;"), vec!["5"]);
}

#[test]
fn calls_check_the_number_of_arguments() {
    match fails("fun f(a, b) {} f(1);") {
        RuntimeError::CallableArityMismatch { right_paren, expected, found } => {
            assert_eq!(right_paren.token_type, TokenType::RightParen);
            assert_eq!((expected, found), (2, 1));
        }
        other => panic!("unexpected {:?}", other),
    }
    assert!(matches!(
        fails("fun f() {} f(1, 2);"),
        RuntimeError::CallableArityMismatch { expected: 0, found: 2, .. }
    ));
    assert!(matches!(
        fails("class A {} A(1);"),
        RuntimeError::CallableArityMismatch { expected: 0, found: 1, .. }
    ));
    assert!(matches!(
        fails("class A { init(a) {} } A();"),
        RuntimeError::CallableArityMismatch { expected: 1, found: 0, .. }
    ));
    // the arity is checked before any argument is evaluated
    let mut interp = Interpreter::new();
    let (printed, error) = run_with(&mut interp, "fun say(v) { print v; } fun f(a) {} f(say(1), say(2));");
    assert!(printed.is_empty());
    assert!(matches!(error, Some(RuntimeError::CallableArityMismatch { .. })));
}

#[test]
fn functions_return_nil_by_default() {
    assert_eq!(run("fun f() {} print f(); fun g() { return; } print g();"), vec!["nil", "nil"]);
    assert_eq!(
        run("fun fib(n) { if (n < 2) return n; return fib(n - 1) + fib(n - 2); } print fib(15);"),
        vec!["610"]
    );
    assert_eq!(run("fun f(a, b) { return a + b; } print f(1, 2);"), vec!["3"]);
}

#[test]
fn instances_have_fields_and_methods() {
    let source = "
        class Box { get() { return this.value; } }
        var b = Box();
        b.value = 3;
        print b.value;
        print b.get();
        b.get = 4;
        print b.get;
        var c = Box();
        c.value = \"c\";
        var m = c.get;
        print m();
    ";
    assert_eq!(run(source), vec!["3", "3", "4", "\"c\""]);
    match fails("class A {} A().missing;") {
        RuntimeError::UndefinedProperty(t) => assert_eq!(t.lexeme, "missing"),
        other => panic!("unexpected {:?}", other),
    }
    assert!(matches!(fails("var a = 1; a.x;"), RuntimeError::OnlyInstancesHaveProperties(_)));
    assert!(matches!(fails("var a = \"s\"; a.x = 1;"), RuntimeError::OnlyInstancesHaveProperties(_)));
    assert!(matches!(fails("class A {} A.x;"), RuntimeError::OnlyInstancesHaveProperties(_)));
    assert!(matches!(
        fails("class A {} class B < A { m() { super.nope(); } } B().m();"),
        RuntimeError::UndefinedProperty(_)
    ));
}

#[test]
fn a_super_class_must_be_a_class() {
    match fails("var A = 1; class B < A {}") {
        RuntimeError::SuperClassMustBeAClass(t) => assert_eq!(t.lexeme, "A"),
        other => panic!("unexpected {:?}", other),
    }
    assert!(matches!(fails("class B < Missing {}"), RuntimeError::UndefinedVariable(_)));
    assert!(matches!(fails("fun f() {} class B < f {}"), RuntimeError::SuperClassMustBeAClass(_)));
}

#[test]
fn values_have_a_printed_form() {
    let source = "
        print nil; print true; print false; print 12; print 1.5; print \"hi\";
        fun f() {} print f;
        class A { m() {} } print A; print A(); print A().m;
    ";
    assert_eq!(
        run(source),
        vec![
            "nil",
            "true",
            "false",
            "12",
            "1.5",
            "\"hi\"",
            "<fun f>",
            "<class A>",
            "<instance of class A>",
            "<fun m>"
        ]
    );
    let interp = Interpreter::new();
    assert_eq!(text(&interp.display(&RuntimeValue::Nil)), "nil");
    assert_eq!(text(&interp.display(&RuntimeValue::String("a\"b".to_owned()))), "\"a\"b\"");
    assert!(matches!(
        interp.display(&RuntimeValue::Number(Number::from_bits(7.0f64.to_bits()))),
        Rendered::Number(n) if n.bits == 7.0f64.to_bits()
    ));
}

#[test]
fn the_interpreter_keeps_its_state_between_runs() {
    let mut interp = Interpreter::new();
    let (printed, error) = run_with(&mut interp, "var a = 1; fun next() { a = a + 1; return a; }");
    assert!(printed.is_empty() && error.is_none());
    let (printed, error) = run_with(&mut interp, "print next(); print next();");
    assert!(error.is_none());
    assert_eq!(printed, vec!["2", "3"]);
    // what was printed before an error is kept
    let (printed, error) = run_with(&mut interp, "print 1; print missing; print 2;");
    assert_eq!(printed, vec!["1"]);
    assert!(matches!(error, Some(RuntimeError::UndefinedVariable(_))));
    // the scope is restored after an error inside a block
    let (printed, error) = run_with(&mut interp, "{ var a = 10; print nothing; }");
    assert!(printed.is_empty() && error.is_some());
    let (printed, _) = run_with(&mut interp, "print a;");
    assert_eq!(printed, vec!["3"]);
}

#[test]
fn the_limit_stops_what_does_not_end() {
    let mut interp = Interpreter::with_limit(1000);
    let (printed, error) = run_with(&mut interp, "var i = 0; while (true) { i = i + 1; } print i;");
    assert!(printed.is_empty());
    assert!(matches!(error, Some(RuntimeError::LimitExceeded)));
    let mut interp = Interpreter::with_limit(200);
    let (_, error) = run_with(&mut interp, "fun f() { return f(); } f();");
    assert!(matches!(error, Some(RuntimeError::LimitExceeded)));
    let mut interp = Interpreter::with_limit(0);
    let (_, error) = run_with(&mut interp, "print 1;");
    assert!(matches!(error, Some(RuntimeError::LimitExceeded)));
    let mut interp = Interpreter::with_limit(3);
    let (printed, error) = run_with(&mut interp, "print 1; print 2; print 3;");
    assert!(error.is_none());
    assert_eq!(printed, vec!["1", "2", "3"]);
    let mut interp = Interpreter::with_limit(1000);
    let (printed, error) = run_with(&mut interp, "var i = 0; while (i < 100) i = i + 1; print i;");
    assert!(error.is_none());
    assert_eq!(printed, vec!["100"]);
}

#[test]
fn unknown_operators_are_errors() {
    let plus = Token::single_character(TokenType::Plus, '+', 1, 1);
    let comma = Token::single_character(TokenType::Comma, ',', 1, 1);
    let one = RuntimeValue::Number(Number::from_bits(1.0f64.to_bits()));
    assert!(matches!(
        rlox::interpreter::eval::unary_op(&plus, &one),
        Err(RuntimeError::UnknownUnaryExpression(_))
    ));
    assert!(matches!(
        rlox::interpreter::eval::binary_op(&comma, &one, &one),
        Err(RuntimeError::UnknownBinaryExpression(_))
    ));
    assert!(matches!(
        rlox::interpreter::eval::binary_op(&plus, &one, &one),
        Ok(RuntimeValue::Number(n)) if f64::from_bits(n.bits) == 2.0
    ));
}

#[test]
fn strings_concatenate_and_clone() {
    assert_eq!(
        run("var a = \"x\"; var b = a + \"y\"; print a; print b; print b + b;"),
        vec!["\"x\"", "\"xy\"", "\"xyxy\""]
    );
}

#[test]
fn scopes_read_and_assign_through_their_parents() {
    let one = RuntimeValue::Number(Number::from_bits(1.0f64.to_bits()));
    let two = RuntimeValue::Number(Number::from_bits(2.0f64.to_bits()));
    let a = "a".to_owned();
    let b = "b".to_owned();

    let mut env = Environment::root();
    assert!(env.parent().is_none());
    assert!(env.get(&a).is_none());
    assert!(!env.assign(&a, &one));
    assert!(env.get(&a).is_none());
    env.define(&a, &one);
    assert!(matches!(env.get(&a), Some(RuntimeValue::Number(n)) if n.bits == 1.0f64.to_bits()));
    assert!(env.assign(&a, &two));
    assert!(matches!(env.get(&a), Some(RuntimeValue::Number(n)) if n.bits == 2.0f64.to_bits()));
    env.define(&a, &one);
    assert!(matches!(env.get(&a), Some(RuntimeValue::Number(n)) if n.bits == 1.0f64.to_bits()));
    assert_eq!(Environment::child(3).parent(), Some(3));

    // the globals are scope 0 of an interpreter
    let mut interp = Interpreter::new();
    let (_, error) = run_with(&mut interp, "var a = 1;");
    assert!(error.is_none());
    assert!(interp.get_at(0, &a, 0).is_some());
    assert!(interp.get_at(0, &b, 0).is_none());
    assert!(interp.get_at(0, &a, 1).is_none());
    assert!(interp.get_at(7, &a, 0).is_none());
    assert!(interp.assign_at(0, &a, &two, 0));
    assert!(!interp.assign_at(0, &b, &two, 0));
    assert!(!interp.assign_at(0, &a, &two, 1));
    let (printed, _) = run_with(&mut interp, "print a; print a == 2;");
    assert_eq!(printed, vec!["2", "true"]);
}

#[test]
fn methods_are_found_in_the_class_and_above_it() {
    let mut interp = Interpreter::new();
    let source = "
        class A { a() {} both() { return 1; } }
        class B < A { b() {} both() { return 2; } }
        var o = B();
    ";
    let (_, error) = run_with(&mut interp, source);
    assert!(error.is_none());
    let name = |s: &str| s.to_owned();
    // A is class 0, B is class 1
    assert!(interp.find_method(0, &name("a")).is_some());
    assert!(interp.find_method(0, &name("b")).is_none());
    assert!(interp.find_method(1, &name("a")).is_some());
    assert!(interp.find_method(1, &name("b")).is_some());
    assert!(interp.find_method(1, &name("c")).is_none());
    assert!(interp.find_method(2, &name("a")).is_none());
    assert_eq!(interp.find_method(1, &name("both")).map(|m| m.arity()), Some(0));
    // the instance has no fields yet; a method comes bound to it
    assert!(matches!(interp.instance_get(0, &name("a")), Some(RuntimeValue::Callable(_))));
    assert!(interp.instance_get(0, &name("x")).is_none());
    assert!(interp.instance_get(5, &name("a")).is_none());
    let (printed, _) = run_with(&mut interp, "print o.both(); print A().both();");
    assert_eq!(printed, vec!["2", "1"]);
}

#[test]
fn a_function_value_can_be_called_from_outside() {
    let mut interp = Interpreter::new();
    let (_, error) = run_with(&mut interp, "var n = 10; fun add(a, b) { n = n + 1; return a + b + n; }");
    assert!(error.is_none());
    let add = match interp.get_at(0, &"add".to_owned(), 0) {
        Some(RuntimeValue::Callable(f)) => f,
        _ => panic!("no function"),
    };
    assert_eq!(add.arity(), 2);
    let args = vec![
        RuntimeValue::Number(Number::from_bits(1.0f64.to_bits())),
        RuntimeValue::Number(Number::from_bits(2.0f64.to_bits())),
    ];
    match add.call(&args, &mut interp) {
        Ok(RuntimeValue::Number(n)) => assert_eq!(f64::from_bits(n.bits), 14.0),
        _ => panic!("no number"),
    }
    let (printed, _) = run_with(&mut interp, "print n;");
    assert_eq!(printed, vec!["11"]);
}

#[test]
fn assigning_to_a_variable_in_its_own_initializer_misses_it() {
    // the resolver finds the declaration, which is not bound yet when the
    // initializer runs
    match fails("{ var a = (a = 1); }") {
        RuntimeError::UndefinedVariable(t) => assert_eq!(t.lexeme, "a"),
        other => panic!("unexpected {:?}", other),
    }
    assert_eq!(run("{ var a = 1; { var b = (a = 2); print a + b; } }"), vec!["4"]);
}

#[test]
fn statements_can_be_run_one_by_one() {
    let tokens = scan("var a = 1; print a; a = a + 1; print a;").ok().expect("scan failed");
    let mut statements = Parser::new(&tokens).parse().ok().expect("parse failed");
    assert!(Resolver::new().resolve(&mut statements).errors.is_none());
    let mut interp = Interpreter::new();
    assert_eq!(interp.limit_value(), u64::MAX);
    let mut seen = Vec::new();
    for statement in statements.iter() {
        let limit = interp.limit_value();
        assert!(matches!(interp.execute_statement(statement, limit), Ok(None)));
        seen.push(interp.take_output().iter().map(text).collect::<Vec<String>>());
    }
    assert_eq!(seen, vec![vec![], vec!["1".to_owned()], vec![], vec!["2".to_owned()]]);
}

#[test]
fn super_goes_up_one_class_at_a_time() {
    let source = "
        {
            class A { hi() { return \"A\"; } }
            class B < A { hi() { return super.hi() + \"B\"; } }
            class C < B { hi() { return super.hi() + \"C\"; } }
            print C().hi();
        }
        class X { m() { return 1; } }
        class Y < X {}
        class Z < Y { m() { return super.m() + 1; } }
        print Z().m();
    ";
    assert_eq!(run(source), vec!["\"ABC\"", "2"]);
}

#[test]
fn closures_keep_the_scope_of_their_call() {
    let source = "
        fun make(n) { fun f() { return n; } return f; }
        var a = make(1); var b = make(2); print a() + b();
        var g;
        for (var i = 0; i < 3; i = i + 1) { fun f() { return i; } g = f; }
        print g();
        fun outer() { var x = 1; fun middle() { fun inner() { x = x + 1; return x; } return inner; } return middle(); }
        var h = outer(); print h(); print h();
    ";
    assert_eq!(run(source), vec!["3", "3", "2", "3"]);
}

#[test]
fn this_is_found_from_nested_functions() {
    let source = "
        class T { get() { fun inner() { return this.v; } return inner(); } }
        var t = T(); t.v = 5; print t.get();
        class N { make() { return N(); } }
        print N().make();
        class K { m() { return 1; } }
        var k = K(); k.m = 2; print k.m;
    ";
    assert_eq!(run(source), vec!["5", "<instance of class N>", "2"]);
}

#[test]
fn return_unwinds_blocks_and_loops() {
    let source = "
        fun f() { for (var i = 0; i < 5; i = i + 1) { { if (i == 2) { return i * 10; } } } return -1; }
        print f();
        fun sum(n) { if (n == 0) return 0; return n + sum(n - 1); }
        print sum(200);
        fun g() { while (true) { while (true) { break; } return \"done\"; } }
        print g();
    ";
    assert_eq!(run(source), vec!["20", "20100", "\"done\""]);
}

#[test]
fn only_the_own_initializer_of_a_class_runs() {
    let source = "class A { init(x) { this.x = x; } } class B < A {} var b = B(); print b;";
    assert_eq!(run(source), vec!["<instance of class B>"]);
    assert!(matches!(
        fails("class A { init(x) { this.x = x; } } class B < A {} B(1);"),
        RuntimeError::CallableArityMismatch { expected: 0, found: 1, .. }
    ));
    assert!(matches!(
        fails("class A { init(x) { this.x = x; } } class B < A {} B().x;"),
        RuntimeError::UndefinedProperty(_)
    ));
    // the inherited initializer can still be called as a method
    assert_eq!(
        run("class A { init(x) { this.x = x; } } class B < A {} var b = B(); b.init(3); print b.x;"),
        vec!["3"]
    );
}

#[test]
fn a_global_may_be_declared_again_from_its_old_value() {
    assert_eq!(run("var a = 1; var a = a + 1; print a;"), vec!["2"]);
    assert_eq!(run("var a = 1; var a = (a = 5) + a; print a;"), vec!["10"]);
    // a global that was never bound is missed as any other global is
    match fails("var b = (b = 1);") {
        RuntimeError::UndefinedVariable(t) => assert_eq!(t.lexeme, "b"),
        other => panic!("unexpected {:?}", other),
    }
}

#[test]
fn the_steps_of_a_program_end_as_the_whole_does() {
    let tokens = scan("var a = 1; print a; a = a + 1; print a;").ok().expect("scan failed");
    let mut statements = Parser::new(&tokens).parse().ok().expect("parse failed");
    assert!(Resolver::new().resolve(&mut statements).errors.is_none());
    let mut interp = Interpreter::new();
    let mut seen = Vec::new();
    let mut at = 0;
    loop {
        let step = interp.step(&statements, at);
        seen.push(interp.take_output().iter().map(text).collect::<Vec<String>>());
        match step {
            Ok(Step::Next(next)) => {
                assert_eq!(next, at + 1);
                at = next;
            },
            Ok(Step::Done(effect)) => {
                assert!(effect.is_none());
                break;
            },
            Err(e) => panic!("unexpected {:?}", e),
        }
    }
    assert_eq!(seen, vec![vec![], vec!["1".to_owned()], vec![], vec!["2".to_owned()]]);
    assert!(matches!(interp.step(&statements, 4), Ok(Step::Done(None))));
    assert!(matches!(interp.step(&Vec::new(), 0), Ok(Step::Done(None))));
    let tokens = scan("print 1; print 1 / 0; print 2;").ok().expect("scan failed");
    let statements = Parser::new(&tokens).parse().ok().expect("parse failed");
    let mut interp = Interpreter::new();
    assert!(matches!(interp.step(&statements, 0), Ok(Step::Next(1))));
    assert!(matches!(interp.step(&statements, 1), Err(RuntimeError::DivisionByZero(_))));
    assert_eq!(interp.take_output().iter().map(text).collect::<Vec<String>>(), vec!["1"]);
}

#[test]
fn dividing_by_a_numeral_of_zeros_is_an_error() {
    for source in ["1 / 0;", "1 / 0.0;", "1 / 000.000;", "0 / 0;", "1 / -0;"] {
        assert!(matches!(fails(source), RuntimeError::DivisionByZero(_)), "{source}");
    }
}

#[test]
fn a_mention_in_an_initializer_that_never_runs_misses_nothing() {
    assert_eq!(run("{ var a = true or (a = 1); print a; }"), vec!["true"]);
    assert_eq!(run("{ var a = false and (a = 1); print a; }"), vec!["false"]);
    assert_eq!(
        run("fun never() { var b = (b = 1); return b; } { var a = 2; print a; }"),
        vec!["2"]
    );
    // where it runs, the variable of the declaration under way is missed
    match fails("{ var a = false or (a = 1); }") {
        RuntimeError::UndefinedVariable(t) => assert_eq!((t.lexeme.as_str(), t.column), ("a", 21)),
        other => panic!("unexpected {:?}", other),
    }
}

#[test]
fn an_initializer_gives_the_instance_it_was_bound_to() {
    assert_eq!(
        run("class P { init(x) { this.x = x; if (x > 1) return; this.x = 0; } }
             var p = P(7); print p.x; var q = p.init(1); print q.x; print p.x;
             var r = p.init(9); print r.x;"),
        vec!["7", "0", "0", "9"]
    );
    // a tree that no source text gives: the initializer assigns to `this`
    let source = "class P { init() { x = 1; } } var p = P(); print p; print p.init();";
    let tokens = scan(source).ok().expect("scan failed");
    let mut statements = Parser::new(&tokens).parse().ok().expect("parse failed");
    match &mut statements[0] {
        Stmt::Class(c) => match &mut c.methods[0].body[0] {
            Stmt::Expression(s) => match &mut s.expr {
                Expr::Assignment(a) => a.name.lexeme = "this".to_owned(),
                _ => panic!("no assignment"),
            },
            _ => panic!("no expression"),
        },
        _ => panic!("no class"),
    }
    assert!(Resolver::new().resolve(&mut statements).errors.is_none());
    let mut interp = Interpreter::new();
    assert!(matches!(interp.execute(&statements), Ok(None)));
    assert_eq!(
        interp.take_output().iter().map(text).collect::<Vec<String>>(),
        vec!["<instance of class P>", "<instance of class P>"]
    );
}
