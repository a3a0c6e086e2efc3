use funx::context::{funx_context, Context};
use funx::error::E;
use funx::evaluator::R;
use funx::values::{Type, V};
use funx::parser::node_eq_exec;

const FUEL: u64 = 1_000_000;

fn run_src(src: &str) -> (Context, Result<(V, R), E>) {
    let path = String::from("main.funx");
    let mut ctx = funx_context(&path);
    let text = String::from(src);
    let r = funx::run(&path, &text, &mut ctx, FUEL);
    (ctx, r)
}

fn out_of(ctx: &Context) -> String {
    ctx.out.iter().collect()
}

fn run_ok(src: &str) -> (Context, V) {
    let (ctx, r) = run_src(src);
    match r {
        Ok((v, _)) => (ctx, v),
        Err(e) => panic!("unexpected error: {}", e.message()),
    }
}

#[test]
fn print_add() {
    let (ctx, _) = run_ok("(print (+ 1 2))");
    assert_eq!(out_of(&ctx), "3\n");
}

#[test]
fn def_and_read() {
    let (ctx, _) = run_ok("(def @x 10)(print x)");
    assert_eq!(out_of(&ctx), "10\n");
}

#[test]
fn closure_increment() {
    let (ctx, _) = run_ok("(def @inc #(+ %0 1))(print (inc 4))");
    assert_eq!(out_of(&ctx), "5\n");
}

#[test]
fn while_counts() {
    let (ctx, _) = run_ok("(var @i 0)(while #(lt i 3) #{(set @i (+ i 1))(print i)})");
    assert_eq!(out_of(&ctx), "1\n2\n3\n");
}

#[test]
fn if_selects_string() {
    let (_, v) = run_ok("(if (lt 1 2) \"yes\" \"no\")");
    match v {
        V::Str(s) => assert_eq!(s, "yes"),
        _ => panic!("expected a string"),
    }
}

#[test]
fn union_and_exclusion_equalities() {
    run_ok("(assert (= (union int float) (union float int)))");
    run_ok("(assert (= (exclude undefined) int))");
    run_ok("(assert (= (= (exclude undefined) undefined) false))");
    run_ok("(assert (= any int))");
    run_ok("(assert (= (union int float) int))");
}

#[test]
fn boolean_as_select() {
    run_ok("(assert (= (true \"a\" \"b\") \"a\"))");
    run_ok("(assert (= (false \"a\" \"b\") \"b\"))");
    run_ok("(assert (= (true \"a\") \"a\"))");
    let (ctx, _) = run_ok("(print (false \"a\"))");
    assert_eq!(out_of(&ctx), "false\n");
}

#[test]
fn arithmetic_typing() {
    run_ok("(assert (= (+ 1 2) 3))");
    let (ctx, _) = run_ok("(print (+ 1 2.0))");
    assert_eq!(out_of(&ctx), "3\n");
    let (ctx, _) = run_ok("(print (/ 1 2))");
    assert_eq!(out_of(&ctx), "0.5\n");
    run_ok("(assert (= (+ \"a\" \"b\") \"ab\"))");
    let (_, r) = run_src("(+ 1 \"a\")");
    match r {
        Err(E::BinaryOperation { type1, type2 }) => {
            assert!(matches!(type1, Type::Int));
            assert!(matches!(type2, Type::Str));
        },
        _ => panic!("expected a binary operation error"),
    }
}

#[test]
fn float_display() {
    let (ctx, _) = run_ok("(print 2.5 (+ 1.5 2.5) (- 1 1.25) (* 2.0 3))");
    assert_eq!(out_of(&ctx), "2.5 4 -0.25 6\n");
}

#[test]
fn scope_layering() {
    let (_, r) = run_src("(var @x 1)(def @f #{(var @x 2)})(f)");
    match r {
        Err(E::AlreadyDefined(w)) => assert_eq!(w, "x"),
        _ => panic!("expected a shadowing refusal"),
    }
    run_ok("(def @f #{(var @x 2)(assert (= x 2))})(f)");
}

#[test]
fn global_immutability() {
    let (_, r) = run_src("(def @x 1)(set @x 2)");
    match r {
        Err(E::Immutable(w)) => assert_eq!(w, "x"),
        _ => panic!("expected an immutability refusal"),
    }
    run_ok("(var @x 1)(set @x 2)(assert (= x 2))");
    let (_, r) = run_src("(set @y 2)");
    match r {
        Err(E::NotDefined(w)) => assert_eq!(w, "y"),
        _ => panic!("expected an unbound-name refusal"),
    }
}

#[test]
fn positional_args() {
    let (ctx, _) = run_ok("(def @f #{(print %0 %1 %2)(print %3)})(f 10 20 30)");
    assert_eq!(out_of(&ctx), "10 20 30\nnull\n");
}

#[test]
fn wildcard_equality() {
    run_ok("(assert (= _ 5))(assert (= _ \"s\"))(assert (= _ null))(assert (= 5 _))");
}

#[test]
fn head_and_assert_errors() {
    let (_, r) = run_src("(5 1)");
    assert!(matches!(r, Err(E::HeadOperation(_))));
    let (_, r) = run_src("(def 5 1)");
    assert!(matches!(r, Err(E::ExpectedType { .. })));
    let (_, r) = run_src("(assert false)");
    assert!(matches!(r, Err(E::AssertError)));
    let (_, r) = run_src("(assert (lt 2 1))");
    assert!(matches!(r, Err(E::AssertError)));
}

#[test]
fn lexer_and_parser_errors() {
    let (_, r) = run_src("(print 1");
    assert!(matches!(r, Err(E::UnexpectedToken(_))));
    let (_, r) = run_src("\"abc");
    assert!(matches!(r, Err(E::Char(_))));
}

#[test]
fn comments_and_strings() {
    let (ctx, _) = run_ok("$ a comment line\n(print \"a b\")");
    assert_eq!(out_of(&ctx), "a b\n");
    let (ctx, _) = run_ok("(print \"a\\nb\")");
    assert_eq!(out_of(&ctx), "a\nb\n");
}

#[test]
fn chained_comparison() {
    run_ok("(assert (lt 1 2 3))");
    run_ok("(assert (= (lt 1 3 2) false))");
    run_ok("(assert (gt 3 2 1))");
    run_ok("(assert (= (gt 3 1 2) false))");
}

#[test]
fn load_isolation() {
    let files = vec![
        (String::from("std/core.funx"), String::new()),
        (String::from("main.funx"), String::from("(load \"other.funx\")(print 1)")),
        (String::from("other.funx"), String::from("(print 2)")),
    ];
    let (ctx, r) = funx::runfile_core(&String::from("main.funx"), &files, FUEL);
    assert!(r.is_ok());
    assert_eq!(out_of(&ctx), "2\n1\n");
    assert_eq!(ctx.path, "main.funx");

    let files = vec![
        (String::from("std/core.funx"), String::new()),
        (String::from("main.funx"), String::from("(load \"missing.funx\")")),
    ];
    let (ctx, r) = funx::runfile_core(&String::from("main.funx"), &files, FUEL);
    assert!(matches!(r, Err(E::FileNotFound(_))));
    assert_eq!(ctx.path, "main.funx");
}

#[test]
fn reprint_reparses_equal() {
    let path = String::from("main.funx");
    let src = String::from("(def @x 10){(print x)(print \"a b\");(print 2.5)}<int float>[1 2]");
    let toks = funx::lexer::lex(&src).unwrap();
    let mut ctx = funx_context(&path);
    let node = funx::parser::parse(&toks, &mut ctx).unwrap();
    let printed = node.show();
    let toks2 = funx::lexer::lex(&printed).unwrap();
    let node2 = funx::parser::parse(&toks2, &mut ctx).unwrap();
    let printed2 = node2.show();
    assert_eq!(printed, printed2);
    let toks3 = funx::lexer::lex(&printed2).unwrap();
    let node3 = funx::parser::parse(&toks3, &mut ctx).unwrap();
    assert!(node_eq_exec(&node2, &node3));
}

#[test]
fn error_rendering() {
    let (ctx, r) = run_src("(assert false)");
    match r {
        Err(e) => {
            let text = e.display(&ctx);
            assert!(text.starts_with("ERROR: assertion is false\n"));
        },
        _ => panic!("expected an assertion failure"),
    }
}

#[test]
fn inc() {
    let files = vec![
        (String::from("std/core.funx"), String::new()),
        (
            String::from("tests/inc.funx"),
            String::from("(def @inc #(+ %0 1))(assert (= (inc 1) 2))(assert (= (inc 41) 42))"),
        ),
    ];
    let (_, r) = funx::runfile_core(&String::from("tests/inc.funx"), &files, FUEL);
    assert!(r.is_ok());
}

#[test]
fn not() {
    let files = vec![
        (String::from("std/core.funx"), String::new()),
        (
            String::from("tests/bool.funx"),
            String::from(
                "(def @not #(if %0 false true))(assert (= (not true) false))(assert (= (not false) true))",
            ),
        ),
    ];
    let (_, r) = funx::runfile_core(&String::from("tests/bool.funx"), &files, FUEL);
    assert!(r.is_ok());
}

#[test]
fn types() {
    let files = vec![
        (String::from("std/core.funx"), String::new()),
        (
            String::from("tests/types.funx"),
            String::from(
                "(assert (= (type 1) int))(assert (= (type 1.5) float))(assert (= (type \"a\") str))(assert (= (union int float) (union float int)))",
            ),
        ),
    ];
    let (_, r) = funx::runfile_core(&String::from("tests/types.funx"), &files, FUEL);
    assert!(r.is_ok());
}

#[test]
fn comp() {
    let files = vec![
        (String::from("std/core.funx"), String::new()),
        (
            String::from("tests/comp.funx"),
            String::from("(assert (lt 1 2))(assert (gt 2 1))(assert (= (lt 2 1) false))"),
        ),
    ];
    let (_, r) = funx::runfile_core(&String::from("tests/comp.funx"), &files, FUEL);
    assert!(r.is_ok());
}

#[test]
fn casts() {
    run_ok("(assert (= (int 2.9) 2))(assert (= (float 1) 1.0))(assert (= (bool 0) false))(assert (= (bool 3) true))");
    let (ctx, _) = run_ok("(print (str 12))");
    assert_eq!(out_of(&ctx), "12\n");
}

#[test]
fn depth_budget() {
    let path = String::from("main.funx");
    let mut ctx = funx_context(&path);
    let text = String::from("(def @spin #(spin))(spin)");
    let r = funx::run(&path, &text, &mut ctx, 300);
    assert!(matches!(r, Err(E::Depth)));
}
