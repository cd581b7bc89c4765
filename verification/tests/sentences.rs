use rj::eval::{eval, make_primitive, run_line, LineOutcome};
use rj::error::{JErrorKind, Span};
use rj::interp::Interpreter;
use rj::token::tokenize;

fn show(interp: &mut Interpreter, line: &str) -> String {
    match run_line(interp, line) {
        LineOutcome::Show(v) => v.to_string(),
        LineOutcome::Assigned(_) => String::from("(assigned)"),
        LineOutcome::Failed(e) => format!("{}: {}", e.kind.as_str(), e.message),
    }
}

fn one(line: &str) -> String {
    let mut interp = Interpreter::new();
    show(&mut interp, line)
}

#[test]
fn banner_iota() {
    assert_eq!(one("i. 5"), "0 1 2 3 4");
}

#[test]
fn banner_sum_of_iota() {
    assert_eq!(one("+/ i. 10"), "45");
}

#[test]
fn banner_mean() {
    let mut interp = Interpreter::new();
    assert_eq!(show(&mut interp, "mean =: +/ % #"), "(assigned)");
    assert_eq!(show(&mut interp, "mean i. 11"), "5");
    assert_eq!(show(&mut interp, "mean"), "(verb:fork)");
}

#[test]
fn banner_table() {
    assert_eq!(one("i. 2 3"), "0 1 2\n3 4 5");
}

#[test]
fn banner_shape() {
    assert_eq!(one("$ i. 2 3"), "2 3");
}

#[test]
fn banner_reshape() {
    assert_eq!(one("2 3 $ i. 6"), "0 1 2\n3 4 5");
}

#[test]
fn banner_residue() {
    assert_eq!(one("3 | 10"), "1");
}

#[test]
fn banner_magnitude() {
    assert_eq!(one("| _5"), "5");
}

#[test]
fn dyads_and_forks() {
    assert_eq!(one("1 2 3 + 4 5 6"), "5 7 9");
    assert_eq!(one("10 - 4"), "6");
    assert_eq!(one("2 * 3 + 4"), "14");
    assert_eq!(one("-/ 1 2 3"), "2");
    assert_eq!(one("+/ % # 1 2 3"), "2");
    assert_eq!(one("7 % 2"), "domain error: floating-point values are not supported");
    assert_eq!(one("8 % _2"), "-4");
    assert_eq!(one("+ t. 5"), "5");
    assert_eq!(one("1 2 3 < 2"), "1 0 0");
    assert_eq!(one("i. 2 2 2"), "0 1\n2 3\n\n4 5\n6 7");
}

#[test]
fn verb_phrases() {
    assert_eq!(one("+/"), "(verb:/)");
    assert_eq!(one("+/ % #"), "(verb:fork)");
    assert_eq!(one("(+) t. 3"), "syntax error: cannot parse verb expression");
    assert_eq!(one("+ ^ 3"), "syntax error: unexpected character: '^'");
}

#[test]
fn assignment_reads_back() {
    let mut interp = Interpreter::new();
    assert_eq!(show(&mut interp, "x =: 3 4"), "(assigned)");
    assert_eq!(show(&mut interp, "x"), "3 4");
    assert_eq!(show(&mut interp, "+/ x"), "7");
    assert_eq!(show(&mut interp, "a =: b =: 7"), "(assigned)");
    assert_eq!(show(&mut interp, "a"), "7");
    assert_eq!(show(&mut interp, "b"), "7");
}

#[test]
fn failed_assignment_binds_nothing() {
    let mut interp = Interpreter::new();
    assert_eq!(show(&mut interp, "y =: 1 % 0"), "domain error: % dyad: divide by zero");
    assert_eq!(show(&mut interp, "y"), "value error: undefined name: 'y'");
}

#[test]
fn eval_on_words() {
    let mut interp = Interpreter::new();
    let words = tokenize("z =: 2 + 3", 0).unwrap();
    let v = eval(&mut interp, &words).unwrap();
    assert_eq!(v.to_string(), "5");
    assert_eq!(interp.lookup("z").unwrap().to_string(), "5");
}

#[test]
fn undefined_names() {
    let mut interp = Interpreter::new();
    match run_line(&mut interp, "nothing") {
        LineOutcome::Failed(e) => {
            assert_eq!(e.kind, JErrorKind::Value);
            assert_eq!(e.message, "undefined name: 'nothing'");
            assert_eq!(e.span, Some(Span::new(0, 7, 1, 1)));
        },
        _ => panic!("expected an error"),
    }
}

#[test]
fn foreigns() {
    assert_eq!(one("236!:32 ''"), "32");
    assert_eq!(one("236!:8 ''"), "domain error: 236!:8 not supported (use 16, 32, or 64)");
    assert_eq!(one("1!:2 ''"), "domain error: foreign 1!:2 not implemented");
}

#[test]
fn floats_are_refused() {
    assert_eq!(one("1.5 + 2.5"), "domain error: floating-point values are not supported");
    assert_eq!(one("3j4"), "domain error: floating-point values are not supported");
}

#[test]
fn noun_lists() {
    assert_eq!(one("1 _2 3"), "1 -2 3");
    assert_eq!(one("'abc'"), "0");
    assert_eq!(one("(1 2)"), "1 2");
    assert_eq!(one("1 2 'a'"), "syntax error: unexpected token in noun list");
}

#[test]
fn lines_are_recorded() {
    let mut interp = Interpreter::new();
    let _ = run_line(&mut interp, "1 + 1");
    let _ = run_line(&mut interp, "2");
    assert_eq!(interp.sources.len(), 2);
    assert_eq!(interp.current_source(), Some("2"));
}

#[test]
fn primitive_names() {
    let span = Span::new(0, 1, 1, 1);
    assert_eq!(make_primitive("i.", &span).unwrap().name(), "i.");
    assert_eq!(make_primitive("~:", &span).unwrap().name(), "~:");
    let e = make_primitive("??", &span).err().unwrap();
    assert_eq!(e.kind, JErrorKind::Value);
    assert_eq!(e.message, "unknown verb: '??'");
    assert_eq!(e.span, Some(span));
}

#[test]
fn monads() {
    assert_eq!(one("- 5"), "-5");
    assert_eq!(one("* _3 0 4"), "-1 0 1");
    assert_eq!(one("% 1"), "1");
    assert_eq!(one("% 2"), "domain error: floating-point values are not supported");
    assert_eq!(one("% 0"), "domain error: % monad: divide by zero");
    assert_eq!(one("# 1 2 3"), "3");
    assert_eq!(one("# 7"), "1");
    assert_eq!(one("$ 5"), "");
    assert_eq!(one("+ 4"), "4");
    assert_eq!(one("i. _1"), "domain error: i. requires non-negative integer");
    assert_eq!(one("- i. 2 3"), "0 -1 -2\n-3 -4 -5");
    // three verbs before a noun form a fork: ($ w) - (i. w)
    assert_eq!(one("$ - i. 2 3"), "2 1 0\n-1 -2 -3");
    assert_eq!(one("$ (- i. 2 3)"), "2 3");
    assert_eq!(one("+/ i. 2 3"), "3 12");
    assert_eq!(one("< 3"), "domain error: < monad not implemented");
}

#[test]
fn dyad_agreement() {
    assert_eq!(one("(2 2 $ 1 2 3 4) + 1 2"), "2 3\n5 6");
    assert_eq!(one("1 2 + 1 2 3"), "length error: rank agreement: frame mismatch 2 vs 3");
    assert_eq!(one("3 = 1 2 3"), "0 0 1");
    assert_eq!(one("3 ~: 1 2 3"), "1 1 0");
    assert_eq!(one("2 <: 1 2 3"), "0 1 1");
    assert_eq!(one("2 >: 1 2 3"), "1 1 0");
    assert_eq!(one("_7 | 10"), "3");
    assert_eq!(one("5 $ 1 2"), "1 2 1 2 1");
    assert_eq!(one("1 i. 2"), "domain error: i. dyad not implemented");
}

#[test]
fn names_as_arguments() {
    let mut interp = Interpreter::new();
    assert_eq!(show(&mut interp, "x =: 3"), "(assigned)");
    assert_eq!(show(&mut interp, "y =: 4"), "(assigned)");
    assert_eq!(show(&mut interp, "x + y"), "7");
    assert_eq!(show(&mut interp, "x * y - 1"), "9");
    assert_eq!(show(&mut interp, "z + y"), "value error: undefined name: 'z'");
    assert_eq!(show(&mut interp, "total =: +/"), "(assigned)");
    assert_eq!(show(&mut interp, "total i. 4"), "6");
}

#[test]
fn zero_dimensions_keep_their_shape() {
    assert_eq!(one("$ i. 2 0"), "2 0");
    assert_eq!(one("# i. 0 3"), "0");
    assert_eq!(one("$ 2 0 $ 7"), "2 0");
    assert_eq!(one("$ 0 $ 7"), "0");
    assert_eq!(one("i. 0 3"), "");
}
