use rj::array::JArray;
use rj::error::{JError, JErrorKind, Span};
use rj::interp::Interpreter;
use rj::token::tokenize;
use rj::verbs::assemble_results;

#[test]
fn spans_merge() {
    let a = Span::new(4, 6, 2, 5);
    let b = Span::new(1, 3, 1, 2);
    assert_eq!(a.merge(&b), Span::new(1, 6, 1, 2));
    assert_eq!(a.merge(&b), b.merge(&a));
    assert_eq!(a.merge(&a), a);
}

#[test]
fn kind_names() {
    assert_eq!(JErrorKind::Domain.as_str(), "domain error");
    assert_eq!(JErrorKind::Rank.as_str(), "rank error");
    assert_eq!(JErrorKind::Length.as_str(), "length error");
    assert_eq!(JErrorKind::Index.as_str(), "index error");
    assert_eq!(JErrorKind::Value.as_str(), "value error");
    assert_eq!(JErrorKind::Syntax.as_str(), "syntax error");
}

#[test]
fn errors_render_under_their_line() {
    let e = tokenize("1 @", 0).err().unwrap();
    assert!(e.can_render());
    assert_eq!(e.render("1 @"), "line 1: 1 @\n          ~\nsyntax error: unexpected character: '@'\n");
    let e = JError::no_loc(JErrorKind::Domain, "divide by zero");
    assert_eq!(e.render("whatever"), "domain error: divide by zero\n");
    let e = JError::new(JErrorKind::Value, Some(Span::new(3, 6, 2, 2)), "undefined name: 'abc'");
    assert_eq!(e.render("x\r\n abc\n"), "line 2:  abc\n         ~~~\nvalue error: undefined name: 'abc'\n");
    let bad = JError::new(JErrorKind::Value, Some(Span::new(0, 1, 0, 1)), "m");
    assert!(!bad.can_render());
}

#[test]
fn column_zero_marks_left_of_the_line() {
    let e = JError::new(JErrorKind::Value, Some(Span::new(0, 2, 1, 0)), "m");
    assert!(e.can_render());
    assert_eq!(e.render("ab"), "line 1: ab\n       ~~\nvalue error: m\n");
}

#[test]
fn arrays() {
    let m = JArray::array_int(vec![2, 3], vec![1, 2, 3, 4, 5, 6]);
    assert_eq!(m.to_string(), "1 2 3\n4 5 6");
    assert_eq!(m.tally(), 2);
    assert_eq!(m.flat_index(&vec![1, 2]), 5);
    assert_eq!(m.multi_index(4), vec![1, 1]);
    assert!(!m.is_scalar());
    let s = JArray::scalar_int(-7);
    assert_eq!(s.to_string(), "-7");
    assert_eq!(s.tally(), 1);
    assert!(s.is_scalar());
    let v = JArray::vector_int(vec![]);
    assert_eq!(v.to_string(), "");
    assert_eq!(v.tally(), 0);
}

#[test]
fn names_bind_globally() {
    let mut interp = Interpreter::new();
    assert!(interp.lookup("k").is_none());
    interp.assign_global(String::from("k"), JArray::scalar_int(4));
    assert_eq!(interp.lookup("k").unwrap().to_string(), "4");
    interp.assign_global(String::from("k"), JArray::scalar_int(5));
    assert_eq!(interp.lookup("k").unwrap().to_string(), "5");
    assert_eq!(interp.thread.current_locale, "base");
}

#[test]
fn arrays_with_a_zero_dimension_hold_no_atoms() {
    let e = JArray::array_int(vec![2, 0], vec![]);
    assert_eq!(e.count, 0);
    assert_eq!(e.rank, 2);
    assert_eq!(e.shape, vec![2, 0]);
    assert_eq!(e.tally(), 2);
    assert_eq!(e.as_int().unwrap().len(), 0);
    assert!(!e.can_display());
    let f = JArray::array_int(vec![0, 3], vec![]);
    assert_eq!(f.count, 0);
    assert_eq!(f.tally(), 0);
    assert!(f.can_display());
    assert_eq!(f.to_string(), "");
}

#[test]
fn empty_results_assemble_into_a_zero_dimension() {
    let rs = vec![JArray::vector_int(vec![]), JArray::vector_int(vec![])];
    let r = match assemble_results(&rs, 2, vec![2]) {
        Ok(v) => v,
        Err(e) => panic!("{}", e.message),
    };
    assert_eq!(r.shape, vec![2, 0]);
    assert_eq!(r.rank, 2);
    assert_eq!(r.count, 0);
    assert_eq!(r.as_int().unwrap().len(), 0);
    let rs = vec![JArray::vector_int(vec![1, 2]), JArray::vector_int(vec![3, 4])];
    let r = match assemble_results(&rs, 2, vec![2]) {
        Ok(v) => v,
        Err(e) => panic!("{}", e.message),
    };
    assert_eq!(r.shape, vec![2, 2]);
    assert_eq!(r.count, 4);
    assert_eq!(r.to_string(), "1 2\n3 4");
}
