use dust::a_subst::ASubstitution;
use dust::ast::{copy_expr, copy_path, deq, utf8len, var_expr, Deq, Expr, Term, Term1};
use dust::is_list::IsList;
use dust::text::str_eq;

fn of<'i>(t: Term<'i>) -> Expr<'i> {
    Expr::Term1(Term1::Term(t))
}

fn at(name: &str, distance: u16) -> Expr<'_> {
    of(Term::Var(name, distance, Some(3)))
}

#[test]
fn deq_holds_the_one_item() {
    let d = deq(7u8);
    assert_eq!(d.len(), 1);
    assert_eq!(d[0], 7);
}

#[test]
fn utf8len_is_the_width_of_the_encoding() {
    assert_eq!(utf8len('a'), 1);
    assert_eq!(utf8len('\u{7f}'), 1);
    assert_eq!(utf8len('\u{80}'), 2);
    assert_eq!(utf8len('λ'), 2);
    assert_eq!(utf8len('\u{7ff}'), 2);
    assert_eq!(utf8len('\u{800}'), 3);
    assert_eq!(utf8len('→'), 3);
    assert_eq!(utf8len('\u{ffff}'), 3);
    assert_eq!(utf8len('\u{10000}'), 4);
    assert_eq!(utf8len('😀'), 4);
    for c in ['a', 'λ', '→', '😀', '\u{10ffff}'] {
        assert_eq!(utf8len(c), c.len_utf8());
    }
}

#[test]
fn var_expr_is_a_fresh_reference() {
    assert_eq!(var_expr("x"), of(Term::Var("x", 0, None)));
}

#[test]
fn str_eq_compares_character_for_character() {
    assert!(str_eq("", ""));
    assert!(str_eq("λx", "λx"));
    assert!(!str_eq("abc", "abd"));
    assert!(!str_eq("abc", "ab"));
    assert!(!str_eq("", "a"));
}

#[test]
fn copies_are_equal_to_what_was_copied() {
    let mut fields = Deq::new();
    fields.push_back((deq("a"), Box::new(var_expr("x"))));
    let mut entries = Deq::new();
    entries.push_back(("t", Some(Box::new(var_expr("y")))));
    entries.push_back(("u", None));
    let mut items = Deq::new();
    items.push_back(Box::new(of(Term::Text(2, entries.clone()))));
    items.push_back(Box::new(of(Term::TypeEnum(entries))));
    items.push_back(Box::new(of(Term::Merge(fields.clone(), Box::new(Term::Embed("e"))))));
    items.push_back(Box::new(of(Term::Path(deq(Box::new(Term::Double("1.0")))))));
    items.push_back(Box::new(of(Term::Import {
        path: "p",
        guard: Some("g"),
        as_: Some("Text"),
        fall: Some(("f", Some("h"))),
    })));
    let t1 = Term1::Construct(
        Box::new(Term1::With(
            Box::new(Term1::Term(Term::Record(fields.clone()))),
            deq("a"),
            Box::new(Term1::Operation(
                Box::new(Term1::Term(Term::Integer(true, "1"))),
                "+",
                Box::new(Term1::Ascribe(
                    Box::new(Term1::Term(Term::List(items))),
                    Box::new(var_expr("T")),
                )),
            )),
        )),
        fields,
    );
    let body = Expr::Term1(Term1::IfThenElse(
        Box::new(Expr::Term1(Term1::Arrow(Some("a"), Box::new(var_expr("A")), Box::new(var_expr("a"))))),
        Box::new(Expr::Term1(t1)),
        Box::new(Expr::Term1(Term1::Evaluation(
            Box::new(Term1::Term(Term::Project(1, Box::new(Term::Var("r", 2, Some(1))), deq("a")))),
            Term::FieldAccess(Box::new(Term::TypeRecord(Deq::new())), "f"),
        ))),
    ));
    let e = Expr::Let(
        deq(("x", Some(Box::new(var_expr("T"))), Box::new(var_expr("v")))),
        Box::new(Expr::Lambda("y", Some(Box::new(var_expr("U"))), Box::new(body))),
    );
    assert_eq!(copy_expr(&e), e);
    assert_eq!(e.clone(), e);
    let mut p = Deq::new();
    p.push_back("a");
    p.push_back("b");
    assert_eq!(copy_path(&p), p);
}

#[test]
fn commit_moves_the_references_one_step_out() {
    let mut e = Expr::Lambda(
        "y",
        Some(Box::new(at("x", 0))),
        Box::new(Expr::Term1(Term1::Evaluation(
            Box::new(Term1::Term(Term::Var("x", 4, None))),
            Term::Var("y", 0, None),
        ))),
    );
    e.commit_name("x");
    let expected = Expr::Lambda(
        "y",
        Some(Box::new(at("x", 1))),
        Box::new(Expr::Term1(Term1::Evaluation(
            Box::new(Term1::Term(Term::Var("x", 5, None))),
            Term::Var("y", 0, None),
        ))),
    );
    assert_eq!(e, expected);
}

#[test]
fn free_moves_the_references_one_step_in_and_stops_at_zero() {
    let mut items = Deq::new();
    items.push_back(Box::new(at("x", 2)));
    items.push_back(Box::new(at("x", 0)));
    items.push_back(Box::new(at("z", 2)));
    let mut e = of(Term::List(items));
    e.free_name("x");
    let mut expected = Deq::new();
    expected.push_back(Box::new(at("x", 1)));
    expected.push_back(Box::new(at("x", 0)));
    expected.push_back(Box::new(at("z", 2)));
    assert_eq!(e, of(Term::List(expected)));
}

#[test]
fn commit_then_free_gives_back_the_expression() {
    let mut zero = at("x", 0);
    zero.commit_name("x");
    zero.free_name("x");
    assert_eq!(zero, at("x", 0));
    let make = || {
        let mut defs = Deq::new();
        defs.push_back(("a", Some(Box::new(at("x", 1))), Box::new(at("x", 0))));
        Expr::Let(defs, Box::new(at("x", 7)))
    };
    let mut e = make();
    e.commit_or_free_name("x", true);
    e.commit_or_free_name("x", false);
    assert_eq!(e, make());
}

#[test]
fn shift_reaches_options_and_boxes_and_leaves_paths_alone() {
    let mut some = Some(Box::new(Term::Var("x", 0, None)));
    some.commit_name("x");
    assert_eq!(some, Some(Box::new(Term::Var("x", 1, None))));
    let mut none: Option<Term1> = None;
    none.commit_name("x");
    assert_eq!(none, None);
    let mut path = Term::Path(deq(Box::new(Term::Var("x", 0, None))));
    path.commit_name("x");
    assert_eq!(path, Term::Path(deq(Box::new(Term::Var("x", 0, None)))));
    let mut t1 = Term1::Term(Term::FieldAccess(Box::new(Term::Var("x", 0, None)), "f"));
    t1.commit_name("x");
    assert_eq!(t1, Term1::Term(Term::FieldAccess(Box::new(Term::Var("x", 1, None)), "f")));
}

#[test]
fn list_is_told_from_the_rest_and_changed_in_place() {
    let mut e = of(Term::List(deq(Box::new(var_expr("a")))));
    assert!(e.is_list());
    e.get_list_mut().push_back(Box::new(var_expr("b")));
    let mut expected = Deq::new();
    expected.push_back(Box::new(var_expr("a")));
    expected.push_back(Box::new(var_expr("b")));
    assert_eq!(e, of(Term::List(expected)));
    assert!(!var_expr("a").is_list());
    assert!(!Term1::Term(Term::Record(Deq::new())).is_list());
    assert!(!Expr::Lambda("x", None, Box::new(var_expr("x"))).is_list());
    let mut boxed = Box::new(Term::List(Deq::new()));
    assert!(boxed.is_list());
    assert_eq!(boxed.get_list_mut().len(), 0);
}
