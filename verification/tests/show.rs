use dust::ast::{deq, var_expr, Deq, Expr, Term, Term1};
use dust::show::{prefix, write_path, Show};

fn of<'i>(t: Term<'i>) -> Expr<'i> {
    Expr::Term1(Term1::Term(t))
}

fn lit(digits: &str) -> Expr<'_> {
    of(Term::Integer(false, digits))
}

fn name(n: &str) -> Term1<'_> {
    Term1::Term(Term::Var(n, 0, None))
}

fn shown(e: &Expr) -> String {
    Show(e).text()
}

#[test]
fn shows_literals_and_names() {
    assert_eq!(shown(&lit("12")), "12");
    assert_eq!(shown(&of(Term::Integer(true, "3"))), "-3");
    assert_eq!(shown(&of(Term::Double("1.5"))), "1.5");
    assert_eq!(shown(&of(Term::Embed("raw"))), "raw");
    assert_eq!(shown(&var_expr("x")), "x");
    assert_eq!(shown(&of(Term::Var("x", 2, Some(1)))), "x");
    assert_eq!(Show(&Term::Var("y", 0, None)).text(), "y");
    assert_eq!(Show(&name("z")).text(), "z");
}

#[test]
fn shows_lambda_and_let() {
    let typed = Expr::Lambda("x", Some(Box::new(var_expr("T"))), Box::new(var_expr("x")));
    assert_eq!(shown(&typed), "\\(x : T) -> x\n");
    let plain = Expr::Lambda("x", None, Box::new(var_expr("x")));
    assert_eq!(shown(&plain), "\\(x) -> x\n");
    let mut defs = Deq::new();
    defs.push_back(("x", Some(Box::new(var_expr("T"))), Box::new(lit("1"))));
    defs.push_back(("y", None, Box::new(var_expr("x"))));
    let e = Expr::Let(defs, Box::new(var_expr("y")));
    assert_eq!(shown(&e), "let x: T = 1\nlet y = x\nin y");
}

#[test]
fn shows_the_forms_of_term1() {
    let arrow = Expr::Term1(Term1::Arrow(Some("a"), Box::new(var_expr("Type")), Box::new(var_expr("a"))));
    assert_eq!(shown(&arrow), "forall(a : Type) -> a");
    let plain = Expr::Term1(Term1::Arrow(None, Box::new(var_expr("A")), Box::new(var_expr("B"))));
    assert_eq!(shown(&plain), "A -> B");
    let call = Expr::Term1(Term1::Evaluation(Box::new(name("f")), Term::Integer(false, "1")));
    assert_eq!(shown(&call), "f 1");
    let sum = Expr::Term1(Term1::Operation(Box::new(name("a")), "++", Box::new(name("b"))));
    assert_eq!(shown(&sum), "a ++ b");
    let ascribed = Expr::Term1(Term1::Ascribe(Box::new(name("a")), Box::new(var_expr("T"))));
    assert_eq!(shown(&ascribed), "a : T");
    let mut path = Deq::new();
    path.push_back("a");
    path.push_back("b");
    let with = Expr::Term1(Term1::With(Box::new(name("r")), path, Box::new(name("v"))));
    assert_eq!(shown(&with), "r with a.b = v");
    let cond = Expr::Term1(Term1::IfThenElse(
        Box::new(var_expr("c")),
        Box::new(lit("1")),
        Box::new(lit("2")),
    ));
    assert_eq!(shown(&cond), "if c then 1 else 2");
    let built = Expr::Term1(Term1::Construct(Box::new(name("T")), deq((deq("a"), Box::new(lit("1"))))));
    assert_eq!(shown(&built), "T::{ , a = 1 }");
}

#[test]
fn shows_lists_with_a_separator_before_each_entry() {
    let mut ab = Deq::new();
    ab.push_back("b");
    ab.push_back("c");
    let mut fields = Deq::new();
    fields.push_back((deq("a"), Box::new(lit("1"))));
    fields.push_back((ab, Box::new(lit("2"))));
    assert_eq!(shown(&of(Term::Record(fields.clone()))), "{ , a = 1 , b.c = 2 }");
    assert_eq!(shown(&of(Term::TypeRecord(fields))), "{ , a : 1 , b.c : 2 }");
    assert_eq!(shown(&of(Term::Record(Deq::new()))), "{ }");
    let mut items = Deq::new();
    items.push_back(Box::new(lit("1")));
    items.push_back(Box::new(lit("2")));
    assert_eq!(shown(&of(Term::List(items))), "[ , 1 , 2 ]");
    let mut alts = Deq::new();
    alts.push_back(("A", Some(Box::new(var_expr("T")))));
    alts.push_back(("B", None));
    assert_eq!(shown(&of(Term::TypeEnum(alts))), "< | A: T | B >");
}

#[test]
fn shows_the_forms_of_term() {
    let access = of(Term::FieldAccess(Box::new(Term::Var("r", 0, None)), "a"));
    assert_eq!(shown(&access), "r.a");
    let mut names = Deq::new();
    names.push_back("a");
    names.push_back("b");
    let keep = of(Term::Project(1, Box::new(Term::Var("r", 0, None)), names.clone()));
    assert_eq!(shown(&keep), "r.{ , a , b }");
    let select = of(Term::Project(2, Box::new(Term::Var("r", 0, None)), names));
    assert_eq!(shown(&select), "r.( , a , b )");
    let wrapped = of(Term::Expr(Box::new(lit("1"))));
    assert_eq!(shown(&wrapped), "(1)");
    let merge = of(Term::Merge(
        deq((deq("A"), Box::new(var_expr("h")))),
        Box::new(Term::Var("u", 0, None)),
    ));
    assert_eq!(shown(&merge), "merge { , A = h } u");
    let mut terms = Deq::new();
    terms.push_back(Box::new(Term::Var("a", 0, None)));
    terms.push_back(Box::new(Term::Var("b", 0, None)));
    assert_eq!(shown(&of(Term::Path(terms))), "a.b");
}

#[test]
fn shows_text_with_what_is_interpolated() {
    let mut entries = Deq::new();
    entries.push_back(("a", Some(Box::new(var_expr("x")))));
    entries.push_back(("", Some(Box::new(var_expr("y")))));
    entries.push_back(("b", None));
    assert_eq!(shown(&of(Term::Text(1, entries.clone()))), "\"a${ x }${ y }b\"");
    assert_eq!(shown(&of(Term::Text(2, entries))), "''a${ x }${ y }b''");
}

#[test]
fn shows_imports_with_their_parts() {
    let bare = of(Term::Import { path: "./a", guard: None, as_: None, fall: None });
    assert_eq!(shown(&bare), "./a");
    let full = of(Term::Import {
        path: "./a",
        guard: Some("sha256:00"),
        as_: Some("Text"),
        fall: Some(("./b", Some("sha256:11"))),
    });
    assert_eq!(shown(&full), "./a sha256:00 as Text ? ./b sha256:11");
    let fallback = of(Term::Import { path: "./a", guard: None, as_: None, fall: Some(("./b", None)) });
    assert_eq!(shown(&fallback), "./a ? ./b");
}

#[test]
fn writes_onto_what_is_there() {
    let mut out = String::from("path: ");
    let mut p = Deq::new();
    p.push_back("a");
    p.push_back("b");
    p.push_back("c");
    write_path(&mut out, &p);
    assert_eq!(out, "path: a.b.c");
    let mut empty = String::new();
    write_path(&mut empty, &Deq::new());
    assert_eq!(empty, "");
}

#[test]
fn prefix_counts_characters() {
    assert_eq!(prefix("λ(x) → x", 0), "");
    assert_eq!(prefix("λ(x) → x", 1), "λ");
    assert_eq!(prefix("λ(x) → x", 6), "λ(x) →");
    assert_eq!(prefix("λ(x) → x", 8), "λ(x) → x");
    assert_eq!(prefix("λ(x) → x", 20), "λ(x) → x");
    assert_eq!(prefix("", 3), "");
}
