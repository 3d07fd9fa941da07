use dust::ast::{copy_expr, deq, Deq, Expr, Term, Term1};
use dust::context::{ctx, Context};
use dust::error::{Error, NodeKind};
use dust::eval::{eval, eval_expr, in_place_term, in_place_term1, Eval};

fn num(digits: &str) -> Term<'_> {
    Term::Integer(false, digits)
}

fn var(name: &str) -> Term<'_> {
    Term::Var(name, 0, None)
}

fn seen(name: &str, scope: usize) -> Term<'_> {
    Term::Var(name, 0, Some(scope))
}

fn of<'i>(t: Term<'i>) -> Expr<'i> {
    Expr::Term1(Term1::Term(t))
}

fn lambda<'i>(name: &'i str, body: Expr<'i>) -> Expr<'i> {
    Expr::Lambda(name, None, Box::new(body))
}

fn paren<'i>(e: Expr<'i>) -> Term<'i> {
    Term::Expr(Box::new(e))
}

fn call<'i>(f: Term1<'i>, x: Term<'i>) -> Term1<'i> {
    Term1::Evaluation(Box::new(f), x)
}

fn field<'i>(name: &'i str, value: Expr<'i>) -> (Deq<&'i str>, Box<Expr<'i>>) {
    (deq(name), Box::new(value))
}

fn record<'i>(fields: Vec<(Deq<&'i str>, Box<Expr<'i>>)>) -> Term<'i> {
    Term::Record(fields.into_iter().collect())
}

fn let_in<'i>(name: &'i str, value: Expr<'i>, body: Expr<'i>) -> Expr<'i> {
    Expr::Let(deq((name, None, Box::new(value))), Box::new(body))
}

fn normal<'i>(mut e: Expr<'i>) -> Result<Expr<'i>, Error> {
    let mut c = ctx();
    eval(&mut c, &mut e)?;
    Ok(e)
}

#[test]
fn identity_applied_to_a_literal() {
    let e = Expr::Term1(call(Term1::Term(paren(lambda("x", of(var("x"))))), num("5")));
    assert_eq!(normal(e), Ok(of(num("5"))));
}

#[test]
fn constant_function_keeps_its_first_argument() {
    let k = lambda("x", lambda("y", of(var("x"))));
    let e = Expr::Term1(call(call(Term1::Term(paren(k)), num("1")), num("2")));
    assert_eq!(normal(e), Ok(of(num("1"))));
}

#[test]
fn inner_binder_wins_at_distance_zero() {
    let e = lambda("x", lambda("x", of(var("x"))));
    assert_eq!(normal(e), Ok(lambda("x", lambda("x", of(seen("x", 2))))));
}

#[test]
fn substituted_reference_keeps_its_outer_binder() {
    let inner = Term1::Term(paren(lambda("x", of(var("x")))));
    let e = lambda("x", Expr::Term1(call(inner, var("x"))));
    assert_eq!(normal(e), Ok(lambda("x", of(seen("x", 1)))));
}

#[test]
fn field_access_picks_the_field() {
    let r = record(vec![field("a", of(num("1"))), field("b", of(num("2")))]);
    let e = of(Term::FieldAccess(Box::new(r), "a"));
    assert_eq!(normal(e), Ok(of(num("1"))));
}

#[test]
fn projection_keeps_the_named_fields() {
    let r = record(vec![field("a", of(num("1"))), field("b", of(num("2")))]);
    let e = of(Term::Project(1, Box::new(r), deq("a")));
    assert_eq!(normal(e), Ok(of(record(vec![field("a", of(num("1")))]))));
}

#[test]
fn nested_lets_reduce_to_the_value_and_close_their_scopes() {
    let mut e = let_in("x", of(num("1")), let_in("y", of(var("x")), of(var("y"))));
    let mut c = Context::new();
    let before = c.sym_table().next_scope_id();
    assert_eq!(e.eval(&mut c), Ok(()));
    assert_eq!(e, of(num("1")));
    assert_eq!(c.sym_table().next_scope_id(), before);
}

#[test]
fn merge_applies_the_handler_of_the_tag() {
    let mut alts = Deq::new();
    alts.push_back(("Left", Some(Box::new(of(var("Natural"))))));
    alts.push_back(("Right", Some(Box::new(of(var("Bool"))))));
    let tagged = call(
        Term1::Term(Term::FieldAccess(Box::new(Term::TypeEnum(alts)), "Left")),
        num("7"),
    );
    let mut handlers = Deq::new();
    handlers.push_back(field("Left", lambda("n", of(var("n")))));
    handlers.push_back(field("Right", lambda("b", of(num("0")))));
    let e = of(Term::Merge(handlers, Box::new(paren(Expr::Term1(tagged)))));
    assert_eq!(normal(e), Ok(of(num("7"))));
}

#[test]
fn field_access_on_a_parameter_stays() {
    let e = lambda("x", of(Term::FieldAccess(Box::new(var("x")), "a")));
    let expected = lambda("x", of(Term::FieldAccess(Box::new(seen("x", 1)), "a")));
    assert_eq!(normal(e), Ok(expected));
}

#[test]
fn unknown_name_is_reported() {
    assert_eq!(normal(of(var("nowhere"))), Err(Error::NotFound));
}

#[test]
fn construct_has_no_rule() {
    let e = Expr::Term1(Term1::Construct(Box::new(Term1::Term(num("1"))), Deq::new()));
    assert_eq!(normal(e), Err(Error::Unsupported(NodeKind::Construct)));
}

#[test]
fn self_application_runs_out_of_depth() {
    let omega = || paren(lambda("x", Expr::Term1(call(Term1::Term(var("x")), var("x")))));
    let e = Expr::Term1(call(Term1::Term(omega()), omega()));
    let mut c = ctx();
    assert_eq!(eval_expr(&mut c, e, 40), Err(Error::DepthLimit));
}

fn with_scope<'i>(c: &mut Context<'i>, name: &'i str, value: Option<Expr<'i>>) {
    c.push_binding(name, None, value);
}

#[test]
fn literals_are_normal() {
    assert_eq!(normal(of(num("12"))), Ok(of(num("12"))));
    assert_eq!(normal(of(Term::Integer(true, "3"))), Ok(of(Term::Integer(true, "3"))));
    assert_eq!(normal(of(Term::Double("1.5"))), Ok(of(Term::Double("1.5"))));
    assert_eq!(normal(of(Term::Embed("raw"))), Ok(of(Term::Embed("raw"))));
    let import = || Term::Import { path: "./a.dhall", guard: None, as_: None, fall: None };
    assert_eq!(normal(of(import())), Ok(of(import())));
    let path = || Term::Path(deq(Box::new(var("nowhere"))));
    assert_eq!(normal(of(path())), Ok(of(path())));
}

#[test]
fn builtin_stays_and_notes_its_scope() {
    assert_eq!(normal(of(var("Natural"))), Ok(of(seen("Natural", 0))));
}

#[test]
fn reference_is_replaced_by_a_copy_of_its_value() {
    let mut c = ctx();
    with_scope(&mut c, "x", Some(of(num("8"))));
    let mut e = of(var("x"));
    assert_eq!(eval(&mut c, &mut e), Ok(()));
    assert_eq!(e, of(num("8")));
    assert_eq!(c.sym_table().copy_value("x", 0), Ok(of(num("8"))));
}

#[test]
fn reference_at_a_distance_passes_the_inner_binder() {
    let mut c = ctx();
    with_scope(&mut c, "x", Some(of(num("1"))));
    with_scope(&mut c, "x", Some(of(num("2"))));
    let mut near = of(Term::Var("x", 0, None));
    let mut far = of(Term::Var("x", 1, None));
    assert_eq!(near.eval(&mut c), Ok(()));
    assert_eq!(far.eval(&mut c), Ok(()));
    assert_eq!(near, of(num("2")));
    assert_eq!(far, of(num("1")));
}

#[test]
fn wrapped_expression_is_unwrapped() {
    assert_eq!(normal(of(paren(of(num("3"))))), Ok(of(num("3"))));
    let l = || lambda("x", of(num("3")));
    assert_eq!(normal(of(paren(l()))), Ok(l()));
}

#[test]
fn list_items_are_reduced_in_place() {
    let mut items = Deq::new();
    items.push_back(Box::new(let_in("x", of(num("1")), of(var("x")))));
    items.push_back(Box::new(of(var("Bool"))));
    let mut expected = Deq::new();
    expected.push_back(Box::new(of(num("1"))));
    expected.push_back(Box::new(of(seen("Bool", 0))));
    assert_eq!(normal(of(Term::List(items))), Ok(of(Term::List(expected))));
}

#[test]
fn record_values_are_reduced_in_place() {
    let r = record(vec![field("a", let_in("x", of(num("1")), of(var("x"))))]);
    assert_eq!(normal(of(r)), Ok(of(record(vec![field("a", of(num("1")))]))));
    let t = Term::TypeRecord(deq(field("a", of(var("Natural")))));
    let expected = Term::TypeRecord(deq(field("a", of(seen("Natural", 0)))));
    assert_eq!(normal(of(t)), Ok(of(expected)));
}

#[test]
fn union_type_payloads_are_reduced() {
    let mut alts = Deq::new();
    alts.push_back(("A", Some(Box::new(of(var("Natural"))))));
    alts.push_back(("B", None));
    let mut expected = Deq::new();
    expected.push_back(("A", Some(Box::new(of(seen("Natural", 0))))));
    expected.push_back(("B", None));
    assert_eq!(normal(of(Term::TypeEnum(alts))), Ok(of(Term::TypeEnum(expected))));
}

#[test]
fn text_reduces_what_is_interpolated() {
    let mut entries = Deq::new();
    entries.push_back(("a ", Some(Box::new(let_in("x", of(num("1")), of(var("x")))))));
    entries.push_back((" b", None));
    let mut expected = Deq::new();
    expected.push_back(("a ", Some(Box::new(of(num("1"))))));
    expected.push_back((" b", None));
    assert_eq!(normal(of(Term::Text(1, entries))), Ok(of(Term::Text(1, expected))));
}

#[test]
fn lambda_reduces_type_and_body() {
    let e = Expr::Lambda(
        "x",
        Some(Box::new(of(var("Natural")))),
        Box::new(let_in("y", of(var("x")), of(var("y")))),
    );
    let expected = Expr::Lambda(
        "x",
        Some(Box::new(of(seen("Natural", 0)))),
        Box::new(of(seen("x", 1))),
    );
    assert_eq!(normal(e), Ok(expected));
}

#[test]
fn arrow_binds_its_name_in_the_codomain_only() {
    let e = Expr::Term1(Term1::Arrow(
        Some("a"),
        Box::new(of(var("Type"))),
        Box::new(of(var("a"))),
    ));
    let expected = Expr::Term1(Term1::Arrow(
        Some("a"),
        Box::new(of(seen("Type", 0))),
        Box::new(of(seen("a", 1))),
    ));
    assert_eq!(normal(e), Ok(expected));
    let unbound = Expr::Term1(Term1::Arrow(
        Some("a"),
        Box::new(of(var("a"))),
        Box::new(of(var("Type"))),
    ));
    assert_eq!(normal(unbound), Err(Error::NotFound));
    let nameless = Expr::Term1(Term1::Arrow(
        None,
        Box::new(of(var("Natural"))),
        Box::new(of(var("Bool"))),
    ));
    let expected = Expr::Term1(Term1::Arrow(
        None,
        Box::new(of(seen("Natural", 0))),
        Box::new(of(seen("Bool", 0))),
    ));
    assert_eq!(normal(nameless), Ok(expected));
}

#[test]
fn ascription_reduces_to_the_term() {
    let e = Expr::Term1(Term1::Ascribe(
        Box::new(Term1::Term(num("1"))),
        Box::new(of(var("Natural"))),
    ));
    assert_eq!(normal(e), Ok(of(num("1"))));
    let bad = Expr::Term1(Term1::Ascribe(
        Box::new(Term1::Term(num("1"))),
        Box::new(of(var("nowhere"))),
    ));
    assert_eq!(normal(bad), Err(Error::NotFound));
}

#[test]
fn operation_reduces_its_operands_and_stays() {
    let e = Expr::Term1(Term1::Operation(
        Box::new(Term1::Term(paren(let_in("x", of(num("1")), of(var("x")))))),
        "+",
        Box::new(Term1::Term(num("2"))),
    ));
    let expected = Expr::Term1(Term1::Operation(
        Box::new(Term1::Term(num("1"))),
        "+",
        Box::new(Term1::Term(num("2"))),
    ));
    assert_eq!(normal(e), Ok(expected));
}

fn with<'i>(base: Term<'i>, path: &[&'i str], value: Term<'i>) -> Expr<'i> {
    Expr::Term1(Term1::With(
        Box::new(Term1::Term(base)),
        path.iter().copied().collect(),
        Box::new(Term1::Term(value)),
    ))
}

fn dotted<'i>(path: &[&'i str], value: Expr<'i>) -> (Deq<&'i str>, Box<Expr<'i>>) {
    (path.iter().copied().collect(), Box::new(value))
}

#[test]
fn update_puts_the_value_in_place_of_the_field() {
    let base = paren(of(record(vec![field("a", of(num("1"))), field("b", of(num("2")))])));
    let e = with(base, &["a"], paren(of(num("3"))));
    let expected = record(vec![field("b", of(num("2"))), field("a", of(num("3")))]);
    assert_eq!(normal(e), Ok(of(expected)));
}

#[test]
fn update_adds_a_field_that_is_missing() {
    let e = with(record(vec![field("a", of(num("1")))]), &["b"], num("2"));
    let expected = record(vec![field("a", of(num("1"))), field("b", of(num("2")))]);
    assert_eq!(normal(e), Ok(of(expected)));
}

#[test]
fn update_makes_the_records_on_the_way() {
    let e = with(record(vec![field("x", of(num("1")))]), &["a", "b", "c"], num("2"));
    let expected = record(vec![field("x", of(num("1"))), dotted(&["a", "b", "c"], of(num("2")))]);
    assert_eq!(normal(e.clone()), Ok(of(expected)));
    let read = of(Term::FieldAccess(
        Box::new(Term::FieldAccess(
            Box::new(Term::FieldAccess(Box::new(paren(e)), "a")),
            "b",
        )),
        "c",
    ));
    assert_eq!(normal(read), Ok(of(num("2"))));
}

#[test]
fn update_goes_into_a_record_that_is_there() {
    let inner = record(vec![field("b", of(num("1"))), field("c", of(num("2")))]);
    let base = record(vec![field("a", of(inner)), dotted(&["a", "d"], of(num("3"))), field("z", of(num("9")))]);
    let e = with(base, &["a", "b"], num("7"));
    let expected = record(vec![
        field("z", of(num("9"))),
        dotted(&["a", "c"], of(num("2"))),
        dotted(&["a", "d"], of(num("3"))),
        dotted(&["a", "b"], of(num("7"))),
    ]);
    assert_eq!(normal(e), Ok(of(expected)));
}

#[test]
fn update_replaces_what_lies_under_the_path() {
    let base = record(vec![dotted(&["a", "b"], of(num("1"))), dotted(&["a", "c"], of(num("2")))]);
    let e = with(base, &["a"], num("7"));
    assert_eq!(normal(e), Ok(of(record(vec![field("a", of(num("7")))]))));
}

#[test]
fn update_through_a_field_that_is_no_record_has_no_rule() {
    let e = with(record(vec![field("a", of(num("1")))]), &["a", "b"], num("2"));
    assert_eq!(normal(e), Err(Error::Unsupported(NodeKind::With)));
    let empty = with(record(vec![]), &[], num("2"));
    assert_eq!(normal(empty), Err(Error::Unsupported(NodeKind::With)));
}

#[test]
fn update_of_a_parameter_stays_and_of_a_literal_has_no_rule() {
    let e = lambda("r", with(var("r"), &["a"], paren(of(num("2")))));
    let expected = lambda("r", with(seen("r", 1), &["a"], num("2")));
    assert_eq!(normal(e), Ok(expected));
    let bad = with(num("1"), &["a"], num("2"));
    assert_eq!(normal(bad), Err(Error::Unsupported(NodeKind::Integer)));
}

#[test]
fn conditional_picks_the_branch_of_a_known_condition() {
    let cond = |c: &'static str| {
        Expr::Term1(Term1::IfThenElse(
            Box::new(of(var(c))),
            Box::new(of(num("1"))),
            Box::new(of(num("2"))),
        ))
    };
    assert_eq!(normal(cond("True")), Ok(of(num("1"))));
    assert_eq!(normal(cond("False")), Ok(of(num("2"))));
}

#[test]
fn conditional_on_a_parameter_stays_with_reduced_branches() {
    let e = lambda(
        "b",
        Expr::Term1(Term1::IfThenElse(
            Box::new(of(var("b"))),
            Box::new(let_in("x", of(num("1")), of(var("x")))),
            Box::new(of(num("2"))),
        )),
    );
    let expected = lambda(
        "b",
        Expr::Term1(Term1::IfThenElse(
            Box::new(of(seen("b", 1))),
            Box::new(of(num("1"))),
            Box::new(of(num("2"))),
        )),
    );
    assert_eq!(normal(e), Ok(expected));
}

#[test]
fn conditional_on_a_literal_has_no_rule() {
    let e = Expr::Term1(Term1::IfThenElse(
        Box::new(of(num("0"))),
        Box::new(of(num("1"))),
        Box::new(of(num("2"))),
    ));
    assert_eq!(normal(e), Err(Error::Unsupported(NodeKind::Integer)));
    let l = Expr::Term1(Term1::IfThenElse(
        Box::new(lambda("x", of(num("0")))),
        Box::new(of(num("1"))),
        Box::new(of(num("2"))),
    ));
    assert_eq!(normal(l), Err(Error::Unsupported(NodeKind::Lambda)));
    let r = Expr::Term1(Term1::IfThenElse(
        Box::new(of(record(vec![]))),
        Box::new(of(num("1"))),
        Box::new(of(num("2"))),
    ));
    assert_eq!(normal(r), Err(Error::Unsupported(NodeKind::IfThenElse)));
}

#[test]
fn application_of_a_parameter_stays() {
    let e = lambda("f", Expr::Term1(call(Term1::Term(var("f")), num("1"))));
    let expected = lambda("f", Expr::Term1(call(Term1::Term(seen("f", 1)), num("1"))));
    assert_eq!(normal(e), Ok(expected));
}

#[test]
fn application_of_a_literal_has_no_rule() {
    let e = Expr::Term1(call(Term1::Term(num("1")), num("2")));
    assert_eq!(normal(e), Err(Error::Unsupported(NodeKind::Integer)));
    let r = Expr::Term1(call(Term1::Term(record(vec![])), num("2")));
    assert_eq!(normal(r), Err(Error::Unsupported(NodeKind::Evaluation)));
}

#[test]
fn fresh_reference_to_the_parameters_name_is_not_bound() {
    let mut c = ctx();
    with_scope(&mut c, "x", None);
    let f = Term1::Term(paren(lambda("x", of(var("x")))));
    let got = dust::eval::apply(&mut c, f, var("x"), 10);
    assert_eq!(got, Ok(of(seen("x", 1))));
}

#[test]
fn field_access_follows_dotted_paths() {
    let mut ab = Deq::new();
    ab.push_back("a");
    ab.push_back("b");
    let mut ac = Deq::new();
    ac.push_back("a");
    ac.push_back("c");
    let r = record(vec![(ab, Box::new(of(num("1")))), (ac, Box::new(of(num("2")))), field("d", of(num("3")))]);
    let e = of(Term::FieldAccess(Box::new(r), "a"));
    let expected = record(vec![field("b", of(num("1"))), field("c", of(num("2")))]);
    assert_eq!(normal(e), Ok(of(expected)));
}

#[test]
fn field_access_joins_a_record_value_with_its_deeper_siblings() {
    let mut ac = Deq::new();
    ac.push_back("a");
    ac.push_back("c");
    let inner = record(vec![field("b", of(num("1")))]);
    let r = record(vec![field("a", of(inner)), (ac, Box::new(of(num("2"))))]);
    let e = of(Term::FieldAccess(Box::new(r), "a"));
    let expected = record(vec![field("b", of(num("1"))), field("c", of(num("2")))]);
    assert_eq!(normal(e), Ok(of(expected)));
}

#[test]
fn field_access_cannot_join_a_plain_value_with_siblings() {
    let mut ac = Deq::new();
    ac.push_back("a");
    ac.push_back("c");
    let r = record(vec![field("a", of(num("1"))), (ac, Box::new(of(num("2"))))]);
    let e = of(Term::FieldAccess(Box::new(r), "a"));
    assert_eq!(normal(e), Err(Error::Unsupported(NodeKind::FieldAccess)));
}

#[test]
fn field_access_with_two_or_no_matches_gives_the_filtered_record() {
    let twice = record(vec![field("a", of(num("1"))), field("a", of(num("2")))]);
    let e = of(Term::FieldAccess(Box::new(twice), "a"));
    let mut expected = Deq::new();
    expected.push_back((Deq::new(), Box::new(of(num("1")))));
    expected.push_back((Deq::new(), Box::new(of(num("2")))));
    assert_eq!(normal(e), Ok(of(Term::Record(expected))));
    let none = record(vec![field("b", of(num("1")))]);
    let e = of(Term::FieldAccess(Box::new(none), "a"));
    assert_eq!(normal(e), Ok(of(record(vec![]))));
}

#[test]
fn field_access_into_a_union_type_stays() {
    let mut alts = Deq::new();
    alts.push_back(("A", None));
    let e = of(Term::FieldAccess(Box::new(Term::TypeEnum(alts.clone())), "A"));
    let expected = of(Term::FieldAccess(Box::new(Term::TypeEnum(alts)), "A"));
    assert_eq!(normal(e), Ok(expected));
}

#[test]
fn field_access_on_a_literal_has_no_rule() {
    let e = of(Term::FieldAccess(Box::new(num("1")), "a"));
    assert_eq!(normal(e), Err(Error::Unsupported(NodeKind::Integer)));
}

#[test]
fn projection_of_either_style_filters_and_a_parameter_stays() {
    let r = || record(vec![field("a", of(num("1"))), field("b", of(num("2"))), field("c", of(num("3")))]);
    let mut names = Deq::new();
    names.push_back("c");
    names.push_back("a");
    let e = of(Term::Project(2, Box::new(r()), names));
    let expected = record(vec![field("a", of(num("1"))), field("c", of(num("3")))]);
    assert_eq!(normal(e), Ok(of(expected)));
    let stuck = lambda("x", of(Term::Project(1, Box::new(var("x")), deq("a"))));
    let expected = lambda("x", of(Term::Project(1, Box::new(seen("x", 1)), deq("a"))));
    assert_eq!(normal(stuck), Ok(expected));
    let bad = of(Term::Project(1, Box::new(num("1")), deq("a")));
    assert_eq!(normal(bad), Err(Error::Unsupported(NodeKind::Integer)));
}

fn tagged<'i>(tag: &'i str, payload: Term<'i>) -> Term<'i> {
    let mut alts = Deq::new();
    alts.push_back(("Left", None));
    alts.push_back(("Right", None));
    paren(Expr::Term1(call(
        Term1::Term(Term::FieldAccess(Box::new(Term::TypeEnum(alts)), tag)),
        payload,
    )))
}

fn handlers<'i>() -> Deq<(Deq<&'i str>, Box<Expr<'i>>)> {
    let mut table = Deq::new();
    table.push_back(field("Left", lambda("n", of(var("n")))));
    table.push_back(field("Right", lambda("b", of(num("0")))));
    table
}

#[test]
fn merge_takes_the_first_handler_of_the_tag() {
    let mut table = handlers();
    table.push_back(field("Right", lambda("b", of(num("1")))));
    let e = of(Term::Merge(table, Box::new(tagged("Right", num("7")))));
    assert_eq!(normal(e), Ok(of(num("0"))));
}

#[test]
fn merge_without_a_handler_for_the_tag_fails() {
    let e = of(Term::Merge(handlers(), Box::new(tagged("Middle", num("7")))));
    assert_eq!(normal(e), Err(Error::FieldNotFound));
}

#[test]
fn merge_reduces_the_handlers_before_the_match() {
    let mut table = Deq::new();
    table.push_back(field("Left", of(var("nowhere"))));
    table.push_back(field("Right", lambda("b", of(num("0")))));
    let e = of(Term::Merge(table, Box::new(tagged("Right", num("7")))));
    assert_eq!(normal(e), Err(Error::NotFound));
}

#[test]
fn merge_with_a_handler_that_is_no_lambda_has_no_rule() {
    let mut table = Deq::new();
    table.push_back(field("Left", of(num("1"))));
    let e = of(Term::Merge(table, Box::new(tagged("Left", num("7")))));
    assert_eq!(normal(e), Err(Error::Unsupported(NodeKind::Merge)));
}

#[test]
fn merge_on_a_malformed_scrutinee_fails() {
    let r = of(Term::Merge(handlers(), Box::new(record(vec![]))));
    assert_eq!(normal(r), Err(Error::MalformedMerge));
    let not_union = paren(Expr::Term1(call(
        Term1::Term(Term::FieldAccess(Box::new(var("Natural")), "Left")),
        num("7"),
    )));
    let e = of(Term::Merge(handlers(), Box::new(not_union)));
    assert_eq!(normal(e), Err(Error::MalformedMerge));
    let l = of(Term::Merge(handlers(), Box::new(paren(lambda("x", of(num("1")))))));
    assert_eq!(normal(l), Err(Error::MalformedMerge));
}

#[test]
fn merge_on_a_parameter_stays() {
    let e = lambda("u", of(Term::Merge(handlers(), Box::new(var("u")))));
    let expected = lambda("u", of(Term::Merge(handlers(), Box::new(seen("u", 1)))));
    assert_eq!(normal(e), Ok(expected));
}

#[test]
fn let_binds_each_value_under_the_bindings_before_it() {
    let mut defs = Deq::new();
    defs.push_back(("x", None, Box::new(of(num("1")))));
    defs.push_back(("y", Some(Box::new(of(var("Natural")))), Box::new(of(var("x")))));
    defs.push_back(("x", None, Box::new(of(num("3")))));
    let body = record(vec![field("a", of(var("x"))), field("b", of(var("y"))), field("c", of(Term::Var("x", 1, None)))]);
    let e = Expr::Let(defs, Box::new(of(body)));
    let expected = record(vec![field("a", of(num("3"))), field("b", of(num("1"))), field("c", of(num("1")))]);
    assert_eq!(normal(e), Ok(of(expected)));
}

#[test]
fn failure_leaves_the_expression_and_the_scopes_as_they_were() {
    let make = || {
        let_in(
            "x",
            of(num("1")),
            lambda("y", of(record(vec![field("a", of(var("x"))), field("b", of(var("nowhere")))]))),
        )
    };
    let mut e = make();
    let mut c = ctx();
    c.push_scope();
    let before = c.sym_table().next_scope_id();
    assert_eq!(e.eval(&mut c), Err(Error::NotFound));
    assert_eq!(e, make());
    assert_eq!(c.sym_table().next_scope_id(), before);
    assert!(c.check_shelves());
}

#[test]
fn depth_limit_of_the_context_bounds_the_nesting() {
    let mut c = ctx();
    c.set_depth_limit(2);
    let mut shallow = of(num("1"));
    assert_eq!(shallow.eval(&mut c), Ok(()));
    let mut deep = lambda("x", lambda("y", lambda("z", of(num("1")))));
    assert_eq!(deep.eval(&mut c), Err(Error::DepthLimit));
    c.set_depth_limit(0);
    assert_eq!(shallow.eval(&mut c), Err(Error::DepthLimit));
    c.set_depth_limit(5);
    assert_eq!(deep.eval(&mut c), Ok(()));
}

#[test]
fn normal_form_is_kept_by_a_second_reduction() {
    let first = normal(lambda(
        "f",
        of(record(vec![
            field("a", Expr::Term1(call(Term1::Term(var("f")), num("1")))),
            field("b", of(Term::FieldAccess(Box::new(var("f")), "x"))),
            field("c", of(var("Natural"))),
        ])),
    ))
    .unwrap();
    let copy = first.clone();
    assert_eq!(normal(first), Ok(copy));
}

#[test]
fn option_and_box_reduce_what_they_hold() {
    let mut c = ctx();
    let mut some = Some(Box::new(let_in("x", of(num("1")), of(var("x")))));
    assert_eq!(eval(&mut c, &mut some), Ok(()));
    assert_eq!(some, Some(Box::new(of(num("1")))));
    let mut none: Option<Expr> = None;
    assert_eq!(none.eval(&mut c), Ok(()));
    assert_eq!(none, None);
}

#[test]
fn let_bound_function_is_applied() {
    let id = lambda("x", of(var("x")));
    let e = let_in("id", id, Expr::Term1(call(Term1::Term(var("id")), num("5"))));
    assert_eq!(normal(e), Ok(of(num("5"))));
}

#[test]
fn let_bound_function_is_applied_under_other_binders() {
    let konst = lambda("x", lambda("y", of(var("x"))));
    let body = lambda(
        "y",
        Expr::Term1(call(call(Term1::Term(var("k")), var("y")), num("2"))),
    );
    let e = let_in("k", konst, body);
    assert_eq!(normal(e), Ok(lambda("y", of(seen("y", 1)))));
}

#[test]
fn let_bound_function_keeps_the_binders_of_its_free_names() {
    let f = lambda("y", of(var("x")));
    let inner = let_in("f", f, lambda("x", Expr::Term1(call(Term1::Term(var("f")), num("1")))));
    let e = lambda("x", inner);
    assert_eq!(normal(e), Ok(lambda("x", lambda("x", of(seen("x", 1))))));
}

#[test]
fn result_that_holds_a_moved_lambda_is_kept_by_a_second_reduction() {
    let k = Term1::Term(paren(lambda("f", lambda("z", of(var("f"))))));
    let id = paren(lambda("x", of(var("x"))));
    let mut e = Expr::Term1(call(k, id));
    let mut first = ctx();
    assert_eq!(e.eval(&mut first), Ok(()));
    let expected = lambda("z", lambda("x", of(seen("x", 2))));
    assert_eq!(e, expected);
    let mut second = ctx();
    assert_eq!(e.eval(&mut second), Ok(()));
    assert_eq!(e, expected);
    assert_eq!(e.eval(&mut first), Ok(()));
    assert_eq!(e, expected);
}

#[test]
fn results_are_kept_by_a_second_reduction() {
    let sources = || {
        let id = || lambda("x", of(var("x")));
        vec![
            let_in("id", id(), Expr::Term1(call(Term1::Term(var("id")), paren(id())))),
            let_in("x", of(var("Natural")), lambda("y", of(record(vec![field("a", of(var("x")))])))),
            lambda("r", with(var("r"), &["a"], paren(lambda("q", of(var("q")))))),
            lambda(
                "u",
                Expr::Term1(Term1::Ascribe(
                    Box::new(Term1::Term(paren(lambda("v", of(var("u")))))),
                    Box::new(of(var("Type"))),
                )),
            ),
            of(Term::FieldAccess(
                Box::new(record(vec![field("f", lambda("p", lambda("p", of(Term::Var("p", 1, None)))))])),
                "f",
            )),
        ]
    };
    for source in sources() {
        let mut e = source;
        let mut c = ctx();
        assert_eq!(e.eval(&mut c), Ok(()));
        let once = e.clone();
        let mut fresh = ctx();
        assert_eq!(e.eval(&mut fresh), Ok(()));
        assert_eq!(e, once);
    }
}

#[test]
fn more_depth_gives_the_same_result() {
    let make = || {
        let k = lambda("x", lambda("y", of(var("x"))));
        Expr::Term1(call(call(Term1::Term(paren(k)), num("1")), num("2")))
    };
    let mut c = ctx();
    let mut least = 0;
    while eval_expr(&mut c, make(), least) == Err(Error::DepthLimit) {
        least += 1;
        assert!(least < 100);
    }
    for fuel in [least, least + 1, least + 7, 200] {
        assert_eq!(eval_expr(&mut c, make(), fuel), Ok(of(num("1"))));
    }
    assert_eq!(eval_expr(&mut c, make(), least - 1), Err(Error::DepthLimit));
}

#[test]
fn self_application_ends_at_the_limit_of_a_new_context() {
    let omega = || paren(lambda("x", Expr::Term1(call(Term1::Term(var("x")), var("x")))));
    let e = Expr::Term1(call(Term1::Term(omega()), omega()));
    assert_eq!(normal(e), Err(Error::DepthLimit));
}

#[test]
fn term_is_reduced_where_it_stands() {
    let mut c = ctx();
    let mut t = call(Term1::Term(paren(lambda("x", of(var("x"))))), num("5"));
    assert_eq!(in_place_term1(&mut c, &mut t, 16), Ok(()));
    assert_eq!(t, Term1::Term(num("5")));

    let mut t = paren(let_in("x", of(num("1")), lambda("y", of(var("x")))));
    assert_eq!(in_place_term(&mut c, &mut t, 16), Ok(()));
    assert_eq!(t, paren(lambda("y", of(num("1")))));

    let mut t = paren(of(num("3")));
    assert_eq!(in_place_term(&mut c, &mut t, 16), Ok(()));
    assert_eq!(t, num("3"));
}

#[test]
fn term_that_fails_is_left_where_it_stands() {
    let mut c = ctx();
    let before = c.sym_table().next_scope_id();
    let mut t = Term1::Term(var("nowhere"));
    assert_eq!(in_place_term1(&mut c, &mut t, 16), Err(Error::NotFound));
    assert_eq!(t, Term1::Term(var("nowhere")));

    let mut t = paren(lambda("x", of(var("nowhere"))));
    assert_eq!(in_place_term(&mut c, &mut t, 16), Err(Error::NotFound));
    assert_eq!(t, paren(lambda("x", of(var("nowhere")))));
    assert_eq!(c.sym_table().next_scope_id(), before);
}

#[test]
fn second_reduction_within_the_same_depth_succeeds() {
    let source = || {
        let moved = lambda("f", lambda("z", of(var("f"))));
        Expr::Term1(call(
            Term1::Term(paren(moved)),
            paren(lambda("x", of(var("x")))),
        ))
    };
    let mut reduced = 0;
    for limit in [1usize, 2, 3, 4, 5, 6, 8, 64] {
        let mut c = ctx();
        c.set_depth_limit(limit);
        let mut first = source();
        if eval(&mut c, &mut first).is_ok() {
            reduced += 1;
            let mut second = copy_expr(&first);
            let mut fresh = ctx();
            fresh.set_depth_limit(limit);
            assert_eq!(eval(&mut fresh, &mut second), Ok(()));
            assert_eq!(second, first);
        } else {
            assert_eq!(first, source());
        }
    }
    assert!(reduced >= 2);
}

#[test]
fn normal_form_is_kept_where_it_nests_within_the_limit() {
    let source = || lambda("a", lambda("b", of(num("1"))));
    let mut c = ctx();
    c.set_depth_limit(3);
    let mut e = source();
    assert_eq!(eval(&mut c, &mut e), Ok(()));
    assert_eq!(e, source());
    c.set_depth_limit(2);
    assert_eq!(eval(&mut c, &mut e), Err(Error::DepthLimit));
    assert_eq!(e, source());
}
