use dust::ast::{const_0_expr, const_0_term, const_0_term1, var_expr, Expr, Term, Term1};
use dust::context::{ctx, Context, Unboxer, DEFAULT_DEPTH_LIMIT};
use dust::error::{Error, NodeKind};

fn lit(digits: &str) -> Expr<'_> {
    Expr::Term1(Term1::Term(Term::Integer(false, digits)))
}

#[test]
fn new_context_knows_the_builtins_as_thunks() {
    let c = Context::new();
    assert_eq!(c.sym_table().next_scope_id(), 1);
    for name in ["assert", "Bool", "Natural", "List/fold", "Text/show", "toMap", "True", "Type"] {
        let info = c.sym_table().lookup(name, 0).unwrap();
        assert_eq!(info.value, None);
        assert_eq!(info.typ, None);
        assert_eq!(info.scope_id, 0);
    }
    assert_eq!(c.sym_table().lookup("Unnatural", 0).err(), Some(Error::NotFound));
    assert_eq!(c.depth_limit(), DEFAULT_DEPTH_LIMIT);
}

#[test]
fn ctx_is_a_new_context() {
    let c = ctx();
    assert_eq!(c.sym_table().next_scope_id(), 1);
    assert_eq!(c.sym_table().is_thunk("Optional", 0), Ok(true));
}

#[test]
fn context_with_names_of_ones_own() {
    let c = Context::with_thunks(&["foo", "bar"]);
    assert_eq!(c.sym_table().is_thunk("foo", 0), Ok(true));
    assert_eq!(c.sym_table().is_thunk("bar", 0), Ok(true));
    assert_eq!(c.sym_table().is_thunk("Bool", 0), Err(Error::NotFound));
}

#[test]
fn depth_limit_can_be_set() {
    let mut c = ctx();
    c.set_depth_limit(3);
    assert_eq!(c.depth_limit(), 3);
}

#[test]
fn scopes_open_and_close_through_the_context() {
    let mut c = ctx();
    c.push_scope();
    c.push_binding("x", None, Some(lit("4")));
    assert_eq!(c.sym_table().next_scope_id(), 3);
    assert_eq!(c.sym_table().copy_value("x", 0), Ok(lit("4")));
    c.pop_scope();
    c.pop_scope();
    assert_eq!(c.sym_table().next_scope_id(), 1);
    c.mark_scope();
    c.push_scope();
    c.push_scope();
    c.return_to_marked_scope();
    assert_eq!(c.sym_table().next_scope_id(), 1);
}

#[test]
fn unbox_gives_the_content_and_rebox_a_box_with_the_value() {
    let mut c = ctx();
    let content: Expr = c.unbox(Box::new(lit("5")));
    assert_eq!(content, lit("5"));
    let boxed = c.rebox(lit("6"));
    assert_eq!(*boxed, lit("6"));
    let t1: Term1 = c.unbox(Box::new(Term1::Term(Term::Double("1.5"))));
    assert_eq!(t1, Term1::Term(Term::Double("1.5")));
    let t: Term = c.unbox(Box::new(Term::Embed("x")));
    assert_eq!(t, Term::Embed("x"));
    assert_eq!(*c.rebox(Term::Embed("y")), Term::Embed("y"));
    assert_eq!(*c.rebox(Term1::Term(Term::Embed("z"))), Term1::Term(Term::Embed("z")));
}

#[test]
fn shelves_hold_drained_boxes_only() {
    let mut c = ctx();
    assert!(c.check_shelves());
    let a: Expr = c.unbox(Box::new(lit("1")));
    let b: Expr = c.unbox(Box::new(var_expr("x")));
    let t: Term = c.unbox(Box::new(Term::Embed("e")));
    let t1: Term1 = c.unbox(Box::new(Term1::Term(Term::Double("2.0"))));
    assert!(c.check_shelves());
    let _ = c.rebox(a);
    assert!(c.check_shelves());
    let _ = c.rebox(t);
    let _ = c.rebox(t1);
    let _ = c.rebox(b);
    let _ = c.rebox(lit("3"));
    assert!(c.check_shelves());
}

#[test]
fn zero_stands_for_what_was_taken() {
    assert_eq!(const_0_term(), Term::Integer(false, "0"));
    assert_eq!(const_0_term1(), Term1::Term(Term::Integer(false, "0")));
    assert_eq!(const_0_expr(), lit("0"));
    assert_eq!(Expr::default(), lit("0"));
    assert_eq!(Term1::default(), const_0_term1());
    assert_eq!(Term::default(), const_0_term());
}

#[test]
fn classification_of_terms() {
    let mut c = ctx();
    c.push_binding("v", None, Some(lit("1")));
    c.push_binding("p", None, None);
    let p = Term::Var("p", 0, None);
    let v = Term::Var("v", 0, None);
    assert_eq!(c.is_thunk_term(&p), Ok(true));
    assert_eq!(c.is_thunk_term(&v), Ok(false));
    assert_eq!(c.is_thunk_term(&Term::Var("q", 0, None)), Err(Error::NotFound));
    assert_eq!(c.is_thunk_term(&Term::FieldAccess(Box::new(Term::Var("p", 0, None)), "a")), Ok(true));
    assert_eq!(c.is_thunk_term(&Term::Record(Default::default())), Ok(false));
    assert_eq!(c.is_thunk_term(&Term::TypeEnum(Default::default())), Ok(true));
    assert_eq!(
        c.is_thunk_term(&Term::Merge(Default::default(), Box::new(Term::Var("p", 0, None)))),
        Ok(true)
    );
    assert_eq!(
        c.is_thunk_term(&Term::Integer(false, "1")),
        Err(Error::Unsupported(NodeKind::Integer))
    );
    let call = Term1::Evaluation(Box::new(Term1::Term(Term::Var("p", 0, None))), Term::Integer(false, "1"));
    assert_eq!(c.is_thunk_term1(&call), Ok(true));
    let sum = Term1::Operation(
        Box::new(Term1::Term(Term::Var("v", 0, None))),
        "+",
        Box::new(Term1::Term(Term::Var("p", 0, None))),
    );
    assert_eq!(c.is_thunk_term1(&sum), Ok(true));
    let ascribed = Term1::Ascribe(Box::new(Term1::Term(Term::Var("p", 0, None))), Box::new(lit("1")));
    assert_eq!(c.is_thunk_term1(&ascribed), Err(Error::Unsupported(NodeKind::Ascribe)));
    assert_eq!(c.is_thunk_expr(&Expr::Term1(Term1::Term(Term::Var("p", 0, None)))), Ok(true));
    let l = Expr::Lambda("x", None, Box::new(lit("1")));
    assert_eq!(c.is_thunk_expr(&l), Err(Error::Unsupported(NodeKind::Lambda)));
}

#[test]
fn resolved_scope_decides_where_the_search_begins() {
    let mut c = ctx();
    c.push_binding("x", None, Some(lit("1")));
    c.push_binding("x", None, None);
    assert_eq!(c.resolve("x", 0, None).unwrap().scope_id, 2);
    assert_eq!(c.resolve("x", 1, None).unwrap().scope_id, 1);
    assert_eq!(c.resolve("x", 0, Some(1)).unwrap().scope_id, 1);
    assert_eq!(c.resolve("x", 0, Some(2)).unwrap().scope_id, 2);
    assert_eq!(c.resolve("x", 0, Some(9)).unwrap().scope_id, 2);
    assert_eq!(c.resolve("x", 0, Some(0)).err(), Some(Error::NotFound));
}
