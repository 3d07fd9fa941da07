use dust::ast::{var_expr, Expr, Term, Term1};
use dust::error::Error;
use dust::sym_table::SymTable;

fn lit(digits: &str) -> Expr<'_> {
    Expr::Term1(Term1::Term(Term::Integer(false, digits)))
}

#[test]
fn fresh_table_has_no_scope() {
    let t = SymTable::default();
    assert_eq!(t.next_scope_id(), 0);
    assert_eq!(t.lookup("x", 0).err(), Some(Error::NotFound));
}

#[test]
fn scope_ids_count_from_the_outermost_scope() {
    let mut t = SymTable::default();
    t.enter_scope();
    assert_eq!(t.next_scope_id(), 1);
    assert_eq!(t.scope_id(), 0);
    t.enter_scope();
    t.enter_scope1(true);
    assert_eq!(t.next_scope_id(), 3);
    assert_eq!(t.scope_id(), 2);
    assert_eq!(t.scope_offset(0), 2);
    assert_eq!(t.scope_offset(2), 0);
    t.exit_scope();
    assert_eq!(t.scope_id(), 1);
}

#[test]
fn exit_on_an_empty_table_changes_nothing() {
    let mut t = SymTable::default();
    t.exit_scope();
    assert_eq!(t.next_scope_id(), 0);
}

#[test]
fn binding_records_its_scope_and_value() {
    let mut t = SymTable::default();
    t.enter_scope();
    t.enter_scope();
    t.add("x", Some(var_expr("Natural")), Some(lit("1")));
    let info = t.lookup("x", 0).unwrap();
    assert_eq!(info.scope_id, 1);
    assert_eq!(info.value, Some(lit("1")));
    assert_eq!(info.typ, Some(var_expr("Natural")));
}

#[test]
fn later_binding_in_the_same_scope_replaces_the_earlier() {
    let mut t = SymTable::default();
    t.enter_scope();
    t.add("x", None, Some(lit("1")));
    t.add("x", None, Some(lit("2")));
    assert_eq!(t.lookup("x", 0).unwrap().value, Some(lit("2")));
    assert_eq!(t.lookup("x", 1).err(), Some(Error::NotFound));
}

#[test]
fn distance_passes_over_inner_binders_of_the_name() {
    let mut t = SymTable::default();
    t.enter_scope();
    t.add("x", None, Some(lit("0")));
    t.enter_scope();
    t.add("y", None, Some(lit("9")));
    t.enter_scope();
    t.add_thunk("x");
    assert_eq!(t.lookup("x", 0).unwrap().scope_id, 2);
    assert_eq!(t.lookup("x", 1).unwrap().scope_id, 0);
    assert_eq!(t.lookup("x", 1).unwrap().value, Some(lit("0")));
    assert_eq!(t.lookup("x", 2).err(), Some(Error::NotFound));
    assert_eq!(t.lookup("y", 0).unwrap().scope_id, 1);
}

#[test]
fn search_from_an_offset_skips_the_inner_scopes() {
    let mut t = SymTable::default();
    t.enter_scope();
    t.add("x", None, Some(lit("0")));
    t.enter_scope();
    t.add_thunk("x");
    assert_eq!(t.lookup_from_offset(0, "x").unwrap().scope_id, 1);
    assert_eq!(t.lookup_from_offset(1, "x").unwrap().scope_id, 0);
    assert_eq!(t.lookup_from_offset(2, "x").err(), Some(Error::NotFound));
    assert_eq!(t.lookup_from(1, "x", 0).unwrap().value, Some(lit("0")));
    assert_eq!(t.lookup_from(0, "x", 1).unwrap().scope_id, 0);
}

#[test]
fn thunk_is_a_binding_without_a_value() {
    let mut t = SymTable::default();
    t.enter_scope();
    t.add("x", None, Some(lit("0")));
    t.enter_scope();
    t.add_thunk("x");
    assert_eq!(t.is_thunk("x", 0), Ok(true));
    assert_eq!(t.is_thunk("x", 1), Ok(false));
    assert_eq!(t.is_thunk("z", 0), Err(Error::NotFound));
    assert_eq!(t.is_thunk1(1, "x", 0), Ok(false));
    assert_eq!(t.is_thunk1(0, "x", 0), Ok(true));
    assert_eq!(t.is_thunk1(2, "x", 0), Err(Error::NotFound));
}

#[test]
fn copy_value_gives_the_value_or_says_why_not() {
    let mut t = SymTable::default();
    t.enter_scope();
    t.add("x", None, Some(lit("7")));
    t.add_thunk("y");
    assert_eq!(t.copy_value("x", 0), Ok(lit("7")));
    assert_eq!(t.copy_value("y", 0), Err(Error::NoValue));
    assert_eq!(t.copy_value("z", 0), Err(Error::NotFound));
}

#[test]
fn return_to_mark_closes_all_scopes_opened_since() {
    let mut t = SymTable::default();
    t.enter_scope();
    t.mark_scope();
    t.enter_scope();
    t.enter_scope();
    t.enter_scope();
    assert_eq!(t.next_scope_id(), 4);
    t.return_to_marked_scope();
    assert_eq!(t.next_scope_id(), 1);
}

#[test]
fn marks_nest() {
    let mut t = SymTable::default();
    t.enter_scope();
    t.mark_scope();
    t.enter_scope();
    t.mark_scope();
    t.enter_scope();
    t.enter_scope();
    t.return_to_marked_scope();
    assert_eq!(t.next_scope_id(), 2);
    t.return_to_marked_scope();
    assert_eq!(t.next_scope_id(), 1);
}

#[test]
fn return_without_a_mark_changes_nothing() {
    let mut t = SymTable::default();
    t.enter_scope();
    t.enter_scope();
    t.return_to_marked_scope();
    assert_eq!(t.next_scope_id(), 2);
}

#[test]
fn return_to_mark_keeps_the_outer_bindings() {
    let mut t = SymTable::default();
    t.enter_scope();
    t.add("x", None, Some(lit("1")));
    t.mark_scope();
    t.enter_scope();
    t.add("x", None, Some(lit("2")));
    t.enter_scope();
    t.add("y", None, Some(lit("3")));
    assert_eq!(t.lookup("x", 0).unwrap().value, Some(lit("2")));
    assert_eq!(t.lookup("x", 1).unwrap().value, Some(lit("1")));
    assert_eq!(t.lookup_from(1, "y", 0).err(), Some(Error::NotFound));
    assert_eq!(t.lookup_from(2, "x", 0).unwrap().value, Some(lit("1")));
    t.return_to_marked_scope();
    assert_eq!(t.next_scope_id(), 1);
    assert_eq!(t.lookup("x", 0).unwrap().value, Some(lit("1")));
    assert_eq!(t.lookup("x", 0).unwrap().scope_id, 0);
    assert_eq!(t.lookup("y", 0).err(), Some(Error::NotFound));
}
