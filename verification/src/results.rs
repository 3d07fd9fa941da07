use vstd::prelude::*;
use crate::ast::{EntriesV, ExprV, LetsV, Name, PathV, RecordV, Term1V, TermV};
use crate::error::Error;
use crate::forget::forget_expr;
use crate::normal::{
    normal_entries, normal_expr, normal_opt,
    normal_record, normal_term, normal_term1, normal_vals, settled_term, settled_term1,
};
use crate::semantics::{
    apply, as_lambda, as_record, as_tagged, bind_lets, choose_branch, content, dispatch,
    drop_leading, keep_by_path, keep_leading, keep_selected, leads_with, leave_scopes,
    lemma_resolved_reference_is_not_captured, of_term, placed_term, placed_term1, reduce_arrow,
    reduce_ascribe, reduce_entries, reduce_evaluation, reduce_expr, reduce_field_access,
    reduce_if, reduce_lambda, reduce_let, reduce_merge, reduce_operation, reduce_opt,
    reduce_project, reduce_record, reduce_term, reduce_vals, reduce_var, reduce_with, resolve,
    settle_access, splice, strip_heads, boxed, unboxed, under_argument, under_binder,
    under_name, unplaced, unplaced_term, update,
};
use crate::sym_table::{bind, table_wf, InfoV, TableV};

verus! {

broadcast use vstd::seq::group_seq_axioms;

/// A table with one more scope that binds one name is well-formed if the table is.
pub proof fn lemma_bind_keeps_wf(st: TableV, name: Name, typ: Option<ExprV>, value: Option<ExprV>)
    requires
        table_wf(st),
    ensures
        table_wf(bind(st, name, typ, value)),
{
    let after = bind(st, name, typ, value);
    assert forall|i: int, n: Name|
        0 <= i < after.len() && #[trigger] after[i].dom().contains(n) implies after[i][n].scope_id
        == i by {
        if i < st.len() {
            assert(after[i] == st[i]);
        }
    }
}

/// A table with one more scope that binds nothing is well-formed if the table is.
pub proof fn lemma_push_keeps_wf(st: TableV)
    requires
        table_wf(st),
    ensures
        table_wf(st.push(Map::<Name, InfoV>::empty())),
{
    let after = st.push(Map::<Name, InfoV>::empty());
    assert forall|i: int, n: Name|
        0 <= i < after.len() && #[trigger] after[i].dom().contains(n) implies after[i][n].scope_id
        == i by {
        if i < st.len() {
            assert(after[i] == st[i]);
        }
    }
}

proof fn lemma_keep_leading_normal(fields: RecordV, name: Name, st: TableV)
    requires
        normal_record(fields, st),
    ensures
        normal_record(keep_leading(fields, name), st),
    decreases fields.len(),
{
    if fields.len() > 0 {
        assert forall|i: int| 0 <= i < fields.drop_last().len() implies normal_expr(
            (#[trigger] fields.drop_last()[i]).1,
            st,
        ) by {
            assert(fields.drop_last()[i] == fields[i]);
        }
        lemma_keep_leading_normal(fields.drop_last(), name, st);
        assert(normal_expr(fields[fields.len() - 1].1, st));
    }
}

proof fn lemma_drop_leading_normal(fields: RecordV, name: Name, st: TableV)
    requires
        normal_record(fields, st),
    ensures
        normal_record(drop_leading(fields, name), st),
    decreases fields.len(),
{
    if fields.len() > 0 {
        assert forall|i: int| 0 <= i < fields.drop_last().len() implies normal_expr(
            (#[trigger] fields.drop_last()[i]).1,
            st,
        ) by {
            assert(fields.drop_last()[i] == fields[i]);
        }
        lemma_drop_leading_normal(fields.drop_last(), name, st);
        assert(normal_expr(fields[fields.len() - 1].1, st));
    }
}

proof fn lemma_keep_selected_normal(fields: RecordV, names: Seq<Name>, st: TableV)
    requires
        normal_record(fields, st),
    ensures
        normal_record(keep_selected(fields, names), st),
    decreases fields.len(),
{
    if fields.len() > 0 {
        assert forall|i: int| 0 <= i < fields.drop_last().len() implies normal_expr(
            (#[trigger] fields.drop_last()[i]).1,
            st,
        ) by {
            assert(fields.drop_last()[i] == fields[i]);
        }
        lemma_keep_selected_normal(fields.drop_last(), names, st);
        assert(normal_expr(fields[fields.len() - 1].1, st));
    }
}

proof fn lemma_keep_by_path_normal(fields: RecordV, used_up: bool, st: TableV)
    requires
        normal_record(fields, st),
    ensures
        normal_record(keep_by_path(fields, used_up), st),
    decreases fields.len(),
{
    if fields.len() > 0 {
        assert forall|i: int| 0 <= i < fields.drop_last().len() implies normal_expr(
            (#[trigger] fields.drop_last()[i]).1,
            st,
        ) by {
            assert(fields.drop_last()[i] == fields[i]);
        }
        lemma_keep_by_path_normal(fields.drop_last(), used_up, st);
        assert(normal_expr(fields[fields.len() - 1].1, st));
    }
}

proof fn lemma_joined_normal(a: RecordV, b: RecordV, st: TableV)
    requires
        normal_record(a, st),
        normal_record(b, st),
    ensures
        normal_record(a + b, st),
{
    assert forall|i: int| 0 <= i < (a + b).len() implies normal_expr((#[trigger] (a + b)[i]).1, st) by {
        if i < a.len() {
            assert((a + b)[i] == a[i]);
        } else {
            assert((a + b)[i] == b[i - a.len()]);
        }
    }
}

/// A normal `Term1` is a normal expression.
proof fn lemma_normal_as_expr(t: Term1V, st: TableV)
    requires
        normal_term1(t, st),
    ensures
        normal_expr(ExprV::Term1(t), st),
{
}

/// A normal `Term` is a normal expression.
proof fn lemma_normal_term_as_expr(t: TermV, st: TableV)
    requires
        normal_term(t, st),
    ensures
        normal_expr(of_term(t), st),
{
    assert(normal_term1(Term1V::Term(t), st));
}

/// The `Term1` of a normal expression is normal.
proof fn lemma_normal_in_expr(t: Term1V, st: TableV)
    requires
        normal_expr(ExprV::Term1(t), st),
    ensures
        normal_term1(t, st),
{
}

/// The `Term` of a normal expression is normal.
proof fn lemma_normal_term_in_expr(t: TermV, st: TableV)
    requires
        normal_expr(of_term(t), st),
    ensures
        normal_term(t, st),
{
    assert(normal_term1(Term1V::Term(t), st));
}

proof fn lemma_settled_term1(t: Term1V, st: TableV)
    requires
        normal_term1(t, st),
    ensures
        settled_term1(t, st),
{
    match t {
        Term1V::Term(inner) => {
            assert(normal_term(inner, st));
        },
        _ => {},
    }
}

proof fn lemma_settled_term(t: TermV, st: TableV)
    requires
        normal_term(t, st),
    ensures
        settled_term(t, st),
{
}

proof fn lemma_settled_record(t: Term1V, st: TableV)
    requires
        settled_term1(t, st),
        t matches Term1V::Term(TermV::Record(_)),
    ensures
        normal_record(t->Term_0->Record_0, st),
{
    assert(normal_term1(t, st));
    assert(normal_term(t->Term_0, st));
}

proof fn lemma_settled_term_record(t: TermV, st: TableV)
    requires
        settled_term(t, st),
        t is Record,
    ensures
        normal_record(t->Record_0, st),
{
    assert(normal_term(t, st));
}

proof fn lemma_record_fields_normal(e: ExprV, st: TableV)
    requires
        normal_expr(e, st),
        as_record(e) is Some,
    ensures
        normal_record(as_record(e)->0, st),
{
    match e {
        ExprV::Term1(t1) => {
            lemma_normal_in_expr(t1, st);
            match t1 {
                Term1V::Term(t) => {
                    assert(normal_term(t, st));
                },
                _ => {},
            }
        },
        _ => {},
    }
}

proof fn lemma_content_normal(under: RecordV, st: TableV)
    requires
        normal_record(under, st),
        content(under) is Some,
    ensures
        normal_record(content(under)->0, st),
    decreases under.len(),
{
    if under.len() > 0 {
        assert forall|i: int| 0 <= i < under.drop_last().len() implies normal_expr(
            (#[trigger] under.drop_last()[i]).1,
            st,
        ) by {
            assert(under.drop_last()[i] == under[i]);
        }
        lemma_content_normal(under.drop_last(), st);
        let before = content(under.drop_last())->0;
        let last = under[under.len() - 1];
        assert(normal_expr(last.1, st));
        if last.0.len() == 0 {
            lemma_record_fields_normal(last.1, st);
            lemma_joined_normal(before, as_record(last.1)->0, st);
        } else {
            lemma_joined_normal(before, seq![last], st);
            assert(before.push(last) =~= before + seq![last]);
        }
    }
}

proof fn lemma_splice_normal(fields: RecordV, path: PathV, value: ExprV, st: TableV)
    requires
        normal_record(fields, st),
        normal_expr(value, st),
        splice(fields, path, value) is Some,
    ensures
        normal_record(splice(fields, path, value)->0, st),
    decreases path.len(),
{
    let name = path[0];
    let others = drop_leading(fields, name);
    lemma_drop_leading_normal(fields, name, st);
    if path.len() == 1 {
        lemma_joined_normal(others, seq![(seq![name], value)], st);
        assert(others.push((seq![name], value)) =~= others + seq![(seq![name], value)]);
    } else {
        lemma_keep_leading_normal(fields, name, st);
        let under = strip_heads(keep_leading(fields, name));
        lemma_content_normal(under, st);
        let inner = content(under)->0;
        lemma_splice_normal(inner, path.drop_first(), value, st);
        let updated = splice(inner, path.drop_first(), value)->0;
        lemma_joined_normal(others, under_name(name, updated), st);
    }
}

proof fn lemma_unplaced_normal(t: Term1V, st: TableV)
    requires
        settled_term1(t, st),
    ensures
        normal_expr(unplaced(t), st),
{
    match t {
        Term1V::Term(TermV::Expr(e)) => {},
        other => {
            assert(normal_term1(other, st));
            lemma_normal_as_expr(other, st);
        },
    }
}

proof fn lemma_settle_normal(stripped: RecordV, st: TableV)
    requires
        normal_record(stripped, st),
    ensures
        settle_access(stripped) matches Ok(n) ==> normal_expr(n, st),
{
    let hits = keep_by_path(stripped, true);
    let rest = keep_by_path(stripped, false);
    lemma_keep_by_path_normal(stripped, true, st);
    lemma_keep_by_path_normal(stripped, false, st);
    if hits.len() == 1 {
        assert(normal_expr(hits[0].1, st));
        if as_record(hits[0].1) is Some {
            lemma_record_fields_normal(hits[0].1, st);
            let inner = as_record(hits[0].1)->0;
            lemma_joined_normal(inner, rest, st);
            assert(normal_term(TermV::Record(inner + rest), st));
            lemma_normal_term_as_expr(TermV::Record(inner + rest), st);
        }
    } else {
        assert(normal_term(TermV::Record(stripped), st));
        lemma_normal_term_as_expr(TermV::Record(stripped), st);
    }
}

/// What a reduction ends in is in normal form: no rule would change it.
pub proof fn lemma_result_is_normal(e: ExprV, st: TableV, fuel: nat)
    requires
        table_wf(st),
    ensures
        reduce_expr(e, st, fuel) matches Ok(n) ==> normal_expr(n, st),
    decreases fuel, 0nat, 0nat,
{
    if fuel > 0 {
        let f = (fuel - 1) as nat;
        match e {
            ExprV::Let(defs, body) => lemma_result_of_let(defs, *body, st, f),
            ExprV::Lambda(name, typ, body) => lemma_result_of_lambda(name, typ, *body, st, f),
            ExprV::Term1(Term1V::Term(t)) => lemma_result_of_term(t, st, f),
            ExprV::Term1(Term1V::Evaluation(func, arg)) => lemma_result_of_evaluation(*func, arg, st, f),
            ExprV::Term1(Term1V::Arrow(name, a, b)) => lemma_result_of_arrow(name, *a, *b, st, f),
            ExprV::Term1(Term1V::With(t, path, v)) => lemma_result_of_with(*t, path, *v, st, f),
            ExprV::Term1(Term1V::Operation(a, op, b)) => lemma_result_of_operation(*a, op, *b, st, f),
            ExprV::Term1(Term1V::IfThenElse(c, a, b)) => lemma_result_of_if(*c, *a, *b, st, f),
            ExprV::Term1(Term1V::Ascribe(t, typ)) => lemma_result_of_ascribe(*t, *typ, st, f),
            ExprV::Term1(Term1V::Construct(..)) => {},
        }
    }
}

proof fn lemma_result_of_leave(body: ExprV, st: TableV, f: nat)
    requires
        table_wf(st),
    ensures
        leave_scopes(body, st, f) matches Ok(n) ==> normal_expr(n, st),
    decreases f, 1nat, 0nat,
{
    lemma_result_is_normal(forget_expr(body, st.len()), st, f);
}

proof fn lemma_result_of_placed_term1(t: Term1V, st: TableV, f: nat)
    requires
        table_wf(st),
    ensures
        placed_term1(t, st, f) matches Ok(r) ==> settled_term1(r, st),
    decreases f, 1nat, 0nat,
{
    lemma_result_is_normal(unplaced(t), st, f);
    match reduce_expr(unplaced(t), st, f) {
        Ok(ExprV::Term1(r)) => {
            lemma_normal_in_expr(r, st);
            lemma_settled_term1(r, st);
        },
        Ok(other) => {
            assert(settled_term1(Term1V::Term(TermV::Expr(Box::new(other))), st));
        },
        Err(_) => {},
    }
}

proof fn lemma_result_of_placed_term(t: TermV, st: TableV, f: nat)
    requires
        table_wf(st),
    ensures
        placed_term(t, st, f) matches Ok(r) ==> settled_term(r, st),
    decreases f, 1nat, 0nat,
{
    lemma_result_is_normal(unplaced_term(t), st, f);
    match reduce_expr(unplaced_term(t), st, f) {
        Ok(ExprV::Term1(Term1V::Term(r))) => {
            lemma_normal_term_in_expr(r, st);
            lemma_settled_term(r, st);
        },
        Ok(other) => {
            assert(settled_term(TermV::Expr(Box::new(other)), st));
        },
        Err(_) => {},
    }
}

proof fn lemma_result_of_opt(v: Option<ExprV>, st: TableV, f: nat)
    requires
        table_wf(st),
    ensures
        reduce_opt(v, st, f) matches Ok(r) ==> normal_opt(r, st),
    decreases f, 1nat, 0nat,
{
    match v {
        Some(e) => lemma_result_is_normal(e, st, f),
        None => {},
    }
}

proof fn lemma_result_of_vals(items: Seq<ExprV>, st: TableV, f: nat)
    requires
        table_wf(st),
    ensures
        reduce_vals(items, st, f) matches Ok(r) ==> normal_vals(r, st),
    decreases f, 2nat, items.len(),
{
    if items.len() > 0 {
        lemma_result_is_normal(items[0], st, f);
        lemma_result_of_vals(items.drop_first(), st, f);
        match reduce_expr(items[0], st, f) {
            Ok(head) => match reduce_vals(items.drop_first(), st, f) {
                Ok(rest) => {
                    let all = seq![head] + rest;
                    assert forall|i: int| 0 <= i < all.len() implies normal_expr(
                        #[trigger] all[i],
                        st,
                    ) by {
                        if i > 0 {
                            assert(all[i] == rest[i - 1]);
                        }
                    }
                },
                Err(_) => {},
            },
            Err(_) => {},
        }
    }
}

proof fn lemma_result_of_record(fields: RecordV, st: TableV, f: nat)
    requires
        table_wf(st),
    ensures
        reduce_record(fields, st, f) matches Ok(r) ==> normal_record(r, st),
    decreases f, 2nat, fields.len(),
{
    if fields.len() > 0 {
        lemma_result_is_normal(fields[0].1, st, f);
        lemma_result_of_record(fields.drop_first(), st, f);
        match reduce_expr(fields[0].1, st, f) {
            Ok(head) => match reduce_record(fields.drop_first(), st, f) {
                Ok(rest) => {
                    let all = seq![(fields[0].0, head)] + rest;
                    assert forall|i: int| 0 <= i < all.len() implies normal_expr(
                        (#[trigger] all[i]).1,
                        st,
                    ) by {
                        if i > 0 {
                            assert(all[i] == rest[i - 1]);
                        }
                    }
                },
                Err(_) => {},
            },
            Err(_) => {},
        }
    }
}

proof fn lemma_result_of_entries(entries: EntriesV, st: TableV, f: nat)
    requires
        table_wf(st),
    ensures
        reduce_entries(entries, st, f) matches Ok(r) ==> normal_entries(r, st),
    decreases f, 2nat, entries.len(),
{
    if entries.len() > 0 {
        lemma_result_of_opt(entries[0].1, st, f);
        lemma_result_of_entries(entries.drop_first(), st, f);
        match reduce_opt(entries[0].1, st, f) {
            Ok(head) => match reduce_entries(entries.drop_first(), st, f) {
                Ok(rest) => {
                    let all = seq![(entries[0].0, head)] + rest;
                    assert forall|i: int| 0 <= i < all.len() implies normal_opt(
                        (#[trigger] all[i]).1,
                        st,
                    ) by {
                        if i > 0 {
                            assert(all[i] == rest[i - 1]);
                        }
                    }
                },
                Err(_) => {},
            },
            Err(_) => {},
        }
    }
}

proof fn lemma_result_of_bind_lets(defs: LetsV, st: TableV, f: nat)
    requires
        table_wf(st),
    ensures
        bind_lets(defs, st, f) matches Ok(inner) ==> table_wf(inner),
    decreases f, 2nat, defs.len(),
{
    if defs.len() > 0 {
        match reduce_opt(defs[0].1, st, f) {
            Ok(typ) => match reduce_expr(defs[0].2, st, f) {
                Ok(value) => {
                    lemma_bind_keeps_wf(st, defs[0].0, typ, Some(value));
                    lemma_result_of_bind_lets(defs.drop_first(), bind(st, defs[0].0, typ, Some(value)), f);
                },
                Err(_) => {},
            },
            Err(_) => {},
        }
    }
}

proof fn lemma_result_of_let(defs: LetsV, body: ExprV, st: TableV, f: nat)
    requires
        table_wf(st),
    ensures
        reduce_let(defs, body, st, f) matches Ok(n) ==> normal_expr(n, st),
    decreases f, 3nat, 0nat,
{
    lemma_result_of_bind_lets(defs, st, f);
    match bind_lets(defs, st, f) {
        Ok(inner) => match reduce_expr(body, inner, f) {
            Ok(reduced) => lemma_result_of_leave(reduced, st, f),
            Err(_) => {},
        },
        Err(_) => {},
    }
}

proof fn lemma_result_of_lambda(name: Name, typ: Option<Box<ExprV>>, body: ExprV, st: TableV, f: nat)
    requires
        table_wf(st),
    ensures
        reduce_lambda(name, typ, body, st, f) matches Ok(n) ==> normal_expr(n, st),
    decreases f, 3nat, 0nat,
{
    lemma_result_of_opt(unboxed(typ), st, f);
    lemma_bind_keeps_wf(st, name, None, None);
    lemma_result_is_normal(body, bind(st, name, None, None), f);
    match reduce_opt(unboxed(typ), st, f) {
        Ok(typ2) => match reduce_expr(body, bind(st, name, None, None), f) {
            Ok(body2) => {
                assert(unboxed(boxed(typ2)) == typ2);
                assert(normal_expr(ExprV::Lambda(name, boxed(typ2), Box::new(body2)), st));
            },
            Err(_) => {},
        },
        Err(_) => {},
    }
}

pub proof fn lemma_under_binder_wf(st: TableV, name: Option<Name>)
    requires
        table_wf(st),
    ensures
        table_wf(under_binder(st, name)),
{
    match name {
        Some(n) => lemma_bind_keeps_wf(st, n, None, None),
        None => lemma_push_keeps_wf(st),
    }
}

proof fn lemma_result_of_arrow(name: Option<Name>, a: ExprV, b: ExprV, st: TableV, f: nat)
    requires
        table_wf(st),
    ensures
        reduce_arrow(name, a, b, st, f) matches Ok(n) ==> normal_expr(n, st),
    decreases f, 3nat, 0nat,
{
    lemma_result_is_normal(a, st, f);
    lemma_under_binder_wf(st, name);
    lemma_result_is_normal(b, under_binder(st, name), f);
    match reduce_expr(a, st, f) {
        Ok(a2) => match reduce_expr(b, under_binder(st, name), f) {
            Ok(b2) => {
                let n = Term1V::Arrow(name, Box::new(a2), Box::new(b2));
                assert(normal_term1(n, st));
                lemma_normal_as_expr(n, st);
            },
            Err(_) => {},
        },
        Err(_) => {},
    }
}

proof fn lemma_update_normal(base: Term1V, path: PathV, value: Term1V, st: TableV)
    requires
        settled_term1(base, st),
        settled_term1(value, st),
    ensures
        update(base, path, value, st) matches Ok(n) ==> normal_expr(n, st),
{
    lemma_unplaced_normal(value, st);
    match base {
        Term1V::Term(TermV::Record(fields)) => {
            lemma_settled_record(base, st);
            if splice(fields, path, unplaced(value)) is Some {
                lemma_splice_normal(fields, path, unplaced(value), st);
                let updated = splice(fields, path, unplaced(value))->0;
                assert(normal_term(TermV::Record(updated), st));
                lemma_normal_term_as_expr(TermV::Record(updated), st);
            }
        },
        other => {
            let n = Term1V::With(Box::new(other), path, Box::new(value));
            if update(base, path, value, st) is Ok {
                assert(normal_term1(n, st));
                lemma_normal_as_expr(n, st);
            }
        },
    }
}

proof fn lemma_result_of_with(t: Term1V, path: PathV, v: Term1V, st: TableV, f: nat)
    requires
        table_wf(st),
    ensures
        reduce_with(t, path, v, st, f) matches Ok(n) ==> normal_expr(n, st),
    decreases f, 3nat, 0nat,
{
    lemma_result_of_placed_term1(t, st, f);
    lemma_result_of_placed_term1(v, st, f);
    match placed_term1(t, st, f) {
        Ok(base) => match placed_term1(v, st, f) {
            Ok(value) => lemma_update_normal(base, path, value, st),
            Err(_) => {},
        },
        Err(_) => {},
    }
}

proof fn lemma_result_of_operation(a: Term1V, op: Name, b: Term1V, st: TableV, f: nat)
    requires
        table_wf(st),
    ensures
        reduce_operation(a, op, b, st, f) matches Ok(n) ==> normal_expr(n, st),
    decreases f, 3nat, 0nat,
{
    lemma_result_of_placed_term1(a, st, f);
    lemma_result_of_placed_term1(b, st, f);
    match placed_term1(a, st, f) {
        Ok(a2) => match placed_term1(b, st, f) {
            Ok(b2) => {
                let n = Term1V::Operation(Box::new(a2), op, Box::new(b2));
                assert(normal_term1(n, st));
                lemma_normal_as_expr(n, st);
            },
            Err(_) => {},
        },
        Err(_) => {},
    }
}

proof fn lemma_result_of_ascribe(t: Term1V, typ: ExprV, st: TableV, f: nat)
    requires
        table_wf(st),
    ensures
        reduce_ascribe(t, typ, st, f) matches Ok(n) ==> normal_expr(n, st),
    decreases f, 3nat, 0nat,
{
    lemma_result_of_placed_term1(t, st, f);
    match placed_term1(t, st, f) {
        Ok(term) => lemma_unplaced_normal(term, st),
        Err(_) => {},
    }
}

proof fn lemma_result_of_if(c: ExprV, a: ExprV, b: ExprV, st: TableV, f: nat)
    requires
        table_wf(st),
    ensures
        reduce_if(c, a, b, st, f) matches Ok(n) ==> normal_expr(n, st),
    decreases f, 3nat, 0nat,
{
    lemma_result_is_normal(a, st, f);
    lemma_result_is_normal(b, st, f);
    lemma_result_is_normal(c, st, f);
    match reduce_expr(a, st, f) {
        Ok(a2) => match reduce_expr(b, st, f) {
            Ok(b2) => match reduce_expr(c, st, f) {
                Ok(c2) => {
                    let n = Term1V::IfThenElse(Box::new(c2), Box::new(a2), Box::new(b2));
                    if choose_branch(c2, a2, b2, st) == Ok::<ExprV, Error>(ExprV::Term1(n)) {
                        if choose_branch(c2, a2, b2, st) != Ok::<ExprV, Error>(a2)
                            && choose_branch(c2, a2, b2, st) != Ok::<ExprV, Error>(b2) {
                            assert(normal_term1(n, st));
                            lemma_normal_as_expr(n, st);
                        }
                    }
                },
                Err(_) => {},
            },
            Err(_) => {},
        },
        Err(_) => {},
    }
}

proof fn lemma_result_of_apply(func: Term1V, arg: TermV, st: TableV, f: nat)
    requires
        table_wf(st),
        settled_term1(func, st),
        settled_term(arg, st),
    ensures
        apply(func, arg, st, f) matches Ok(n) ==> normal_expr(n, st),
    decreases f, 3nat, 0nat,
{
    match as_lambda(func) {
        Some((name, typ, body)) => {
            let inner = under_argument(st, name, arg);
            lemma_bind_keeps_wf(st, name, None, Some(of_term(arg)));
            lemma_push_keeps_wf(st);
            match reduce_opt(unboxed(typ), inner, f) {
                Ok(_) => match reduce_expr(body, inner, f) {
                    Ok(reduced) => lemma_result_of_leave(reduced, st, f),
                    Err(_) => {},
                },
                Err(_) => {},
            }
        },
        None => {
            let n = Term1V::Evaluation(Box::new(func), arg);
            if apply(func, arg, st, f) is Ok {
                assert(normal_term1(n, st));
                lemma_normal_as_expr(n, st);
            }
        },
    }
}

proof fn lemma_result_of_evaluation(func: Term1V, arg: TermV, st: TableV, f: nat)
    requires
        table_wf(st),
    ensures
        reduce_evaluation(func, arg, st, f) matches Ok(n) ==> normal_expr(n, st),
    decreases f, 4nat, 0nat,
{
    lemma_result_of_placed_term1(func, st, f);
    lemma_result_of_placed_term(arg, st, f);
    match placed_term1(func, st, f) {
        Ok(func) => match placed_term(arg, st, f) {
            Ok(arg) => lemma_result_of_apply(func, arg, st, f),
            Err(_) => {},
        },
        Err(_) => {},
    }
}

proof fn lemma_result_of_dispatch(table: RecordV, tag: Name, arg: TermV, st: TableV, f: nat)
    requires
        table_wf(st),
    ensures
        dispatch(table, tag, arg, st, f) matches Ok(n) ==> normal_expr(n, st),
    decreases f, 2nat, table.len(),
{
    if table.len() > 0 {
        match reduce_expr(table[0].1, st, f) {
            Ok(handler) => {
                if leads_with(table[0].0, tag) {
                    if handler is Lambda {
                        lemma_result_is_normal(
                            ExprV::Term1(
                                Term1V::Evaluation(
                                    Box::new(Term1V::Term(TermV::Expr(Box::new(handler)))),
                                    arg,
                                ),
                            ),
                            st,
                            f,
                        );
                    }
                } else {
                    lemma_result_of_dispatch(table.drop_first(), tag, arg, st, f);
                }
            },
            Err(_) => {},
        }
    }
}

proof fn lemma_result_of_merge(table: RecordV, t: TermV, st: TableV, f: nat)
    requires
        table_wf(st),
    ensures
        reduce_merge(table, t, st, f) matches Ok(n) ==> normal_expr(n, st),
    decreases f, 3nat, 0nat,
{
    lemma_result_of_placed_term(t, st, f);
    match placed_term(t, st, f) {
        Ok(t2) => match as_tagged(t2) {
            Some((tag, arg)) => lemma_result_of_dispatch(table, tag, arg, st, f),
            None => {
                let n = TermV::Merge(table, Box::new(t2));
                if reduce_merge(table, t, st, f) is Ok {
                    assert(normal_term(n, st));
                    lemma_normal_term_as_expr(n, st);
                }
            },
        },
        Err(_) => {},
    }
}

proof fn lemma_result_of_project(style: u8, t: TermV, names: Seq<Name>, st: TableV, f: nat)
    requires
        table_wf(st),
    ensures
        reduce_project(style, t, names, st, f) matches Ok(n) ==> normal_expr(n, st),
    decreases f, 3nat, 0nat,
{
    lemma_result_of_placed_term(t, st, f);
    match placed_term(t, st, f) {
        Ok(TermV::Record(fields)) => {
            lemma_settled_term_record(TermV::Record(fields), st);
            lemma_keep_selected_normal(fields, names, st);
            let n = TermV::Record(keep_selected(fields, names));
            assert(normal_term(n, st));
            lemma_normal_term_as_expr(n, st);
        },
        Ok(other) => {
            let n = TermV::Project(style, Box::new(other), names);
            if reduce_project(style, t, names, st, f) is Ok {
                assert(normal_term(n, st));
                lemma_normal_term_as_expr(n, st);
            }
        },
        Err(_) => {},
    }
}

proof fn lemma_result_of_field_access(t: TermV, name: Name, st: TableV, f: nat)
    requires
        table_wf(st),
    ensures
        reduce_field_access(t, name, st, f) matches Ok(n) ==> normal_expr(n, st),
    decreases f, 3nat, 0nat,
{
    lemma_result_of_placed_term(t, st, f);
    match placed_term(t, st, f) {
        Ok(TermV::Record(fields)) => {
            lemma_result_of_record(keep_leading(fields, name), st, f);
            match reduce_record(keep_leading(fields, name), st, f) {
                Ok(reduced) => {
                    let stripped = strip_heads(reduced);
                    assert forall|i: int| 0 <= i < stripped.len() implies normal_expr(
                        (#[trigger] stripped[i]).1,
                        st,
                    ) by {
                        assert(stripped[i].1 == reduced[i].1);
                    }
                    lemma_settle_normal(stripped, st);
                },
                Err(_) => {},
            }
        },
        Ok(other) => {
            let n = TermV::FieldAccess(Box::new(other), name);
            if reduce_field_access(t, name, st, f) is Ok {
                assert(normal_term(n, st));
                lemma_normal_term_as_expr(n, st);
            }
        },
        Err(_) => {},
    }
}

proof fn lemma_result_of_var(name: Name, distance: nat, resolved: Option<nat>, st: TableV, f: nat)
    requires
        table_wf(st),
    ensures
        reduce_var(name, distance, resolved, st, f) matches Ok(n) ==> normal_expr(n, st),
    decreases f, 3nat, 0nat,
{
    match resolve(st, name, distance, resolved) {
        Some(info) => match info.value {
            Some(v) => lemma_result_is_normal(forget_expr(v, info.scope_id), st, f),
            None => {
                let id = match resolved {
                    Some(id) => id,
                    None => info.scope_id,
                };
                if resolved is None {
                    lemma_resolved_reference_is_not_captured(st, name, distance, Seq::empty());
                    assert(st + Seq::<Map<Name, InfoV>>::empty() =~= st);
                }
                let n = TermV::Var(name, distance, Some(id));
                assert(normal_term(n, st));
                lemma_normal_term_as_expr(n, st);
            },
        },
        None => {},
    }
}

proof fn lemma_result_of_term(t: TermV, st: TableV, f: nat)
    requires
        table_wf(st),
    ensures
        reduce_term(t, st, f) matches Ok(n) ==> normal_expr(n, st),
    decreases f, 5nat, 0nat,
{
    match t {
        TermV::Var(name, distance, resolved) => lemma_result_of_var(name, distance, resolved, st, f),
        TermV::Text(style, entries) => {
            lemma_result_of_entries(entries, st, f);
            match reduce_entries(entries, st, f) {
                Ok(r) => {
                    assert(normal_term(TermV::Text(style, r), st));
                    lemma_normal_term_as_expr(TermV::Text(style, r), st);
                },
                Err(_) => {},
            }
        },
        TermV::List(items) => {
            lemma_result_of_vals(items, st, f);
            match reduce_vals(items, st, f) {
                Ok(r) => {
                    assert(normal_term(TermV::List(r), st));
                    lemma_normal_term_as_expr(TermV::List(r), st);
                },
                Err(_) => {},
            }
        },
        TermV::Record(fields) => {
            lemma_result_of_record(fields, st, f);
            match reduce_record(fields, st, f) {
                Ok(r) => {
                    assert(normal_term(TermV::Record(r), st));
                    lemma_normal_term_as_expr(TermV::Record(r), st);
                },
                Err(_) => {},
            }
        },
        TermV::TypeRecord(fields) => {
            lemma_result_of_record(fields, st, f);
            match reduce_record(fields, st, f) {
                Ok(r) => {
                    assert(normal_term(TermV::TypeRecord(r), st));
                    lemma_normal_term_as_expr(TermV::TypeRecord(r), st);
                },
                Err(_) => {},
            }
        },
        TermV::TypeEnum(alts) => {
            lemma_result_of_entries(alts, st, f);
            match reduce_entries(alts, st, f) {
                Ok(r) => {
                    assert(normal_term(TermV::TypeEnum(r), st));
                    lemma_normal_term_as_expr(TermV::TypeEnum(r), st);
                },
                Err(_) => {},
            }
        },
        TermV::Expr(e) => lemma_result_is_normal(*e, st, f),
        TermV::Project(style, inner, names) => lemma_result_of_project(style, *inner, names, st, f),
        TermV::FieldAccess(inner, name) => lemma_result_of_field_access(*inner, name, st, f),
        TermV::Merge(table, inner) => lemma_result_of_merge(table, *inner, st, f),
        TermV::Integer(..) | TermV::Double(..) | TermV::Path(..) | TermV::Import { .. }
        | TermV::Embed(..) => {
            assert(normal_term(t, st));
            lemma_normal_term_as_expr(t, st);
        },
    }
}

} // verus!
