use vstd::prelude::*;
use crate::ast::{EntriesV, ExprV, LetsV, Name, PathV, RecordV, Term1V, TermV};
use crate::error::{Error, Result};
use crate::semantics::{
    apply, as_lambda, as_tagged, bind_lets, dispatch, keep_leading, leads_with, of_term,
    placed_term, placed_term1, reduce_arrow, reduce_ascribe, reduce_entries, reduce_evaluation,
    reduce_expr, reduce_field_access, reduce_if, reduce_lambda, reduce_let, reduce_merge,
    reduce_operation, reduce_opt, reduce_project, reduce_record, reduce_term, reduce_vals,
    reduce_var, reduce_with, resolve, leave_scopes, unboxed, under_argument, under_binder,
    unplaced, unplaced_term,
};
use crate::forget::forget_expr;
use crate::sym_table::{bind, TableV};

verus! {

/// Whether a reduction came to an end within the depth that it was given.
pub open spec fn within_depth<T>(r: Result<T>) -> bool {
    r != Err::<T, Error>(Error::DepthLimit)
}

/// A reduction that comes to an end within some depth comes to the same end within any
/// greater depth: the limit shows in no result but `DepthLimit`.
pub proof fn lemma_more_depth_changes_nothing(e: ExprV, st: TableV, fuel: nat, more: nat)
    requires
        fuel <= more,
        within_depth(reduce_expr(e, st, fuel)),
    ensures
        reduce_expr(e, st, more) == reduce_expr(e, st, fuel),
    decreases fuel, 0nat, 0nat,
{
    let f = (fuel - 1) as nat;
    let g = (more - 1) as nat;
    match e {
        ExprV::Let(defs, body) => lemma_let(defs, *body, st, f, g),
        ExprV::Lambda(name, typ, body) => lemma_lambda(name, typ, *body, st, f, g),
        ExprV::Term1(Term1V::Term(t)) => lemma_term(t, st, f, g),
        ExprV::Term1(Term1V::Evaluation(func, arg)) => lemma_evaluation(*func, arg, st, f, g),
        ExprV::Term1(Term1V::Arrow(name, a, b)) => lemma_arrow(name, *a, *b, st, f, g),
        ExprV::Term1(Term1V::With(t, path, v)) => lemma_with(*t, path, *v, st, f, g),
        ExprV::Term1(Term1V::Operation(a, op, b)) => lemma_operation(*a, op, *b, st, f, g),
        ExprV::Term1(Term1V::IfThenElse(c, a, b)) => lemma_if(*c, *a, *b, st, f, g),
        ExprV::Term1(Term1V::Ascribe(t, typ)) => lemma_ascribe(*t, *typ, st, f, g),
        ExprV::Term1(Term1V::Construct(..)) => {},
    }
}

proof fn lemma_placed_term1(t: Term1V, st: TableV, f: nat, g: nat)
    requires
        f <= g,
        within_depth(placed_term1(t, st, f)),
    ensures
        placed_term1(t, st, g) == placed_term1(t, st, f),
    decreases f, 1nat, 0nat,
{
    lemma_more_depth_changes_nothing(unplaced(t), st, f, g);
}

proof fn lemma_placed_term(t: TermV, st: TableV, f: nat, g: nat)
    requires
        f <= g,
        within_depth(placed_term(t, st, f)),
    ensures
        placed_term(t, st, g) == placed_term(t, st, f),
    decreases f, 1nat, 0nat,
{
    lemma_more_depth_changes_nothing(unplaced_term(t), st, f, g);
}

proof fn lemma_opt(v: Option<ExprV>, st: TableV, f: nat, g: nat)
    requires
        f <= g,
        within_depth(reduce_opt(v, st, f)),
    ensures
        reduce_opt(v, st, g) == reduce_opt(v, st, f),
    decreases f, 1nat, 0nat,
{
    match v {
        Some(e) => lemma_more_depth_changes_nothing(e, st, f, g),
        None => {},
    }
}

proof fn lemma_vals(items: Seq<ExprV>, st: TableV, f: nat, g: nat)
    requires
        f <= g,
        within_depth(reduce_vals(items, st, f)),
    ensures
        reduce_vals(items, st, g) == reduce_vals(items, st, f),
    decreases f, 2nat, items.len(),
{
    if items.len() > 0 {
        lemma_more_depth_changes_nothing(items[0], st, f, g);
        if reduce_expr(items[0], st, f) is Ok {
            lemma_vals(items.drop_first(), st, f, g);
        }
    }
}

proof fn lemma_record(fields: RecordV, st: TableV, f: nat, g: nat)
    requires
        f <= g,
        within_depth(reduce_record(fields, st, f)),
    ensures
        reduce_record(fields, st, g) == reduce_record(fields, st, f),
    decreases f, 2nat, fields.len(),
{
    if fields.len() > 0 {
        lemma_more_depth_changes_nothing(fields[0].1, st, f, g);
        if reduce_expr(fields[0].1, st, f) is Ok {
            lemma_record(fields.drop_first(), st, f, g);
        }
    }
}

proof fn lemma_entries(entries: EntriesV, st: TableV, f: nat, g: nat)
    requires
        f <= g,
        within_depth(reduce_entries(entries, st, f)),
    ensures
        reduce_entries(entries, st, g) == reduce_entries(entries, st, f),
    decreases f, 2nat, entries.len(),
{
    if entries.len() > 0 {
        lemma_opt(entries[0].1, st, f, g);
        if reduce_opt(entries[0].1, st, f) is Ok {
            lemma_entries(entries.drop_first(), st, f, g);
        }
    }
}

proof fn lemma_bind_lets(defs: LetsV, st: TableV, f: nat, g: nat)
    requires
        f <= g,
        within_depth(bind_lets(defs, st, f)),
    ensures
        bind_lets(defs, st, g) == bind_lets(defs, st, f),
    decreases f, 2nat, defs.len(),
{
    if defs.len() > 0 {
        lemma_opt(defs[0].1, st, f, g);
        match reduce_opt(defs[0].1, st, f) {
            Ok(typ) => {
                lemma_more_depth_changes_nothing(defs[0].2, st, f, g);
                match reduce_expr(defs[0].2, st, f) {
                    Ok(value) => {
                        lemma_bind_lets(
                            defs.drop_first(),
                            bind(st, defs[0].0, typ, Some(value)),
                            f,
                            g,
                        );
                    },
                    Err(_) => {},
                }
            },
            Err(_) => {},
        }
    }
}

proof fn lemma_let(defs: LetsV, body: ExprV, st: TableV, f: nat, g: nat)
    requires
        f <= g,
        within_depth(reduce_let(defs, body, st, f)),
    ensures
        reduce_let(defs, body, st, g) == reduce_let(defs, body, st, f),
    decreases f, 3nat, 0nat,
{
    lemma_bind_lets(defs, st, f, g);
    match bind_lets(defs, st, f) {
        Ok(inner) => {
            lemma_more_depth_changes_nothing(body, inner, f, g);
            match reduce_expr(body, inner, f) {
                Ok(reduced) => lemma_leave(reduced, st, f, g),
                Err(_) => {},
            }
        },
        Err(_) => {},
    }
}

proof fn lemma_leave(body: ExprV, st: TableV, f: nat, g: nat)
    requires
        f <= g,
        within_depth(leave_scopes(body, st, f)),
    ensures
        leave_scopes(body, st, g) == leave_scopes(body, st, f),
    decreases f, 1nat, 0nat,
{
    lemma_more_depth_changes_nothing(forget_expr(body, st.len()), st, f, g);
}

proof fn lemma_var(name: Name, distance: nat, resolved: Option<nat>, st: TableV, f: nat, g: nat)
    requires
        f <= g,
        within_depth(reduce_var(name, distance, resolved, st, f)),
    ensures
        reduce_var(name, distance, resolved, st, g) == reduce_var(name, distance, resolved, st, f),
    decreases f, 3nat, 0nat,
{
    match resolve(st, name, distance, resolved) {
        Some(info) => match info.value {
            Some(v) => lemma_more_depth_changes_nothing(forget_expr(v, info.scope_id), st, f, g),
            None => {},
        },
        None => {},
    }
}

proof fn lemma_lambda(name: Name, typ: Option<Box<ExprV>>, body: ExprV, st: TableV, f: nat, g: nat)
    requires
        f <= g,
        within_depth(reduce_lambda(name, typ, body, st, f)),
    ensures
        reduce_lambda(name, typ, body, st, g) == reduce_lambda(name, typ, body, st, f),
    decreases f, 3nat, 0nat,
{
    lemma_opt(unboxed(typ), st, f, g);
    if reduce_opt(unboxed(typ), st, f) is Ok {
        lemma_more_depth_changes_nothing(body, bind(st, name, None, None), f, g);
    }
}

proof fn lemma_arrow(name: Option<Name>, a: ExprV, b: ExprV, st: TableV, f: nat, g: nat)
    requires
        f <= g,
        within_depth(reduce_arrow(name, a, b, st, f)),
    ensures
        reduce_arrow(name, a, b, st, g) == reduce_arrow(name, a, b, st, f),
    decreases f, 3nat, 0nat,
{
    lemma_more_depth_changes_nothing(a, st, f, g);
    if reduce_expr(a, st, f) is Ok {
        lemma_more_depth_changes_nothing(b, under_binder(st, name), f, g);
    }
}

proof fn lemma_with(t: Term1V, path: PathV, v: Term1V, st: TableV, f: nat, g: nat)
    requires
        f <= g,
        within_depth(reduce_with(t, path, v, st, f)),
    ensures
        reduce_with(t, path, v, st, g) == reduce_with(t, path, v, st, f),
    decreases f, 3nat, 0nat,
{
    lemma_placed_term1(t, st, f, g);
    if placed_term1(t, st, f) is Ok {
        lemma_placed_term1(v, st, f, g);
    }
}

proof fn lemma_operation(a: Term1V, op: Name, b: Term1V, st: TableV, f: nat, g: nat)
    requires
        f <= g,
        within_depth(reduce_operation(a, op, b, st, f)),
    ensures
        reduce_operation(a, op, b, st, g) == reduce_operation(a, op, b, st, f),
    decreases f, 3nat, 0nat,
{
    lemma_placed_term1(a, st, f, g);
    if placed_term1(a, st, f) is Ok {
        lemma_placed_term1(b, st, f, g);
    }
}

proof fn lemma_ascribe(t: Term1V, typ: ExprV, st: TableV, f: nat, g: nat)
    requires
        f <= g,
        within_depth(reduce_ascribe(t, typ, st, f)),
    ensures
        reduce_ascribe(t, typ, st, g) == reduce_ascribe(t, typ, st, f),
    decreases f, 3nat, 0nat,
{
    lemma_placed_term1(t, st, f, g);
    if placed_term1(t, st, f) is Ok {
        lemma_more_depth_changes_nothing(typ, st, f, g);
    }
}

proof fn lemma_if(c: ExprV, a: ExprV, b: ExprV, st: TableV, f: nat, g: nat)
    requires
        f <= g,
        within_depth(reduce_if(c, a, b, st, f)),
    ensures
        reduce_if(c, a, b, st, g) == reduce_if(c, a, b, st, f),
    decreases f, 3nat, 0nat,
{
    lemma_more_depth_changes_nothing(a, st, f, g);
    if reduce_expr(a, st, f) is Ok {
        lemma_more_depth_changes_nothing(b, st, f, g);
        if reduce_expr(b, st, f) is Ok {
            lemma_more_depth_changes_nothing(c, st, f, g);
        }
    }
}

proof fn lemma_apply(func: Term1V, arg: TermV, st: TableV, f: nat, g: nat)
    requires
        f <= g,
        within_depth(apply(func, arg, st, f)),
    ensures
        apply(func, arg, st, g) == apply(func, arg, st, f),
    decreases f, 3nat, 0nat,
{
    match as_lambda(func) {
        Some((name, typ, body)) => {
            let inner = under_argument(st, name, arg);
            lemma_opt(unboxed(typ), inner, f, g);
            if reduce_opt(unboxed(typ), inner, f) is Ok {
                lemma_more_depth_changes_nothing(body, inner, f, g);
                match reduce_expr(body, inner, f) {
                    Ok(reduced) => lemma_leave(reduced, st, f, g),
                    Err(_) => {},
                }
            }
        },
        None => {},
    }
}

proof fn lemma_evaluation(func: Term1V, arg: TermV, st: TableV, f: nat, g: nat)
    requires
        f <= g,
        within_depth(reduce_evaluation(func, arg, st, f)),
    ensures
        reduce_evaluation(func, arg, st, g) == reduce_evaluation(func, arg, st, f),
    decreases f, 4nat, 0nat,
{
    lemma_placed_term1(func, st, f, g);
    match placed_term1(func, st, f) {
        Ok(func) => {
            lemma_placed_term(arg, st, f, g);
            match placed_term(arg, st, f) {
                Ok(arg) => lemma_apply(func, arg, st, f, g),
                Err(_) => {},
            }
        },
        Err(_) => {},
    }
}

proof fn lemma_dispatch(table: RecordV, tag: Name, arg: TermV, st: TableV, f: nat, g: nat)
    requires
        f <= g,
        within_depth(dispatch(table, tag, arg, st, f)),
    ensures
        dispatch(table, tag, arg, st, g) == dispatch(table, tag, arg, st, f),
    decreases f, 2nat, table.len(),
{
    if table.len() > 0 {
        lemma_more_depth_changes_nothing(table[0].1, st, f, g);
        match reduce_expr(table[0].1, st, f) {
            Ok(handler) => {
                if leads_with(table[0].0, tag) {
                    if handler is Lambda {
                        lemma_more_depth_changes_nothing(
                            ExprV::Term1(
                                Term1V::Evaluation(
                                    Box::new(Term1V::Term(TermV::Expr(Box::new(handler)))),
                                    arg,
                                ),
                            ),
                            st,
                            f,
                            g,
                        );
                    }
                } else {
                    lemma_dispatch(table.drop_first(), tag, arg, st, f, g);
                }
            },
            Err(_) => {},
        }
    }
}

proof fn lemma_merge(table: RecordV, t: TermV, st: TableV, f: nat, g: nat)
    requires
        f <= g,
        within_depth(reduce_merge(table, t, st, f)),
    ensures
        reduce_merge(table, t, st, g) == reduce_merge(table, t, st, f),
    decreases f, 3nat, 0nat,
{
    lemma_placed_term(t, st, f, g);
    match placed_term(t, st, f) {
        Ok(t) => match as_tagged(t) {
            Some((tag, arg)) => lemma_dispatch(table, tag, arg, st, f, g),
            None => {},
        },
        Err(_) => {},
    }
}

proof fn lemma_project(style: u8, t: TermV, names: Seq<Name>, st: TableV, f: nat, g: nat)
    requires
        f <= g,
        within_depth(reduce_project(style, t, names, st, f)),
    ensures
        reduce_project(style, t, names, st, g) == reduce_project(style, t, names, st, f),
    decreases f, 3nat, 0nat,
{
    lemma_placed_term(t, st, f, g);
}

proof fn lemma_field_access(t: TermV, name: Name, st: TableV, f: nat, g: nat)
    requires
        f <= g,
        within_depth(reduce_field_access(t, name, st, f)),
    ensures
        reduce_field_access(t, name, st, g) == reduce_field_access(t, name, st, f),
    decreases f, 3nat, 0nat,
{
    lemma_placed_term(t, st, f, g);
    match placed_term(t, st, f) {
        Ok(TermV::Record(fields)) => lemma_record(keep_leading(fields, name), st, f, g),
        _ => {},
    }
}

proof fn lemma_term(t: TermV, st: TableV, f: nat, g: nat)
    requires
        f <= g,
        within_depth(reduce_term(t, st, f)),
    ensures
        reduce_term(t, st, g) == reduce_term(t, st, f),
    decreases f, 5nat, 0nat,
{
    match t {
        TermV::Var(name, distance, resolved) => lemma_var(name, distance, resolved, st, f, g),
        TermV::Text(_, entries) => lemma_entries(entries, st, f, g),
        TermV::List(items) => lemma_vals(items, st, f, g),
        TermV::Record(fields) => lemma_record(fields, st, f, g),
        TermV::TypeRecord(fields) => lemma_record(fields, st, f, g),
        TermV::TypeEnum(alts) => lemma_entries(alts, st, f, g),
        TermV::Expr(e) => lemma_more_depth_changes_nothing(*e, st, f, g),
        TermV::Project(style, inner, names) => lemma_project(style, *inner, names, st, f, g),
        TermV::FieldAccess(inner, name) => lemma_field_access(*inner, name, st, f, g),
        TermV::Merge(table, inner) => lemma_merge(table, *inner, st, f, g),
        _ => {},
    }
}

} // verus!
