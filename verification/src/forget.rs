use std::collections::VecDeque;
use vstd::prelude::*;
use vstd::std_specs::vecdeque::VecDequeAdditionalSpecFns;
use crate::ast::{
    boxed_opt_view, copy_path, entries_view, expr_view, lets_view, opt_view, path_view,
    record_view, vals_view, Deq, EntriesV, Expr, ExprV, LetStmt, LetsV,
    RecordData, RecordV, Term, Term1, Term1V, TermV, Val,
};
use crate::semantics::{boxed, unboxed};

verus! {

broadcast use vstd::std_specs::vecdeque::group_vec_dequeue_axioms;

/// The scope that stays noted on a reference when the scopes from `from` on are left
/// behind: an earlier scope stays, a later one is forgotten.
pub open spec fn forget_id(resolved: Option<nat>, from: nat) -> Option<nat> {
    match resolved {
        Some(id) => if id >= from {
            None
        } else {
            Some(id)
        },
        None => None,
    }
}

/// The expression with the scope forgotten that is noted on a reference, wherever that
/// scope is `from` or a later one.
pub open spec fn forget_expr(e: ExprV, from: nat) -> ExprV
    decreases e,
{
    match e {
        ExprV::Term1(t) => ExprV::Term1(forget_term1(t, from)),
        ExprV::Let(defs, body) => ExprV::Let(
            forget_lets(defs, from),
            Box::new(forget_expr(*body, from)),
        ),
        ExprV::Lambda(n, typ, body) => ExprV::Lambda(
            n,
            boxed(forget_opt(unboxed(typ), from)),
            Box::new(forget_expr(*body, from)),
        ),
    }
}

/// The `Term1` with the noted scopes from `from` on forgotten.
pub open spec fn forget_term1(t: Term1V, from: nat) -> Term1V
    decreases t,
{
    match t {
        Term1V::Term(inner) => Term1V::Term(forget_term(inner, from)),
        Term1V::Evaluation(f, x) => Term1V::Evaluation(
            Box::new(forget_term1(*f, from)),
            forget_term(x, from),
        ),
        Term1V::Arrow(n, a, b) => Term1V::Arrow(
            n,
            Box::new(forget_expr(*a, from)),
            Box::new(forget_expr(*b, from)),
        ),
        Term1V::With(a, path, b) => Term1V::With(
            Box::new(forget_term1(*a, from)),
            path,
            Box::new(forget_term1(*b, from)),
        ),
        Term1V::Operation(a, op, b) => Term1V::Operation(
            Box::new(forget_term1(*a, from)),
            op,
            Box::new(forget_term1(*b, from)),
        ),
        Term1V::IfThenElse(c, a, b) => Term1V::IfThenElse(
            Box::new(forget_expr(*c, from)),
            Box::new(forget_expr(*a, from)),
            Box::new(forget_expr(*b, from)),
        ),
        Term1V::Ascribe(a, b) => Term1V::Ascribe(
            Box::new(forget_term1(*a, from)),
            Box::new(forget_expr(*b, from)),
        ),
        Term1V::Construct(a, data) => Term1V::Construct(
            Box::new(forget_term1(*a, from)),
            forget_record(data, from),
        ),
    }
}

/// The `Term` with the noted scopes from `from` on forgotten. The terms of a path are
/// left as they are.
pub open spec fn forget_term(t: TermV, from: nat) -> TermV
    decreases t,
{
    match t {
        TermV::Var(n, distance, resolved) => TermV::Var(n, distance, forget_id(resolved, from)),
        TermV::FieldAccess(inner, field) => TermV::FieldAccess(
            Box::new(forget_term(*inner, from)),
            field,
        ),
        TermV::Project(style, inner, names) => TermV::Project(
            style,
            Box::new(forget_term(*inner, from)),
            names,
        ),
        TermV::Text(style, entries) => TermV::Text(style, forget_entries(entries, from)),
        TermV::List(items) => TermV::List(forget_vals(items, from)),
        TermV::Record(fields) => TermV::Record(forget_record(fields, from)),
        TermV::TypeRecord(fields) => TermV::TypeRecord(forget_record(fields, from)),
        TermV::TypeEnum(alts) => TermV::TypeEnum(forget_entries(alts, from)),
        TermV::Expr(e) => TermV::Expr(Box::new(forget_expr(*e, from))),
        TermV::Merge(table, inner) => TermV::Merge(
            forget_record(table, from),
            Box::new(forget_term(*inner, from)),
        ),
        TermV::Integer(..) | TermV::Double(..) | TermV::Path(..) | TermV::Import { .. }
        | TermV::Embed(..) => t,
    }
}

/// An optional expression with the noted scopes forgotten, where there is one.
pub open spec fn forget_opt(v: Option<ExprV>, from: nat) -> Option<ExprV>
    decreases v,
{
    match v {
        Some(e) => Some(forget_expr(e, from)),
        None => None,
    }
}

/// Each item with the noted scopes forgotten.
pub open spec fn forget_vals(items: Seq<ExprV>, from: nat) -> Seq<ExprV>
    decreases items,
{
    Seq::new(
        items.len(),
        |i: int|
            if 0 <= i < items.len() {
                forget_expr(items[i], from)
            } else {
                arbitrary()
            },
    )
}

/// The value of each field with the noted scopes forgotten.
pub open spec fn forget_record(fields: RecordV, from: nat) -> RecordV
    decreases fields,
{
    Seq::new(
        fields.len(),
        |i: int|
            if 0 <= i < fields.len() {
                (fields[i].0, forget_expr(fields[i].1, from))
            } else {
                arbitrary()
            },
    )
}

/// The expression of each entry that has one with the noted scopes forgotten.
pub open spec fn forget_entries(entries: EntriesV, from: nat) -> EntriesV
    decreases entries,
{
    Seq::new(
        entries.len(),
        |i: int|
            if 0 <= i < entries.len() {
                (entries[i].0, forget_opt(entries[i].1, from))
            } else {
                arbitrary()
            },
    )
}

/// The type and the value of each binding with the noted scopes forgotten.
pub open spec fn forget_lets(defs: LetsV, from: nat) -> LetsV
    decreases defs,
{
    Seq::new(
        defs.len(),
        |i: int|
            if 0 <= i < defs.len() {
                (
                    defs[i].0,
                    forget_opt(defs[i].1, from),
                    forget_expr(defs[i].2, from),
                )
            } else {
                arbitrary()
            },
    )
}

#[verifier::loop_isolation(false)]
fn forgotten_opt<'i>(v: &Option<Val<'i>>, from: usize) -> (r: Option<Val<'i>>)
    ensures
        opt_view(&r) == forget_opt(opt_view(v), from as nat),
        boxed_opt_view(&r) == boxed(forget_opt(unboxed(boxed_opt_view(v)), from as nat)),
    decreases v,
{
    match v {
        Some(e) => Some(Box::new(forgotten_expr(e, from))),
        None => None,
    }
}

#[verifier::loop_isolation(false)]
fn forgotten_vals<'i>(d: &Deq<Val<'i>>, from: usize) -> (out: Deq<Val<'i>>)
    ensures
        vals_view(&out) == forget_vals(vals_view(d), from as nat),
    decreases d,
{
    let ghost target = forget_vals(vals_view(d), from as nat);
    let mut out: Deq<Val<'i>> = VecDeque::new();
    let mut i: usize = 0;
    while i < d.len()
        invariant
            i <= d.len(),
            out@.len() == i,
            forall|k: int| 0 <= k < i ==> expr_view(&*out[k]) == target[k],
        decreases d.len() - i,
    {
        assert(vals_view(d)[i as int] == expr_view(&*d[i as int]));
        let e = forgotten_expr(&d[i], from);
        out.push_back(Box::new(e));
        i = i + 1;
    }
    assert(vals_view(&out) =~= target);
    out
}

#[verifier::loop_isolation(false)]
fn forgotten_record<'i>(d: &RecordData<'i>, from: usize) -> (out: RecordData<'i>)
    ensures
        record_view(&out) == forget_record(record_view(d), from as nat),
    decreases d,
{
    let ghost target = forget_record(record_view(d), from as nat);
    let mut out: RecordData<'i> = VecDeque::new();
    let mut i: usize = 0;
    while i < d.len()
        invariant
            i <= d.len(),
            out@.len() == i,
            forall|k: int|
                0 <= k < i ==> (path_view(&out[k].0), expr_view(&*out[k].1)) == target[k],
        decreases d.len() - i,
    {
        assert(record_view(d)[i as int] == (path_view(&d[i as int].0), expr_view(&*d[i as int].1)));
        let p = copy_path(&d[i].0);
        let e = forgotten_expr(&d[i].1, from);
        out.push_back((p, Box::new(e)));
        i = i + 1;
    }
    assert(record_view(&out) =~= target);
    out
}

#[verifier::loop_isolation(false)]
fn forgotten_entries<'i>(d: &Deq<(&'i str, Option<Val<'i>>)>, from: usize) -> (out: Deq<
    (&'i str, Option<Val<'i>>),
>)
    ensures
        entries_view(&out) == forget_entries(entries_view(d), from as nat),
    decreases d,
{
    let ghost target = forget_entries(entries_view(d), from as nat);
    let mut out: Deq<(&'i str, Option<Val<'i>>)> = VecDeque::new();
    let mut i: usize = 0;
    while i < d.len()
        invariant
            i <= d.len(),
            out@.len() == i,
            forall|k: int| 0 <= k < i ==> (out[k].0@, opt_view(&out[k].1)) == target[k],
        decreases d.len() - i,
    {
        assert(entries_view(d)[i as int] == (d[i as int].0@, opt_view(&d[i as int].1)));
        let v = forgotten_opt(&d[i].1, from);
        out.push_back((d[i].0, v));
        i = i + 1;
    }
    assert(entries_view(&out) =~= target);
    out
}

#[verifier::loop_isolation(false)]
fn forgotten_lets<'i>(d: &Deq<LetStmt<'i>>, from: usize) -> (out: Deq<LetStmt<'i>>)
    ensures
        lets_view(&out) == forget_lets(lets_view(d), from as nat),
    decreases d,
{
    let ghost target = forget_lets(lets_view(d), from as nat);
    let mut out: Deq<LetStmt<'i>> = VecDeque::new();
    let mut i: usize = 0;
    while i < d.len()
        invariant
            i <= d.len(),
            out@.len() == i,
            forall|k: int|
                0 <= k < i ==> (out[k].0@, opt_view(&out[k].1), expr_view(&*out[k].2))
                    == target[k],
        decreases d.len() - i,
    {
        assert(lets_view(d)[i as int] == (
            d[i as int].0@,
            opt_view(&d[i as int].1),
            expr_view(&*d[i as int].2),
        ));
        let t = forgotten_opt(&d[i].1, from);
        let e = forgotten_expr(&d[i].2, from);
        out.push_back((d[i].0, t, Box::new(e)));
        i = i + 1;
    }
    assert(lets_view(&out) =~= target);
    out
}

/// A copy of `e` with the noted scopes from `from` on forgotten.
pub fn forgotten_expr<'i>(e: &Expr<'i>, from: usize) -> (r: Expr<'i>)
    ensures
        r@ == forget_expr(e@, from as nat),
    decreases e,
{
    match e {
        Expr::Term1(t) => Expr::Term1(forgotten_term1(t, from)),
        Expr::Let(defs, body) => Expr::Let(
            forgotten_lets(defs, from),
            Box::new(forgotten_expr(body, from)),
        ),
        Expr::Lambda(n, typ, body) => Expr::Lambda(
            *n,
            forgotten_opt(typ, from),
            Box::new(forgotten_expr(body, from)),
        ),
    }
}

/// A copy of `t` with the noted scopes from `from` on forgotten.
pub fn forgotten_term1<'i>(t: &Term1<'i>, from: usize) -> (r: Term1<'i>)
    ensures
        r@ == forget_term1(t@, from as nat),
    decreases t,
{
    match t {
        Term1::Term(inner) => Term1::Term(forgotten_term(inner, from)),
        Term1::Evaluation(f, x) => Term1::Evaluation(
            Box::new(forgotten_term1(f, from)),
            forgotten_term(x, from),
        ),
        Term1::Arrow(n, a, b) => Term1::Arrow(
            *n,
            Box::new(forgotten_expr(a, from)),
            Box::new(forgotten_expr(b, from)),
        ),
        Term1::With(a, path, b) => Term1::With(
            Box::new(forgotten_term1(a, from)),
            copy_path(path),
            Box::new(forgotten_term1(b, from)),
        ),
        Term1::Operation(a, op, b) => Term1::Operation(
            Box::new(forgotten_term1(a, from)),
            *op,
            Box::new(forgotten_term1(b, from)),
        ),
        Term1::IfThenElse(c, a, b) => Term1::IfThenElse(
            Box::new(forgotten_expr(c, from)),
            Box::new(forgotten_expr(a, from)),
            Box::new(forgotten_expr(b, from)),
        ),
        Term1::Ascribe(a, b) => Term1::Ascribe(
            Box::new(forgotten_term1(a, from)),
            Box::new(forgotten_expr(b, from)),
        ),
        Term1::Construct(a, data) => Term1::Construct(
            Box::new(forgotten_term1(a, from)),
            forgotten_record(data, from),
        ),
    }
}

/// A copy of `t` with the noted scopes from `from` on forgotten.
pub fn forgotten_term<'i>(t: &Term<'i>, from: usize) -> (r: Term<'i>)
    ensures
        r@ == forget_term(t@, from as nat),
    decreases t,
{
    match t {
        Term::Var(n, distance, resolved) => {
            let kept = match resolved {
                Some(id) => if *id >= from {
                    None
                } else {
                    Some(*id)
                },
                None => None,
            };
            Term::Var(*n, *distance, kept)
        },
        Term::FieldAccess(inner, field) => Term::FieldAccess(
            Box::new(forgotten_term(inner, from)),
            *field,
        ),
        Term::Project(style, inner, names) => Term::Project(
            *style,
            Box::new(forgotten_term(inner, from)),
            copy_path(names),
        ),
        Term::Text(style, entries) => Term::Text(*style, forgotten_entries(entries, from)),
        Term::List(items) => Term::List(forgotten_vals(items, from)),
        Term::Record(fields) => Term::Record(forgotten_record(fields, from)),
        Term::TypeRecord(fields) => Term::TypeRecord(forgotten_record(fields, from)),
        Term::TypeEnum(alts) => Term::TypeEnum(forgotten_entries(alts, from)),
        Term::Expr(e) => Term::Expr(Box::new(forgotten_expr(e, from))),
        Term::Merge(table, inner) => Term::Merge(
            forgotten_record(table, from),
            Box::new(forgotten_term(inner, from)),
        ),
        Term::Integer(..) | Term::Double(..) | Term::Path(..) | Term::Import { .. } | Term::Embed(
            ..,
        ) => crate::ast::copy_term(t),
    }
}

} // verus!
