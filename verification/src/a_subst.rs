use std::collections::VecDeque;
use vstd::prelude::*;
use vstd::std_specs::vecdeque::VecDequeAdditionalSpecFns;
use crate::ast::{
    boxed_opt_view, copy_path, entries_view, expr_view, lets_view, opt_view, path_view,
    record_view, vals_view, Deq, EntriesV, Expr, ExprV, LetStmt, LetsV, Name,
    RecordData, RecordV, Term, Term1, Term1V, TermV, Val,
};
use crate::semantics::{boxed, unboxed};
use crate::text::str_eq;

verus! {

broadcast use {vstd::std_specs::vecdeque::group_vec_dequeue_axioms, vstd::seq::group_seq_axioms};

/// The distance of a reference after a binder of its name came between it and its own
/// binder (`commit`), or went away from there.
pub open spec fn shift_distance(distance: nat, commit: bool) -> nat {
    if commit {
        distance + 1
    } else if distance > 0 {
        (distance - 1) as nat
    } else {
        distance
    }
}

/// The expression with the distance of every reference to `name` shifted.
pub open spec fn shift_expr(e: ExprV, name: Name, commit: bool) -> ExprV
    decreases e,
{
    match e {
        ExprV::Term1(t) => ExprV::Term1(shift_term1(t, name, commit)),
        ExprV::Let(defs, body) => ExprV::Let(
            shift_lets(defs, name, commit),
            Box::new(shift_expr(*body, name, commit)),
        ),
        ExprV::Lambda(n, typ, body) => ExprV::Lambda(
            n,
            boxed(shift_opt(unboxed(typ), name, commit)),
            Box::new(shift_expr(*body, name, commit)),
        ),
    }
}

/// The `Term1` with the distance of every reference to `name` shifted.
pub open spec fn shift_term1(t: Term1V, name: Name, commit: bool) -> Term1V
    decreases t,
{
    match t {
        Term1V::Term(inner) => Term1V::Term(shift_term(inner, name, commit)),
        Term1V::Evaluation(f, x) => Term1V::Evaluation(
            Box::new(shift_term1(*f, name, commit)),
            shift_term(x, name, commit),
        ),
        Term1V::Arrow(n, a, b) => Term1V::Arrow(
            n,
            Box::new(shift_expr(*a, name, commit)),
            Box::new(shift_expr(*b, name, commit)),
        ),
        Term1V::With(a, path, b) => Term1V::With(
            Box::new(shift_term1(*a, name, commit)),
            path,
            Box::new(shift_term1(*b, name, commit)),
        ),
        Term1V::Operation(a, op, b) => Term1V::Operation(
            Box::new(shift_term1(*a, name, commit)),
            op,
            Box::new(shift_term1(*b, name, commit)),
        ),
        Term1V::IfThenElse(c, a, b) => Term1V::IfThenElse(
            Box::new(shift_expr(*c, name, commit)),
            Box::new(shift_expr(*a, name, commit)),
            Box::new(shift_expr(*b, name, commit)),
        ),
        Term1V::Ascribe(a, b) => Term1V::Ascribe(
            Box::new(shift_term1(*a, name, commit)),
            Box::new(shift_expr(*b, name, commit)),
        ),
        Term1V::Construct(a, data) => Term1V::Construct(
            Box::new(shift_term1(*a, name, commit)),
            shift_record(data, name, commit),
        ),
    }
}

/// The `Term` with the distance of every reference to `name` shifted. The terms of a
/// path are left as they are.
pub open spec fn shift_term(t: TermV, name: Name, commit: bool) -> TermV
    decreases t,
{
    match t {
        TermV::Var(n, distance, resolved) => if n == name {
            TermV::Var(n, shift_distance(distance, commit), resolved)
        } else {
            t
        },
        TermV::FieldAccess(inner, field) => TermV::FieldAccess(
            Box::new(shift_term(*inner, name, commit)),
            field,
        ),
        TermV::Project(style, inner, names) => TermV::Project(
            style,
            Box::new(shift_term(*inner, name, commit)),
            names,
        ),
        TermV::Text(style, entries) => TermV::Text(style, shift_entries(entries, name, commit)),
        TermV::List(items) => TermV::List(shift_vals(items, name, commit)),
        TermV::Record(fields) => TermV::Record(shift_record(fields, name, commit)),
        TermV::TypeRecord(fields) => TermV::TypeRecord(shift_record(fields, name, commit)),
        TermV::TypeEnum(alts) => TermV::TypeEnum(shift_entries(alts, name, commit)),
        TermV::Expr(e) => TermV::Expr(Box::new(shift_expr(*e, name, commit))),
        TermV::Merge(table, inner) => TermV::Merge(
            shift_record(table, name, commit),
            Box::new(shift_term(*inner, name, commit)),
        ),
        TermV::Integer(..) | TermV::Double(..) | TermV::Path(..) | TermV::Import { .. }
        | TermV::Embed(..) => t,
    }
}

/// An optional expression shifted, where there is one.
pub open spec fn shift_opt(v: Option<ExprV>, name: Name, commit: bool) -> Option<ExprV>
    decreases v,
{
    match v {
        Some(e) => Some(shift_expr(e, name, commit)),
        None => None,
    }
}

/// Each item shifted.
pub open spec fn shift_vals(items: Seq<ExprV>, name: Name, commit: bool) -> Seq<ExprV>
    decreases items,
{
    Seq::new(
        items.len(),
        |i: int|
            if 0 <= i < items.len() {
                shift_expr(items[i], name, commit)
            } else {
                arbitrary()
            },
    )
}

/// The value of each field shifted.
pub open spec fn shift_record(fields: RecordV, name: Name, commit: bool) -> RecordV
    decreases fields,
{
    Seq::new(
        fields.len(),
        |i: int|
            if 0 <= i < fields.len() {
                (fields[i].0, shift_expr(fields[i].1, name, commit))
            } else {
                arbitrary()
            },
    )
}

/// The expression of each entry that has one shifted.
pub open spec fn shift_entries(entries: EntriesV, name: Name, commit: bool) -> EntriesV
    decreases entries,
{
    Seq::new(
        entries.len(),
        |i: int|
            if 0 <= i < entries.len() {
                (entries[i].0, shift_opt(entries[i].1, name, commit))
            } else {
                arbitrary()
            },
    )
}

/// The type and the value of each binding shifted.
pub open spec fn shift_lets(defs: LetsV, name: Name, commit: bool) -> LetsV
    decreases defs,
{
    Seq::new(
        defs.len(),
        |i: int|
            if 0 <= i < defs.len() {
                (
                    defs[i].0,
                    shift_opt(defs[i].1, name, commit),
                    shift_expr(defs[i].2, name, commit),
                )
            } else {
                arbitrary()
            },
    )
}

/// Freeing a name after committing it gives back the expression: each reference to the
/// name goes one step out and the same step in again.
pub proof fn lemma_free_undoes_commit(e: ExprV, name: Name)
    ensures
        shift_expr(shift_expr(e, name, true), name, false) == e,
    decreases e,
{
    match e {
        ExprV::Term1(t) => lemma_free_undoes_commit_term1(t, name),
        ExprV::Let(defs, body) => {
            lemma_free_undoes_commit_lets(defs, name);
            lemma_free_undoes_commit(*body, name);
        },
        ExprV::Lambda(_, typ, body) => {
            lemma_free_undoes_commit_opt(unboxed(typ), name);
            lemma_free_undoes_commit(*body, name);
            let once = shift_opt(unboxed(typ), name, true);
            assert(unboxed(boxed(once)) == once);
            assert(boxed(unboxed(typ)) == typ);
        },
    }
}

proof fn lemma_free_undoes_commit_term1(t: Term1V, name: Name)
    ensures
        shift_term1(shift_term1(t, name, true), name, false) == t,
    decreases t,
{
    match t {
        Term1V::Term(inner) => lemma_free_undoes_commit_term(inner, name),
        Term1V::Evaluation(f, x) => {
            lemma_free_undoes_commit_term1(*f, name);
            lemma_free_undoes_commit_term(x, name);
        },
        Term1V::Arrow(_, a, b) => {
            lemma_free_undoes_commit(*a, name);
            lemma_free_undoes_commit(*b, name);
        },
        Term1V::With(a, _, b) => {
            lemma_free_undoes_commit_term1(*a, name);
            lemma_free_undoes_commit_term1(*b, name);
        },
        Term1V::Operation(a, _, b) => {
            lemma_free_undoes_commit_term1(*a, name);
            lemma_free_undoes_commit_term1(*b, name);
        },
        Term1V::IfThenElse(c, a, b) => {
            lemma_free_undoes_commit(*c, name);
            lemma_free_undoes_commit(*a, name);
            lemma_free_undoes_commit(*b, name);
        },
        Term1V::Ascribe(a, b) => {
            lemma_free_undoes_commit_term1(*a, name);
            lemma_free_undoes_commit(*b, name);
        },
        Term1V::Construct(a, data) => {
            lemma_free_undoes_commit_term1(*a, name);
            lemma_free_undoes_commit_record(data, name);
        },
    }
}

proof fn lemma_free_undoes_commit_term(t: TermV, name: Name)
    ensures
        shift_term(shift_term(t, name, true), name, false) == t,
    decreases t,
{
    match t {
        TermV::FieldAccess(inner, _) => lemma_free_undoes_commit_term(*inner, name),
        TermV::Project(_, inner, _) => lemma_free_undoes_commit_term(*inner, name),
        TermV::Text(_, entries) => lemma_free_undoes_commit_entries(entries, name),
        TermV::List(items) => lemma_free_undoes_commit_vals(items, name),
        TermV::Record(fields) => lemma_free_undoes_commit_record(fields, name),
        TermV::TypeRecord(fields) => lemma_free_undoes_commit_record(fields, name),
        TermV::TypeEnum(alts) => lemma_free_undoes_commit_entries(alts, name),
        TermV::Expr(e) => lemma_free_undoes_commit(*e, name),
        TermV::Merge(table, inner) => {
            lemma_free_undoes_commit_record(table, name);
            lemma_free_undoes_commit_term(*inner, name);
        },
        _ => {},
    }
}

proof fn lemma_free_undoes_commit_opt(v: Option<ExprV>, name: Name)
    ensures
        shift_opt(shift_opt(v, name, true), name, false) == v,
    decreases v,
{
    match v {
        Some(e) => lemma_free_undoes_commit(e, name),
        None => {},
    }
}

proof fn lemma_free_undoes_commit_vals(items: Seq<ExprV>, name: Name)
    ensures
        shift_vals(shift_vals(items, name, true), name, false) == items,
    decreases items,
{
    let once = shift_vals(items, name, true);
    let twice = shift_vals(once, name, false);
    assert forall|i: int| 0 <= i < items.len() implies twice[i] == items[i] by {
        lemma_free_undoes_commit(items[i], name);
    }
    assert(twice =~= items);
}

proof fn lemma_free_undoes_commit_record(fields: RecordV, name: Name)
    ensures
        shift_record(shift_record(fields, name, true), name, false) == fields,
    decreases fields,
{
    let once = shift_record(fields, name, true);
    let twice = shift_record(once, name, false);
    assert forall|i: int| 0 <= i < fields.len() implies twice[i] == fields[i] by {
        lemma_free_undoes_commit(fields[i].1, name);
    }
    assert(twice =~= fields);
}

proof fn lemma_free_undoes_commit_entries(entries: EntriesV, name: Name)
    ensures
        shift_entries(shift_entries(entries, name, true), name, false) == entries,
    decreases entries,
{
    let once = shift_entries(entries, name, true);
    let twice = shift_entries(once, name, false);
    assert forall|i: int| 0 <= i < entries.len() implies twice[i] == entries[i] by {
        lemma_free_undoes_commit_opt(entries[i].1, name);
    }
    assert(twice =~= entries);
}

proof fn lemma_free_undoes_commit_lets(defs: LetsV, name: Name)
    ensures
        shift_lets(shift_lets(defs, name, true), name, false) == defs,
    decreases defs,
{
    let once = shift_lets(defs, name, true);
    let twice = shift_lets(once, name, false);
    assert forall|i: int| 0 <= i < defs.len() implies twice[i] == defs[i] by {
        lemma_free_undoes_commit_opt(defs[i].1, name);
        lemma_free_undoes_commit(defs[i].2, name);
    }
    assert(twice =~= defs);
}

/// Whether every reference to `name` that a shift reaches can take one more step of
/// distance.
pub open spec fn roomy_expr(e: ExprV, name: Name) -> bool
    decreases e,
{
    match e {
        ExprV::Term1(t) => roomy_term1(t, name),
        ExprV::Let(defs, body) => roomy_lets(defs, name) && roomy_expr(*body, name),
        ExprV::Lambda(_, typ, body) => roomy_opt(unboxed(typ), name) && roomy_expr(*body, name),
    }
}

/// Whether every reference to `name` in a `Term1` can take one more step of distance.
pub open spec fn roomy_term1(t: Term1V, name: Name) -> bool
    decreases t,
{
    match t {
        Term1V::Term(inner) => roomy_term(inner, name),
        Term1V::Evaluation(f, x) => roomy_term1(*f, name) && roomy_term(x, name),
        Term1V::Arrow(_, a, b) => roomy_expr(*a, name) && roomy_expr(*b, name),
        Term1V::With(a, _, b) => roomy_term1(*a, name) && roomy_term1(*b, name),
        Term1V::Operation(a, _, b) => roomy_term1(*a, name) && roomy_term1(*b, name),
        Term1V::IfThenElse(c, a, b) => roomy_expr(*c, name) && roomy_expr(*a, name)
            && roomy_expr(*b, name),
        Term1V::Ascribe(a, b) => roomy_term1(*a, name) && roomy_expr(*b, name),
        Term1V::Construct(a, data) => roomy_term1(*a, name) && roomy_record(data, name),
    }
}

/// Whether every reference to `name` in a `Term` can take one more step of distance.
pub open spec fn roomy_term(t: TermV, name: Name) -> bool
    decreases t,
{
    match t {
        TermV::Var(n, distance, _) => n == name ==> distance < u16::MAX,
        TermV::FieldAccess(inner, _) => roomy_term(*inner, name),
        TermV::Project(_, inner, _) => roomy_term(*inner, name),
        TermV::Text(_, entries) => roomy_entries(entries, name),
        TermV::List(items) => roomy_vals(items, name),
        TermV::Record(fields) => roomy_record(fields, name),
        TermV::TypeRecord(fields) => roomy_record(fields, name),
        TermV::TypeEnum(alts) => roomy_entries(alts, name),
        TermV::Expr(e) => roomy_expr(*e, name),
        TermV::Merge(table, inner) => roomy_record(table, name) && roomy_term(*inner, name),
        TermV::Integer(..) | TermV::Double(..) | TermV::Path(..) | TermV::Import { .. }
        | TermV::Embed(..) => true,
    }
}

/// Whether an optional expression has room, where there is one.
pub open spec fn roomy_opt(v: Option<ExprV>, name: Name) -> bool
    decreases v,
{
    match v {
        Some(e) => roomy_expr(e, name),
        None => true,
    }
}

/// Whether every item has room.
pub open spec fn roomy_vals(items: Seq<ExprV>, name: Name) -> bool
    decreases items,
{
    forall|i: int| 0 <= i < items.len() ==> roomy_expr(#[trigger] items[i], name)
}

/// Whether the value of every field has room.
pub open spec fn roomy_record(fields: RecordV, name: Name) -> bool
    decreases fields,
{
    forall|i: int| 0 <= i < fields.len() ==> roomy_expr((#[trigger] fields[i]).1, name)
}

/// Whether the expression of every entry that has one has room.
pub open spec fn roomy_entries(entries: EntriesV, name: Name) -> bool
    decreases entries,
{
    forall|i: int| 0 <= i < entries.len() ==> roomy_opt((#[trigger] entries[i]).1, name)
}

/// Whether the type and the value of every binding have room.
pub open spec fn roomy_lets(defs: LetsV, name: Name) -> bool
    decreases defs,
{
    forall|i: int|
        0 <= i < defs.len() ==> roomy_opt((#[trigger] defs[i]).1, name) && roomy_expr(
            defs[i].2,
            name,
        )
}

/// Shifting the distance of the references to a name, when a binder of that name comes
/// between them and their binders (`commit`) or goes away from there.
pub trait ASubstitution: Sized {
    /// Whether `after` is `self` with every reference to `name` shifted.
    spec fn shifted(&self, name: Name, commit: bool, after: &Self) -> bool;

    /// Whether no distance overflows when the references to `name` are taken one step
    /// further from their binders.
    spec fn roomy(&self, name: Name) -> bool;

    fn commit_or_free_name(&mut self, name: &str, commit: bool)
        requires
            commit ==> old(self).roomy(name@),
        ensures
            old(self).shifted(name@, commit, final(self)),
    ;

    fn commit_name(&mut self, name: &str)
        requires
            old(self).roomy(name@),
        ensures
            old(self).shifted(name@, true, final(self)),
    {
        self.commit_or_free_name(name, true);
    }

    fn free_name(&mut self, name: &str)
        ensures
            old(self).shifted(name@, false, final(self)),
    {
        self.commit_or_free_name(name, false);
    }
}

#[verifier::loop_isolation(false)]
fn shifted_opt<'i>(v: &Option<Val<'i>>, name: &str, commit: bool) -> (r: Option<Val<'i>>)
    requires
        commit ==> roomy_opt(opt_view(v), name@),
    ensures
        opt_view(&r) == shift_opt(opt_view(v), name@, commit),
        boxed_opt_view(&r) == boxed(shift_opt(unboxed(boxed_opt_view(v)), name@, commit)),
    decreases v,
{
    match v {
        Some(e) => Some(Box::new(shifted_expr(e, name, commit))),
        None => None,
    }
}

#[verifier::loop_isolation(false)]
fn shifted_vals<'i>(d: &Deq<Val<'i>>, name: &str, commit: bool) -> (out: Deq<Val<'i>>)
    requires
        commit ==> roomy_vals(vals_view(d), name@),
    ensures
        vals_view(&out) == shift_vals(vals_view(d), name@, commit),
    decreases d,
{
    let ghost target = shift_vals(vals_view(d), name@, commit);
    let mut out: Deq<Val<'i>> = VecDeque::new();
    let mut i: usize = 0;
    while i < d.len()
        invariant
            i <= d.len(),
            out@.len() == i,
            forall|k: int| 0 <= k < i ==> expr_view(&*out[k]) == target[k],
        decreases d.len() - i,
    {
        assert(vals_view(d)[i as int] == expr_view(&*d[i as int]));
        let e = shifted_expr(&d[i], name, commit);
        out.push_back(Box::new(e));
        i = i + 1;
    }
    assert(vals_view(&out) =~= target);
    out
}

#[verifier::loop_isolation(false)]
fn shifted_record<'i>(d: &RecordData<'i>, name: &str, commit: bool) -> (out: RecordData<'i>)
    requires
        commit ==> roomy_record(record_view(d), name@),
    ensures
        record_view(&out) == shift_record(record_view(d), name@, commit),
    decreases d,
{
    let ghost target = shift_record(record_view(d), name@, commit);
    let mut out: RecordData<'i> = VecDeque::new();
    let mut i: usize = 0;
    while i < d.len()
        invariant
            i <= d.len(),
            out@.len() == i,
            forall|k: int|
                0 <= k < i ==> (path_view(&out[k].0), expr_view(&*out[k].1)) == target[k],
        decreases d.len() - i,
    {
        assert(record_view(d)[i as int] == (path_view(&d[i as int].0), expr_view(&*d[i as int].1)));
        let p = copy_path(&d[i].0);
        let e = shifted_expr(&d[i].1, name, commit);
        out.push_back((p, Box::new(e)));
        i = i + 1;
    }
    assert(record_view(&out) =~= target);
    out
}

#[verifier::loop_isolation(false)]
fn shifted_entries<'i>(d: &Deq<(&'i str, Option<Val<'i>>)>, name: &str, commit: bool) -> (out: Deq<
    (&'i str, Option<Val<'i>>),
>)
    requires
        commit ==> roomy_entries(entries_view(d), name@),
    ensures
        entries_view(&out) == shift_entries(entries_view(d), name@, commit),
    decreases d,
{
    let ghost target = shift_entries(entries_view(d), name@, commit);
    let mut out: Deq<(&'i str, Option<Val<'i>>)> = VecDeque::new();
    let mut i: usize = 0;
    while i < d.len()
        invariant
            i <= d.len(),
            out@.len() == i,
            forall|k: int| 0 <= k < i ==> (out[k].0@, opt_view(&out[k].1)) == target[k],
        decreases d.len() - i,
    {
        assert(entries_view(d)[i as int] == (d[i as int].0@, opt_view(&d[i as int].1)));
        let v = shifted_opt(&d[i].1, name, commit);
        out.push_back((d[i].0, v));
        i = i + 1;
    }
    assert(entries_view(&out) =~= target);
    out
}

#[verifier::loop_isolation(false)]
fn shifted_lets<'i>(d: &Deq<LetStmt<'i>>, name: &str, commit: bool) -> (out: Deq<LetStmt<'i>>)
    requires
        commit ==> roomy_lets(lets_view(d), name@),
    ensures
        lets_view(&out) == shift_lets(lets_view(d), name@, commit),
    decreases d,
{
    let ghost target = shift_lets(lets_view(d), name@, commit);
    let mut out: Deq<LetStmt<'i>> = VecDeque::new();
    let mut i: usize = 0;
    while i < d.len()
        invariant
            i <= d.len(),
            out@.len() == i,
            forall|k: int|
                0 <= k < i ==> (out[k].0@, opt_view(&out[k].1), expr_view(&*out[k].2))
                    == target[k],
        decreases d.len() - i,
    {
        assert(lets_view(d)[i as int] == (
            d[i as int].0@,
            opt_view(&d[i as int].1),
            expr_view(&*d[i as int].2),
        ));
        let t = shifted_opt(&d[i].1, name, commit);
        let e = shifted_expr(&d[i].2, name, commit);
        out.push_back((d[i].0, t, Box::new(e)));
        i = i + 1;
    }
    assert(lets_view(&out) =~= target);
    out
}

/// A copy of `e` with every reference to `name` shifted.
pub fn shifted_expr<'i>(e: &Expr<'i>, name: &str, commit: bool) -> (r: Expr<'i>)
    requires
        commit ==> roomy_expr(e@, name@),
    ensures
        r@ == shift_expr(e@, name@, commit),
    decreases e,
{
    match e {
        Expr::Term1(t) => Expr::Term1(shifted_term1(t, name, commit)),
        Expr::Let(defs, body) => Expr::Let(
            shifted_lets(defs, name, commit),
            Box::new(shifted_expr(body, name, commit)),
        ),
        Expr::Lambda(n, typ, body) => Expr::Lambda(
            *n,
            shifted_opt(typ, name, commit),
            Box::new(shifted_expr(body, name, commit)),
        ),
    }
}

/// A copy of `t` with every reference to `name` shifted.
pub fn shifted_term1<'i>(t: &Term1<'i>, name: &str, commit: bool) -> (r: Term1<'i>)
    requires
        commit ==> roomy_term1(t@, name@),
    ensures
        r@ == shift_term1(t@, name@, commit),
    decreases t,
{
    match t {
        Term1::Term(inner) => Term1::Term(shifted_term(inner, name, commit)),
        Term1::Evaluation(f, x) => Term1::Evaluation(
            Box::new(shifted_term1(f, name, commit)),
            shifted_term(x, name, commit),
        ),
        Term1::Arrow(n, a, b) => Term1::Arrow(
            *n,
            Box::new(shifted_expr(a, name, commit)),
            Box::new(shifted_expr(b, name, commit)),
        ),
        Term1::With(a, path, b) => Term1::With(
            Box::new(shifted_term1(a, name, commit)),
            copy_path(path),
            Box::new(shifted_term1(b, name, commit)),
        ),
        Term1::Operation(a, op, b) => Term1::Operation(
            Box::new(shifted_term1(a, name, commit)),
            *op,
            Box::new(shifted_term1(b, name, commit)),
        ),
        Term1::IfThenElse(c, a, b) => Term1::IfThenElse(
            Box::new(shifted_expr(c, name, commit)),
            Box::new(shifted_expr(a, name, commit)),
            Box::new(shifted_expr(b, name, commit)),
        ),
        Term1::Ascribe(a, b) => Term1::Ascribe(
            Box::new(shifted_term1(a, name, commit)),
            Box::new(shifted_expr(b, name, commit)),
        ),
        Term1::Construct(a, data) => Term1::Construct(
            Box::new(shifted_term1(a, name, commit)),
            shifted_record(data, name, commit),
        ),
    }
}

/// A copy of `t` with every reference to `name` shifted.
pub fn shifted_term<'i>(t: &Term<'i>, name: &str, commit: bool) -> (r: Term<'i>)
    requires
        commit ==> roomy_term(t@, name@),
    ensures
        r@ == shift_term(t@, name@, commit),
    decreases t,
{
    match t {
        Term::Var(n, distance, resolved) => {
            if str_eq(n, name) {
                if commit {
                    Term::Var(*n, *distance + 1, *resolved)
                } else if *distance > 0 {
                    Term::Var(*n, *distance - 1, *resolved)
                } else {
                    Term::Var(*n, *distance, *resolved)
                }
            } else {
                Term::Var(*n, *distance, *resolved)
            }
        },
        Term::FieldAccess(inner, field) => Term::FieldAccess(
            Box::new(shifted_term(inner, name, commit)),
            *field,
        ),
        Term::Project(style, inner, names) => Term::Project(
            *style,
            Box::new(shifted_term(inner, name, commit)),
            copy_path(names),
        ),
        Term::Text(style, entries) => Term::Text(*style, shifted_entries(entries, name, commit)),
        Term::List(items) => Term::List(shifted_vals(items, name, commit)),
        Term::Record(fields) => Term::Record(shifted_record(fields, name, commit)),
        Term::TypeRecord(fields) => Term::TypeRecord(shifted_record(fields, name, commit)),
        Term::TypeEnum(alts) => Term::TypeEnum(shifted_entries(alts, name, commit)),
        Term::Expr(e) => Term::Expr(Box::new(shifted_expr(e, name, commit))),
        Term::Merge(table, inner) => Term::Merge(
            shifted_record(table, name, commit),
            Box::new(shifted_term(inner, name, commit)),
        ),
        Term::Integer(..) | Term::Double(..) | Term::Path(..) | Term::Import { .. } | Term::Embed(
            ..,
        ) => crate::ast::copy_term(t),
    }
}

impl<'i> ASubstitution for Expr<'i> {
    open spec fn shifted(&self, name: Name, commit: bool, after: &Self) -> bool {
        after@ == shift_expr(self@, name, commit)
    }

    open spec fn roomy(&self, name: Name) -> bool {
        roomy_expr(self@, name)
    }

    fn commit_or_free_name(&mut self, name: &str, commit: bool) {
        let moved = shifted_expr(self, name, commit);
        *self = moved;
    }
}

impl<'i> ASubstitution for Term1<'i> {
    open spec fn shifted(&self, name: Name, commit: bool, after: &Self) -> bool {
        after@ == shift_term1(self@, name, commit)
    }

    open spec fn roomy(&self, name: Name) -> bool {
        roomy_term1(self@, name)
    }

    fn commit_or_free_name(&mut self, name: &str, commit: bool) {
        let moved = shifted_term1(self, name, commit);
        *self = moved;
    }
}

impl<'i> ASubstitution for Term<'i> {
    open spec fn shifted(&self, name: Name, commit: bool, after: &Self) -> bool {
        after@ == shift_term(self@, name, commit)
    }

    open spec fn roomy(&self, name: Name) -> bool {
        roomy_term(self@, name)
    }

    fn commit_or_free_name(&mut self, name: &str, commit: bool) {
        let moved = shifted_term(self, name, commit);
        *self = moved;
    }
}

impl<T: ASubstitution> ASubstitution for Option<T> {
    open spec fn shifted(&self, name: Name, commit: bool, after: &Self) -> bool {
        match self {
            Some(t) => after matches Some(a) && t.shifted(name, commit, a),
            None => after is None,
        }
    }

    open spec fn roomy(&self, name: Name) -> bool {
        match self {
            Some(t) => t.roomy(name),
            None => true,
        }
    }

    fn commit_or_free_name(&mut self, name: &str, commit: bool) {
        match self {
            Some(t) => t.commit_or_free_name(name, commit),
            None => {},
        }
    }
}

impl<T: ASubstitution> ASubstitution for Box<T> {
    open spec fn shifted(&self, name: Name, commit: bool, after: &Self) -> bool {
        (**self).shifted(name, commit, &**after)
    }

    open spec fn roomy(&self, name: Name) -> bool {
        (**self).roomy(name)
    }

    fn commit_or_free_name(&mut self, name: &str, commit: bool) {
        (**self).commit_or_free_name(name, commit)
    }
}

} // verus!
