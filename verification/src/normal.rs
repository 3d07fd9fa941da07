use vstd::prelude::*;
use crate::ast::{EntriesV, Expr, ExprV, LetsV, RecordV, Term1V, TermV};
use crate::error::{Error, Result};
use crate::eval::Eval;
use crate::semantics::{
    as_lambda, as_near_var, as_tagged, blocked_function, blocked_scrutinee, placed_term,
    placed_term1, reduce_arrow, reduce_entries, reduce_evaluation, reduce_expr, reduce_if,
    reduce_operation, reduce_opt, reduce_record, reduce_term, reduce_vals, reduce_with, resolve,
    thunk_expr, thunk_term, thunk_term1, unboxed, under_binder,
};
use crate::sym_table::{bind, TableV};

verus! {

broadcast use vstd::seq::group_seq_axioms;

/// Whether `e` is in normal form under the scopes `st`: no rule would change it.
pub open spec fn normal_expr(e: ExprV, st: TableV) -> bool
    decreases e, 1nat,
{
    match e {
        ExprV::Let(..) => false,
        ExprV::Lambda(name, typ, body) => normal_opt(unboxed(typ), st) && normal_expr(
            *body,
            bind(st, name, None, None),
        ),
        ExprV::Term1(t) => normal_term1(t, st),
    }
}

/// Whether `t`, standing where an expression may stand, is in normal form.
pub open spec fn normal_term1(t: Term1V, st: TableV) -> bool
    decreases t, 0nat,
{
    match t {
        Term1V::Term(inner) => normal_term(inner, st),
        Term1V::Evaluation(func, arg) => {
            &&& settled_term1(*func, st)
            &&& settled_term(arg, st)
            &&& as_lambda(*func) is None
            &&& blocked_function(*func, st) == Ok::<bool, Error>(true)
        },
        Term1V::Arrow(name, a, b) => normal_expr(*a, st) && normal_expr(
            *b,
            under_binder(st, name),
        ),
        Term1V::With(base, _, value) => {
            &&& settled_term1(*base, st)
            &&& settled_term1(*value, st)
            &&& !(*base matches Term1V::Term(TermV::Record(_)))
            &&& thunk_term1(*base, st) == Ok::<bool, Error>(true)
        },
        Term1V::Operation(a, _, b) => settled_term1(*a, st) && settled_term1(*b, st),
        Term1V::IfThenElse(c, a, b) => {
            &&& normal_expr(*a, st)
            &&& normal_expr(*b, st)
            &&& normal_expr(*c, st)
            &&& as_near_var(*c) != Some("True"@)
            &&& as_near_var(*c) != Some("False"@)
            &&& thunk_expr(*c, st) == Ok::<bool, Error>(true)
        },
        Term1V::Ascribe(..) => false,
        Term1V::Construct(..) => false,
    }
}

/// Whether `t`, standing where an expression may stand, is in normal form.
pub open spec fn normal_term(t: TermV, st: TableV) -> bool
    decreases t, 0nat,
{
    match t {
        TermV::Var(name, distance, resolved) => {
            &&& resolved is Some
            &&& resolve(st, name, distance, resolved) matches Some(info)
            &&& info.value is None
        },
        TermV::Integer(..) | TermV::Double(..) | TermV::Path(..) | TermV::Import { .. }
        | TermV::Embed(..) => true,
        TermV::Text(_, entries) => normal_entries(entries, st),
        TermV::List(items) => normal_vals(items, st),
        TermV::Record(fields) => normal_record(fields, st),
        TermV::TypeRecord(fields) => normal_record(fields, st),
        TermV::TypeEnum(alts) => normal_entries(alts, st),
        TermV::Expr(_) => false,
        TermV::Project(_, inner, _) => {
            &&& settled_term(*inner, st)
            &&& !(*inner is Record)
            &&& thunk_term(*inner, st) == Ok::<bool, Error>(true)
        },
        TermV::FieldAccess(inner, _) => {
            &&& settled_term(*inner, st)
            &&& !(*inner is Record)
            &&& thunk_term(*inner, st) == Ok::<bool, Error>(true)
        },
        TermV::Merge(_, inner) => {
            &&& settled_term(*inner, st)
            &&& as_tagged(*inner) is None
            &&& blocked_scrutinee(*inner, st) == Ok::<bool, Error>(true)
        },
    }
}

/// Whether `t`, standing where only a `Term1` may stand, is in normal form: an expression
/// that is no `Term1` is wrapped there.
pub open spec fn settled_term1(t: Term1V, st: TableV) -> bool
    decreases t, 1nat,
{
    match t {
        Term1V::Term(TermV::Expr(e)) => !(*e is Term1) && normal_expr(*e, st),
        other => normal_term1(other, st),
    }
}

/// Whether `t`, standing where only a `Term` may stand, is in normal form: an expression
/// that is no `Term` is wrapped there.
pub open spec fn settled_term(t: TermV, st: TableV) -> bool
    decreases t, 1nat,
{
    match t {
        TermV::Expr(e) => !(*e matches ExprV::Term1(Term1V::Term(_))) && normal_expr(*e, st),
        other => normal_term(other, st),
    }
}

/// Whether an optional expression is in normal form, where there is one.
pub open spec fn normal_opt(v: Option<ExprV>, st: TableV) -> bool
    decreases v, 0nat,
{
    match v {
        Some(e) => normal_expr(e, st),
        None => true,
    }
}

/// Whether every item is in normal form.
pub open spec fn normal_vals(items: Seq<ExprV>, st: TableV) -> bool
    decreases items, 0nat,
{
    forall|i: int| 0 <= i < items.len() ==> normal_expr(#[trigger] items[i], st)
}

/// Whether the value of every field is in normal form.
pub open spec fn normal_record(fields: RecordV, st: TableV) -> bool
    decreases fields, 0nat,
{
    forall|i: int| 0 <= i < fields.len() ==> normal_expr((#[trigger] fields[i]).1, st)
}

/// Whether the expression of every entry that has one is in normal form.
pub open spec fn normal_entries(entries: EntriesV, st: TableV) -> bool
    decreases entries, 0nat,
{
    forall|i: int| 0 <= i < entries.len() ==> normal_opt((#[trigger] entries[i]).1, st)
}

/// Whether the reduction of `e` nests at most `f` deep: every node but a wrapper takes
/// one level, and its parts are reduced one level further in.
pub open spec fn fits_expr(e: ExprV, f: nat) -> bool
    decreases e, 1nat,
{
    match e {
        ExprV::Let(defs, body) => f > 0 && fits_lets(defs, (f - 1) as nat) && fits_expr(
            *body,
            (f - 1) as nat,
        ),
        ExprV::Lambda(_, typ, body) => f > 0 && fits_opt(unboxed(typ), (f - 1) as nat)
            && fits_expr(*body, (f - 1) as nat),
        ExprV::Term1(t) => fits_term1(t, f),
    }
}

/// Whether the reduction of `t` nests at most `f` deep.
pub open spec fn fits_term1(t: Term1V, f: nat) -> bool
    decreases t, 0nat,
{
    match t {
        Term1V::Term(inner) => fits_term(inner, f),
        Term1V::Evaluation(func, arg) => f > 0 && fits_term1(*func, (f - 1) as nat)
            && fits_term(arg, (f - 1) as nat),
        Term1V::Arrow(_, a, b) => f > 0 && fits_expr(*a, (f - 1) as nat) && fits_expr(
            *b,
            (f - 1) as nat,
        ),
        Term1V::With(base, _, value) => f > 0 && fits_term1(*base, (f - 1) as nat)
            && fits_term1(*value, (f - 1) as nat),
        Term1V::Operation(a, _, b) => f > 0 && fits_term1(*a, (f - 1) as nat) && fits_term1(
            *b,
            (f - 1) as nat,
        ),
        Term1V::IfThenElse(c, a, b) => f > 0 && fits_expr(*c, (f - 1) as nat) && fits_expr(
            *a,
            (f - 1) as nat,
        ) && fits_expr(*b, (f - 1) as nat),
        Term1V::Ascribe(inner, typ) => f > 0 && fits_term1(*inner, (f - 1) as nat)
            && fits_expr(*typ, (f - 1) as nat),
        Term1V::Construct(inner, fields) => f > 0 && fits_term1(*inner, (f - 1) as nat)
            && fits_record(fields, (f - 1) as nat),
    }
}

/// Whether the reduction of `t` nests at most `f` deep.
pub open spec fn fits_term(t: TermV, f: nat) -> bool
    decreases t, 0nat,
{
    match t {
        TermV::Expr(e) => fits_expr(*e, f),
        TermV::Var(..) | TermV::Integer(..) | TermV::Double(..) | TermV::Path(..)
        | TermV::Import { .. } | TermV::Embed(..) => f > 0,
        TermV::Text(_, entries) => f > 0 && fits_entries(entries, (f - 1) as nat),
        TermV::List(items) => f > 0 && fits_vals(items, (f - 1) as nat),
        TermV::Record(fields) => f > 0 && fits_record(fields, (f - 1) as nat),
        TermV::TypeRecord(fields) => f > 0 && fits_record(fields, (f - 1) as nat),
        TermV::TypeEnum(alts) => f > 0 && fits_entries(alts, (f - 1) as nat),
        TermV::Project(_, inner, _) => f > 0 && fits_term(*inner, (f - 1) as nat),
        TermV::FieldAccess(inner, _) => f > 0 && fits_term(*inner, (f - 1) as nat),
        TermV::Merge(table, inner) => f > 0 && fits_record(table, (f - 1) as nat) && fits_term(
            *inner,
            (f - 1) as nat,
        ),
    }
}

/// Whether an optional expression, where there is one, nests at most `f` deep.
pub open spec fn fits_opt(v: Option<ExprV>, f: nat) -> bool
    decreases v, 0nat,
{
    match v {
        Some(e) => fits_expr(e, f),
        None => true,
    }
}

/// Whether every item nests at most `f` deep.
pub open spec fn fits_vals(items: Seq<ExprV>, f: nat) -> bool
    decreases items, 0nat,
{
    forall|i: int| 0 <= i < items.len() ==> fits_expr(#[trigger] items[i], f)
}

/// Whether the value of every field nests at most `f` deep.
pub open spec fn fits_record(fields: RecordV, f: nat) -> bool
    decreases fields, 0nat,
{
    forall|i: int| 0 <= i < fields.len() ==> fits_expr((#[trigger] fields[i]).1, f)
}

/// Whether the expression of every entry that has one nests at most `f` deep.
pub open spec fn fits_entries(entries: EntriesV, f: nat) -> bool
    decreases entries, 0nat,
{
    forall|i: int| 0 <= i < entries.len() ==> fits_opt((#[trigger] entries[i]).1, f)
}

/// Whether the type and the value of every binding nest at most `f` deep.
pub open spec fn fits_lets(defs: LetsV, f: nat) -> bool
    decreases defs, 0nat,
{
    forall|i: int|
        0 <= i < defs.len() ==> fits_opt((#[trigger] defs[i]).1, f) && fits_expr(defs[i].2, f)
}

/// A result that is `value`, unless the depth ran out.
pub open spec fn is_or_ran_out<T>(r: Result<T>, value: T) -> bool {
    r == Ok::<T, Error>(value) || r == Err::<T, Error>(Error::DepthLimit)
}

/// Reducing an expression in normal form gives the same expression, at whatever depth
/// the reduction is allowed to nest, unless that depth runs out; and it does not run out
/// where the expression nests no deeper than is allowed.
pub proof fn lemma_normal_expr_is_fixed(e: ExprV, st: TableV, fuel: nat)
    requires
        normal_expr(e, st),
    ensures
        is_or_ran_out(reduce_expr(e, st, fuel), e),
        fits_expr(e, fuel) ==> reduce_expr(e, st, fuel) == Ok::<ExprV, Error>(e),
    decreases e, 1nat,
{
    if fuel > 0 {
        let f = (fuel - 1) as nat;
        match e {
            ExprV::Let(..) => {},
            ExprV::Lambda(name, typ, body) => {
                lemma_normal_opt_is_fixed(unboxed(typ), st, f);
                lemma_normal_expr_is_fixed(*body, bind(st, name, None, None), f);
            },
            ExprV::Term1(t) => {
                lemma_normal_term1_is_fixed(t, st, fuel);
            },
        }
    } else {
        match e {
            ExprV::Term1(t) => lemma_normal_term1_is_fixed(t, st, fuel),
            _ => {},
        }
    }
}

proof fn lemma_normal_term1_is_fixed(t: Term1V, st: TableV, fuel: nat)
    requires
        normal_term1(t, st),
    ensures
        is_or_ran_out(reduce_expr(ExprV::Term1(t), st, fuel), ExprV::Term1(t)),
        fits_term1(t, fuel) ==> reduce_expr(ExprV::Term1(t), st, fuel) == Ok::<ExprV, Error>(
            ExprV::Term1(t),
        ),
    decreases t, 0nat,
{
    if fuel > 0 {
        let f = (fuel - 1) as nat;
        let e = ExprV::Term1(t);
        match t {
            Term1V::Term(inner) => {
                lemma_normal_term_is_fixed(inner, st, f);
            },
            Term1V::Evaluation(func, arg) => {
                lemma_settled_term1_is_fixed(*func, st, f);
                lemma_settled_term_is_fixed(arg, st, f);
                assert(is_or_ran_out(reduce_evaluation(*func, arg, st, f), e));
            },
            Term1V::Arrow(name, a, b) => {
                lemma_normal_expr_is_fixed(*a, st, f);
                lemma_normal_expr_is_fixed(*b, under_binder(st, name), f);
                assert(is_or_ran_out(reduce_arrow(name, *a, *b, st, f), e));
            },
            Term1V::With(base, path, value) => {
                lemma_settled_term1_is_fixed(*base, st, f);
                lemma_settled_term1_is_fixed(*value, st, f);
                assert(is_or_ran_out(reduce_with(*base, path, *value, st, f), e));
            },
            Term1V::Operation(a, op, b) => {
                lemma_settled_term1_is_fixed(*a, st, f);
                lemma_settled_term1_is_fixed(*b, st, f);
                assert(is_or_ran_out(reduce_operation(*a, op, *b, st, f), e));
            },
            Term1V::IfThenElse(c, a, b) => {
                lemma_normal_expr_is_fixed(*a, st, f);
                lemma_normal_expr_is_fixed(*b, st, f);
                lemma_normal_expr_is_fixed(*c, st, f);
                assert(is_or_ran_out(reduce_if(*c, *a, *b, st, f), e));
            },
            Term1V::Ascribe(..) => {},
            Term1V::Construct(..) => {},
        }
    } else {
        match t {
            Term1V::Term(inner) => {
                assert(normal_term(inner, st));
                assert(!fits_term(inner, 0));
            },
            _ => {},
        }
    }
}

proof fn lemma_normal_term_is_fixed(t: TermV, st: TableV, f: nat)
    requires
        normal_term(t, st),
    ensures
        is_or_ran_out(reduce_term(t, st, f), ExprV::Term1(Term1V::Term(t))),
        fits_term(t, f + 1) ==> reduce_term(t, st, f) == Ok::<ExprV, Error>(
            ExprV::Term1(Term1V::Term(t)),
        ),
    decreases t, 0nat,
{
    match t {
        TermV::Var(..) => {},
        TermV::Integer(..) | TermV::Double(..) | TermV::Path(..) | TermV::Import { .. }
        | TermV::Embed(..) => {},
        TermV::Text(_, entries) => {
            lemma_normal_entries_are_fixed(entries, st, f);
        },
        TermV::List(items) => {
            lemma_normal_vals_are_fixed(items, st, f);
        },
        TermV::Record(fields) => {
            lemma_normal_record_is_fixed(fields, st, f);
        },
        TermV::TypeRecord(fields) => {
            lemma_normal_record_is_fixed(fields, st, f);
        },
        TermV::TypeEnum(alts) => {
            lemma_normal_entries_are_fixed(alts, st, f);
        },
        TermV::Expr(_) => {},
        TermV::Project(_, inner, _) => {
            lemma_settled_term_is_fixed(*inner, st, f);
        },
        TermV::FieldAccess(inner, _) => {
            lemma_settled_term_is_fixed(*inner, st, f);
        },
        TermV::Merge(_, inner) => {
            lemma_settled_term_is_fixed(*inner, st, f);
        },
    }
}

proof fn lemma_settled_term1_is_fixed(t: Term1V, st: TableV, f: nat)
    requires
        settled_term1(t, st),
    ensures
        is_or_ran_out(placed_term1(t, st, f), t),
        fits_term1(t, f) ==> placed_term1(t, st, f) == Ok::<Term1V, Error>(t),
    decreases t, 1nat,
{
    match t {
        Term1V::Term(TermV::Expr(e)) => {
            lemma_normal_expr_is_fixed(*e, st, f);
            assert(fits_term1(t, f) == fits_term(TermV::Expr(e), f));
            assert(fits_term(TermV::Expr(e), f) == fits_expr(*e, f));
        },
        other => {
            lemma_normal_term1_is_fixed(other, st, f);
        },
    }
}

proof fn lemma_settled_term_is_fixed(t: TermV, st: TableV, f: nat)
    requires
        settled_term(t, st),
    ensures
        is_or_ran_out(placed_term(t, st, f), t),
        fits_term(t, f) ==> placed_term(t, st, f) == Ok::<TermV, Error>(t),
    decreases t, 1nat,
{
    match t {
        TermV::Expr(e) => {
            lemma_normal_expr_is_fixed(*e, st, f);
        },
        other => {
            if f > 0 {
                lemma_normal_term_is_fixed(other, st, (f - 1) as nat);
            }
        },
    }
}

proof fn lemma_normal_opt_is_fixed(v: Option<ExprV>, st: TableV, f: nat)
    requires
        normal_opt(v, st),
    ensures
        is_or_ran_out(reduce_opt(v, st, f), v),
        fits_opt(v, f) ==> reduce_opt(v, st, f) == Ok::<Option<ExprV>, Error>(v),
    decreases v, 0nat,
{
    match v {
        Some(e) => {
            lemma_normal_expr_is_fixed(e, st, f);
        },
        None => {},
    }
}

proof fn lemma_normal_vals_are_fixed(items: Seq<ExprV>, st: TableV, f: nat)
    requires
        normal_vals(items, st),
    ensures
        is_or_ran_out(reduce_vals(items, st, f), items),
        fits_vals(items, f) ==> reduce_vals(items, st, f) == Ok::<Seq<ExprV>, Error>(items),
    decreases items, 0nat,
{
    if items.len() == 0 {
        assert(items =~= Seq::<ExprV>::empty());
    } else {
        lemma_normal_expr_is_fixed(items[0], st, f);
        assert forall|i: int| 0 <= i < items.drop_first().len() implies normal_expr(
            #[trigger] items.drop_first()[i],
            st,
        ) by {
            assert(items.drop_first()[i] == items[i + 1]);
        }
        if fits_vals(items, f) {
            assert(fits_expr(items[0], f));
            assert forall|i: int| 0 <= i < items.drop_first().len() implies fits_expr(
                #[trigger] items.drop_first()[i],
                f,
            ) by {
                assert(items.drop_first()[i] == items[i + 1]);
            }
        }
        lemma_normal_vals_are_fixed(items.drop_first(), st, f);
        assert(seq![items[0]] + items.drop_first() =~= items);
    }
}

proof fn lemma_normal_record_is_fixed(fields: RecordV, st: TableV, f: nat)
    requires
        normal_record(fields, st),
    ensures
        is_or_ran_out(reduce_record(fields, st, f), fields),
        fits_record(fields, f) ==> reduce_record(fields, st, f) == Ok::<RecordV, Error>(fields),
    decreases fields, 0nat,
{
    if fields.len() == 0 {
        assert(fields =~= Seq::empty());
    } else {
        lemma_normal_expr_is_fixed(fields[0].1, st, f);
        assert forall|i: int| 0 <= i < fields.drop_first().len() implies normal_expr(
            (#[trigger] fields.drop_first()[i]).1,
            st,
        ) by {
            assert(fields.drop_first()[i] == fields[i + 1]);
        }
        if fits_record(fields, f) {
            assert(fits_expr(fields[0].1, f));
            assert forall|i: int| 0 <= i < fields.drop_first().len() implies fits_expr(
                (#[trigger] fields.drop_first()[i]).1,
                f,
            ) by {
                assert(fields.drop_first()[i] == fields[i + 1]);
            }
        }
        lemma_normal_record_is_fixed(fields.drop_first(), st, f);
        assert(seq![fields[0]] + fields.drop_first() =~= fields);
    }
}

proof fn lemma_normal_entries_are_fixed(entries: EntriesV, st: TableV, f: nat)
    requires
        normal_entries(entries, st),
    ensures
        is_or_ran_out(reduce_entries(entries, st, f), entries),
        fits_entries(entries, f) ==> reduce_entries(entries, st, f) == Ok::<EntriesV, Error>(
            entries,
        ),
    decreases entries, 0nat,
{
    if entries.len() == 0 {
        assert(entries =~= Seq::empty());
    } else {
        lemma_normal_opt_is_fixed(entries[0].1, st, f);
        assert forall|i: int| 0 <= i < entries.drop_first().len() implies normal_opt(
            (#[trigger] entries.drop_first()[i]).1,
            st,
        ) by {
            assert(entries.drop_first()[i] == entries[i + 1]);
        }
        if fits_entries(entries, f) {
            assert(fits_opt(entries[0].1, f));
            assert forall|i: int| 0 <= i < entries.drop_first().len() implies fits_opt(
                (#[trigger] entries.drop_first()[i]).1,
                f,
            ) by {
                assert(entries.drop_first()[i] == entries[i + 1]);
            }
        }
        lemma_normal_entries_are_fixed(entries.drop_first(), st, f);
        assert(seq![entries[0]] + entries.drop_first() =~= entries);
    }
}

/// Evaluating an expression that is in normal form leaves it as it is, and fails only
/// where the depth runs out, which it does not where the expression nests no deeper than
/// the limit.
pub proof fn lemma_eval_keeps_normal_forms(
    e: Expr,
    st: TableV,
    fuel: nat,
    after: Expr,
    r: Result<()>,
)
    requires
        normal_expr(e@, st),
        e.evaluated(st, fuel, &after, r),
    ensures
        after@ == e@,
        r is Ok || r == Err::<(), Error>(Error::DepthLimit),
        fits_expr(e@, fuel) ==> r is Ok,
{
    lemma_normal_expr_is_fixed(e@, st, fuel);
}

} // verus!
