use vstd::prelude::*;
use crate::ast::{EntriesV, Expr, ExprV, LetsV, Name, PathV, RecordV, Term1V, TermV};
use crate::depth::lemma_more_depth_changes_nothing;
use crate::error::{Error, Result};
use crate::eval::Eval;
use crate::forget::forget_expr;
use crate::results::{
    lemma_bind_keeps_wf, lemma_push_keeps_wf, lemma_result_is_normal, lemma_under_binder_wf,
};
use crate::normal::{normal_term, normal_term1};
use crate::semantics::{
    apply, as_lambda, as_record, as_tagged, bind_lets, boxed, choose_branch, content, dispatch,
    drop_leading, keep_by_path, keep_leading, keep_selected, leads_with, leave_scopes,
    lemma_resolved_reference_is_not_captured, of_term, placed_term, placed_term1, reduce_arrow,
    reduce_ascribe, reduce_entries, reduce_evaluation, reduce_expr, reduce_field_access,
    reduce_if, reduce_lambda, reduce_let, reduce_merge, reduce_operation, reduce_opt,
    reduce_project, reduce_record, reduce_term, reduce_vals, reduce_var, reduce_with, resolve,
    settle_access, splice, strip_heads, unboxed, under_argument, under_binder, under_name,
    unplaced, unplaced_term, update,
};
use crate::sym_table::{bind, table_wf, InfoV, TableV};

verus! {

broadcast use vstd::seq::group_seq_axioms;

/// Whether reducing `n` under `st`, nested at most `f` deep, gives `n` again.
pub open spec fn kept(n: ExprV, st: TableV, f: nat) -> bool {
    reduce_expr(n, st, f) == Ok::<ExprV, Error>(n)
}

/// Whether an optional expression, where there is one, is reduced to itself.
pub open spec fn kept_opt(v: Option<ExprV>, st: TableV, f: nat) -> bool {
    match v {
        Some(e) => kept(e, st, f),
        None => true,
    }
}

/// Whether every item is reduced to itself.
pub open spec fn kept_vals(items: Seq<ExprV>, st: TableV, f: nat) -> bool {
    forall|i: int| 0 <= i < items.len() ==> kept(#[trigger] items[i], st, f)
}

/// Whether the value of every field is reduced to itself.
pub open spec fn kept_record(fields: RecordV, st: TableV, f: nat) -> bool {
    forall|i: int| 0 <= i < fields.len() ==> kept((#[trigger] fields[i]).1, st, f)
}

/// Whether the expression of every entry that has one is reduced to itself.
pub open spec fn kept_entries(entries: EntriesV, st: TableV, f: nat) -> bool {
    forall|i: int| 0 <= i < entries.len() ==> kept_opt((#[trigger] entries[i]).1, st, f)
}

/// What stays within a depth stays within a greater one.
proof fn lemma_kept_more(n: ExprV, st: TableV, f: nat, g: nat)
    requires
        kept(n, st, f),
        f <= g,
    ensures
        kept(n, st, g),
{
    lemma_more_depth_changes_nothing(n, st, f, g);
}

/// Fields that stay within a depth stay within a greater one.
proof fn lemma_kept_record_more(fields: RecordV, st: TableV, f: nat, g: nat)
    requires
        kept_record(fields, st, f),
        f <= g,
    ensures
        kept_record(fields, st, g),
{
    assert forall|i: int| 0 <= i < fields.len() implies kept((#[trigger] fields[i]).1, st, g) by {
        lemma_kept_more(fields[i].1, st, f, g);
    }
}

/// Items that stay one by one stay as a sequence.
proof fn lemma_kept_vals_fixed(items: Seq<ExprV>, st: TableV, f: nat)
    requires
        kept_vals(items, st, f),
    ensures
        reduce_vals(items, st, f) == Ok::<Seq<ExprV>, Error>(items),
    decreases items.len(),
{
    if items.len() == 0 {
        assert(items =~= Seq::<ExprV>::empty());
    } else {
        assert(kept(items[0], st, f));
        assert forall|i: int| 0 <= i < items.drop_first().len() implies kept(
            #[trigger] items.drop_first()[i],
            st,
            f,
        ) by {
            assert(items.drop_first()[i] == items[i + 1]);
        }
        lemma_kept_vals_fixed(items.drop_first(), st, f);
        assert(seq![items[0]] + items.drop_first() =~= items);
    }
}

/// Fields that stay one by one stay as a record.
proof fn lemma_kept_record_fixed(fields: RecordV, st: TableV, f: nat)
    requires
        kept_record(fields, st, f),
    ensures
        reduce_record(fields, st, f) == Ok::<RecordV, Error>(fields),
    decreases fields.len(),
{
    if fields.len() == 0 {
        assert(fields =~= Seq::empty());
    } else {
        assert(kept(fields[0].1, st, f));
        assert forall|i: int| 0 <= i < fields.drop_first().len() implies kept(
            (#[trigger] fields.drop_first()[i]).1,
            st,
            f,
        ) by {
            assert(fields.drop_first()[i] == fields[i + 1]);
        }
        lemma_kept_record_fixed(fields.drop_first(), st, f);
        assert(seq![fields[0]] + fields.drop_first() =~= fields);
    }
}

/// Entries that stay one by one stay as a sequence.
proof fn lemma_kept_entries_fixed(entries: EntriesV, st: TableV, f: nat)
    requires
        kept_entries(entries, st, f),
    ensures
        reduce_entries(entries, st, f) == Ok::<EntriesV, Error>(entries),
    decreases entries.len(),
{
    if entries.len() == 0 {
        assert(entries =~= Seq::empty());
    } else {
        assert(kept_opt(entries[0].1, st, f));
        assert(reduce_opt(entries[0].1, st, f) == Ok::<Option<ExprV>, Error>(entries[0].1)) by {
            match entries[0].1 {
                Some(e) => {
                    assert(kept(e, st, f));
                },
                None => {},
            }
        }
        assert forall|i: int| 0 <= i < entries.drop_first().len() implies kept_opt(
            (#[trigger] entries.drop_first()[i]).1,
            st,
            f,
        ) by {
            assert(entries.drop_first()[i] == entries[i + 1]);
        }
        lemma_kept_entries_fixed(entries.drop_first(), st, f);
        assert(seq![entries[0]] + entries.drop_first() =~= entries);
    }
}

/// The fields of a record that stays stay one by one.
proof fn lemma_kept_record_back(fields: RecordV, st: TableV, f: nat)
    requires
        reduce_record(fields, st, f) == Ok::<RecordV, Error>(fields),
    ensures
        kept_record(fields, st, f),
    decreases fields.len(),
{
    if fields.len() > 0 {
        match reduce_expr(fields[0].1, st, f) {
            Ok(head) => match reduce_record(fields.drop_first(), st, f) {
                Ok(rest) => {
                    let all = seq![(fields[0].0, head)] + rest;
                    assert(all == fields);
                    assert(all[0] == fields[0]);
                    assert(rest =~= fields.drop_first()) by {
                        assert forall|i: int| 0 <= i < rest.len() implies rest[i]
                            == fields.drop_first()[i] by {
                            assert(all[i + 1] == rest[i]);
                        }
                    }
                    lemma_kept_record_back(fields.drop_first(), st, f);
                    assert forall|i: int| 0 <= i < fields.len() implies kept(
                        (#[trigger] fields[i]).1,
                        st,
                        f,
                    ) by {
                        if i > 0 {
                            assert(fields[i] == fields.drop_first()[i - 1]);
                        }
                    }
                },
                Err(_) => {},
            },
            Err(_) => {},
        }
    }
}

proof fn lemma_keep_leading_kept(fields: RecordV, name: Name, st: TableV, f: nat)
    requires
        kept_record(fields, st, f),
    ensures
        kept_record(keep_leading(fields, name), st, f),
    decreases fields.len(),
{
    if fields.len() > 0 {
        assert forall|i: int| 0 <= i < fields.drop_last().len() implies kept(
            (#[trigger] fields.drop_last()[i]).1, st, f) by {
            assert(fields.drop_last()[i] == fields[i]);
        }
        lemma_keep_leading_kept(fields.drop_last(), name, st, f);
        assert(kept(fields[fields.len() - 1].1, st, f));
    }
}

proof fn lemma_drop_leading_kept(fields: RecordV, name: Name, st: TableV, f: nat)
    requires
        kept_record(fields, st, f),
    ensures
        kept_record(drop_leading(fields, name), st, f),
    decreases fields.len(),
{
    if fields.len() > 0 {
        assert forall|i: int| 0 <= i < fields.drop_last().len() implies kept(
            (#[trigger] fields.drop_last()[i]).1, st, f) by {
            assert(fields.drop_last()[i] == fields[i]);
        }
        lemma_drop_leading_kept(fields.drop_last(), name, st, f);
        assert(kept(fields[fields.len() - 1].1, st, f));
    }
}

proof fn lemma_keep_selected_kept(fields: RecordV, names: Seq<Name>, st: TableV, f: nat)
    requires
        kept_record(fields, st, f),
    ensures
        kept_record(keep_selected(fields, names), st, f),
    decreases fields.len(),
{
    if fields.len() > 0 {
        assert forall|i: int| 0 <= i < fields.drop_last().len() implies kept(
            (#[trigger] fields.drop_last()[i]).1, st, f) by {
            assert(fields.drop_last()[i] == fields[i]);
        }
        lemma_keep_selected_kept(fields.drop_last(), names, st, f);
        assert(kept(fields[fields.len() - 1].1, st, f));
    }
}

proof fn lemma_keep_by_path_kept(fields: RecordV, used_up: bool, st: TableV, f: nat)
    requires
        kept_record(fields, st, f),
    ensures
        kept_record(keep_by_path(fields, used_up), st, f),
    decreases fields.len(),
{
    if fields.len() > 0 {
        assert forall|i: int| 0 <= i < fields.drop_last().len() implies kept(
            (#[trigger] fields.drop_last()[i]).1, st, f) by {
            assert(fields.drop_last()[i] == fields[i]);
        }
        lemma_keep_by_path_kept(fields.drop_last(), used_up, st, f);
        assert(kept(fields[fields.len() - 1].1, st, f));
    }
}

proof fn lemma_joined_kept(a: RecordV, b: RecordV, st: TableV, f: nat)
    requires
        kept_record(a, st, f),
        kept_record(b, st, f),
    ensures
        kept_record(a + b, st, f),
{
    assert forall|i: int| 0 <= i < (a + b).len() implies kept((#[trigger] (a + b)[i]).1, st, f) by {
        if i < a.len() {
            assert((a + b)[i] == a[i]);
        } else {
            assert((a + b)[i] == b[i - a.len()]);
        }
    }
}

/// The fields of a record literal that stays stay one by one.
proof fn lemma_kept_as_record(v: ExprV, st: TableV, f: nat)
    requires
        kept(v, st, f),
        as_record(v) is Some,
    ensures
        kept_record(as_record(v)->0, st, f),
{
    let inner = as_record(v)->0;
    assert(v == of_term(TermV::Record(inner)));
    assert(f > 0);
    let g = (f - 1) as nat;
    assert(reduce_expr(v, st, f) == reduce_term(TermV::Record(inner), st, g));
    match reduce_record(inner, st, g) {
        Ok(r) => {
            assert(of_term(TermV::Record(r)) == v);
            assert(r == inner);
            lemma_kept_record_back(inner, st, g);
            lemma_kept_record_more(inner, st, g, f);
        },
        Err(_) => {},
    }
}

/// The content of a field is made of values that stay if the entries under its name are.
proof fn lemma_content_kept(under: RecordV, st: TableV, f: nat)
    requires
        kept_record(under, st, f),
        content(under) is Some,
    ensures
        kept_record(content(under)->0, st, f),
    decreases under.len(),
{
    if under.len() > 0 {
        assert forall|i: int| 0 <= i < under.drop_last().len() implies kept(
            (#[trigger] under.drop_last()[i]).1,
            st,
            f,
        ) by {
            assert(under.drop_last()[i] == under[i]);
        }
        lemma_content_kept(under.drop_last(), st, f);
        let before = content(under.drop_last())->0;
        let last = under[under.len() - 1];
        assert(kept(last.1, st, f));
        if last.0.len() == 0 {
            lemma_kept_as_record(last.1, st, f);
            lemma_joined_kept(before, as_record(last.1)->0, st, f);
        } else {
            lemma_joined_kept(before, seq![last], st, f);
            assert(before.push(last) =~= before + seq![last]);
        }
    }
}

/// A record with a value put at a path holds values that stay if it did before and the
/// value stays.
proof fn lemma_splice_kept(fields: RecordV, path: PathV, value: ExprV, st: TableV, f: nat)
    requires
        kept_record(fields, st, f),
        kept(value, st, f),
        splice(fields, path, value) is Some,
    ensures
        kept_record(splice(fields, path, value)->0, st, f),
    decreases path.len(),
{
    let name = path[0];
    let others = drop_leading(fields, name);
    lemma_drop_leading_kept(fields, name, st, f);
    if path.len() == 1 {
        lemma_joined_kept(others, seq![(seq![name], value)], st, f);
        assert(others.push((seq![name], value)) =~= others + seq![(seq![name], value)]);
    } else {
        lemma_keep_leading_kept(fields, name, st, f);
        let under = strip_heads(keep_leading(fields, name));
        lemma_content_kept(under, st, f);
        let inner = content(under)->0;
        lemma_splice_kept(inner, path.drop_first(), value, st, f);
        let updated = splice(inner, path.drop_first(), value)->0;
        lemma_joined_kept(others, under_name(name, updated), st, f);
    }
}

/// A record of fields that stay stays, one level up.
proof fn lemma_kept_of_record(fields: RecordV, st: TableV, f: nat)
    requires
        kept_record(fields, st, f),
    ensures
        kept(of_term(TermV::Record(fields)), st, f + 1),
{
    lemma_kept_record_fixed(fields, st, f);
    assert(reduce_term(TermV::Record(fields), st, f) == Ok::<ExprV, Error>(
        of_term(TermV::Record(fields)),
    ));
}

/// What a field access settles on stays.
proof fn lemma_settle_kept(stripped: RecordV, st: TableV, f: nat)
    requires
        kept_record(stripped, st, f),
    ensures
        settle_access(stripped) matches Ok(n) ==> kept(n, st, f + 1),
{
    let hits = keep_by_path(stripped, true);
    let rest = keep_by_path(stripped, false);
    lemma_keep_by_path_kept(stripped, true, st, f);
    lemma_keep_by_path_kept(stripped, false, st, f);
    if hits.len() == 1 {
        assert(kept(hits[0].1, st, f));
        if as_record(hits[0].1) is Some {
            lemma_kept_as_record(hits[0].1, st, f);
            let inner = as_record(hits[0].1)->0;
            lemma_joined_kept(inner, rest, st, f);
            lemma_kept_of_record(inner + rest, st, f);
        } else {
            lemma_kept_more(hits[0].1, st, f, f + 1);
        }
    } else {
        lemma_kept_of_record(stripped, st, f);
    }
}

/// The fields of a record that stays in the place of a `Term`.
proof fn lemma_kept_placed_record(t: TermV, st: TableV, f: nat)
    requires
        placed_term(t, st, f) == Ok::<TermV, Error>(t),
        t is Record,
    ensures
        kept_record(t->Record_0, st, f),
{
    assert(unplaced_term(t) == of_term(t));
    assert(kept(of_term(t), st, f));
    lemma_kept_as_record(of_term(t), st, f);
}

proof fn lemma_kept_placed1_record(t: Term1V, st: TableV, f: nat)
    requires
        placed_term1(t, st, f) == Ok::<Term1V, Error>(t),
        t matches Term1V::Term(TermV::Record(_)),
    ensures
        kept_record(t->Term_0->Record_0, st, f),
{
    assert(unplaced(t) == ExprV::Term1(t));
    assert(kept(ExprV::Term1(t), st, f));
    lemma_kept_as_record(ExprV::Term1(t), st, f);
}

/// What stands in the place of a `Term1` and stays there is kept as an expression.
proof fn lemma_kept_unplaced(t: Term1V, st: TableV, f: nat)
    requires
        table_wf(st),
        placed_term1(t, st, f) == Ok::<Term1V, Error>(t),
    ensures
        kept(unplaced(t), st, f),
{
    lemma_result_is_normal(unplaced(t), st, f);
    match reduce_expr(unplaced(t), st, f) {
        Ok(ExprV::Term1(r)) => {
            assert(r == t);
            assert(normal_term1(r, st));
            match r {
                Term1V::Term(inner) => {
                    assert(normal_term(inner, st));
                },
                _ => {},
            }
        },
        Ok(other) => {},
        Err(_) => {},
    }
}

/// Reducing what a reduction ended in, under the same scopes and within the same depth,
/// gives the same again.
pub proof fn lemma_reduction_is_idempotent(e: ExprV, st: TableV, fuel: nat)
    requires
        table_wf(st),
    ensures
        reduce_expr(e, st, fuel) matches Ok(n) ==> reduce_expr(n, st, fuel) == Ok::<
            ExprV,
            Error,
        >(n),
    decreases fuel, 0nat, 0nat,
{
    if fuel > 0 {
        let f = (fuel - 1) as nat;
        match e {
            ExprV::Let(defs, body) => lemma_stays_let(defs, *body, st, f),
            ExprV::Lambda(name, typ, body) => lemma_stays_lambda(name, typ, *body, st, f),
            ExprV::Term1(Term1V::Term(t)) => lemma_stays_term(t, st, f),
            ExprV::Term1(Term1V::Evaluation(func, arg)) => lemma_stays_evaluation(*func, arg, st, f),
            ExprV::Term1(Term1V::Arrow(name, a, b)) => lemma_stays_arrow(name, *a, *b, st, f),
            ExprV::Term1(Term1V::With(t, path, v)) => lemma_stays_with(*t, path, *v, st, f),
            ExprV::Term1(Term1V::Operation(a, op, b)) => lemma_stays_operation(*a, op, *b, st, f),
            ExprV::Term1(Term1V::IfThenElse(c, a, b)) => lemma_stays_if(*c, *a, *b, st, f),
            ExprV::Term1(Term1V::Ascribe(t, typ)) => lemma_stays_ascribe(*t, *typ, st, f),
            ExprV::Term1(Term1V::Construct(..)) => {},
        }
    }
}

/// An expression that `eval` has reduced with success is left as it is, again with
/// success, by any later `eval` under the same scopes and the same depth limit.
pub proof fn lemma_second_eval_changes_nothing<'i>(
    before: Expr<'i>,
    after: Expr<'i>,
    st: TableV,
    fuel: nat,
)
    requires
        table_wf(st),
        before.evaluated(st, fuel, &after, Ok(())),
    ensures
        forall|later: Expr<'i>, r: Result<()>| #[trigger]
            after.evaluated(st, fuel, &later, r) ==> r is Ok && later@ == after@,
{
    lemma_reduction_is_idempotent(before@, st, fuel);
}

/// What is left after closed scopes are forgotten stays.
proof fn lemma_stays_leave(body: ExprV, st: TableV, f: nat)
    requires
        table_wf(st),
    ensures
        leave_scopes(body, st, f) matches Ok(n) ==> kept(n, st, f + 1),
    decreases f, 1nat, 0nat,
{
    lemma_reduction_is_idempotent(forget_expr(body, st.len()), st, f);
    match leave_scopes(body, st, f) {
        Ok(n) => lemma_kept_more(n, st, f, f + 1),
        Err(_) => {},
    }
}

/// What stands in the place of a `Term1` after its reduction stays there.
proof fn lemma_stays_placed_term1(t: Term1V, st: TableV, f: nat)
    requires
        table_wf(st),
    ensures
        placed_term1(t, st, f) matches Ok(r) ==> placed_term1(r, st, f) == Ok::<Term1V, Error>(r),
    decreases f, 1nat, 0nat,
{
    lemma_reduction_is_idempotent(unplaced(t), st, f);
    lemma_result_is_normal(unplaced(t), st, f);
    match reduce_expr(unplaced(t), st, f) {
        Ok(ExprV::Term1(r)) => {
            assert(normal_term1(r, st));
            match r {
                Term1V::Term(inner) => {
                    assert(normal_term(inner, st));
                },
                _ => {},
            }
            assert(unplaced(r) == ExprV::Term1(r));
        },
        Ok(other) => {
            assert(unplaced(Term1V::Term(TermV::Expr(Box::new(other)))) == other);
        },
        Err(_) => {},
    }
}

/// What stands in the place of a `Term` after its reduction stays there.
proof fn lemma_stays_placed_term(t: TermV, st: TableV, f: nat)
    requires
        table_wf(st),
    ensures
        placed_term(t, st, f) matches Ok(r) ==> placed_term(r, st, f) == Ok::<TermV, Error>(r),
    decreases f, 1nat, 0nat,
{
    lemma_reduction_is_idempotent(unplaced_term(t), st, f);
    lemma_result_is_normal(unplaced_term(t), st, f);
    match reduce_expr(unplaced_term(t), st, f) {
        Ok(ExprV::Term1(Term1V::Term(r))) => {
            assert(normal_term1(Term1V::Term(r), st));
            assert(normal_term(r, st));
            assert(unplaced_term(r) == of_term(r));
        },
        Ok(other) => {
            assert(unplaced_term(TermV::Expr(Box::new(other))) == other);
        },
        Err(_) => {},
    }
}

proof fn lemma_stays_opt(v: Option<ExprV>, st: TableV, f: nat)
    requires
        table_wf(st),
    ensures
        reduce_opt(v, st, f) matches Ok(r) ==> kept_opt(r, st, f),
    decreases f, 1nat, 0nat,
{
    match v {
        Some(e) => lemma_reduction_is_idempotent(e, st, f),
        None => {},
    }
}

proof fn lemma_stays_vals(items: Seq<ExprV>, st: TableV, f: nat)
    requires
        table_wf(st),
    ensures
        reduce_vals(items, st, f) matches Ok(r) ==> kept_vals(r, st, f),
    decreases f, 2nat, items.len(),
{
    if items.len() > 0 {
        lemma_reduction_is_idempotent(items[0], st, f);
        lemma_stays_vals(items.drop_first(), st, f);
        match reduce_expr(items[0], st, f) {
            Ok(head) => match reduce_vals(items.drop_first(), st, f) {
                Ok(rest) => {
                    let all = seq![head] + rest;
                    assert forall|i: int| 0 <= i < all.len() implies kept(
                        #[trigger] all[i],
                        st,
                        f,
                    ) by {
                        if i > 0 {
                            assert(all[i] == rest[i - 1]);
                        }
                    }
                },
                Err(_) => {},
            },
            Err(_) => {},
        }
    }
}

proof fn lemma_stays_record(fields: RecordV, st: TableV, f: nat)
    requires
        table_wf(st),
    ensures
        reduce_record(fields, st, f) matches Ok(r) ==> kept_record(r, st, f),
    decreases f, 2nat, fields.len(),
{
    if fields.len() > 0 {
        lemma_reduction_is_idempotent(fields[0].1, st, f);
        lemma_stays_record(fields.drop_first(), st, f);
        match reduce_expr(fields[0].1, st, f) {
            Ok(head) => match reduce_record(fields.drop_first(), st, f) {
                Ok(rest) => {
                    let all = seq![(fields[0].0, head)] + rest;
                    assert forall|i: int| 0 <= i < all.len() implies kept(
                        (#[trigger] all[i]).1,
                        st,
                        f,
                    ) by {
                        if i > 0 {
                            assert(all[i] == rest[i - 1]);
                        }
                    }
                },
                Err(_) => {},
            },
            Err(_) => {},
        }
    }
}

proof fn lemma_stays_entries(entries: EntriesV, st: TableV, f: nat)
    requires
        table_wf(st),
    ensures
        reduce_entries(entries, st, f) matches Ok(r) ==> kept_entries(r, st, f),
    decreases f, 2nat, entries.len(),
{
    if entries.len() > 0 {
        lemma_stays_opt(entries[0].1, st, f);
        lemma_stays_entries(entries.drop_first(), st, f);
        match reduce_opt(entries[0].1, st, f) {
            Ok(head) => match reduce_entries(entries.drop_first(), st, f) {
                Ok(rest) => {
                    let all = seq![(entries[0].0, head)] + rest;
                    assert forall|i: int| 0 <= i < all.len() implies kept_opt(
                        (#[trigger] all[i]).1,
                        st,
                        f,
                    ) by {
                        if i > 0 {
                            assert(all[i] == rest[i - 1]);
                        }
                    }
                },
                Err(_) => {},
            },
            Err(_) => {},
        }
    }
}

/// The scopes after the bindings of a `let` are well-formed.
proof fn lemma_bind_lets_wf(defs: LetsV, st: TableV, f: nat)
    requires
        table_wf(st),
    ensures
        bind_lets(defs, st, f) matches Ok(inner) ==> table_wf(inner),
    decreases f, 2nat, defs.len(),
{
    if defs.len() > 0 {
        match reduce_opt(defs[0].1, st, f) {
            Ok(typ) => match reduce_expr(defs[0].2, st, f) {
                Ok(value) => {
                    lemma_bind_keeps_wf(st, defs[0].0, typ, Some(value));
                    lemma_bind_lets_wf(defs.drop_first(), bind(st, defs[0].0, typ, Some(value)), f);
                },
                Err(_) => {},
            },
            Err(_) => {},
        }
    }
}

proof fn lemma_stays_let(defs: LetsV, body: ExprV, st: TableV, f: nat)
    requires
        table_wf(st),
    ensures
        reduce_let(defs, body, st, f) matches Ok(n) ==> kept(n, st, f + 1),
    decreases f, 3nat, 0nat,
{
    lemma_bind_lets_wf(defs, st, f);
    match bind_lets(defs, st, f) {
        Ok(inner) => match reduce_expr(body, inner, f) {
            Ok(reduced) => lemma_stays_leave(reduced, st, f),
            Err(_) => {},
        },
        Err(_) => {},
    }
}

proof fn lemma_stays_lambda(name: Name, typ: Option<Box<ExprV>>, body: ExprV, st: TableV, f: nat)
    requires
        table_wf(st),
    ensures
        reduce_lambda(name, typ, body, st, f) matches Ok(n) ==> kept(n, st, f + 1),
    decreases f, 3nat, 0nat,
{
    let inner = bind(st, name, None, None);
    lemma_stays_opt(unboxed(typ), st, f);
    lemma_bind_keeps_wf(st, name, None, None);
    lemma_reduction_is_idempotent(body, inner, f);
    match reduce_opt(unboxed(typ), st, f) {
        Ok(typ2) => match reduce_expr(body, inner, f) {
            Ok(body2) => {
                let n = ExprV::Lambda(name, boxed(typ2), Box::new(body2));
                assert(unboxed(boxed(typ2)) == typ2);
                assert(reduce_opt(typ2, st, f) == Ok::<Option<ExprV>, Error>(typ2));
                assert(reduce_lambda(name, boxed(typ2), body2, st, f) == Ok::<ExprV, Error>(n));
            },
            Err(_) => {},
        },
        Err(_) => {},
    }
}

proof fn lemma_stays_arrow(name: Option<Name>, a: ExprV, b: ExprV, st: TableV, f: nat)
    requires
        table_wf(st),
    ensures
        reduce_arrow(name, a, b, st, f) matches Ok(n) ==> kept(n, st, f + 1),
    decreases f, 3nat, 0nat,
{
    lemma_reduction_is_idempotent(a, st, f);
    lemma_under_binder_wf(st, name);
    lemma_reduction_is_idempotent(b, under_binder(st, name), f);
    match reduce_expr(a, st, f) {
        Ok(a2) => match reduce_expr(b, under_binder(st, name), f) {
            Ok(b2) => {
                let n = ExprV::Term1(Term1V::Arrow(name, Box::new(a2), Box::new(b2)));
                assert(reduce_arrow(name, a2, b2, st, f) == Ok::<ExprV, Error>(n));
            },
            Err(_) => {},
        },
        Err(_) => {},
    }
}

/// What a record update with parts that stay turns into stays.
proof fn lemma_update_kept(base: Term1V, path: PathV, value: Term1V, st: TableV, f: nat)
    requires
        table_wf(st),
        placed_term1(base, st, f) == Ok::<Term1V, Error>(base),
        placed_term1(value, st, f) == Ok::<Term1V, Error>(value),
    ensures
        update(base, path, value, st) matches Ok(n) ==> kept(n, st, f + 1),
{
    lemma_kept_unplaced(value, st, f);
    match base {
        Term1V::Term(TermV::Record(fields)) => {
            lemma_kept_placed1_record(base, st, f);
            if splice(fields, path, unplaced(value)) is Some {
                lemma_splice_kept(fields, path, unplaced(value), st, f);
                lemma_kept_of_record(splice(fields, path, unplaced(value))->0, st, f);
            }
        },
        other => {
            if update(base, path, value, st) is Ok {
                let n = ExprV::Term1(Term1V::With(Box::new(other), path, Box::new(value)));
                assert(reduce_with(other, path, value, st, f) == Ok::<ExprV, Error>(n));
            }
        },
    }
}

proof fn lemma_stays_with(t: Term1V, path: PathV, v: Term1V, st: TableV, f: nat)
    requires
        table_wf(st),
    ensures
        reduce_with(t, path, v, st, f) matches Ok(n) ==> kept(n, st, f + 1),
    decreases f, 3nat, 0nat,
{
    lemma_stays_placed_term1(t, st, f);
    lemma_stays_placed_term1(v, st, f);
    match placed_term1(t, st, f) {
        Ok(base) => match placed_term1(v, st, f) {
            Ok(value) => lemma_update_kept(base, path, value, st, f),
            Err(_) => {},
        },
        Err(_) => {},
    }
}

proof fn lemma_stays_operation(a: Term1V, op: Name, b: Term1V, st: TableV, f: nat)
    requires
        table_wf(st),
    ensures
        reduce_operation(a, op, b, st, f) matches Ok(n) ==> kept(n, st, f + 1),
    decreases f, 3nat, 0nat,
{
    lemma_stays_placed_term1(a, st, f);
    lemma_stays_placed_term1(b, st, f);
    match placed_term1(a, st, f) {
        Ok(a2) => match placed_term1(b, st, f) {
            Ok(b2) => {
                let n = ExprV::Term1(Term1V::Operation(Box::new(a2), op, Box::new(b2)));
                assert(reduce_operation(a2, op, b2, st, f) == Ok::<ExprV, Error>(n));
            },
            Err(_) => {},
        },
        Err(_) => {},
    }
}

proof fn lemma_stays_ascribe(t: Term1V, typ: ExprV, st: TableV, f: nat)
    requires
        table_wf(st),
    ensures
        reduce_ascribe(t, typ, st, f) matches Ok(n) ==> kept(n, st, f + 1),
    decreases f, 3nat, 0nat,
{
    lemma_stays_placed_term1(t, st, f);
    match placed_term1(t, st, f) {
        Ok(term) => {
            lemma_kept_unplaced(term, st, f);
            lemma_kept_more(unplaced(term), st, f, f + 1);
        },
        Err(_) => {},
    }
}

proof fn lemma_stays_if(c: ExprV, a: ExprV, b: ExprV, st: TableV, f: nat)
    requires
        table_wf(st),
    ensures
        reduce_if(c, a, b, st, f) matches Ok(n) ==> kept(n, st, f + 1),
    decreases f, 3nat, 0nat,
{
    lemma_reduction_is_idempotent(a, st, f);
    lemma_reduction_is_idempotent(b, st, f);
    lemma_reduction_is_idempotent(c, st, f);
    match reduce_expr(a, st, f) {
        Ok(a2) => match reduce_expr(b, st, f) {
            Ok(b2) => match reduce_expr(c, st, f) {
                Ok(c2) => {
                    let n = ExprV::Term1(
                        Term1V::IfThenElse(Box::new(c2), Box::new(a2), Box::new(b2)),
                    );
                    lemma_kept_more(a2, st, f, f + 1);
                    lemma_kept_more(b2, st, f, f + 1);
                    assert(reduce_if(c2, a2, b2, st, f) == choose_branch(c2, a2, b2, st));
                },
                Err(_) => {},
            },
            Err(_) => {},
        },
        Err(_) => {},
    }
}

/// What an application of parts that stay turns into stays.
proof fn lemma_stays_apply(func: Term1V, arg: TermV, st: TableV, f: nat)
    requires
        table_wf(st),
        placed_term1(func, st, f) == Ok::<Term1V, Error>(func),
        placed_term(arg, st, f) == Ok::<TermV, Error>(arg),
    ensures
        apply(func, arg, st, f) matches Ok(n) ==> kept(n, st, f + 1),
    decreases f, 3nat, 0nat,
{
    match as_lambda(func) {
        Some((name, typ, body)) => {
            let inner = under_argument(st, name, arg);
            lemma_bind_keeps_wf(st, name, None, Some(of_term(arg)));
            lemma_push_keeps_wf(st);
            match reduce_opt(unboxed(typ), inner, f) {
                Ok(_) => match reduce_expr(body, inner, f) {
                    Ok(reduced) => lemma_stays_leave(reduced, st, f),
                    Err(_) => {},
                },
                Err(_) => {},
            }
        },
        None => {
            if apply(func, arg, st, f) is Ok {
                let n = ExprV::Term1(Term1V::Evaluation(Box::new(func), arg));
                assert(reduce_evaluation(func, arg, st, f) == apply(func, arg, st, f));
            }
        },
    }
}

proof fn lemma_stays_evaluation(func: Term1V, arg: TermV, st: TableV, f: nat)
    requires
        table_wf(st),
    ensures
        reduce_evaluation(func, arg, st, f) matches Ok(n) ==> kept(n, st, f + 1),
    decreases f, 4nat, 0nat,
{
    lemma_stays_placed_term1(func, st, f);
    lemma_stays_placed_term(arg, st, f);
    match placed_term1(func, st, f) {
        Ok(func) => match placed_term(arg, st, f) {
            Ok(arg) => lemma_stays_apply(func, arg, st, f),
            Err(_) => {},
        },
        Err(_) => {},
    }
}

proof fn lemma_stays_dispatch(table: RecordV, tag: Name, arg: TermV, st: TableV, f: nat)
    requires
        table_wf(st),
    ensures
        dispatch(table, tag, arg, st, f) matches Ok(n) ==> kept(n, st, f + 1),
    decreases f, 2nat, table.len(),
{
    if table.len() > 0 {
        match reduce_expr(table[0].1, st, f) {
            Ok(handler) => {
                if leads_with(table[0].0, tag) {
                    if handler is Lambda {
                        let call = ExprV::Term1(
                            Term1V::Evaluation(
                                Box::new(Term1V::Term(TermV::Expr(Box::new(handler)))),
                                arg,
                            ),
                        );
                        lemma_reduction_is_idempotent(call, st, f);
                        match reduce_expr(call, st, f) {
                            Ok(n) => lemma_kept_more(n, st, f, f + 1),
                            Err(_) => {},
                        }
                    }
                } else {
                    lemma_stays_dispatch(table.drop_first(), tag, arg, st, f);
                }
            },
            Err(_) => {},
        }
    }
}

proof fn lemma_stays_merge(table: RecordV, t: TermV, st: TableV, f: nat)
    requires
        table_wf(st),
    ensures
        reduce_merge(table, t, st, f) matches Ok(n) ==> kept(n, st, f + 1),
    decreases f, 3nat, 0nat,
{
    lemma_stays_placed_term(t, st, f);
    match placed_term(t, st, f) {
        Ok(t2) => match as_tagged(t2) {
            Some((tag, arg)) => lemma_stays_dispatch(table, tag, arg, st, f),
            None => {
                if reduce_merge(table, t, st, f) is Ok {
                    let n = TermV::Merge(table, Box::new(t2));
                    assert(reduce_merge(table, t2, st, f) == reduce_merge(table, t, st, f));
                    assert(reduce_term(n, st, f) == reduce_merge(table, t2, st, f));
                }
            },
        },
        Err(_) => {},
    }
}

proof fn lemma_stays_project(style: u8, t: TermV, names: Seq<Name>, st: TableV, f: nat)
    requires
        table_wf(st),
    ensures
        reduce_project(style, t, names, st, f) matches Ok(n) ==> kept(n, st, f + 1),
    decreases f, 3nat, 0nat,
{
    lemma_stays_placed_term(t, st, f);
    match placed_term(t, st, f) {
        Ok(TermV::Record(fields)) => {
            lemma_kept_placed_record(TermV::Record(fields), st, f);
            lemma_keep_selected_kept(fields, names, st, f);
            lemma_kept_of_record(keep_selected(fields, names), st, f);
        },
        Ok(other) => {
            if reduce_project(style, t, names, st, f) is Ok {
                let n = TermV::Project(style, Box::new(other), names);
                assert(reduce_project(style, other, names, st, f) == reduce_project(
                    style,
                    t,
                    names,
                    st,
                    f,
                ));
                assert(reduce_term(n, st, f) == reduce_project(style, other, names, st, f));
            }
        },
        Err(_) => {},
    }
}

proof fn lemma_stays_field_access(t: TermV, name: Name, st: TableV, f: nat)
    requires
        table_wf(st),
    ensures
        reduce_field_access(t, name, st, f) matches Ok(n) ==> kept(n, st, f + 1),
    decreases f, 3nat, 0nat,
{
    lemma_stays_placed_term(t, st, f);
    match placed_term(t, st, f) {
        Ok(TermV::Record(fields)) => {
            lemma_stays_record(keep_leading(fields, name), st, f);
            match reduce_record(keep_leading(fields, name), st, f) {
                Ok(reduced) => {
                    let stripped = strip_heads(reduced);
                    assert forall|i: int| 0 <= i < stripped.len() implies kept(
                        (#[trigger] stripped[i]).1,
                        st,
                        f,
                    ) by {
                        assert(stripped[i].1 == reduced[i].1);
                    }
                    lemma_settle_kept(stripped, st, f);
                },
                Err(_) => {},
            }
        },
        Ok(other) => {
            if reduce_field_access(t, name, st, f) is Ok {
                let n = TermV::FieldAccess(Box::new(other), name);
                assert(reduce_field_access(other, name, st, f) == reduce_field_access(
                    t,
                    name,
                    st,
                    f,
                ));
                assert(reduce_term(n, st, f) == reduce_field_access(other, name, st, f));
            }
        },
        Err(_) => {},
    }
}

/// What a reference reduces to stays, one level up.
proof fn lemma_stays_var(name: Name, distance: nat, resolved: Option<nat>, st: TableV, f: nat)
    requires
        table_wf(st),
    ensures
        reduce_var(name, distance, resolved, st, f) matches Ok(n) ==> kept(n, st, f + 1),
    decreases f, 3nat, 0nat,
{
    match resolve(st, name, distance, resolved) {
        Some(info) => match info.value {
            Some(v) => {
                lemma_reduction_is_idempotent(forget_expr(v, info.scope_id), st, f);
                match reduce_expr(forget_expr(v, info.scope_id), st, f) {
                    Ok(n) => lemma_kept_more(n, st, f, f + 1),
                    Err(_) => {},
                }
            },
            None => {
                let id = match resolved {
                    Some(id) => id,
                    None => info.scope_id,
                };
                if resolved is None {
                    lemma_resolved_reference_is_not_captured(st, name, distance, Seq::empty());
                    assert(st + Seq::<Map<Name, InfoV>>::empty() =~= st);
                }
                let n = TermV::Var(name, distance, Some(id));
                assert(reduce_term(n, st, f) == reduce_var(name, distance, Some(id), st, f));
                assert(reduce_var(name, distance, Some(id), st, f) == Ok::<ExprV, Error>(
                    of_term(n),
                ));
            },
        },
        None => {},
    }
}

/// What a term reduces to stays, one level up.
proof fn lemma_stays_term(t: TermV, st: TableV, f: nat)
    requires
        table_wf(st),
    ensures
        reduce_term(t, st, f) matches Ok(n) ==> kept(n, st, f + 1),
    decreases f, 5nat, 0nat,
{
    match t {
        TermV::Var(name, distance, resolved) => lemma_stays_var(name, distance, resolved, st, f),
        TermV::Text(style, entries) => {
            lemma_stays_entries(entries, st, f);
            match reduce_entries(entries, st, f) {
                Ok(r) => {
                    lemma_kept_entries_fixed(r, st, f);
                    assert(reduce_term(TermV::Text(style, r), st, f) == Ok::<ExprV, Error>(
                        of_term(TermV::Text(style, r)),
                    ));
                },
                Err(_) => {},
            }
        },
        TermV::List(items) => {
            lemma_stays_vals(items, st, f);
            match reduce_vals(items, st, f) {
                Ok(r) => {
                    lemma_kept_vals_fixed(r, st, f);
                    assert(reduce_term(TermV::List(r), st, f) == Ok::<ExprV, Error>(
                        of_term(TermV::List(r)),
                    ));
                },
                Err(_) => {},
            }
        },
        TermV::Record(fields) => {
            lemma_stays_record(fields, st, f);
            match reduce_record(fields, st, f) {
                Ok(r) => lemma_kept_of_record(r, st, f),
                Err(_) => {},
            }
        },
        TermV::TypeRecord(fields) => {
            lemma_stays_record(fields, st, f);
            match reduce_record(fields, st, f) {
                Ok(r) => {
                    lemma_kept_record_fixed(r, st, f);
                    assert(reduce_term(TermV::TypeRecord(r), st, f) == Ok::<ExprV, Error>(
                        of_term(TermV::TypeRecord(r)),
                    ));
                },
                Err(_) => {},
            }
        },
        TermV::TypeEnum(alts) => {
            lemma_stays_entries(alts, st, f);
            match reduce_entries(alts, st, f) {
                Ok(r) => {
                    lemma_kept_entries_fixed(r, st, f);
                    assert(reduce_term(TermV::TypeEnum(r), st, f) == Ok::<ExprV, Error>(
                        of_term(TermV::TypeEnum(r)),
                    ));
                },
                Err(_) => {},
            }
        },
        TermV::Expr(e) => {
            lemma_reduction_is_idempotent(*e, st, f);
            match reduce_expr(*e, st, f) {
                Ok(n) => lemma_kept_more(n, st, f, f + 1),
                Err(_) => {},
            }
        },
        TermV::Project(style, inner, names) => lemma_stays_project(style, *inner, names, st, f),
        TermV::FieldAccess(inner, name) => lemma_stays_field_access(*inner, name, st, f),
        TermV::Merge(table, inner) => lemma_stays_merge(table, *inner, st, f),
        TermV::Integer(..) | TermV::Double(..) | TermV::Path(..) | TermV::Import { .. }
        | TermV::Embed(..) => {},
    }
}

} // verus!
