use std::collections::VecDeque;
use vstd::prelude::*;
use vstd::std_specs::vecdeque::VecDequeAdditionalSpecFns;
use crate::ast::{
    boxed_opt_view, copy_expr, copy_term, copy_term1, deq, entries_view, expr_view, lemma_empty_views, lemma_entries_pop,
    lemma_entries_push, lemma_lets_pop, lemma_record_pop, lemma_record_push, lemma_vals_pop,
    lemma_vals_push, lemma_walk, lemma_walk_end, lets_view, name_opt_view, opt_view, path_view,
    record_view, term1_view, term_view, vals_view, Deq, EntriesV, Expr, ExprV, LetStmt,
    Name, Path, PathV, RecordData, RecordV, Term, Term1, Term1V, TermV, Val,
};
use crate::context::{resolved_view, Context, Unboxer};
use crate::error::{Error, NodeKind, Result};
use crate::semantics;
use crate::semantics::{
    as_lambda, as_near_var, as_record, as_tagged, blocked_function, blocked_scrutinee, boxed,
    choose_branch, content, drop_leading, is_own_parameter, keep_by_path, keep_leading, keep_selected,
    leads_with, leave_scopes, lemma_prepend_step, of_term, prepend, reduce_var, selected,
    settle_access, splice, strip_heads, tail_of, unboxed, under_argument, under_binder,
    under_name, unplaced, update,
};
use crate::forget::forgotten_expr;
use crate::sym_table::{bind, value_view, TableV, Value};
use crate::text::str_eq;

verus! {

broadcast use vstd::std_specs::vecdeque::group_vec_dequeue_axioms;

/// The mathematical value of the result of a reduction.
pub open spec fn expr_result(r: Result<Expr>) -> Result<ExprV> {
    match r {
        Ok(e) => Ok(e@),
        Err(e) => Err(e),
    }
}

/// The mathematical value of the result of a reduction in the place of a `Term1`.
pub open spec fn term1_result(r: Result<Term1>) -> Result<Term1V> {
    match r {
        Ok(t) => Ok(t@),
        Err(e) => Err(e),
    }
}

/// The mathematical value of the result of a reduction in the place of a `Term`.
pub open spec fn term_result(r: Result<Term>) -> Result<TermV> {
    match r {
        Ok(t) => Ok(t@),
        Err(e) => Err(e),
    }
}

/// The mathematical value of the result of reducing an optional expression.
pub open spec fn opt_result(r: Result<Option<Val>>) -> Result<Option<ExprV>> {
    match r {
        Ok(v) => Ok(opt_view(&v)),
        Err(e) => Err(e),
    }
}

/// The mathematical value of the result of reducing the items of a list.
pub open spec fn vals_result(r: Result<Deq<Val>>) -> Result<Seq<ExprV>> {
    match r {
        Ok(d) => Ok(vals_view(&d)),
        Err(e) => Err(e),
    }
}

/// The mathematical value of the result of reducing the fields of a record.
pub open spec fn record_result(r: Result<RecordData>) -> Result<RecordV> {
    match r {
        Ok(d) => Ok(record_view(&d)),
        Err(e) => Err(e),
    }
}

/// The mathematical value of the result of reducing the entries of a text or of a
/// union type.
pub open spec fn entries_result(r: Result<Deq<(&str, Option<Val>)>>) -> Result<EntriesV> {
    match r {
        Ok(d) => Ok(entries_view(&d)),
        Err(e) => Err(e),
    }
}

/// A term in the place of an expression.
pub fn wrap_term<'i>(t: Term<'i>) -> (e: Expr<'i>)
    ensures
        e@ == of_term(t@),
{
    let t1 = Term1::Term(t);
    assert(t1@ == Term1V::Term(t@));
    Expr::Term1(t1)
}

/// A `Term1` in the place of an expression.
pub fn wrap_term1<'i>(t: Term1<'i>) -> (e: Expr<'i>)
    ensures
        e@ == ExprV::Term1(t@),
{
    Expr::Term1(t)
}

/// Whether `name` is one of `names`.
pub fn path_contains(names: &Path, name: &str) -> (found: bool)
    ensures
        found == path_view(names).contains(name@),
{
    let mut i: usize = 0;
    while i < names.len()
        invariant
            i <= names.len(),
            forall|k: int| 0 <= k < i ==> path_view(names)[k] != name@,
        decreases names.len() - i,
    {
        if str_eq(names[i], name) {
            assert(path_view(names)[i as int] == name@);
            return true;
        }
        i = i + 1;
    }
    false
}

/// Whether the first name of `path` is `name`.
pub fn path_leads_with(path: &Path, name: &str) -> (b: bool)
    ensures
        b == leads_with(path_view(path), name@),
{
    if path.len() > 0 {
        assert(path_view(path)[0] == path@[0]@);
        str_eq(path[0], name)
    } else {
        false
    }
}

/// The fields whose path begins with `name`, in their order.
pub fn retain_leading<'i>(fields: RecordData<'i>, name: &str) -> (out: RecordData<'i>)
    ensures
        record_view(&out) == keep_leading(record_view(&fields), name@),
{
    let ghost all = record_view(&fields);
    let mut rest = fields;
    let mut out: RecordData<'i> = VecDeque::new();
    let ghost mut i: int = 0;
    proof {
        lemma_empty_views();
        assert(all.skip(0) =~= all);
        assert(all.take(0) =~= Seq::<(PathV, ExprV)>::empty());
    }
    loop
        invariant
            0 <= i <= all.len(),
            record_view(&rest) == all.skip(i),
            record_view(&out) == keep_leading(all.take(i), name@),
        ensures
            record_view(&out) == keep_leading(all, name@),
        decreases rest.len(),
    {
        let ghost before = rest;
        let ghost out_before = out;
        match rest.pop_front() {
            Some(entry) => {
                proof {
                    lemma_record_pop(&before, &rest);
                    lemma_walk(all, i);
                }
                if path_leads_with(&entry.0, name) {
                    out.push_back(entry);
                    proof {
                        lemma_record_push(&out_before, &out, entry);
                    }
                }
                proof {
                    i = i + 1;
                }
            },
            None => {
                proof {
                    lemma_empty_views();
                    lemma_walk_end(all, i);
                }
                break ;
            },
        }
    }
    out
}

/// The fields whose path begins with one of `names`, in their order.
pub fn retain_selected<'i>(fields: RecordData<'i>, names: &Path) -> (out: RecordData<'i>)
    ensures
        record_view(&out) == keep_selected(record_view(&fields), path_view(names)),
{
    let ghost all = record_view(&fields);
    let ghost wanted = path_view(names);
    let mut rest = fields;
    let mut out: RecordData<'i> = VecDeque::new();
    let ghost mut i: int = 0;
    proof {
        lemma_empty_views();
        assert(all.skip(0) =~= all);
        assert(all.take(0) =~= Seq::<(PathV, ExprV)>::empty());
    }
    loop
        invariant
            0 <= i <= all.len(),
            wanted == path_view(names),
            record_view(&rest) == all.skip(i),
            record_view(&out) == keep_selected(all.take(i), wanted),
        ensures
            record_view(&out) == keep_selected(all, wanted),
        decreases rest.len(),
    {
        let ghost before = rest;
        let ghost out_before = out;
        match rest.pop_front() {
            Some(entry) => {
                proof {
                    lemma_record_pop(&before, &rest);
                    lemma_walk(all, i);
                }
                let keep = if entry.0.len() > 0 {
                    assert(path_view(&entry.0)[0] == entry.0@[0]@);
                    path_contains(names, entry.0[0])
                } else {
                    false
                };
                assert(keep == selected(all[i].0, wanted));
                if keep {
                    out.push_back(entry);
                    proof {
                        lemma_record_push(&out_before, &out, entry);
                    }
                }
                proof {
                    i = i + 1;
                }
            },
            None => {
                proof {
                    lemma_empty_views();
                    lemma_walk_end(all, i);
                }
                break ;
            },
        }
    }
    out
}

/// The fields with the first name of each path taken off.
pub fn drop_heads<'i>(fields: RecordData<'i>) -> (out: RecordData<'i>)
    ensures
        record_view(&out) == strip_heads(record_view(&fields)),
{
    let ghost all = record_view(&fields);
    let mut rest = fields;
    let mut out: RecordData<'i> = VecDeque::new();
    let ghost mut i: int = 0;
    proof {
        lemma_empty_views();
        assert(all.skip(0) =~= all);
        assert(strip_heads(all).take(0) =~= Seq::<(PathV, ExprV)>::empty());
    }
    loop
        invariant
            0 <= i <= all.len(),
            record_view(&rest) == all.skip(i),
            record_view(&out) == strip_heads(all).take(i),
        ensures
            record_view(&out) == strip_heads(all),
        decreases rest.len(),
    {
        let ghost before = rest;
        let ghost out_before = out;
        match rest.pop_front() {
            Some(entry) => {
                proof {
                    lemma_record_pop(&before, &rest);
                    lemma_walk(all, i);
                }
                let (mut path, val) = entry;
                let ghost path_before = path;
                let _ = path.pop_front();
                assert(path_view(&path) =~= tail_of(path_view(&path_before)));
                out.push_back((path, val));
                proof {
                    lemma_record_push(&out_before, &out, (path, val));
                }
                assert(strip_heads(all).take(i + 1) =~= strip_heads(all).take(i).push(
                    strip_heads(all)[i],
                ));
                proof {
                    i = i + 1;
                }
            },
            None => {
                proof {
                    lemma_empty_views();
                    lemma_walk_end(all, i);
                    assert(strip_heads(all).take(i) =~= strip_heads(all));
                }
                break ;
            },
        }
    }
    out
}

/// The fields whose path is used up, and the others, each in their order.
pub fn split_by_path<'i>(fields: RecordData<'i>) -> (parts: (RecordData<'i>, RecordData<'i>))
    ensures
        record_view(&parts.0) == keep_by_path(record_view(&fields), true),
        record_view(&parts.1) == keep_by_path(record_view(&fields), false),
{
    let ghost all = record_view(&fields);
    let mut rest = fields;
    let mut hits: RecordData<'i> = VecDeque::new();
    let mut others: RecordData<'i> = VecDeque::new();
    let ghost mut i: int = 0;
    proof {
        lemma_empty_views();
        assert(all.skip(0) =~= all);
        assert(all.take(0) =~= Seq::<(PathV, ExprV)>::empty());
    }
    loop
        invariant
            0 <= i <= all.len(),
            record_view(&rest) == all.skip(i),
            record_view(&hits) == keep_by_path(all.take(i), true),
            record_view(&others) == keep_by_path(all.take(i), false),
        ensures
            record_view(&hits) == keep_by_path(all, true),
            record_view(&others) == keep_by_path(all, false),
        decreases rest.len(),
    {
        let ghost before = rest;
        let ghost hits_before = hits;
        let ghost others_before = others;
        match rest.pop_front() {
            Some(entry) => {
                proof {
                    lemma_record_pop(&before, &rest);
                    lemma_walk(all, i);
                }
                if entry.0.len() == 0 {
                    hits.push_back(entry);
                    proof {
                        lemma_record_push(&hits_before, &hits, entry);
                    }
                } else {
                    others.push_back(entry);
                    proof {
                        lemma_record_push(&others_before, &others, entry);
                    }
                }
                proof {
                    i = i + 1;
                }
            },
            None => {
                proof {
                    lemma_empty_views();
                    lemma_walk_end(all, i);
                }
                break ;
            },
        }
    }
    (hits, others)
}

/// The two queues as one, `first` before `second`.
pub fn join_records<'i>(first: RecordData<'i>, second: RecordData<'i>) -> (out: RecordData<'i>)
    ensures
        record_view(&out) == record_view(&first) + record_view(&second),
{
    let mut out = first;
    let mut tail = second;
    out.append(&mut tail);
    assert(record_view(&out) =~= record_view(&first) + record_view(&second));
    out
}

/// The name of a reference at distance 0, if `e` is one.
pub fn near_var_name<'a, 'i>(e: &'a Expr<'i>) -> (r: Option<&'i str>)
    ensures
        name_opt_view(r) == as_near_var(e@),
{
    match e {
        Expr::Term1(t1) => match t1 {
            Term1::Term(t) => match t {
                Term::Var(name, distance, _) => {
                    assert(term1_view(t1) == Term1V::Term(term_view(t)));
                    if *distance == 0 {
                        Some(*name)
                    } else {
                        None
                    }
                },
                _ => {
                    assert(term1_view(t1) == Term1V::Term(term_view(t)));
                    None
                },
            },
            _ => None,
        },
        _ => None,
    }
}

/// The fields of `e` if it is a record literal, and else `e` as it was.
pub fn take_record<'i>(e: Expr<'i>) -> (r: core::result::Result<RecordData<'i>, Expr<'i>>)
    ensures
        match r {
            Ok(fields) => as_record(e@) == Some(record_view(&fields)),
            Err(back) => as_record(e@) is None && back@ == e@,
        },
{
    match e {
        Expr::Term1(t1) => match t1 {
            Term1::Term(t) => match t {
                Term::Record(fields) => {
                    assert(term1_view(&t1) == Term1V::Term(term_view(&t)));
                    Ok(fields)
                },
                other => {
                    assert(term1_view(&t1) == Term1V::Term(term_view(&other)));
                    Err(wrap_term(other))
                },
            },
            other => Err(Expr::Term1(other)),
        },
        other => Err(other),
    }
}

/// The parts of `func` if it is a lambda in the place of a term, and else `func` as it
/// was.
pub fn take_lambda<'i>(ctx: &mut Context<'i>, func: Term1<'i>) -> (r: core::result::Result<
    (&'i str, Option<Val<'i>>, Val<'i>),
    Term1<'i>,
>)
    requires
        old(ctx).wf(),
    ensures
        final(ctx).wf(),
        final(ctx).same_scopes(old(ctx)),
        match r {
            Ok((name, typ, body)) => as_lambda(func@) == Some(
                (name@, boxed_opt_view(&typ), expr_view(&*body)),
            ),
            Err(back) => as_lambda(func@) is None && back@ == func@,
        },
{
    match func {
        Term1::Term(t) => match t {
            Term::Expr(e) => {
                assert(term_view(&t) == TermV::Expr(Box::new(expr_view(&*e))));
                match ctx.unbox(e) {
                    Expr::Lambda(name, typ, body) => Ok((name, typ, body)),
                    other => {
                        let back = Term::Expr(ctx.rebox(other));
                        assert(back@ == term_view(&t));
                        Err(Term1::Term(back))
                    },
                }
            },
            other => Err(Term1::Term(other)),
        },
        other => Err(other),
    }
}

/// The tag and the payload of `t` if it constructs a value of a union, and else `t` as
/// it was.
pub fn take_tagged<'i>(ctx: &mut Context<'i>, t: Term<'i>) -> (r: core::result::Result<
    (&'i str, Term<'i>),
    Term<'i>,
>)
    requires
        old(ctx).wf(),
    ensures
        final(ctx).wf(),
        final(ctx).same_scopes(old(ctx)),
        match r {
            Ok((tag, arg)) => as_tagged(t@) == Some((tag@, arg@)),
            Err(back) => as_tagged(t@) is None && back@ == t@,
        },
{
    let e = match t {
        Term::Expr(e) => e,
        other => {
            return Err(other);
        },
    };
    let ghost whole = expr_view(&*e);
    assert(t@ == TermV::Expr(Box::new(whole)));
    let t1 = match ctx.unbox(e) {
        Expr::Term1(t1) => t1,
        other => {
            let e = ctx.rebox(other);
            return Err(Term::Expr(e));
        },
    };
    assert(whole == ExprV::Term1(term1_view(&t1)));
    let (head, arg) = match t1 {
        Term1::Evaluation(head, arg) => (head, arg),
        other => {
            let e = ctx.rebox(Expr::Term1(other));
            return Err(Term::Expr(e));
        },
    };
    let ghost head_view = term1_view(&*head);
    assert(whole == ExprV::Term1(Term1V::Evaluation(Box::new(head_view), arg@)));
    let inner = match ctx.unbox(head) {
        Term1::Term(inner) => inner,
        other => {
            let head = ctx.rebox(other);
            let t1 = Term1::Evaluation(head, arg);
            assert(term1_view(&t1) == Term1V::Evaluation(Box::new(head_view), arg@));
            let e = ctx.rebox(Expr::Term1(t1));
            return Err(Term::Expr(e));
        },
    };
    assert(head_view == Term1V::Term(term_view(&inner)));
    let (union, tag) = match inner {
        Term::FieldAccess(union, tag) => (union, tag),
        other => {
            let head = ctx.rebox(Term1::Term(other));
            let t1 = Term1::Evaluation(head, arg);
            assert(term1_view(&t1) == Term1V::Evaluation(Box::new(head_view), arg@));
            let e = ctx.rebox(Expr::Term1(t1));
            return Err(Term::Expr(e));
        },
    };
    let ghost union_view = term_view(&*union);
    assert(head_view == Term1V::Term(TermV::FieldAccess(Box::new(union_view), tag@)));
    let is_union = match &*union {
        Term::TypeEnum(_) => true,
        _ => false,
    };
    if is_union {
        Ok((tag, arg))
    } else {
        let inner = Term::FieldAccess(union, tag);
        assert(term_view(&inner) == TermV::FieldAccess(Box::new(union_view), tag@));
        let head = ctx.rebox(Term1::Term(inner));
        let t1 = Term1::Evaluation(head, arg);
        assert(term1_view(&t1) == Term1V::Evaluation(Box::new(head_view), arg@));
        let e = ctx.rebox(Expr::Term1(t1));
        Err(Term::Expr(e))
    }
}

/// Whether `arg` is a fresh reference to `name`.
pub fn is_fresh_reference(arg: &Term, name: &str) -> (b: bool)
    ensures
        b == is_own_parameter(arg@, name@),
{
    match arg {
        Term::Var(m, distance, resolved) => *distance == 0 && resolved.is_none() && str_eq(m, name),
        _ => false,
    }
}

/// Whether a reduced function that is no lambda waits for a value.
pub fn function_is_blocked<'i>(ctx: &Context<'i>, func: &Term1<'i>) -> (r: Result<bool>)
    requires
        ctx.scopes_wf(),
    ensures
        r == blocked_function(func@, ctx.table()),
{
    match func {
        Term1::Term(t) => match t {
            Term::Expr(e) => {
                assert(term_view(t) == TermV::Expr(Box::new(expr_view(&**e))));
                match &**e {
                    Expr::Term1(t1) => match t1 {
                        Term1::Evaluation(inner, _) => {
                            assert(expr_view(&**e) == ExprV::Term1(term1_view(t1)));
                            ctx.is_thunk_term1(inner)
                        },
                        _ => {
                            assert(expr_view(&**e) == ExprV::Term1(term1_view(t1)));
                            Ok(false)
                        },
                    },
                    _ => Ok(false),
                }
            },
            Term::FieldAccess(inner, _) => {
                assert(term_view(t) == TermV::FieldAccess(Box::new(term_view(&**inner)), t->FieldAccess_1@));
                ctx.is_thunk_term(inner)
            },
            _ => {
                assert(func@ == Term1V::Term(term_view(t)));
                ctx.is_thunk_term1(func)
            },
        },
        _ => ctx.is_thunk_term1(func),
    }
}

/// Whether a reduced scrutinee that constructs no value of a union waits for a value.
pub fn scrutinee_is_blocked<'i>(ctx: &Context<'i>, t: &Term<'i>) -> (r: Result<bool>)
    requires
        ctx.scopes_wf(),
    ensures
        r == blocked_scrutinee(t@, ctx.table()),
{
    match t {
        Term::Expr(e) => {
            assert(t@ == TermV::Expr(Box::new(expr_view(&**e))));
            match &**e {
                Expr::Term1(t1) => {
                    assert(expr_view(&**e) == ExprV::Term1(term1_view(t1)));
                    match t1 {
                        Term1::Evaluation(head, _) => {
                            assert(term1_view(t1) is Evaluation);
                            assert(*(term1_view(t1)->Evaluation_0) == term1_view(&**head));
                            match &**head {
                                Term1::Term(inner) => {
                                    assert(term1_view(&**head) == Term1V::Term(term_view(inner)));
                                    match inner {
                                        Term::FieldAccess(..) => Ok(false),
                                        _ => ctx.is_thunk_term1(head),
                                    }
                                },
                                _ => ctx.is_thunk_term1(head),
                            }
                        },
                        _ => Ok(false),
                    }
                },
                _ => Ok(false),
            }
        },
        _ => ctx.is_thunk_term(t),
    }
}

/// What a conditional with reduced parts turns into.
pub fn pick_branch<'i>(ctx: &mut Context<'i>, c: Expr<'i>, a: Expr<'i>, b: Expr<'i>) -> (r: Result<
    Expr<'i>,
>)
    requires
        old(ctx).wf(),
    ensures
        final(ctx).wf(),
        final(ctx).same_scopes(old(ctx)),
        expr_result(r) == choose_branch(c@, a@, b@, old(ctx).table()),
{
    let verdict: u8 = match near_var_name(&c) {
        Some(name) => if str_eq(name, "True") {
            1
        } else if str_eq(name, "False") {
            2
        } else {
            0
        },
        None => 0,
    };
    if verdict == 1 {
        Ok(a)
    } else if verdict == 2 {
        Ok(b)
    } else {
        match ctx.is_thunk_expr(&c) {
            Ok(true) => {
                let ghost views = (c@, a@, b@);
                let c = ctx.rebox(c);
                let a = ctx.rebox(a);
                let b = ctx.rebox(b);
                let t1 = Term1::IfThenElse(c, a, b);
                assert(t1@ == Term1V::IfThenElse(
                    Box::new(views.0),
                    Box::new(views.1),
                    Box::new(views.2),
                ));
                Ok(wrap_term1(t1))
            },
            Ok(false) => Err(Error::Unsupported(NodeKind::IfThenElse)),
            Err(e) => Err(e),
        }
    }
}

/// Whether exactly one of the fields has a path that is used up.
pub fn has_single_hit(fields: &RecordData) -> (b: bool)
    ensures
        b == (keep_by_path(record_view(fields), true).len() == 1),
{
    let ghost all = record_view(fields);
    let mut count: usize = 0;
    let mut i: usize = 0;
    proof {
        assert(all.take(0) =~= Seq::<(PathV, ExprV)>::empty());
    }
    while i < fields.len()
        invariant
            i <= fields.len(),
            all == record_view(fields),
            all.len() == fields@.len(),
            count <= i,
            count == keep_by_path(all.take(i as int), true).len(),
        decreases fields.len() - i,
    {
        proof {
            assert(all.take(i + 1).drop_last() =~= all.take(i as int));
            assert(all.take(i + 1).last() == all[i as int]);
            assert(all[i as int].0 == path_view(&fields@[i as int].0));
        }
        if fields[i].0.len() == 0 {
            count = count + 1;
        }
        i = i + 1;
    }
    proof {
        assert(all.take(i as int) =~= all);
    }
    count == 1
}

/// What a field access turns into, given the fields that matched, reduced and with the
/// accessed name taken off their paths.
pub fn settle<'i>(ctx: &mut Context<'i>, stripped: RecordData<'i>) -> (r: Result<Expr<'i>>)
    requires
        old(ctx).wf(),
    ensures
        final(ctx).wf(),
        final(ctx).same_scopes(old(ctx)),
        expr_result(r) == settle_access(record_view(&stripped)),
{
    if !has_single_hit(&stripped) {
        return Ok(wrap_term(Term::Record(stripped)));
    }
    let (mut hits, rest) = split_by_path(stripped);
    let ghost hits_before = hits;
    match hits.pop_front() {
        Some((_, inner)) => {
            proof {
                lemma_record_pop(&hits_before, &hits);
            }
            let inner = ctx.unbox(inner);
            match take_record(inner) {
                Ok(fields) => Ok(wrap_term(Term::Record(join_records(fields, rest)))),
                Err(other) => if rest.len() == 0 {
                    Ok(other)
                } else {
                    Err(Error::Unsupported(NodeKind::FieldAccess))
                },
            }
        },
        None => Err(Error::Unsupported(NodeKind::FieldAccess)),
    }
}

/// The expression that stands in the place of a `Term1`.
pub fn unplace<'i>(ctx: &mut Context<'i>, t: Term1<'i>) -> (e: Expr<'i>)
    requires
        old(ctx).wf(),
    ensures
        final(ctx).wf(),
        final(ctx).same_scopes(old(ctx)),
        e@ == unplaced(t@),
{
    match t {
        Term1::Term(inner) => {
            assert(t@ == Term1V::Term(inner@));
            match inner {
                Term::Expr(e) => ctx.unbox(e),
                other => wrap_term(other),
            }
        },
        other => Expr::Term1(other),
    }
}

/// Reduces, under the scopes of `ctx`, what was reduced under scopes that are closed
/// now.
pub fn leave<'i>(ctx: &mut Context<'i>, body: Expr<'i>, f: usize) -> (r: Result<Expr<'i>>)
    requires
        old(ctx).wf(),
    ensures
        final(ctx).wf(),
        final(ctx).same_scopes(old(ctx)),
        expr_result(r) == leave_scopes(body@, old(ctx).table(), f as nat),
    decreases f, 1nat, 0nat,
{
    let depth = ctx.sym_table().next_scope_id();
    let seen = forgotten_expr(&body, depth);
    eval_expr(ctx, seen, f)
}

/// What a reference turns into: itself with the scope of its binder noted, or the value
/// it is bound to, reduced where the reference stands.
pub fn eval_var<'i>(
    ctx: &mut Context<'i>,
    name: &'i str,
    distance: u16,
    resolved: Option<usize>,
    f: usize,
) -> (r: Result<Expr<'i>>)
    requires
        old(ctx).wf(),
    ensures
        final(ctx).wf(),
        final(ctx).same_scopes(old(ctx)),
        expr_result(r) == reduce_var(
            name@,
            distance as nat,
            resolved_view(resolved),
            old(ctx).table(),
            f as nat,
        ),
    decreases f, 3nat, 0nat,
{
    let value = match ctx.resolve(name, distance, resolved) {
        Err(e) => {
            return Err(e);
        },
        Ok(info) => match &info.value {
            Some(v) => forgotten_expr(v, info.scope_id),
            None => {
                let id = match resolved {
                    Some(id) => id,
                    None => info.scope_id,
                };
                let t = Term::Var(name, distance, Some(id));
                assert(t@ == TermV::Var(name@, distance as nat, Some(id as nat)));
                return Ok(wrap_term(t));
            },
        },
    };
    eval_expr(ctx, value, f)
}

/// Reduces `e` to its normal form under the scopes of `ctx`, with reductions nested at
/// most `fuel` deep.
pub fn eval_expr<'i>(ctx: &mut Context<'i>, e: Expr<'i>, fuel: usize) -> (r: Result<Expr<'i>>)
    requires
        old(ctx).wf(),
    ensures
        final(ctx).wf(),
        final(ctx).same_scopes(old(ctx)),
        expr_result(r) == semantics::reduce_expr(e@, old(ctx).table(), fuel as nat),
    decreases fuel, 0nat, 0nat,
{
    if fuel == 0 {
        return Err(Error::DepthLimit);
    }
    let f = fuel - 1;
    match e {
        Expr::Let(defs, body) => eval_let(ctx, defs, body, f),
        Expr::Lambda(name, typ, body) => eval_lambda(ctx, name, typ, body, f),
        Expr::Term1(t1) => {
            assert(e@ == ExprV::Term1(term1_view(&t1)));
            match t1 {
                Term1::Term(t) => eval_term(ctx, t, f),
                Term1::Evaluation(func, arg) => eval_evaluation(ctx, func, arg, f),
                Term1::Arrow(name, a, b) => eval_arrow(ctx, name, a, b, f),
                Term1::With(t, path, v) => eval_with(ctx, t, path, v, f),
                Term1::Operation(a, op, b) => eval_operation(ctx, a, op, b, f),
                Term1::IfThenElse(c, a, b) => eval_if(ctx, c, a, b, f),
                Term1::Ascribe(t, typ) => eval_ascribe(ctx, t, typ, f),
                Term1::Construct(..) => Err(Error::Unsupported(NodeKind::Construct)),
            }
        },
    }
}

/// Reduces a `Term1` that is handed over, to what stands in its place afterwards.
pub fn place_term1<'i>(ctx: &mut Context<'i>, t: Term1<'i>, f: usize) -> (r: Result<Term1<'i>>)
    requires
        old(ctx).wf(),
    ensures
        final(ctx).wf(),
        final(ctx).same_scopes(old(ctx)),
        term1_result(r) == semantics::placed_term1(t@, old(ctx).table(), f as nat),
    decreases f, 1nat, 0nat,
{
    let inner = unplace(ctx, t);
    match eval_expr(ctx, inner, f) {
        Err(e) => Err(e),
        Ok(reduced) => match reduced {
            Expr::Term1(r) => Ok(r),
            other => {
                let ghost view = other@;
                let b = ctx.rebox(other);
                let t = Term::Expr(b);
                assert(t@ == TermV::Expr(Box::new(view)));
                Ok(Term1::Term(t))
            },
        },
    }
}

/// Reduces a `Term` that is handed over, to what stands in its place afterwards.
pub fn place_term<'i>(ctx: &mut Context<'i>, t: Term<'i>, f: usize) -> (r: Result<Term<'i>>)
    requires
        old(ctx).wf(),
    ensures
        final(ctx).wf(),
        final(ctx).same_scopes(old(ctx)),
        term_result(r) == semantics::placed_term(t@, old(ctx).table(), f as nat),
    decreases f, 1nat, 0nat,
{
    let inner = match t {
        Term::Expr(e) => ctx.unbox(e),
        other => wrap_term(other),
    };
    match eval_expr(ctx, inner, f) {
        Err(e) => Err(e),
        Ok(reduced) => match reduced {
            Expr::Term1(t1) => {
                assert(reduced@ == ExprV::Term1(term1_view(&t1)));
                match t1 {
                    Term1::Term(r) => Ok(r),
                    other => {
                        let b = ctx.rebox(wrap_term1(other));
                        Ok(Term::Expr(b))
                    },
                }
            },
            other => {
                let b = ctx.rebox(other);
                Ok(Term::Expr(b))
            },
        },
    }
}

/// Reduces an optional expression, where there is one.
pub fn eval_opt<'i>(ctx: &mut Context<'i>, v: Option<Val<'i>>, f: usize) -> (r: Result<
    Option<Val<'i>>,
>)
    requires
        old(ctx).wf(),
    ensures
        final(ctx).wf(),
        final(ctx).same_scopes(old(ctx)),
        opt_result(r) == semantics::reduce_opt(opt_view(&v), old(ctx).table(), f as nat),
    decreases f, 1nat, 0nat,
{
    match v {
        None => Ok(None),
        Some(b) => {
            let e = ctx.unbox(b);
            match eval_expr(ctx, e, f) {
                Ok(r) => Ok(Some(ctx.rebox(r))),
                Err(e) => Err(e),
            }
        },
    }
}

/// Reduces each item, from the first on.
pub fn eval_vals<'i>(ctx: &mut Context<'i>, items: Deq<Val<'i>>, f: usize) -> (r: Result<
    Deq<Val<'i>>,
>)
    requires
        old(ctx).wf(),
    ensures
        final(ctx).wf(),
        final(ctx).same_scopes(old(ctx)),
        vals_result(r) == semantics::reduce_vals(vals_view(&items), old(ctx).table(), f as nat),
    decreases f, 2nat, 0nat,
{
    let ghost st = ctx.table();
    let ghost all = vals_view(&items);
    let ghost total = semantics::reduce_vals(all, st, f as nat);
    let mut rest = items;
    let mut out: Deq<Val<'i>> = VecDeque::new();
    let ghost mut i: int = 0;
    proof {
        lemma_empty_views();
        assert(all.skip(0) =~= all);
        assert(Seq::<ExprV>::empty() + all =~= all);
        match total {
            Ok(t) => {
                assert(Seq::<ExprV>::empty() + t =~= t);
            },
            Err(_) => {},
        }
    }
    loop
        invariant
            ctx.wf(),
            ctx.same_scopes(old(ctx)),
            st == old(ctx).table(),
            0 <= i <= all.len(),
            all == vals_view(&items),
            total == semantics::reduce_vals(all, st, f as nat),
            vals_view(&rest) == all.skip(i),
            prepend(vals_view(&out), semantics::reduce_vals(all.skip(i), st, f as nat)) == total,
        ensures
            ctx.wf(),
            ctx.same_scopes(old(ctx)),
            Ok::<Seq<ExprV>, Error>(vals_view(&out)) == total,
        decreases rest.len(),
    {
        let ghost before = rest;
        let ghost out_before = out;
        match rest.pop_front() {
            Some(b) => {
                proof {
                    lemma_vals_pop(&before, &rest);
                    lemma_walk(all, i);
                }
                let e = ctx.unbox(b);
                match eval_expr(ctx, e, f) {
                    Err(err) => {
                        return Err(err);
                    },
                    Ok(x) => {
                        let boxed = ctx.rebox(x);
                        out.push_back(boxed);
                        proof {
                            lemma_vals_push(&out_before, &out, boxed);
                            lemma_prepend_step(
                                vals_view(&out_before),
                                x@,
                                semantics::reduce_vals(all.skip(i + 1), st, f as nat),
                            );
                            i = i + 1;
                        }
                    },
                }
            },
            None => {
                proof {
                    lemma_empty_views();
                    assert(vals_view(&out) + Seq::<ExprV>::empty() =~= vals_view(&out));
                }
                break ;
            },
        }
    }
    Ok(out)
}

/// Reduces the value of each field, from the first on.
pub fn eval_record<'i>(ctx: &mut Context<'i>, fields: RecordData<'i>, f: usize) -> (r: Result<
    RecordData<'i>,
>)
    requires
        old(ctx).wf(),
    ensures
        final(ctx).wf(),
        final(ctx).same_scopes(old(ctx)),
        record_result(r) == semantics::reduce_record(
            record_view(&fields),
            old(ctx).table(),
            f as nat,
        ),
    decreases f, 2nat, 0nat,
{
    let ghost st = ctx.table();
    let ghost all = record_view(&fields);
    let ghost total = semantics::reduce_record(all, st, f as nat);
    let mut rest = fields;
    let mut out: RecordData<'i> = VecDeque::new();
    let ghost mut i: int = 0;
    proof {
        lemma_empty_views();
        assert(all.skip(0) =~= all);
        match total {
            Ok(t) => {
                assert(Seq::<(PathV, ExprV)>::empty() + t =~= t);
            },
            Err(_) => {},
        }
    }
    loop
        invariant
            ctx.wf(),
            ctx.same_scopes(old(ctx)),
            st == old(ctx).table(),
            0 <= i <= all.len(),
            all == record_view(&fields),
            total == semantics::reduce_record(all, st, f as nat),
            record_view(&rest) == all.skip(i),
            prepend(record_view(&out), semantics::reduce_record(all.skip(i), st, f as nat))
                == total,
        ensures
            ctx.wf(),
            ctx.same_scopes(old(ctx)),
            Ok::<RecordV, Error>(record_view(&out)) == total,
        decreases rest.len(),
    {
        let ghost before = rest;
        let ghost out_before = out;
        match rest.pop_front() {
            Some((path, b)) => {
                proof {
                    lemma_record_pop(&before, &rest);
                    lemma_walk(all, i);
                }
                let e = ctx.unbox(b);
                match eval_expr(ctx, e, f) {
                    Err(err) => {
                        return Err(err);
                    },
                    Ok(x) => {
                        let boxed = ctx.rebox(x);
                        let ghost entry_view = (path_view(&path), x@);
                        out.push_back((path, boxed));
                        proof {
                            lemma_record_push(&out_before, &out, (path, boxed));
                            lemma_prepend_step(
                                record_view(&out_before),
                                entry_view,
                                semantics::reduce_record(all.skip(i + 1), st, f as nat),
                            );
                            i = i + 1;
                        }
                    },
                }
            },
            None => {
                proof {
                    lemma_empty_views();
                    assert(record_view(&out) + Seq::<(PathV, ExprV)>::empty() =~= record_view(
                        &out,
                    ));
                }
                break ;
            },
        }
    }
    Ok(out)
}

/// Reduces the expression of each entry that has one, from the first on.
pub fn eval_entries<'i>(
    ctx: &mut Context<'i>,
    entries: Deq<(&'i str, Option<Val<'i>>)>,
    f: usize,
) -> (r: Result<Deq<(&'i str, Option<Val<'i>>)>>)
    requires
        old(ctx).wf(),
    ensures
        final(ctx).wf(),
        final(ctx).same_scopes(old(ctx)),
        entries_result(r) == semantics::reduce_entries(
            entries_view(&entries),
            old(ctx).table(),
            f as nat,
        ),
    decreases f, 2nat, 0nat,
{
    let ghost st = ctx.table();
    let ghost all = entries_view(&entries);
    let ghost total = semantics::reduce_entries(all, st, f as nat);
    let mut rest = entries;
    let mut out: Deq<(&'i str, Option<Val<'i>>)> = VecDeque::new();
    let ghost mut i: int = 0;
    proof {
        lemma_empty_views();
        assert(all.skip(0) =~= all);
        match total {
            Ok(t) => {
                assert(Seq::<(Name, Option<ExprV>)>::empty() + t =~= t);
            },
            Err(_) => {},
        }
    }
    loop
        invariant
            ctx.wf(),
            ctx.same_scopes(old(ctx)),
            st == old(ctx).table(),
            0 <= i <= all.len(),
            all == entries_view(&entries),
            total == semantics::reduce_entries(all, st, f as nat),
            entries_view(&rest) == all.skip(i),
            prepend(entries_view(&out), semantics::reduce_entries(all.skip(i), st, f as nat))
                == total,
        ensures
            ctx.wf(),
            ctx.same_scopes(old(ctx)),
            Ok::<EntriesV, Error>(entries_view(&out)) == total,
        decreases rest.len(),
    {
        let ghost before = rest;
        let ghost out_before = out;
        match rest.pop_front() {
            Some((name, v)) => {
                proof {
                    lemma_entries_pop(&before, &rest);
                    lemma_walk(all, i);
                }
                match eval_opt(ctx, v, f) {
                    Err(err) => {
                        return Err(err);
                    },
                    Ok(x) => {
                        let ghost entry_view = (name@, opt_view(&x));
                        out.push_back((name, x));
                        proof {
                            lemma_entries_push(&out_before, &out, (name, x));
                            lemma_prepend_step(
                                entries_view(&out_before),
                                entry_view,
                                semantics::reduce_entries(all.skip(i + 1), st, f as nat),
                            );
                            i = i + 1;
                        }
                    },
                }
            },
            None => {
                proof {
                    lemma_empty_views();
                    assert(entries_view(&out) + Seq::<(Name, Option<ExprV>)>::empty()
                        =~= entries_view(&out));
                }
                break ;
            },
        }
    }
    Ok(out)
}

/// Opens one scope for each binding of a `let`, in their order. Scopes that were opened
/// stay open when a binding fails.
pub fn bind_lets<'i>(ctx: &mut Context<'i>, defs: Deq<LetStmt<'i>>, f: usize) -> (r: Result<()>)
    requires
        old(ctx).wf(),
    ensures
        final(ctx).wf(),
        final(ctx).marks() == old(ctx).marks(),
        final(ctx).limit() == old(ctx).limit(),
        old(ctx).table().is_prefix_of(final(ctx).table()),
        match r {
            Ok(()) => semantics::bind_lets(lets_view(&defs), old(ctx).table(), f as nat) == Ok::<
                TableV,
                Error,
            >(final(ctx).table()),
            Err(e) => semantics::bind_lets(lets_view(&defs), old(ctx).table(), f as nat) == Err::<
                TableV,
                Error,
            >(e),
        },
    decreases f, 2nat, 0nat,
{
    let ghost st0 = ctx.table();
    let ghost all = lets_view(&defs);
    let ghost total = semantics::bind_lets(all, st0, f as nat);
    let mut rest = defs;
    let ghost mut i: int = 0;
    proof {
        assert(all.skip(0) =~= all);
    }
    loop
        invariant
            ctx.wf(),
            ctx.marks() == old(ctx).marks(),
            ctx.limit() == old(ctx).limit(),
            st0 == old(ctx).table(),
            st0.is_prefix_of(ctx.table()),
            0 <= i <= all.len(),
            all == lets_view(&defs),
            total == semantics::bind_lets(all, st0, f as nat),
            lets_view(&rest) == all.skip(i),
            semantics::bind_lets(all.skip(i), ctx.table(), f as nat) == total,
        ensures
            ctx.wf(),
            ctx.marks() == old(ctx).marks(),
            ctx.limit() == old(ctx).limit(),
            st0.is_prefix_of(ctx.table()),
            total == Ok::<TableV, Error>(ctx.table()),
        decreases rest.len(),
    {
        let ghost before = rest;
        let ghost st = ctx.table();
        match rest.pop_front() {
            Some((name, typ, value)) => {
                proof {
                    lemma_lets_pop(&before, &rest);
                    lemma_walk(all, i);
                }
                let typ = match eval_opt(ctx, typ, f) {
                    Ok(t) => t,
                    Err(err) => {
                        return Err(err);
                    },
                };
                let value = ctx.unbox(value);
                let value = match eval_expr(ctx, value, f) {
                    Ok(v) => v,
                    Err(err) => {
                        return Err(err);
                    },
                };
                let typ: Value<'i> = match typ {
                    Some(b) => Some(ctx.unbox(b)),
                    None => None,
                };
                ctx.push_binding(name, typ, Some(value));
                proof {
                    assert(ctx.table() == bind(st, name@, value_view(&typ), Some(value@)));
                    i = i + 1;
                }
            },
            None => {
                proof {
                    assert(lets_view(&rest).len() == 0);
                }
                break ;
            },
        }
    }
    Ok(())
}

/// Reduces a `let` to its body under the scopes of its bindings.
pub fn eval_let<'i>(ctx: &mut Context<'i>, defs: Deq<LetStmt<'i>>, body: Val<'i>, f: usize) -> (r:
    Result<Expr<'i>>)
    requires
        old(ctx).wf(),
    ensures
        final(ctx).wf(),
        final(ctx).same_scopes(old(ctx)),
        expr_result(r) == semantics::reduce_let(
            lets_view(&defs),
            expr_view(&*body),
            old(ctx).table(),
            f as nat,
        ),
    decreases f, 3nat, 0nat,
{
    let ghost st = ctx.table();
    let ghost marks = ctx.marks();
    ctx.mark_scope();
    let bound = bind_lets(ctx, defs, f);
    let r = match bound {
        Err(e) => Err(e),
        Ok(()) => {
            let inner = ctx.unbox(body);
            eval_expr(ctx, inner, f)
        },
    };
    ctx.return_to_marked_scope();
    proof {
        assert(ctx.table() =~= st);
        assert(ctx.marks() =~= marks);
    }
    match r {
        Ok(body) => leave(ctx, body, f),
        Err(e) => Err(e),
    }
}

/// Reduces the type and the body of a lambda.
pub fn eval_lambda<'i>(
    ctx: &mut Context<'i>,
    name: &'i str,
    typ: Option<Val<'i>>,
    body: Val<'i>,
    f: usize,
) -> (r: Result<Expr<'i>>)
    requires
        old(ctx).wf(),
    ensures
        final(ctx).wf(),
        final(ctx).same_scopes(old(ctx)),
        expr_result(r) == semantics::reduce_lambda(
            name@,
            boxed_opt_view(&typ),
            expr_view(&*body),
            old(ctx).table(),
            f as nat,
        ),
    decreases f, 3nat, 0nat,
{
    let ghost st = ctx.table();
    assert(unboxed(boxed_opt_view(&typ)) == opt_view(&typ));
    let typ = match eval_opt(ctx, typ, f) {
        Ok(t) => t,
        Err(e) => {
            return Err(e);
        },
    };
    ctx.push_binding(name, None, None);
    let inner = ctx.unbox(body);
    let r = eval_expr(ctx, inner, f);
    ctx.pop_scope();
    assert(ctx.table() =~= st);
    match r {
        Err(e) => Err(e),
        Ok(body) => {
            let body = ctx.rebox(body);
            assert(boxed_opt_view(&typ) == boxed(opt_view(&typ)));
            Ok(Expr::Lambda(name, typ, body))
        },
    }
}

/// Reduces the domain and the codomain of a function type.
pub fn eval_arrow<'i>(
    ctx: &mut Context<'i>,
    name: Option<&'i str>,
    a: Val<'i>,
    b: Val<'i>,
    f: usize,
) -> (r: Result<Expr<'i>>)
    requires
        old(ctx).wf(),
    ensures
        final(ctx).wf(),
        final(ctx).same_scopes(old(ctx)),
        expr_result(r) == semantics::reduce_arrow(
            name_opt_view(name),
            expr_view(&*a),
            expr_view(&*b),
            old(ctx).table(),
            f as nat,
        ),
    decreases f, 3nat, 0nat,
{
    let ghost st = ctx.table();
    let a = ctx.unbox(a);
    let a = match eval_expr(ctx, a, f) {
        Ok(a) => a,
        Err(e) => {
            return Err(e);
        },
    };
    match name {
        Some(n) => ctx.push_binding(n, None, None),
        None => ctx.push_scope(),
    }
    assert(ctx.table() == under_binder(st, name_opt_view(name)));
    let b = ctx.unbox(b);
    let r = eval_expr(ctx, b, f);
    ctx.pop_scope();
    assert(ctx.table() =~= st);
    match r {
        Err(e) => Err(e),
        Ok(b) => {
            let ghost views = (a@, b@);
            let a = ctx.rebox(a);
            let b = ctx.rebox(b);
            let t1 = Term1::Arrow(name, a, b);
            assert(t1@ == Term1V::Arrow(
                name_opt_view(name),
                Box::new(views.0),
                Box::new(views.1),
            ));
            Ok(wrap_term1(t1))
        },
    }
}

/// The fields whose path begins with `name`, and the others, each in their order.
pub fn part_leading<'i>(fields: RecordData<'i>, name: &str) -> (parts: (
    RecordData<'i>,
    RecordData<'i>,
))
    ensures
        record_view(&parts.0) == keep_leading(record_view(&fields), name@),
        record_view(&parts.1) == drop_leading(record_view(&fields), name@),
{
    let ghost all = record_view(&fields);
    let mut rest = fields;
    let mut under: RecordData<'i> = VecDeque::new();
    let mut others: RecordData<'i> = VecDeque::new();
    let ghost mut i: int = 0;
    proof {
        lemma_empty_views();
        assert(all.skip(0) =~= all);
        assert(all.take(0) =~= Seq::<(PathV, ExprV)>::empty());
    }
    loop
        invariant
            0 <= i <= all.len(),
            record_view(&rest) == all.skip(i),
            record_view(&under) == keep_leading(all.take(i), name@),
            record_view(&others) == drop_leading(all.take(i), name@),
        ensures
            record_view(&under) == keep_leading(all, name@),
            record_view(&others) == drop_leading(all, name@),
        decreases rest.len(),
    {
        let ghost before = rest;
        let ghost under_before = under;
        let ghost others_before = others;
        match rest.pop_front() {
            Some(entry) => {
                proof {
                    lemma_record_pop(&before, &rest);
                    lemma_walk(all, i);
                }
                if path_leads_with(&entry.0, name) {
                    under.push_back(entry);
                    proof {
                        lemma_record_push(&under_before, &under, entry);
                    }
                } else {
                    others.push_back(entry);
                    proof {
                        lemma_record_push(&others_before, &others, entry);
                    }
                }
                proof {
                    i = i + 1;
                }
            },
            None => {
                proof {
                    lemma_empty_views();
                    lemma_walk_end(all, i);
                }
                break ;
            },
        }
    }
    (under, others)
}

/// The fields that make up the content of one field, given the entries under its name
/// with that name taken off their paths; `None` where an entry that holds the whole
/// content holds no record.
pub fn flatten_content<'i>(ctx: &mut Context<'i>, under: RecordData<'i>) -> (r: Option<
    RecordData<'i>,
>)
    requires
        old(ctx).wf(),
    ensures
        final(ctx).wf(),
        final(ctx).same_scopes(old(ctx)),
        match r {
            Some(fields) => content(record_view(&under)) == Some(record_view(&fields)),
            None => content(record_view(&under)) is None,
        },
{
    let ghost all = record_view(&under);
    let mut rest = under;
    let mut out: RecordData<'i> = VecDeque::new();
    let ghost mut i: int = 0;
    proof {
        lemma_empty_views();
        assert(all.skip(0) =~= all);
        assert(all.take(0) =~= Seq::<(PathV, ExprV)>::empty());
    }
    loop
        invariant
            ctx.wf(),
            ctx.same_scopes(old(ctx)),
            all == record_view(&under),
            0 <= i <= all.len(),
            record_view(&rest) == all.skip(i),
            content(all.take(i)) == Some(record_view(&out)),
        ensures
            ctx.wf(),
            ctx.same_scopes(old(ctx)),
            content(all) == Some(record_view(&out)),
        decreases rest.len(),
    {
        let ghost before = rest;
        let ghost out_before = out;
        match rest.pop_front() {
            Some(entry) => {
                proof {
                    lemma_record_pop(&before, &rest);
                    lemma_walk(all, i);
                    lemma_content_fails_on(all, i + 1);
                }
                let (path, value) = entry;
                if path.len() == 0 {
                    let value = ctx.unbox(value);
                    match take_record(value) {
                        Ok(inner) => {
                            out = join_records(out, inner);
                        },
                        Err(_) => {
                            return None;
                        },
                    }
                } else {
                    out.push_back((path, value));
                    proof {
                        lemma_record_push(&out_before, &out, (path, value));
                    }
                }
                proof {
                    i = i + 1;
                }
            },
            None => {
                proof {
                    lemma_empty_views();
                    lemma_walk_end(all, i);
                }
                break ;
            },
        }
    }
    Some(out)
}

/// Once the content fails for the first fields, it fails for all of them.
proof fn lemma_content_fails_on(all: RecordV, n: int)
    requires
        0 <= n <= all.len(),
    ensures
        content(all.take(n)) is None ==> content(all) is None,
    decreases all.len() - n,
{
    if n < all.len() {
        assert(all.take(n + 1).drop_last() =~= all.take(n));
        lemma_content_fails_on(all, n + 1);
    } else {
        assert(all.take(n) =~= all);
    }
}

/// The fields with `name` put before each path.
pub fn put_under<'i>(name: &'i str, fields: RecordData<'i>) -> (out: RecordData<'i>)
    ensures
        record_view(&out) == under_name(name@, record_view(&fields)),
{
    let ghost all = record_view(&fields);
    let ghost target = under_name(name@, all);
    let mut rest = fields;
    let mut out: RecordData<'i> = VecDeque::new();
    let ghost mut i: int = 0;
    proof {
        lemma_empty_views();
        assert(all.skip(0) =~= all);
        assert(target.take(0) =~= Seq::<(PathV, ExprV)>::empty());
    }
    loop
        invariant
            0 <= i <= all.len(),
            target == under_name(name@, all),
            record_view(&rest) == all.skip(i),
            record_view(&out) == target.take(i),
        ensures
            record_view(&out) == target,
        decreases rest.len(),
    {
        let ghost before = rest;
        let ghost out_before = out;
        match rest.pop_front() {
            Some(entry) => {
                proof {
                    lemma_record_pop(&before, &rest);
                    lemma_walk(all, i);
                }
                let (mut path, value) = entry;
                let ghost path_before = path;
                path.push_front(name);
                assert(path_view(&path) =~= seq![name@] + path_view(&path_before));
                out.push_back((path, value));
                proof {
                    lemma_record_push(&out_before, &out, (path, value));
                    assert(target.take(i + 1) =~= target.take(i).push(target[i]));
                    i = i + 1;
                }
            },
            None => {
                proof {
                    lemma_empty_views();
                    lemma_walk_end(all, i);
                    assert(target.take(i) =~= target);
                }
                break ;
            },
        }
    }
    out
}

/// The fields of a record with `value` put at the path that begins with the name at
/// `from` of `path`; `None` where that cannot be done.
pub fn splice_fields<'i>(
    ctx: &mut Context<'i>,
    fields: RecordData<'i>,
    path: &Path<'i>,
    from: usize,
    value: Expr<'i>,
) -> (r: Option<RecordData<'i>>)
    requires
        old(ctx).wf(),
        from <= path@.len(),
    ensures
        final(ctx).wf(),
        final(ctx).same_scopes(old(ctx)),
        match r {
            Some(updated) => splice(
                record_view(&fields),
                path_view(path).skip(from as int),
                value@,
            ) == Some(record_view(&updated)),
            None => splice(record_view(&fields), path_view(path).skip(from as int), value@)
                is None,
        },
    decreases path@.len() - from,
{
    let ghost left = path_view(path).skip(from as int);
    if from >= path.len() {
        return None;
    }
    let name = path[from];
    proof {
        assert(left[0] == path@[from as int]@);
        assert(left.drop_first() =~= path_view(path).skip(from + 1));
    }
    let (under, others) = part_leading(fields, name);
    if from + 1 == path.len() {
        let mut out = others;
        let ghost out_before = out;
        let boxed = ctx.rebox(value);
        let entry = (deq(name), boxed);
        assert(path_view(&entry.0) =~= seq![name@]);
        out.push_back(entry);
        proof {
            lemma_record_push(&out_before, &out, entry);
        }
        Some(out)
    } else {
        let inner = match flatten_content(ctx, drop_heads(under)) {
            Some(inner) => inner,
            None => {
                return None;
            },
        };
        match splice_fields(ctx, inner, path, from + 1, value) {
            Some(updated) => Some(join_records(others, put_under(name, updated))),
            None => None,
        }
    }
}

/// What a record update with reduced parts turns into.
pub fn put_into<'i>(
    ctx: &mut Context<'i>,
    base: Term1<'i>,
    path: Path<'i>,
    value: Term1<'i>,
) -> (r: Result<Expr<'i>>)
    requires
        old(ctx).wf(),
    ensures
        final(ctx).wf(),
        final(ctx).same_scopes(old(ctx)),
        expr_result(r) == update(base@, path_view(&path), value@, old(ctx).table()),
{
    let inner = match base {
        Term1::Term(inner) => inner,
        other => {
            return stay_updating(ctx, other, path, value);
        },
    };
    assert(base@ == Term1V::Term(inner@));
    match inner {
        Term::Record(fields) => {
            proof {
                assert(path_view(&path).skip(0) =~= path_view(&path));
            }
            let value = unplace(ctx, value);
            match splice_fields(ctx, fields, &path, 0, value) {
                Some(updated) => Ok(wrap_term(Term::Record(updated))),
                None => Err(Error::Unsupported(NodeKind::With)),
            }
        },
        other => stay_updating(ctx, Term1::Term(other), path, value),
    }
}

/// The update as it stays where its base waits for a value.
fn stay_updating<'i>(
    ctx: &mut Context<'i>,
    base: Term1<'i>,
    path: Path<'i>,
    value: Term1<'i>,
) -> (r: Result<Expr<'i>>)
    requires
        old(ctx).wf(),
        !(base@ matches Term1V::Term(TermV::Record(_))),
    ensures
        final(ctx).wf(),
        final(ctx).same_scopes(old(ctx)),
        expr_result(r) == update(base@, path_view(&path), value@, old(ctx).table()),
{
    match ctx.is_thunk_term1(&base) {
        Ok(true) => {
            let ghost views = (base@, value@);
            let base = ctx.rebox(base);
            let value = ctx.rebox(value);
            let t1 = Term1::With(base, path, value);
            assert(t1@ == Term1V::With(Box::new(views.0), path_view(&path), Box::new(views.1)));
            Ok(wrap_term1(t1))
        },
        Ok(false) => Err(Error::Unsupported(NodeKind::With)),
        Err(e) => Err(e),
    }
}

/// Reduces a record update.
pub fn eval_with<'i>(
    ctx: &mut Context<'i>,
    t: Box<Term1<'i>>,
    path: Path<'i>,
    v: Box<Term1<'i>>,
    f: usize,
) -> (r: Result<Expr<'i>>)
    requires
        old(ctx).wf(),
    ensures
        final(ctx).wf(),
        final(ctx).same_scopes(old(ctx)),
        expr_result(r) == semantics::reduce_with(
            term1_view(&*t),
            path_view(&path),
            term1_view(&*v),
            old(ctx).table(),
            f as nat,
        ),
    decreases f, 3nat, 0nat,
{
    let t = ctx.unbox(t);
    let t = match place_term1(ctx, t, f) {
        Ok(t) => t,
        Err(e) => {
            return Err(e);
        },
    };
    let v = ctx.unbox(v);
    let v = match place_term1(ctx, v, f) {
        Ok(v) => v,
        Err(e) => {
            return Err(e);
        },
    };
    put_into(ctx, t, path, v)
}

/// Reduces the operands of an operation.
pub fn eval_operation<'i>(
    ctx: &mut Context<'i>,
    a: Box<Term1<'i>>,
    op: &'i str,
    b: Box<Term1<'i>>,
    f: usize,
) -> (r: Result<Expr<'i>>)
    requires
        old(ctx).wf(),
    ensures
        final(ctx).wf(),
        final(ctx).same_scopes(old(ctx)),
        expr_result(r) == semantics::reduce_operation(
            term1_view(&*a),
            op@,
            term1_view(&*b),
            old(ctx).table(),
            f as nat,
        ),
    decreases f, 3nat, 0nat,
{
    let a = ctx.unbox(a);
    let a = match place_term1(ctx, a, f) {
        Ok(a) => a,
        Err(e) => {
            return Err(e);
        },
    };
    let b = ctx.unbox(b);
    let b = match place_term1(ctx, b, f) {
        Ok(b) => b,
        Err(e) => {
            return Err(e);
        },
    };
    let ghost views = (a@, b@);
    let a = ctx.rebox(a);
    let b = ctx.rebox(b);
    let t1 = Term1::Operation(a, op, b);
    assert(t1@ == Term1V::Operation(Box::new(views.0), op@, Box::new(views.1)));
    Ok(wrap_term1(t1))
}

/// Reduces an ascription to its term.
pub fn eval_ascribe<'i>(ctx: &mut Context<'i>, t: Box<Term1<'i>>, typ: Val<'i>, f: usize) -> (r:
    Result<Expr<'i>>)
    requires
        old(ctx).wf(),
    ensures
        final(ctx).wf(),
        final(ctx).same_scopes(old(ctx)),
        expr_result(r) == semantics::reduce_ascribe(
            term1_view(&*t),
            expr_view(&*typ),
            old(ctx).table(),
            f as nat,
        ),
    decreases f, 3nat, 0nat,
{
    let t = ctx.unbox(t);
    let t = match place_term1(ctx, t, f) {
        Ok(t) => t,
        Err(e) => {
            return Err(e);
        },
    };
    let typ = ctx.unbox(typ);
    match eval_expr(ctx, typ, f) {
        Ok(_) => Ok(unplace(ctx, t)),
        Err(e) => Err(e),
    }
}

/// Reduces a conditional to one of its branches, where its condition is known.
pub fn eval_if<'i>(ctx: &mut Context<'i>, c: Val<'i>, a: Val<'i>, b: Val<'i>, f: usize) -> (r:
    Result<Expr<'i>>)
    requires
        old(ctx).wf(),
    ensures
        final(ctx).wf(),
        final(ctx).same_scopes(old(ctx)),
        expr_result(r) == semantics::reduce_if(
            expr_view(&*c),
            expr_view(&*a),
            expr_view(&*b),
            old(ctx).table(),
            f as nat,
        ),
    decreases f, 3nat, 0nat,
{
    let a = ctx.unbox(a);
    let a = match eval_expr(ctx, a, f) {
        Ok(a) => a,
        Err(e) => {
            return Err(e);
        },
    };
    let b = ctx.unbox(b);
    let b = match eval_expr(ctx, b, f) {
        Ok(b) => b,
        Err(e) => {
            return Err(e);
        },
    };
    let c = ctx.unbox(c);
    let c = match eval_expr(ctx, c, f) {
        Ok(c) => c,
        Err(e) => {
            return Err(e);
        },
    };
    pick_branch(ctx, c, a, b)
}

/// Applies a reduced function to a reduced argument.
pub fn apply<'i>(ctx: &mut Context<'i>, func: Term1<'i>, arg: Term<'i>, f: usize) -> (r: Result<
    Expr<'i>,
>)
    requires
        old(ctx).wf(),
    ensures
        final(ctx).wf(),
        final(ctx).same_scopes(old(ctx)),
        expr_result(r) == semantics::apply(func@, arg@, old(ctx).table(), f as nat),
    decreases f, 3nat, 0nat,
{
    let ghost st = ctx.table();
    match take_lambda(ctx, func) {
        Ok((name, typ, body)) => {
            if is_fresh_reference(&arg, name) {
                ctx.push_scope();
            } else {
                ctx.push_binding(name, None, Some(wrap_term(arg)));
            }
            assert(ctx.table() == under_argument(st, name@, arg@));
            assert(unboxed(boxed_opt_view(&typ)) == opt_view(&typ));
            let r = match eval_opt(ctx, typ, f) {
                Err(e) => Err(e),
                Ok(_) => {
                    let body = ctx.unbox(body);
                    eval_expr(ctx, body, f)
                },
            };
            ctx.pop_scope();
            assert(ctx.table() =~= st);
            match r {
                Ok(body) => leave(ctx, body, f),
                Err(e) => Err(e),
            }
        },
        Err(func) => match function_is_blocked(ctx, &func) {
            Ok(true) => {
                let ghost view = func@;
                let func = ctx.rebox(func);
                let call = Term1::Evaluation(func, arg);
                assert(call@ == Term1V::Evaluation(Box::new(view), arg@));
                Ok(wrap_term1(call))
            },
            Ok(false) => Err(Error::Unsupported(NodeKind::Evaluation)),
            Err(e) => Err(e),
        },
    }
}

/// Reduces an application.
pub fn eval_evaluation<'i>(ctx: &mut Context<'i>, func: Box<Term1<'i>>, arg: Term<'i>, f: usize) -> (r:
    Result<Expr<'i>>)
    requires
        old(ctx).wf(),
    ensures
        final(ctx).wf(),
        final(ctx).same_scopes(old(ctx)),
        expr_result(r) == semantics::reduce_evaluation(
            term1_view(&*func),
            arg@,
            old(ctx).table(),
            f as nat,
        ),
    decreases f, 4nat, 0nat,
{
    let func = ctx.unbox(func);
    let func = match place_term1(ctx, func, f) {
        Ok(func) => func,
        Err(e) => {
            return Err(e);
        },
    };
    let arg = match place_term(ctx, arg, f) {
        Ok(arg) => arg,
        Err(e) => {
            return Err(e);
        },
    };
    apply(ctx, func, arg, f)
}

/// Applies the handler for `tag` to `arg`.
pub fn dispatch<'i>(
    ctx: &mut Context<'i>,
    table: RecordData<'i>,
    tag: &'i str,
    arg: Term<'i>,
    f: usize,
) -> (r: Result<Expr<'i>>)
    requires
        old(ctx).wf(),
    ensures
        final(ctx).wf(),
        final(ctx).same_scopes(old(ctx)),
        expr_result(r) == semantics::dispatch(
            record_view(&table),
            tag@,
            arg@,
            old(ctx).table(),
            f as nat,
        ),
    decreases f, 2nat, 0nat,
{
    let ghost st = ctx.table();
    let ghost all = record_view(&table);
    let ghost total = semantics::dispatch(all, tag@, arg@, st, f as nat);
    let mut rest = table;
    let ghost mut i: int = 0;
    proof {
        assert(all.skip(0) =~= all);
    }
    loop
        invariant
            ctx.wf(),
            ctx.same_scopes(old(ctx)),
            st == old(ctx).table(),
            0 <= i <= all.len(),
            all == record_view(&table),
            total == semantics::dispatch(all, tag@, arg@, st, f as nat),
            record_view(&rest) == all.skip(i),
            semantics::dispatch(all.skip(i), tag@, arg@, st, f as nat) == total,
        ensures
            ctx.wf(),
            ctx.same_scopes(old(ctx)),
            total == Err::<ExprV, Error>(Error::FieldNotFound),
        decreases rest.len(),
    {
        let ghost before = rest;
        match rest.pop_front() {
            Some((path, handler)) => {
                proof {
                    lemma_record_pop(&before, &rest);
                    lemma_walk(all, i);
                }
                let handler = ctx.unbox(handler);
                let handler = match eval_expr(ctx, handler, f) {
                    Ok(h) => h,
                    Err(e) => {
                        return Err(e);
                    },
                };
                if path_leads_with(&path, tag) {
                    let is_lambda = match &handler {
                        Expr::Lambda(..) => true,
                        _ => false,
                    };
                    if !is_lambda {
                        return Err(Error::Unsupported(NodeKind::Merge));
                    }
                    let ghost handler_view = handler@;
                    let boxed = ctx.rebox(handler);
                    let inner = Term::Expr(boxed);
                    assert(inner@ == TermV::Expr(Box::new(handler_view)));
                    let func = Term1::Term(inner);
                    assert(func@ == Term1V::Term(TermV::Expr(Box::new(handler_view))));
                    let func = ctx.rebox(func);
                    let call = Term1::Evaluation(func, arg);
                    assert(call@ == Term1V::Evaluation(
                        Box::new(Term1V::Term(TermV::Expr(Box::new(handler_view)))),
                        arg@,
                    ));
                    return eval_expr(ctx, wrap_term1(call), f);
                }
                proof {
                    i = i + 1;
                }
            },
            None => {
                proof {
                    lemma_empty_views();
                }
                break ;
            },
        }
    }
    Err(Error::FieldNotFound)
}

/// Reduces a `merge` to what the handler of the tag makes of the payload.
pub fn eval_merge<'i>(ctx: &mut Context<'i>, table: RecordData<'i>, t: Box<Term<'i>>, f: usize) -> (r:
    Result<Expr<'i>>)
    requires
        old(ctx).wf(),
    ensures
        final(ctx).wf(),
        final(ctx).same_scopes(old(ctx)),
        expr_result(r) == semantics::reduce_merge(
            record_view(&table),
            term_view(&*t),
            old(ctx).table(),
            f as nat,
        ),
    decreases f, 3nat, 0nat,
{
    let t = ctx.unbox(t);
    let t = match place_term(ctx, t, f) {
        Ok(t) => t,
        Err(e) => {
            return Err(e);
        },
    };
    match take_tagged(ctx, t) {
        Ok((tag, arg)) => dispatch(ctx, table, tag, arg, f),
        Err(t) => match scrutinee_is_blocked(ctx, &t) {
            Ok(true) => {
                let t = ctx.rebox(t);
                Ok(wrap_term(Term::Merge(table, t)))
            },
            Ok(false) => Err(Error::MalformedMerge),
            Err(e) => Err(e),
        },
    }
}

/// Reduces a projection.
pub fn eval_project<'i>(
    ctx: &mut Context<'i>,
    style: u8,
    t: Box<Term<'i>>,
    names: Path<'i>,
    f: usize,
) -> (r: Result<Expr<'i>>)
    requires
        old(ctx).wf(),
    ensures
        final(ctx).wf(),
        final(ctx).same_scopes(old(ctx)),
        expr_result(r) == semantics::reduce_project(
            style,
            term_view(&*t),
            path_view(&names),
            old(ctx).table(),
            f as nat,
        ),
    decreases f, 3nat, 0nat,
{
    let t = ctx.unbox(t);
    let t = match place_term(ctx, t, f) {
        Ok(t) => t,
        Err(e) => {
            return Err(e);
        },
    };
    match t {
        Term::Record(fields) => Ok(wrap_term(Term::Record(retain_selected(fields, &names)))),
        other => match ctx.is_thunk_term(&other) {
            Ok(true) => {
                let other = ctx.rebox(other);
                Ok(wrap_term(Term::Project(style, other, names)))
            },
            Ok(false) => Err(Error::Unsupported(NodeKind::Project)),
            Err(e) => Err(e),
        },
    }
}

/// Reduces a field access.
pub fn eval_field_access<'i>(ctx: &mut Context<'i>, t: Box<Term<'i>>, name: &'i str, f: usize) -> (r:
    Result<Expr<'i>>)
    requires
        old(ctx).wf(),
    ensures
        final(ctx).wf(),
        final(ctx).same_scopes(old(ctx)),
        expr_result(r) == semantics::reduce_field_access(
            term_view(&*t),
            name@,
            old(ctx).table(),
            f as nat,
        ),
    decreases f, 3nat, 0nat,
{
    let t = ctx.unbox(t);
    let t = match place_term(ctx, t, f) {
        Ok(t) => t,
        Err(e) => {
            return Err(e);
        },
    };
    match t {
        Term::Record(fields) => {
            let kept = retain_leading(fields, name);
            match eval_record(ctx, kept, f) {
                Err(e) => Err(e),
                Ok(reduced) => settle(ctx, drop_heads(reduced)),
            }
        },
        other => match ctx.is_thunk_term(&other) {
            Ok(true) => {
                let other = ctx.rebox(other);
                Ok(wrap_term(Term::FieldAccess(other, name)))
            },
            Ok(false) => Err(Error::Unsupported(NodeKind::FieldAccess)),
            Err(e) => Err(e),
        },
    }
}

/// Reduces a term in the place of an expression.
pub fn eval_term<'i>(ctx: &mut Context<'i>, t: Term<'i>, f: usize) -> (r: Result<Expr<'i>>)
    requires
        old(ctx).wf(),
    ensures
        final(ctx).wf(),
        final(ctx).same_scopes(old(ctx)),
        expr_result(r) == semantics::reduce_term(t@, old(ctx).table(), f as nat),
    decreases f, 5nat, 0nat,
{
    match t {
        Term::Var(name, distance, resolved) => eval_var(ctx, name, distance, resolved, f),
        Term::Integer(..) | Term::Double(..) | Term::Path(..) | Term::Import { .. } | Term::Embed(
            ..,
        ) => Ok(wrap_term(t)),
        Term::Text(style, entries) => match eval_entries(ctx, entries, f) {
            Err(e) => Err(e),
            Ok(entries) => Ok(wrap_term(Term::Text(style, entries))),
        },
        Term::List(items) => match eval_vals(ctx, items, f) {
            Err(e) => Err(e),
            Ok(items) => Ok(wrap_term(Term::List(items))),
        },
        Term::Record(fields) => match eval_record(ctx, fields, f) {
            Err(e) => Err(e),
            Ok(fields) => Ok(wrap_term(Term::Record(fields))),
        },
        Term::TypeRecord(fields) => match eval_record(ctx, fields, f) {
            Err(e) => Err(e),
            Ok(fields) => Ok(wrap_term(Term::TypeRecord(fields))),
        },
        Term::TypeEnum(alts) => match eval_entries(ctx, alts, f) {
            Err(e) => Err(e),
            Ok(alts) => Ok(wrap_term(Term::TypeEnum(alts))),
        },
        Term::Expr(e) => {
            let e = ctx.unbox(e);
            eval_expr(ctx, e, f)
        },
        Term::Project(style, inner, names) => eval_project(ctx, style, inner, names, f),
        Term::FieldAccess(inner, name) => eval_field_access(ctx, inner, name, f),
        Term::Merge(table, inner) => eval_merge(ctx, table, inner, f),
    }
}

/// Reduces a `Term1` where it stands. On failure it is left as it was.
pub fn in_place_term1<'i>(ctx: &mut Context<'i>, t: &mut Term1<'i>, f: usize) -> (r: Result<()>)
    requires
        old(ctx).wf(),
    ensures
        final(ctx).wf(),
        final(ctx).same_scopes(old(ctx)),
        match semantics::placed_term1(old(t)@, old(ctx).table(), f as nat) {
            Ok(n) => r is Ok && final(t)@ == n,
            Err(e) => r == Err::<(), Error>(e) && final(t)@ == old(t)@,
        },
{
    let work = copy_term1(t);
    match place_term1(ctx, work, f) {
        Ok(n) => {
            *t = n;
            Ok(())
        },
        Err(e) => Err(e),
    }
}

/// Reduces a `Term` where it stands. On failure it is left as it was.
pub fn in_place_term<'i>(ctx: &mut Context<'i>, t: &mut Term<'i>, f: usize) -> (r: Result<()>)
    requires
        old(ctx).wf(),
    ensures
        final(ctx).wf(),
        final(ctx).same_scopes(old(ctx)),
        match semantics::placed_term(old(t)@, old(ctx).table(), f as nat) {
            Ok(n) => r is Ok && final(t)@ == n,
            Err(e) => r == Err::<(), Error>(e) && final(t)@ == old(t)@,
        },
{
    let work = copy_term(t);
    match place_term(ctx, work, f) {
        Ok(n) => {
            *t = n;
            Ok(())
        },
        Err(e) => Err(e),
    }
}

/// What can be reduced in place under the scopes of a context.
pub trait Eval<'i>: Sized {
    /// How a value `after` and a result `r` relate to the value `self` that was there
    /// before, under the scopes `st` and with reductions nested at most `fuel` deep.
    spec fn evaluated(&self, st: TableV, fuel: nat, after: &Self, r: Result<()>) -> bool;

    /// Reduces `self` in place. The scopes of `ctx` are afterwards as they were before.
    fn eval(&mut self, ctx: &mut Context<'i>) -> (r: Result<()>)
        requires
            old(ctx).wf(),
        ensures
            final(ctx).wf(),
            final(ctx).same_scopes(old(ctx)),
            old(self).evaluated(old(ctx).table(), old(ctx).limit(), final(self), r),
    ;
}

impl<'i> Eval<'i> for Expr<'i> {
    /// On success the expression is its normal form; on failure it is what it was.
    open spec fn evaluated(&self, st: TableV, fuel: nat, after: &Self, r: Result<()>) -> bool {
        match semantics::reduce_expr(self@, st, fuel) {
            Ok(normal) => r is Ok && after@ == normal,
            Err(e) => r == Err::<(), Error>(e) && after@ == self@,
        }
    }

    fn eval(&mut self, ctx: &mut Context<'i>) -> (r: Result<()>) {
        let work = copy_expr(self);
        let fuel = ctx.depth_limit();
        match eval_expr(ctx, work, fuel) {
            Ok(normal) => {
                *self = normal;
                Ok(())
            },
            Err(e) => Err(e),
        }
    }
}

impl<'i, T: Eval<'i>> Eval<'i> for Option<T> {
    /// What is there is reduced; where nothing is, nothing happens.
    open spec fn evaluated(&self, st: TableV, fuel: nat, after: &Self, r: Result<()>) -> bool {
        match self {
            Some(t) => after matches Some(a) && t.evaluated(st, fuel, a, r),
            None => after is None && r is Ok,
        }
    }

    fn eval(&mut self, ctx: &mut Context<'i>) -> (r: Result<()>) {
        match self {
            Some(t) => t.eval(ctx),
            None => Ok(()),
        }
    }
}

impl<'i, T: Eval<'i>> Eval<'i> for Box<T> {
    open spec fn evaluated(&self, st: TableV, fuel: nat, after: &Self, r: Result<()>) -> bool {
        (**self).evaluated(st, fuel, &**after, r)
    }

    fn eval(&mut self, ctx: &mut Context<'i>) -> (r: Result<()>) {
        (**self).eval(ctx)
    }
}

/// Reduces `expr` in place under the scopes of `ctx`.
pub fn eval<'i, E: Eval<'i>>(ctx: &mut Context<'i>, expr: &mut E) -> (r: Result<()>)
    requires
        old(ctx).wf(),
    ensures
        final(ctx).wf(),
        final(ctx).same_scopes(old(ctx)),
        old(expr).evaluated(old(ctx).table(), old(ctx).limit(), final(expr), r),
{
    expr.eval(ctx)
}

} // verus!
