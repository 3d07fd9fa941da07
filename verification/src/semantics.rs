use vstd::prelude::*;
use crate::ast::{EntriesV, ExprV, LetsV, Name, PathV, RecordV, Term1V, TermV};
use crate::error::{Error, NodeKind, Result};
use crate::forget::forget_expr;
use crate::sym_table::{
    bind, lemma_found_where_it_says, lookup_below, lookup_in, table_wf, InfoV, TableV,
};

verus! {

/// How far below the innermost scope a search begins that was told to begin at scope
/// `sid`. A scope that the stack does not reach any more counts as the innermost one.
pub open spec fn start_offset(st: TableV, sid: nat) -> nat {
    if sid + 1 >= st.len() {
        0
    } else {
        (st.len() - 1 - sid) as nat
    }
}

/// The binding that a reference stands for: the one found from the scope it was resolved
/// in, if it was resolved, and else the one at its distance.
pub open spec fn resolve(st: TableV, name: Name, distance: nat, resolved: Option<nat>) -> Option<
    InfoV,
> {
    match resolved {
        Some(sid) => lookup_below(st, start_offset(st, sid), name, 0),
        None => lookup_in(st, name, distance),
    }
}

/// Whether a term is blocked on a name without a value.
pub open spec fn thunk_term(t: TermV, st: TableV) -> Result<bool>
    decreases t,
{
    match t {
        TermV::Var(name, distance, resolved) => match resolve(st, name, distance, resolved) {
            Some(info) => Ok(info.value is None),
            None => Err(Error::NotFound),
        },
        TermV::FieldAccess(inner, _) => thunk_term(*inner, st),
        TermV::Record(_) => Ok(false),
        TermV::Merge(_, inner) => thunk_term(*inner, st),
        TermV::Expr(e) => thunk_expr(*e, st),
        TermV::TypeEnum(_) => Ok(true),
        other => Err(Error::Unsupported(other.kind())),
    }
}

/// Whether a `Term1` is blocked on a name without a value: an application is if its
/// function is, an operation if one of its operands is.
pub open spec fn thunk_term1(t: Term1V, st: TableV) -> Result<bool>
    decreases t,
{
    match t {
        Term1V::Term(inner) => thunk_term(inner, st),
        Term1V::Evaluation(f, _) => thunk_term1(*f, st),
        Term1V::Operation(a, _, b) => match thunk_term1(*a, st) {
            Ok(true) => Ok(true),
            Ok(false) => thunk_term1(*b, st),
            Err(e) => Err(e),
        },
        other => Err(Error::Unsupported(other.kind())),
    }
}

/// Whether an expression is blocked on a name without a value; only a `Term1` can be.
pub open spec fn thunk_expr(e: ExprV, st: TableV) -> Result<bool>
    decreases e,
{
    match e {
        ExprV::Term1(t) => thunk_term1(t, st),
        other => Err(Error::Unsupported(other.kind())),
    }
}

/// A reference that was resolved keeps its binder: once the scope of the binder is noted,
/// the reference stands for the same binding under any scopes that are opened later,
/// also under scopes that bind the same name.
pub proof fn lemma_resolved_reference_is_not_captured(
    st: TableV,
    name: Name,
    distance: nat,
    later: TableV,
)
    requires
        table_wf(st),
        lookup_in(st, name, distance) is Some,
    ensures
        resolve(st + later, name, distance, Some(lookup_in(st, name, distance)->0.scope_id))
            == lookup_in(st, name, distance),
{
    let info = lookup_in(st, name, distance)->0;
    let sid = info.scope_id;
    lemma_found_where_it_says(st, name, distance);
    let all = st + later;
    let offset = start_offset(all, sid);
    assert(all.len() - offset == sid + 1);
    let upto = all.take(sid as int + 1);
    assert(upto.last() == st[sid as int]);
}

/// A result with `head` put before it, where there is one.
pub open spec fn cons_result<T>(head: T, tail: Result<Seq<T>>) -> Result<Seq<T>> {
    match tail {
        Ok(rest) => Ok(seq![head] + rest),
        Err(e) => Err(e),
    }
}

/// A result with `done` put before it, where there is one.
pub open spec fn prepend<T>(done: Seq<T>, tail: Result<Seq<T>>) -> Result<Seq<T>> {
    match tail {
        Ok(rest) => Ok(done + rest),
        Err(e) => Err(e),
    }
}

/// Putting one more item behind what is done is putting it before what is left.
pub proof fn lemma_prepend_step<T>(done: Seq<T>, head: T, tail: Result<Seq<T>>)
    ensures
        prepend(done.push(head), tail) == prepend(done, cons_result(head, tail)),
{
    match tail {
        Ok(rest) => {
            assert(done.push(head) + rest =~= done + (seq![head] + rest));
        },
        Err(_) => {},
    }
}

/// An optional expression out of its box.
pub open spec fn unboxed(v: Option<Box<ExprV>>) -> Option<ExprV> {
    match v {
        Some(e) => Some(*e),
        None => None,
    }
}

/// An optional expression in a box.
pub open spec fn boxed(v: Option<ExprV>) -> Option<Box<ExprV>> {
    match v {
        Some(e) => Some(Box::new(e)),
        None => None,
    }
}

/// A term in the place of an expression.
pub open spec fn of_term(t: TermV) -> ExprV {
    ExprV::Term1(Term1V::Term(t))
}

/// The scope that a binder opens: `name` without a value, or nothing where it has no name.
pub open spec fn under_binder(st: TableV, name: Option<Name>) -> TableV {
    match name {
        Some(n) => bind(st, n, None, None),
        None => st.push(Map::<Name, InfoV>::empty()),
    }
}

/// The field paths that begin with `name`.
pub open spec fn leads_with(path: PathV, name: Name) -> bool {
    path.len() > 0 && path[0] == name
}

/// The field paths whose first name is one of `names`.
pub open spec fn selected(path: PathV, names: Seq<Name>) -> bool {
    path.len() > 0 && names.contains(path[0])
}

/// The fields whose path begins with `name`, in their order.
pub open spec fn keep_leading(fields: RecordV, name: Name) -> RecordV
    decreases fields.len(),
{
    if fields.len() == 0 {
        Seq::empty()
    } else if leads_with(fields.last().0, name) {
        keep_leading(fields.drop_last(), name).push(fields.last())
    } else {
        keep_leading(fields.drop_last(), name)
    }
}

/// The fields whose path begins with one of `names`, in their order.
pub open spec fn keep_selected(fields: RecordV, names: Seq<Name>) -> RecordV
    decreases fields.len(),
{
    if fields.len() == 0 {
        Seq::empty()
    } else if selected(fields.last().0, names) {
        keep_selected(fields.drop_last(), names).push(fields.last())
    } else {
        keep_selected(fields.drop_last(), names)
    }
}

/// The fields whose path is used up, or those whose path is not, as `used_up` says.
pub open spec fn keep_by_path(fields: RecordV, used_up: bool) -> RecordV
    decreases fields.len(),
{
    if fields.len() == 0 {
        Seq::empty()
    } else if (fields.last().0.len() == 0) == used_up {
        keep_by_path(fields.drop_last(), used_up).push(fields.last())
    } else {
        keep_by_path(fields.drop_last(), used_up)
    }
}

/// A path without its first name; the empty path stays empty.
pub open spec fn tail_of(path: PathV) -> PathV {
    if path.len() > 0 {
        path.drop_first()
    } else {
        path
    }
}

/// The fields with the first name of each path taken off.
pub open spec fn strip_heads(fields: RecordV) -> RecordV {
    Seq::new(fields.len(), |i: int| (tail_of(fields[i].0), fields[i].1))
}

/// The fields of an expression that is a record literal.
pub open spec fn as_record(e: ExprV) -> Option<RecordV> {
    match e {
        ExprV::Term1(Term1V::Term(TermV::Record(fields))) => Some(fields),
        _ => None,
    }
}

/// What a field access turns into, given the fields that matched, reduced and with the
/// accessed name taken off their paths.
pub open spec fn settle_access(stripped: RecordV) -> Result<ExprV> {
    let hits = keep_by_path(stripped, true);
    let rest = keep_by_path(stripped, false);
    if hits.len() == 1 {
        match as_record(hits[0].1) {
            Some(inner) => Ok(of_term(TermV::Record(inner + rest))),
            None => if rest.len() == 0 {
                Ok(hits[0].1)
            } else {
                Err(Error::Unsupported(NodeKind::FieldAccess))
            },
        }
    } else {
        Ok(of_term(TermV::Record(stripped)))
    }
}

/// What a reference turns into. A reference to a name without a value stays, with the
/// scope of its binder noted on it. A reference to a name with a value turns into that
/// value, reduced where the reference stands: the scopes that were noted inside the
/// value while it was reduced for its binding belong to that place and are forgotten;
/// those noted in scopes below the binding hold everywhere and stay.
pub open spec fn reduce_var(
    name: Name,
    distance: nat,
    resolved: Option<nat>,
    st: TableV,
    f: nat,
) -> Result<ExprV>
    decreases f, 3nat, 0nat,
{
    match resolve(st, name, distance, resolved) {
        None => Err(Error::NotFound),
        Some(info) => match info.value {
            Some(v) => reduce_expr(forget_expr(v, info.scope_id), st, f),
            None => Ok(
                of_term(
                    TermV::Var(
                        name,
                        distance,
                        Some(
                            match resolved {
                                Some(id) => id,
                                None => info.scope_id,
                            },
                        ),
                    ),
                ),
            ),
        },
    }
}

/// A node that stays as it is if `blocked` says that it waits for a value.
pub open spec fn stay_if_thunk(blocked: Result<bool>, node: ExprV, otherwise: Error) -> Result<
    ExprV,
> {
    match blocked {
        Ok(true) => Ok(node),
        Ok(false) => Err(otherwise),
        Err(e) => Err(e),
    }
}

/// What was reduced under scopes that are closed now, seen from the scopes `st` that
/// are left: the scopes noted in it that are closed are forgotten, and it is reduced
/// under `st`, where its references find their binders again.
pub open spec fn leave_scopes(body: ExprV, st: TableV, f: nat) -> Result<ExprV>
    decreases f, 1nat, 0nat,
{
    reduce_expr(forget_expr(body, st.len()), st, f)
}

/// The normal form of `e` under the scopes `st`, found with reductions nested at most
/// `fuel` deep.
pub open spec fn reduce_expr(e: ExprV, st: TableV, fuel: nat) -> Result<ExprV>
    decreases fuel, 0nat, 0nat,
{
    if fuel == 0 {
        Err(Error::DepthLimit)
    } else {
        let f = (fuel - 1) as nat;
        match e {
            ExprV::Let(defs, body) => reduce_let(defs, *body, st, f),
            ExprV::Lambda(name, typ, body) => reduce_lambda(name, typ, *body, st, f),
            ExprV::Term1(Term1V::Term(t)) => reduce_term(t, st, f),
            ExprV::Term1(Term1V::Evaluation(func, arg)) => reduce_evaluation(*func, arg, st, f),
            ExprV::Term1(Term1V::Arrow(name, a, b)) => reduce_arrow(name, *a, *b, st, f),
            ExprV::Term1(Term1V::With(t, path, v)) => reduce_with(*t, path, *v, st, f),
            ExprV::Term1(Term1V::Operation(a, op, b)) => reduce_operation(*a, op, *b, st, f),
            ExprV::Term1(Term1V::IfThenElse(c, a, b)) => reduce_if(*c, *a, *b, st, f),
            ExprV::Term1(Term1V::Ascribe(t, typ)) => reduce_ascribe(*t, *typ, st, f),
            ExprV::Term1(Term1V::Construct(..)) => Err(Error::Unsupported(NodeKind::Construct)),
        }
    }
}

/// An expression out of the place of a `Term1`: what was wrapped to stand there is
/// unwrapped.
pub open spec fn unplaced(t: Term1V) -> ExprV {
    match t {
        Term1V::Term(TermV::Expr(e)) => *e,
        other => ExprV::Term1(other),
    }
}

/// An expression out of the place of a `Term`: what was wrapped to stand there is
/// unwrapped.
pub open spec fn unplaced_term(t: TermV) -> ExprV {
    match t {
        TermV::Expr(e) => *e,
        other => of_term(other),
    }
}

/// The reduction of a `Term1` that stays in its place: the expression that stands there
/// is reduced, and what is no `Term1` any more is wrapped.
pub open spec fn placed_term1(t: Term1V, st: TableV, f: nat) -> Result<Term1V>
    decreases f, 1nat, 0nat,
{
    match reduce_expr(unplaced(t), st, f) {
        Ok(ExprV::Term1(r)) => Ok(r),
        Ok(other) => Ok(Term1V::Term(TermV::Expr(Box::new(other)))),
        Err(e) => Err(e),
    }
}

/// The reduction of a `Term` that stays in its place: the expression that stands there
/// is reduced, and what is no `Term` any more is wrapped.
pub open spec fn placed_term(t: TermV, st: TableV, f: nat) -> Result<TermV>
    decreases f, 1nat, 0nat,
{
    match reduce_expr(unplaced_term(t), st, f) {
        Ok(ExprV::Term1(Term1V::Term(r))) => Ok(r),
        Ok(other) => Ok(TermV::Expr(Box::new(other))),
        Err(e) => Err(e),
    }
}

/// An optional expression reduced, where there is one.
pub open spec fn reduce_opt(v: Option<ExprV>, st: TableV, f: nat) -> Result<Option<ExprV>>
    decreases f, 1nat, 0nat,
{
    match v {
        None => Ok(None),
        Some(e) => match reduce_expr(e, st, f) {
            Ok(r) => Ok(Some(r)),
            Err(e) => Err(e),
        },
    }
}

/// Each item reduced, from the first on; the first failure is the result.
pub open spec fn reduce_vals(items: Seq<ExprV>, st: TableV, f: nat) -> Result<Seq<ExprV>>
    decreases f, 2nat, items.len(),
{
    if items.len() == 0 {
        Ok(Seq::empty())
    } else {
        match reduce_expr(items[0], st, f) {
            Err(e) => Err(e),
            Ok(r) => cons_result(r, reduce_vals(items.drop_first(), st, f)),
        }
    }
}

/// The value of each field reduced, from the first on; the first failure is the result.
pub open spec fn reduce_record(fields: RecordV, st: TableV, f: nat) -> Result<RecordV>
    decreases f, 2nat, fields.len(),
{
    if fields.len() == 0 {
        Ok(Seq::empty())
    } else {
        match reduce_expr(fields[0].1, st, f) {
            Err(e) => Err(e),
            Ok(r) => cons_result((fields[0].0, r), reduce_record(fields.drop_first(), st, f)),
        }
    }
}

/// The expression of each entry that has one reduced, from the first on; the first
/// failure is the result.
pub open spec fn reduce_entries(entries: EntriesV, st: TableV, f: nat) -> Result<EntriesV>
    decreases f, 2nat, entries.len(),
{
    if entries.len() == 0 {
        Ok(Seq::empty())
    } else {
        match reduce_opt(entries[0].1, st, f) {
            Err(e) => Err(e),
            Ok(r) => cons_result((entries[0].0, r), reduce_entries(entries.drop_first(), st, f)),
        }
    }
}

/// The scopes after the bindings of a `let`: each type and value is reduced under the
/// bindings before it, and then bound in a scope of its own.
pub open spec fn bind_lets(defs: LetsV, st: TableV, f: nat) -> Result<TableV>
    decreases f, 2nat, defs.len(),
{
    if defs.len() == 0 {
        Ok(st)
    } else {
        match reduce_opt(defs[0].1, st, f) {
            Err(e) => Err(e),
            Ok(typ) => match reduce_expr(defs[0].2, st, f) {
                Err(e) => Err(e),
                Ok(value) => bind_lets(
                    defs.drop_first(),
                    bind(st, defs[0].0, typ, Some(value)),
                    f,
                ),
            },
        }
    }
}

/// A `let`: the body reduced under the scopes of the bindings. The result is the body;
/// the bindings are gone.
pub open spec fn reduce_let(defs: LetsV, body: ExprV, st: TableV, f: nat) -> Result<ExprV>
    decreases f, 3nat, 0nat,
{
    match bind_lets(defs, st, f) {
        Err(e) => Err(e),
        Ok(inner) => match reduce_expr(body, inner, f) {
            Err(e) => Err(e),
            Ok(body) => leave_scopes(body, st, f),
        },
    }
}

/// A lambda: the type reduced under the scopes around it, the body under one more scope
/// that binds the parameter without a value. The lambda stays.
pub open spec fn reduce_lambda(
    name: Name,
    typ: Option<Box<ExprV>>,
    body: ExprV,
    st: TableV,
    f: nat,
) -> Result<ExprV>
    decreases f, 3nat, 0nat,
{
    match reduce_opt(unboxed(typ), st, f) {
        Err(e) => Err(e),
        Ok(typ) => match reduce_expr(body, bind(st, name, None, None), f) {
            Err(e) => Err(e),
            Ok(body) => Ok(ExprV::Lambda(name, boxed(typ), Box::new(body))),
        },
    }
}

/// A function type: the domain reduced under the scopes around it, the codomain under
/// one more scope, which binds the name if there is one. The type stays.
pub open spec fn reduce_arrow(name: Option<Name>, a: ExprV, b: ExprV, st: TableV, f: nat) -> Result<
    ExprV,
>
    decreases f, 3nat, 0nat,
{
    match reduce_expr(a, st, f) {
        Err(e) => Err(e),
        Ok(a) => match reduce_expr(b, under_binder(st, name), f) {
            Err(e) => Err(e),
            Ok(b) => Ok(ExprV::Term1(Term1V::Arrow(name, Box::new(a), Box::new(b)))),
        },
    }
}

/// The fields whose path does not begin with `name`, in their order.
pub open spec fn drop_leading(fields: RecordV, name: Name) -> RecordV
    decreases fields.len(),
{
    if fields.len() == 0 {
        Seq::empty()
    } else if leads_with(fields.last().0, name) {
        drop_leading(fields.drop_last(), name)
    } else {
        drop_leading(fields.drop_last(), name).push(fields.last())
    }
}

/// The fields that make up the content of one field, given the entries under its name
/// with that name taken off their paths: an entry whose path is used up holds the whole
/// content, which has to be a record, and the fields of that record stand in its place.
pub open spec fn content(under: RecordV) -> Option<RecordV>
    decreases under.len(),
{
    if under.len() == 0 {
        Some(Seq::empty())
    } else {
        match content(under.drop_last()) {
            None => None,
            Some(before) => if under.last().0.len() == 0 {
                match as_record(under.last().1) {
                    Some(inner) => Some(before + inner),
                    None => None,
                }
            } else {
                Some(before.push(under.last()))
            },
        }
    }
}

/// The fields with `name` put before each path.
pub open spec fn under_name(name: Name, fields: RecordV) -> RecordV {
    Seq::new(fields.len(), |i: int| (seq![name] + fields[i].0, fields[i].1))
}

/// The fields of a record with `value` put at `path`. What stood at the path, or under
/// it, is gone; records on the way to it are made where they are missing. There is no
/// result where the path is empty, or where it leads through a field that holds
/// something else than a record.
pub open spec fn splice(fields: RecordV, path: PathV, value: ExprV) -> Option<RecordV>
    decreases path.len(),
{
    if path.len() == 0 {
        None
    } else {
        let name = path[0];
        let others = drop_leading(fields, name);
        if path.len() == 1 {
            Some(others.push((seq![name], value)))
        } else {
            match content(strip_heads(keep_leading(fields, name))) {
                None => None,
                Some(inner) => match splice(inner, path.drop_first(), value) {
                    None => None,
                    Some(updated) => Some(others + under_name(name, updated)),
                },
            }
        }
    }
}

/// What a record update with reduced parts turns into: the record with the value put at
/// the path, where the base is a record; the update itself, where the base waits for a
/// value.
pub open spec fn update(base: Term1V, path: PathV, value: Term1V, st: TableV) -> Result<ExprV> {
    match base {
        Term1V::Term(TermV::Record(fields)) => match splice(fields, path, unplaced(value)) {
            Some(updated) => Ok(of_term(TermV::Record(updated))),
            None => Err(Error::Unsupported(NodeKind::With)),
        },
        other => stay_if_thunk(
            thunk_term1(other, st),
            ExprV::Term1(Term1V::With(Box::new(other), path, Box::new(value))),
            Error::Unsupported(NodeKind::With),
        ),
    }
}

/// A record update: both parts reduced in their places, then the value put into the
/// record.
pub open spec fn reduce_with(t: Term1V, path: PathV, v: Term1V, st: TableV, f: nat) -> Result<ExprV>
    decreases f, 3nat, 0nat,
{
    match placed_term1(t, st, f) {
        Err(e) => Err(e),
        Ok(t) => match placed_term1(v, st, f) {
            Err(e) => Err(e),
            Ok(v) => update(t, path, v, st),
        },
    }
}

/// An operation: both operands reduced in their places. The operator is not
/// interpreted; the operation stays.
pub open spec fn reduce_operation(a: Term1V, op: Name, b: Term1V, st: TableV, f: nat) -> Result<
    ExprV,
>
    decreases f, 3nat, 0nat,
{
    match placed_term1(a, st, f) {
        Err(e) => Err(e),
        Ok(a) => match placed_term1(b, st, f) {
            Err(e) => Err(e),
            Ok(b) => Ok(ExprV::Term1(Term1V::Operation(Box::new(a), op, Box::new(b)))),
        },
    }
}

/// An ascription: the term and the type reduced. The result is the term.
pub open spec fn reduce_ascribe(t: Term1V, typ: ExprV, st: TableV, f: nat) -> Result<ExprV>
    decreases f, 3nat, 0nat,
{
    match placed_term1(t, st, f) {
        Err(e) => Err(e),
        Ok(t) => match reduce_expr(typ, st, f) {
            Err(e) => Err(e),
            Ok(_) => Ok(unplaced(t)),
        },
    }
}

/// The name of a reference at distance 0.
pub open spec fn as_near_var(e: ExprV) -> Option<Name> {
    match e {
        ExprV::Term1(Term1V::Term(TermV::Var(name, distance, _))) => if distance == 0 {
            Some(name)
        } else {
            None
        },
        _ => None,
    }
}

/// What a conditional with reduced parts turns into.
pub open spec fn choose_branch(c: ExprV, a: ExprV, b: ExprV, st: TableV) -> Result<ExprV> {
    if as_near_var(c) == Some("True"@) {
        Ok(a)
    } else if as_near_var(c) == Some("False"@) {
        Ok(b)
    } else {
        stay_if_thunk(
            thunk_expr(c, st),
            ExprV::Term1(Term1V::IfThenElse(Box::new(c), Box::new(a), Box::new(b))),
            Error::Unsupported(NodeKind::IfThenElse),
        )
    }
}

/// A conditional: the two branches reduced, then the condition, then the choice.
pub open spec fn reduce_if(c: ExprV, a: ExprV, b: ExprV, st: TableV, f: nat) -> Result<ExprV>
    decreases f, 3nat, 0nat,
{
    match reduce_expr(a, st, f) {
        Err(e) => Err(e),
        Ok(a) => match reduce_expr(b, st, f) {
            Err(e) => Err(e),
            Ok(b) => match reduce_expr(c, st, f) {
                Err(e) => Err(e),
                Ok(c) => choose_branch(c, a, b, st),
            },
        },
    }
}

/// Whether an argument is a fresh reference to the parameter's own name, for which no
/// binding is made.
pub open spec fn is_own_parameter(arg: TermV, name: Name) -> bool {
    arg matches TermV::Var(m, distance, resolved) && m == name && distance == 0 && resolved
        is None
}

/// The scope that an application opens for the body of the function.
pub open spec fn under_argument(st: TableV, name: Name, arg: TermV) -> TableV {
    if is_own_parameter(arg, name) {
        st.push(Map::<Name, InfoV>::empty())
    } else {
        bind(st, name, None, Some(of_term(arg)))
    }
}

/// The parts of a function that is a lambda in the place of a term.
pub open spec fn as_lambda(func: Term1V) -> Option<(Name, Option<Box<ExprV>>, ExprV)> {
    match func {
        Term1V::Term(TermV::Expr(e)) => match *e {
            ExprV::Lambda(name, typ, body) => Some((name, typ, *body)),
            _ => None,
        },
        _ => None,
    }
}

/// Whether a reduced function that is no lambda waits for a value; `Ok(false)` for one
/// that cannot be applied at all.
pub open spec fn blocked_function(func: Term1V, st: TableV) -> Result<bool> {
    match func {
        Term1V::Term(TermV::Expr(e)) => match *e {
            ExprV::Term1(Term1V::Evaluation(inner, _)) => thunk_term1(*inner, st),
            _ => Ok(false),
        },
        Term1V::Term(TermV::FieldAccess(t, _)) => thunk_term(*t, st),
        other => thunk_term1(other, st),
    }
}

/// A reduced function applied to a reduced argument.
pub open spec fn apply(func: Term1V, arg: TermV, st: TableV, f: nat) -> Result<ExprV>
    decreases f, 3nat, 0nat,
{
    match as_lambda(func) {
        Some((name, typ, body)) => {
            let inner = under_argument(st, name, arg);
            match reduce_opt(unboxed(typ), inner, f) {
                Err(e) => Err(e),
                Ok(_) => match reduce_expr(body, inner, f) {
                    Err(e) => Err(e),
                    Ok(body) => leave_scopes(body, st, f),
                },
            }
        },
        None => stay_if_thunk(
            blocked_function(func, st),
            ExprV::Term1(Term1V::Evaluation(Box::new(func), arg)),
            Error::Unsupported(NodeKind::Evaluation),
        ),
    }
}

/// An application: the function and the argument reduced in their places, then the
/// function applied.
pub open spec fn reduce_evaluation(func: Term1V, arg: TermV, st: TableV, f: nat) -> Result<ExprV>
    decreases f, 4nat, 0nat,
{
    match placed_term1(func, st, f) {
        Err(e) => Err(e),
        Ok(func) => match placed_term(arg, st, f) {
            Err(e) => Err(e),
            Ok(arg) => apply(func, arg, st, f),
        },
    }
}

/// The handler for `tag`, applied to `arg`: the handlers are reduced in the order of the
/// table up to the first one whose name is `tag`.
pub open spec fn dispatch(table: RecordV, tag: Name, arg: TermV, st: TableV, f: nat) -> Result<
    ExprV,
>
    decreases f, 2nat, table.len(),
{
    if table.len() == 0 {
        Err(Error::FieldNotFound)
    } else {
        match reduce_expr(table[0].1, st, f) {
            Err(e) => Err(e),
            Ok(handler) => if leads_with(table[0].0, tag) {
                match handler {
                    ExprV::Lambda(..) => reduce_expr(
                        ExprV::Term1(
                            Term1V::Evaluation(
                                Box::new(Term1V::Term(TermV::Expr(Box::new(handler)))),
                                arg,
                            ),
                        ),
                        st,
                        f,
                    ),
                    _ => Err(Error::Unsupported(NodeKind::Merge)),
                }
            } else {
                dispatch(table.drop_first(), tag, arg, st, f)
            },
        }
    }
}

/// The tag and the payload of a term that constructs a value of a union.
pub open spec fn as_tagged(t: TermV) -> Option<(Name, TermV)> {
    match t {
        TermV::Expr(e) => match *e {
            ExprV::Term1(Term1V::Evaluation(head, arg)) => match *head {
                Term1V::Term(TermV::FieldAccess(union, tag)) => match *union {
                    TermV::TypeEnum(_) => Some((tag, arg)),
                    _ => None,
                },
                _ => None,
            },
            _ => None,
        },
        _ => None,
    }
}

/// Whether a reduced scrutinee that constructs no value of a union waits for a value;
/// `Ok(false)` for one that `merge` cannot take at all.
pub open spec fn blocked_scrutinee(t: TermV, st: TableV) -> Result<bool> {
    match t {
        TermV::Expr(e) => match *e {
            ExprV::Term1(Term1V::Evaluation(head, _)) => match *head {
                Term1V::Term(TermV::FieldAccess(..)) => Ok(false),
                other => thunk_term1(other, st),
            },
            _ => Ok(false),
        },
        other => thunk_term(other, st),
    }
}

/// A `merge`: the scrutinee reduced in its place; if it constructs a value of a union,
/// the handler of its tag applied to its payload; if it waits for a value, the `merge`
/// stays.
pub open spec fn reduce_merge(table: RecordV, t: TermV, st: TableV, f: nat) -> Result<ExprV>
    decreases f, 3nat, 0nat,
{
    match placed_term(t, st, f) {
        Err(e) => Err(e),
        Ok(t) => match as_tagged(t) {
            Some((tag, arg)) => dispatch(table, tag, arg, st, f),
            None => stay_if_thunk(
                blocked_scrutinee(t, st),
                of_term(TermV::Merge(table, Box::new(t))),
                Error::MalformedMerge,
            ),
        },
    }
}

/// A projection: the term reduced in its place; of a record the fields that are named
/// stay; a term that waits for a value stays as it is.
pub open spec fn reduce_project(style: u8, t: TermV, names: Seq<Name>, st: TableV, f: nat) -> Result<
    ExprV,
>
    decreases f, 3nat, 0nat,
{
    match placed_term(t, st, f) {
        Err(e) => Err(e),
        Ok(TermV::Record(fields)) => Ok(of_term(TermV::Record(keep_selected(fields, names)))),
        Ok(other) => stay_if_thunk(
            thunk_term(other, st),
            of_term(TermV::Project(style, Box::new(other), names)),
            Error::Unsupported(NodeKind::Project),
        ),
    }
}

/// A field access: the term reduced in its place; of a record the fields under the
/// name are reduced and settled; a term that waits for a value stays as it is.
pub open spec fn reduce_field_access(t: TermV, name: Name, st: TableV, f: nat) -> Result<ExprV>
    decreases f, 3nat, 0nat,
{
    match placed_term(t, st, f) {
        Err(e) => Err(e),
        Ok(TermV::Record(fields)) => match reduce_record(keep_leading(fields, name), st, f) {
            Err(e) => Err(e),
            Ok(reduced) => settle_access(strip_heads(reduced)),
        },
        Ok(other) => stay_if_thunk(
            thunk_term(other, st),
            of_term(TermV::FieldAccess(Box::new(other), name)),
            Error::Unsupported(NodeKind::FieldAccess),
        ),
    }
}

/// A term in the place of an expression: a reference is resolved, a literal stays, the
/// parts of a collection are reduced, a wrapped expression is unwrapped.
pub open spec fn reduce_term(t: TermV, st: TableV, f: nat) -> Result<ExprV>
    decreases f, 5nat, 0nat,
{
    match t {
        TermV::Var(name, distance, resolved) => reduce_var(name, distance, resolved, st, f),
        TermV::Integer(..) | TermV::Double(..) | TermV::Path(..) | TermV::Import { .. }
        | TermV::Embed(..) => Ok(of_term(t)),
        TermV::Text(style, entries) => match reduce_entries(entries, st, f) {
            Err(e) => Err(e),
            Ok(entries) => Ok(of_term(TermV::Text(style, entries))),
        },
        TermV::List(items) => match reduce_vals(items, st, f) {
            Err(e) => Err(e),
            Ok(items) => Ok(of_term(TermV::List(items))),
        },
        TermV::Record(fields) => match reduce_record(fields, st, f) {
            Err(e) => Err(e),
            Ok(fields) => Ok(of_term(TermV::Record(fields))),
        },
        TermV::TypeRecord(fields) => match reduce_record(fields, st, f) {
            Err(e) => Err(e),
            Ok(fields) => Ok(of_term(TermV::TypeRecord(fields))),
        },
        TermV::TypeEnum(alts) => match reduce_entries(alts, st, f) {
            Err(e) => Err(e),
            Ok(alts) => Ok(of_term(TermV::TypeEnum(alts))),
        },
        TermV::Expr(e) => reduce_expr(*e, st, f),
        TermV::Project(style, inner, names) => reduce_project(style, *inner, names, st, f),
        TermV::FieldAccess(inner, name) => reduce_field_access(*inner, name, st, f),
        TermV::Merge(table, inner) => reduce_merge(table, *inner, st, f),
    }
}

} // verus!
