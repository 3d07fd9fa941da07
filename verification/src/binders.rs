use vstd::prelude::*;
use crate::ast::{ExprV, Name, TermV};
use crate::error::Error;
use crate::normal::is_or_ran_out;
use crate::semantics::{of_term, reduce_expr, reduce_opt, reduce_term, reduce_var};
use crate::sym_table::{bind, lemma_nested_binders, nest, TableV};

verus! {

/// `body` under `depth` lambdas that all bind `name`.
pub open spec fn nested(name: Name, depth: nat, body: ExprV) -> ExprV
    decreases depth,
{
    if depth == 0 {
        body
    } else {
        ExprV::Lambda(name, None, Box::new(nested(name, (depth - 1) as nat, body)))
    }
}

/// A reference to `name` at the given distance, resolved in the given scope or not yet.
pub open spec fn reference(name: Name, distance: nat, resolved: Option<nat>) -> ExprV {
    of_term(TermV::Var(name, distance, resolved))
}

proof fn lemma_under_binders(
    st: TableV,
    name: Name,
    depth: nat,
    left: nat,
    distance: nat,
    fuel: nat,
)
    requires
        left <= depth,
        distance < depth,
    ensures
        is_or_ran_out(
            reduce_expr(
                nested(name, left, reference(name, distance, None)),
                nest(st, name, (depth - left) as nat),
                fuel,
            ),
            nested(
                name,
                left,
                reference(name, distance, Some((st.len() + depth - 1 - distance) as nat)),
            ),
        ),
    decreases left,
{
    let table = nest(st, name, (depth - left) as nat);
    if fuel > 0 {
        let f = (fuel - 1) as nat;
        if left == 0 {
            lemma_nested_binders(st, name, depth, distance);
            assert(reduce_term(TermV::Var(name, distance, None), table, f) == reduce_var(
                name,
                distance,
                None,
                table,
                f,
            ));
        } else {
            assert(bind(table, name, None, None) == nest(st, name, (depth - left + 1) as nat));
            lemma_under_binders(st, name, depth, (left - 1) as nat, distance, f);
            assert(reduce_opt(None, table, f) == Ok::<Option<ExprV>, Error>(None));
        }
    }
}

/// Under nested lambdas that all bind one name, a reference to that name stands for the
/// binder that its distance tells: reduction notes the scope of that binder on it, the
/// innermost one for the distance 0, and changes nothing else.
pub proof fn lemma_nested_lambdas_resolve_by_distance(
    st: TableV,
    name: Name,
    depth: nat,
    distance: nat,
    fuel: nat,
)
    requires
        distance < depth,
    ensures
        is_or_ran_out(
            reduce_expr(nested(name, depth, reference(name, distance, None)), st, fuel),
            nested(
                name,
                depth,
                reference(name, distance, Some((st.len() + depth - 1 - distance) as nat)),
            ),
        ),
{
    lemma_under_binders(st, name, depth, depth, distance, fuel);
}

} // verus!
