use vstd::prelude::*;
use crate::ast::{
    const_0_expr, const_0_term, const_0_term1, zero_expr, zero_term, zero_term1, Expr, ExprV, Name,
    Term, Term1, Term1V, TermV,
};
use crate::error::{Error, Result};
use crate::semantics::{resolve, thunk_expr, thunk_term, thunk_term1};
use crate::sym_table::{
    bind, table_wf, thunk_info, value_view, Info, InfoV, ScopeV, SymTable, TableV, Value,
};

verus! {

/// How deep reductions may nest in a context that was not told otherwise.
pub const DEFAULT_DEPTH_LIMIT: usize = 256;

/// The state of one evaluation: the scopes, the limit on nesting, and the emptied boxes
/// that wait to be used again.
pub struct Context<'i> {
    sym_table: SymTable<'i>,
    depth_limit: usize,
    shelf_box_expr: Vec<Box<Expr<'i>>>,
    shelf_box_term1: Vec<Box<Term1<'i>>>,
    shelf_box_term: Vec<Box<Term<'i>>>,
}

/// Taking a value out of its box and putting one into a box, with the emptied boxes kept
/// for the next value.
pub trait Unboxer<T> {
    /// The number of emptied boxes that wait for a value of this type.
    spec fn shelved(&self) -> nat;

    /// Whether every kept box, of whatever type, holds nothing of what it held before.
    spec fn drained(&self) -> bool;

    /// Takes the content out of `val` and keeps the box.
    fn unbox(&mut self, val: Box<T>) -> (content: T)
        ensures
            content == *val,
            final(self).shelved() == old(self).shelved() + 1,
            old(self).drained() ==> final(self).drained(),
    ;

    /// Puts `val` into a kept box, or into a new one if none is kept.
    fn rebox(&mut self, val: T) -> (boxed: Box<T>)
        ensures
            *boxed == val,
            final(self).shelved() == if old(self).shelved() == 0 {
                0
            } else {
                old(self).shelved() - 1
            },
            old(self).drained() ==> final(self).drained(),
    ;
}

/// The scope in which each of `names` is bound without a value.
pub open spec fn thunks_scope(names: Seq<Name>, scope_id: nat) -> ScopeV
    decreases names.len(),
{
    if names.len() == 0 {
        Map::empty()
    } else {
        thunks_scope(names.drop_last(), scope_id).insert(names.last(), thunk_info(scope_id))
    }
}

/// The names that every context knows from the start.
pub open spec fn builtin_names() -> Seq<Name> {
    seq![
        "assert"@,
        "Bool"@,
        "Double"@,
        "Double/show"@,
        "False"@,
        "Integer"@,
        "Integer/clamp"@,
        "Integer/negate"@,
        "Integer/show"@,
        "Integer/toDouble"@,
        "Kind"@,
        "List"@,
        "List/build"@,
        "List/fold"@,
        "List/head"@,
        "List/indexed"@,
        "List/last"@,
        "List/length"@,
        "List/reverse"@,
        "Natural"@,
        "Natural/even"@,
        "Natural/fold"@,
        "Natural/isZero"@,
        "Natural/odd"@,
        "Natural/show"@,
        "Natural/subtract"@,
        "Natural/toInteger"@,
        "None"@,
        "Optional"@,
        "Some"@,
        "Text"@,
        "Text/replace"@,
        "Text/show"@,
        "toMap"@,
        "True"@,
        "Type"@,
    ]
}

/// The texts of a list of names.
pub open spec fn names_view(names: Seq<&str>) -> Seq<Name> {
    Seq::new(names.len(), |i: int| names[i]@)
}

impl<'i> Context<'i> {
    /// The scopes as the reduction rules see them.
    pub closed spec fn table(&self) -> TableV {
        self.sym_table@
    }

    /// The depths that were marked and not yet returned to.
    pub closed spec fn marks(&self) -> Seq<nat> {
        self.sym_table.marks()
    }

    /// How deep reductions may nest.
    pub closed spec fn limit(&self) -> nat {
        self.depth_limit as nat
    }

    /// Whether the scopes are well-formed.
    pub closed spec fn scopes_wf(&self) -> bool {
        self.sym_table.wf()
    }

    /// What the boxes on the shelf for expressions hold.
    pub closed spec fn shelf_exprs(&self) -> Seq<ExprV> {
        Seq::new(self.shelf_box_expr@.len(), |i: int| self.shelf_box_expr@[i]@)
    }

    /// What the boxes on the shelf for `Term1` hold.
    pub closed spec fn shelf_term1s(&self) -> Seq<Term1V> {
        Seq::new(self.shelf_box_term1@.len(), |i: int| self.shelf_box_term1@[i]@)
    }

    /// What the boxes on the shelf for `Term` hold.
    pub closed spec fn shelf_terms(&self) -> Seq<TermV> {
        Seq::new(self.shelf_box_term@.len(), |i: int| self.shelf_box_term@[i]@)
    }

    /// Every box on a shelf holds the literal `0` and nothing of what it held before.
    pub open spec fn shelves_drained(&self) -> bool {
        &&& forall|i: int| 0 <= i < self.shelf_exprs().len() ==> self.shelf_exprs()[i] == zero_expr()
        &&& forall|i: int|
            0 <= i < self.shelf_term1s().len() ==> self.shelf_term1s()[i] == zero_term1()
        &&& forall|i: int| 0 <= i < self.shelf_terms().len() ==> self.shelf_terms()[i] == zero_term()
    }

    /// The scopes are well-formed and every shelved box is drained.
    pub open spec fn wf(&self) -> bool {
        &&& self.scopes_wf()
        &&& table_wf(self.table())
        &&& self.shelves_drained()
    }

    /// Two contexts with the same scopes, marks and limit.
    pub open spec fn same_scopes(&self, other: &Self) -> bool {
        &&& self.table() == other.table()
        &&& self.marks() == other.marks()
        &&& self.limit() == other.limit()
        &&& self.scopes_wf() == other.scopes_wf()
    }

    /// Two contexts whose shelves hold the same.
    pub open spec fn same_shelves(&self, other: &Self) -> bool {
        &&& self.shelf_exprs() == other.shelf_exprs()
        &&& self.shelf_term1s() == other.shelf_term1s()
        &&& self.shelf_terms() == other.shelf_terms()
    }

    /// A context whose outermost scope binds each of `names` without a value.
    pub fn with_thunks(names: &[&'i str]) -> (ctx: Self)
        ensures
            ctx.wf(),
            ctx.table() == seq![thunks_scope(names_view(names@), 0)],
            ctx.marks() == Seq::<nat>::empty(),
            ctx.limit() == DEFAULT_DEPTH_LIMIT,
            ctx.shelf_exprs().len() == 0,
            ctx.shelf_term1s().len() == 0,
            ctx.shelf_terms().len() == 0,
    {
        let mut sym_table = SymTable::default();
        sym_table.enter_scope();
        let mut i: usize = 0;
        assert(names_view(names@).take(0) =~= Seq::<Name>::empty());
        assert(sym_table@ =~= seq![thunks_scope(names_view(names@).take(0), 0)]);
        while i < names.len()
            invariant
                i <= names.len(),
                sym_table.wf(),
                sym_table.marks() == Seq::<nat>::empty(),
                sym_table@ == seq![thunks_scope(names_view(names@).take(i as int), 0)],
            decreases names.len() - i,
        {
            sym_table.add_thunk(names[i]);
            proof {
                let all = names_view(names@);
                assert(all.take(i + 1).drop_last() =~= all.take(i as int));
                assert(all.take(i + 1).last() == names[i as int]@);
                assert(sym_table@ =~= seq![thunks_scope(all.take(i + 1), 0)]);
            }
            i = i + 1;
        }
        assert(names_view(names@).take(i as int) =~= names_view(names@));
        let ctx = Context {
            sym_table,
            depth_limit: DEFAULT_DEPTH_LIMIT,
            shelf_box_expr: Vec::new(),
            shelf_box_term1: Vec::new(),
            shelf_box_term: Vec::new(),
        };
        proof {
            ctx.sym_table.lemma_wf_table();
        }
        ctx
    }

    /// A context that knows the built-in names, each without a value.
    pub fn new() -> (ctx: Self)
        ensures
            ctx.wf(),
            ctx.table() == seq![thunks_scope(builtin_names(), 0)],
            ctx.marks() == Seq::<nat>::empty(),
            ctx.limit() == DEFAULT_DEPTH_LIMIT,
            ctx.shelf_exprs().len() == 0,
            ctx.shelf_term1s().len() == 0,
            ctx.shelf_terms().len() == 0,
    {
        let names: [&'i str; 36] = [
            "assert",
            "Bool",
            "Double",
            "Double/show",
            "False",
            "Integer",
            "Integer/clamp",
            "Integer/negate",
            "Integer/show",
            "Integer/toDouble",
            "Kind",
            "List",
            "List/build",
            "List/fold",
            "List/head",
            "List/indexed",
            "List/last",
            "List/length",
            "List/reverse",
            "Natural",
            "Natural/even",
            "Natural/fold",
            "Natural/isZero",
            "Natural/odd",
            "Natural/show",
            "Natural/subtract",
            "Natural/toInteger",
            "None",
            "Optional",
            "Some",
            "Text",
            "Text/replace",
            "Text/show",
            "toMap",
            "True",
            "Type",
        ];
        assert(names_view(names@) =~= builtin_names());
        Context::with_thunks(names.as_slice())
    }

    /// The scopes, to be read.
    pub fn sym_table(&self) -> (t: &SymTable<'i>)
        ensures
            t@ == self.table(),
            t.marks() == self.marks(),
            t.wf() == self.scopes_wf(),
    {
        &self.sym_table
    }

    /// How deep reductions may nest.
    pub fn depth_limit(&self) -> (n: usize)
        ensures
            n == self.limit(),
    {
        self.depth_limit
    }

    /// Sets how deep reductions may nest from now on.
    pub fn set_depth_limit(&mut self, limit: usize)
        ensures
            final(self).limit() == limit,
            final(self).table() == old(self).table(),
            final(self).marks() == old(self).marks(),
            final(self).scopes_wf() == old(self).scopes_wf(),
            final(self).same_shelves(old(self)),
    {
        self.depth_limit = limit;
    }

    /// Opens a scope that binds nothing yet.
    pub fn push_scope(&mut self)
        requires
            old(self).wf(),
        ensures
            final(self).wf(),
            final(self).table() == old(self).table().push(Map::<Name, InfoV>::empty()),
            final(self).marks() == old(self).marks(),
            final(self).limit() == old(self).limit(),
            final(self).same_shelves(old(self)),
    {
        self.sym_table.enter_scope();
        proof {
            self.sym_table.lemma_wf_table();
        }
    }

    /// Opens a scope that binds `name` alone.
    pub fn push_binding(&mut self, name: &'i str, typ: Value<'i>, value: Value<'i>)
        requires
            old(self).wf(),
        ensures
            final(self).wf(),
            final(self).table() == bind(
                old(self).table(),
                name@,
                value_view(&typ),
                value_view(&value),
            ),
            final(self).marks() == old(self).marks(),
            final(self).limit() == old(self).limit(),
            final(self).same_shelves(old(self)),
    {
        self.sym_table.enter_scope();
        self.sym_table.add(name, typ, value);
        proof {
            self.sym_table.lemma_wf_table();
            assert(self.sym_table@ =~= bind(
                old(self).table(),
                name@,
                value_view(&typ),
                value_view(&value),
            ));
        }
    }

    /// Closes the innermost scope, if there is one.
    pub fn pop_scope(&mut self)
        requires
            old(self).wf(),
        ensures
            final(self).wf(),
            final(self).table() == (if old(self).table().len() > 0 {
                old(self).table().drop_last()
            } else {
                old(self).table()
            }),
            final(self).marks() == old(self).marks(),
            final(self).limit() == old(self).limit(),
            final(self).same_shelves(old(self)),
    {
        self.sym_table.exit_scope();
        proof {
            self.sym_table.lemma_wf_table();
        }
    }

    /// Remembers the present depth of the scopes.
    pub fn mark_scope(&mut self)
        requires
            old(self).wf(),
        ensures
            final(self).wf(),
            final(self).table() == old(self).table(),
            final(self).marks() == old(self).marks().push(old(self).table().len()),
            final(self).limit() == old(self).limit(),
            final(self).same_shelves(old(self)),
    {
        self.sym_table.mark_scope();
        proof {
            self.sym_table.lemma_wf_table();
        }
    }

    /// Closes every scope opened since the latest mark, and forgets that mark.
    pub fn return_to_marked_scope(&mut self)
        requires
            old(self).wf(),
            old(self).marks().len() > 0,
            old(self).marks().last() <= old(self).table().len(),
        ensures
            final(self).wf(),
            final(self).table() == old(self).table().take(old(self).marks().last() as int),
            final(self).marks() == old(self).marks().drop_last(),
            final(self).limit() == old(self).limit(),
            final(self).same_shelves(old(self)),
    {
        self.sym_table.return_to_marked_scope();
        proof {
            self.sym_table.lemma_wf_table();
        }
    }

    /// Whether every shelved box is drained, found by looking at each of them.
    pub fn check_shelves(&self) -> (ok: bool)
        ensures
            ok == self.shelves_drained(),
    {
        let mut i: usize = 0;
        while i < self.shelf_box_expr.len()
            invariant
                i <= self.shelf_box_expr.len(),
                forall|k: int| 0 <= k < i ==> self.shelf_exprs()[k] == zero_expr(),
            decreases self.shelf_box_expr.len() - i,
        {
            let ok = is_zero_expr(&self.shelf_box_expr[i]);
            assert(self.shelf_exprs()[i as int] == self.shelf_box_expr@[i as int]@);
            if !ok {
                return false;
            }
            i = i + 1;
        }
        let mut j: usize = 0;
        while j < self.shelf_box_term1.len()
            invariant
                j <= self.shelf_box_term1.len(),
                forall|k: int| 0 <= k < j ==> self.shelf_term1s()[k] == zero_term1(),
            decreases self.shelf_box_term1.len() - j,
        {
            let ok = is_zero_term1(&self.shelf_box_term1[j]);
            assert(self.shelf_term1s()[j as int] == self.shelf_box_term1@[j as int]@);
            if !ok {
                return false;
            }
            j = j + 1;
        }
        let mut k: usize = 0;
        while k < self.shelf_box_term.len()
            invariant
                k <= self.shelf_box_term.len(),
                forall|x: int| 0 <= x < self.shelf_exprs().len() ==> self.shelf_exprs()[x]
                    == zero_expr(),
                forall|x: int| 0 <= x < self.shelf_term1s().len() ==> self.shelf_term1s()[x]
                    == zero_term1(),
                forall|x: int| 0 <= x < k ==> self.shelf_terms()[x] == zero_term(),
            decreases self.shelf_box_term.len() - k,
        {
            let ok = is_zero_term(&self.shelf_box_term[k]);
            assert(self.shelf_terms()[k as int] == self.shelf_box_term@[k as int]@);
            if !ok {
                return false;
            }
            k = k + 1;
        }
        true
    }

    /// The binding that a reference stands for.
    pub fn resolve(&self, name: &str, distance: u16, resolved: Option<usize>) -> (r: Result<
        &Info<'i>,
    >)
        requires
            self.scopes_wf(),
        ensures
            match r {
                Ok(info) => resolve(
                    self.table(),
                    name@,
                    distance as nat,
                    resolved_view(resolved),
                ) == Some(info@),
                Err(e) => e == Error::NotFound && resolve(
                    self.table(),
                    name@,
                    distance as nat,
                    resolved_view(resolved),
                ) is None,
            },
    {
        match resolved {
            Some(sid) => {
                let depth = self.sym_table.next_scope_id();
                let offset = if depth == 0 || sid >= depth - 1 {
                    0
                } else {
                    self.sym_table.scope_offset(sid)
                };
                self.sym_table.lookup_from_offset(offset, name)
            },
            None => self.sym_table.lookup(name, distance),
        }
    }

    /// Whether `t` is blocked on a name without a value.
    pub fn is_thunk_term(&self, t: &Term<'i>) -> (r: Result<bool>)
        requires
            self.scopes_wf(),
        ensures
            r == thunk_term(t@, self.table()),
        decreases t,
    {
        match t {
            Term::Var(name, distance, resolved) => match self.resolve(name, *distance, *resolved) {
                Ok(info) => Ok(info.value.is_none()),
                Err(e) => Err(e),
            },
            Term::FieldAccess(inner, _) => self.is_thunk_term(inner),
            Term::Record(_) => Ok(false),
            Term::Merge(_, inner) => self.is_thunk_term(inner),
            Term::Expr(e) => self.is_thunk_expr(e),
            Term::TypeEnum(_) => Ok(true),
            other => Err(Error::Unsupported(other.kind())),
        }
    }

    /// Whether `t` is blocked on a name without a value.
    pub fn is_thunk_term1(&self, t: &Term1<'i>) -> (r: Result<bool>)
        requires
            self.scopes_wf(),
        ensures
            r == thunk_term1(t@, self.table()),
        decreases t,
    {
        match t {
            Term1::Term(inner) => self.is_thunk_term(inner),
            Term1::Evaluation(f, _) => self.is_thunk_term1(f),
            Term1::Operation(a, _, b) => match self.is_thunk_term1(a) {
                Ok(true) => Ok(true),
                Ok(false) => self.is_thunk_term1(b),
                Err(e) => Err(e),
            },
            other => Err(Error::Unsupported(other.kind())),
        }
    }

    /// Whether `e` is blocked on a name without a value.
    pub fn is_thunk_expr(&self, e: &Expr<'i>) -> (r: Result<bool>)
        requires
            self.scopes_wf(),
        ensures
            r == thunk_expr(e@, self.table()),
        decreases e,
    {
        match e {
            Expr::Term1(t) => self.is_thunk_term1(t),
            other => Err(Error::Unsupported(other.kind())),
        }
    }
}

/// A context that knows the built-in names.
pub fn ctx<'i>() -> (ctx: Context<'i>)
    ensures
        ctx.wf(),
        ctx.table() == seq![thunks_scope(builtin_names(), 0)],
        ctx.marks() == Seq::<nat>::empty(),
        ctx.limit() == DEFAULT_DEPTH_LIMIT,
{
    Context::new()
}

/// The mathematical value of an optional scope number.
pub open spec fn resolved_view(resolved: Option<usize>) -> Option<nat> {
    match resolved {
        Some(id) => Some(id as nat),
        None => None,
    }
}

fn is_zero_term(t: &Term) -> (ok: bool)
    ensures
        ok == (t@ == zero_term()),
{
    match t {
        Term::Integer(neg, digits) => !*neg && crate::text::str_eq(digits, "0"),
        _ => false,
    }
}

fn is_zero_term1(t: &Term1) -> (ok: bool)
    ensures
        ok == (t@ == zero_term1()),
{
    match t {
        Term1::Term(t) => is_zero_term(t),
        _ => false,
    }
}

fn is_zero_expr(e: &Expr) -> (ok: bool)
    ensures
        ok == (e@ == zero_expr()),
{
    match e {
        Expr::Term1(t) => is_zero_term1(t),
        _ => false,
    }
}

impl<'i> Unboxer<Expr<'i>> for Context<'i> {
    open spec fn shelved(&self) -> nat {
        self.shelf_exprs().len()
    }

    open spec fn drained(&self) -> bool {
        self.shelves_drained()
    }

    fn unbox(&mut self, val: Box<Expr<'i>>) -> (content: Expr<'i>)
        ensures
            final(self).same_scopes(old(self)),
            final(self).shelf_exprs() == old(self).shelf_exprs().push(zero_expr()),
            final(self).shelf_term1s() == old(self).shelf_term1s(),
            final(self).shelf_terms() == old(self).shelf_terms(),
    {
        let mut val = val;
        let mut content = const_0_expr();
        core::mem::swap(&mut content, &mut *val);
        let ghost before = self.shelf_exprs();
        self.shelf_box_expr.push(val);
        assert(self.shelf_exprs() =~= before.push(zero_expr()));
        content
    }

    fn rebox(&mut self, val: Expr<'i>) -> (boxed: Box<Expr<'i>>)
        ensures
            final(self).same_scopes(old(self)),
            final(self).shelf_exprs() == (if old(self).shelf_exprs().len() > 0 {
                old(self).shelf_exprs().drop_last()
            } else {
                old(self).shelf_exprs()
            }),
            final(self).shelf_term1s() == old(self).shelf_term1s(),
            final(self).shelf_terms() == old(self).shelf_terms(),
    {
        let mut val = val;
        let ghost before = self.shelf_exprs();
        match self.shelf_box_expr.pop() {
            Some(mut b) => {
                core::mem::swap(&mut val, &mut *b);
                assert(self.shelf_exprs() =~= before.drop_last());
                b
            },
            None => {
                assert(self.shelf_exprs() =~= before);
                Box::new(val)
            },
        }
    }
}

impl<'i> Unboxer<Term1<'i>> for Context<'i> {
    open spec fn shelved(&self) -> nat {
        self.shelf_term1s().len()
    }

    open spec fn drained(&self) -> bool {
        self.shelves_drained()
    }

    fn unbox(&mut self, val: Box<Term1<'i>>) -> (content: Term1<'i>)
        ensures
            final(self).same_scopes(old(self)),
            final(self).shelf_term1s() == old(self).shelf_term1s().push(zero_term1()),
            final(self).shelf_exprs() == old(self).shelf_exprs(),
            final(self).shelf_terms() == old(self).shelf_terms(),
    {
        let mut val = val;
        let mut content = const_0_term1();
        core::mem::swap(&mut content, &mut *val);
        let ghost before = self.shelf_term1s();
        self.shelf_box_term1.push(val);
        assert(self.shelf_term1s() =~= before.push(zero_term1()));
        content
    }

    fn rebox(&mut self, val: Term1<'i>) -> (boxed: Box<Term1<'i>>)
        ensures
            final(self).same_scopes(old(self)),
            final(self).shelf_term1s() == (if old(self).shelf_term1s().len() > 0 {
                old(self).shelf_term1s().drop_last()
            } else {
                old(self).shelf_term1s()
            }),
            final(self).shelf_exprs() == old(self).shelf_exprs(),
            final(self).shelf_terms() == old(self).shelf_terms(),
    {
        let mut val = val;
        let ghost before = self.shelf_term1s();
        match self.shelf_box_term1.pop() {
            Some(mut b) => {
                core::mem::swap(&mut val, &mut *b);
                assert(self.shelf_term1s() =~= before.drop_last());
                b
            },
            None => {
                assert(self.shelf_term1s() =~= before);
                Box::new(val)
            },
        }
    }
}

impl<'i> Unboxer<Term<'i>> for Context<'i> {
    open spec fn shelved(&self) -> nat {
        self.shelf_terms().len()
    }

    open spec fn drained(&self) -> bool {
        self.shelves_drained()
    }

    fn unbox(&mut self, val: Box<Term<'i>>) -> (content: Term<'i>)
        ensures
            final(self).same_scopes(old(self)),
            final(self).shelf_terms() == old(self).shelf_terms().push(zero_term()),
            final(self).shelf_exprs() == old(self).shelf_exprs(),
            final(self).shelf_term1s() == old(self).shelf_term1s(),
    {
        let mut val = val;
        let mut content = const_0_term();
        core::mem::swap(&mut content, &mut *val);
        let ghost before = self.shelf_terms();
        self.shelf_box_term.push(val);
        assert(self.shelf_terms() =~= before.push(zero_term()));
        content
    }

    fn rebox(&mut self, val: Term<'i>) -> (boxed: Box<Term<'i>>)
        ensures
            final(self).same_scopes(old(self)),
            final(self).shelf_terms() == (if old(self).shelf_terms().len() > 0 {
                old(self).shelf_terms().drop_last()
            } else {
                old(self).shelf_terms()
            }),
            final(self).shelf_exprs() == old(self).shelf_exprs(),
            final(self).shelf_term1s() == old(self).shelf_term1s(),
    {
        let mut val = val;
        let ghost before = self.shelf_terms();
        match self.shelf_box_term.pop() {
            Some(mut b) => {
                core::mem::swap(&mut val, &mut *b);
                assert(self.shelf_terms() =~= before.drop_last());
                b
            },
            None => {
                assert(self.shelf_terms() =~= before);
                Box::new(val)
            },
        }
    }
}

} // verus!
