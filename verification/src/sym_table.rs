use std::collections::VecDeque;
use vstd::prelude::*;
use vstd::std_specs::vecdeque::VecDequeAdditionalSpecFns;
use crate::ast::{copy_expr, expr_view, Expr, ExprV, Name};
use crate::error::{Error, Result};
use crate::text::str_eq;

verus! {

/// An expression that may be missing.
pub type Value<'i> = Option<Expr<'i>>;

/// What a scope knows of a name.
#[derive(Debug)]
pub struct Info<'i> {
    /// The value bound to the name; a name without one is a thunk.
    pub value: Value<'i>,
    pub typ: Value<'i>,
    /// The scope that holds the binding, counted from the outermost scope, which is 0.
    pub scope_id: usize,
}

/// The mathematical value of an `Info`.
pub struct InfoV {
    pub value: Option<ExprV>,
    pub typ: Option<ExprV>,
    pub scope_id: nat,
}

/// The bindings of one scope by name.
pub type ScopeV = Map<Name, InfoV>;

/// A stack of scopes from the outermost, at index 0, to the innermost, which is last.
pub type TableV = Seq<ScopeV>;

/// The mathematical value of an optional expression.
pub open spec fn value_view(v: &Value) -> Option<ExprV> {
    match v {
        Some(e) => Some(expr_view(e)),
        None => None,
    }
}

impl<'i> View for Info<'i> {
    type V = InfoV;

    open spec fn view(&self) -> InfoV {
        InfoV {
            value: value_view(&self.value),
            typ: value_view(&self.typ),
            scope_id: self.scope_id as nat,
        }
    }
}

/// The binding of a name that has no value and no type.
pub open spec fn thunk_info(scope_id: nat) -> InfoV {
    InfoV { value: None, typ: None, scope_id }
}

/// The map that a list of bindings stands for: a later binding of a name replaces an
/// earlier one.
pub open spec fn entries_map(es: Seq<(Name, InfoV)>) -> ScopeV
    decreases es.len(),
{
    if es.len() == 0 {
        Map::empty()
    } else {
        entries_map(es.drop_last()).insert(es.last().0, es.last().1)
    }
}

/// Whether no name occurs twice in a list of bindings.
pub open spec fn distinct_names(es: Seq<(Name, InfoV)>) -> bool {
    forall|i: int, j: int| 0 <= i < j < es.len() ==> es[i].0 != es[j].0
}

proof fn lemma_absent_name(es: Seq<(Name, InfoV)>, name: Name)
    requires
        forall|i: int| 0 <= i < es.len() ==> es[i].0 != name,
    ensures
        !entries_map(es).dom().contains(name),
    decreases es.len(),
{
    if es.len() > 0 {
        lemma_absent_name(es.drop_last(), name);
    }
}

proof fn lemma_present_name(es: Seq<(Name, InfoV)>, i: int)
    requires
        distinct_names(es),
        0 <= i < es.len(),
    ensures
        entries_map(es).dom().contains(es[i].0),
        entries_map(es)[es[i].0] == es[i].1,
    decreases es.len(),
{
    if i < es.len() - 1 {
        lemma_present_name(es.drop_last(), i);
    }
}

proof fn lemma_replace_entry(es: Seq<(Name, InfoV)>, i: int, info: InfoV)
    requires
        distinct_names(es),
        0 <= i < es.len(),
    ensures
        entries_map(es.update(i, (es[i].0, info))) == entries_map(es).insert(es[i].0, info),
        distinct_names(es.update(i, (es[i].0, info))),
    decreases es.len(),
{
    let name = es[i].0;
    let after = es.update(i, (name, info));
    if i == es.len() - 1 {
        assert(after.drop_last() == es.drop_last());
        assert(entries_map(after) == entries_map(es).insert(name, info));
    } else {
        lemma_replace_entry(es.drop_last(), i, info);
        assert(after.drop_last() == es.drop_last().update(i, (name, info)));
        assert(after.last() == es.last());
        assert(es.last().0 != name);
        assert(entries_map(after) == entries_map(es).insert(name, info));
    }
}

/// The table with `depth` more scopes, each of which binds `name` without a value.
pub open spec fn nest(st: TableV, name: Name, depth: nat) -> TableV
    decreases depth,
{
    if depth == 0 {
        st
    } else {
        bind(nest(st, name, (depth - 1) as nat), name, None, None)
    }
}

/// A search at distance 0 finds the binding of the innermost scope that binds the name,
/// whatever the scopes around it bind.
pub proof fn lemma_innermost_binder_wins(
    st: TableV,
    name: Name,
    typ: Option<ExprV>,
    value: Option<ExprV>,
)
    ensures
        lookup_in(bind(st, name, typ, value), name, 0) == Some(
            InfoV { value, typ, scope_id: st.len() },
        ),
{
}

/// Each scope that binds the name takes one off the distance of a search that passes it.
pub proof fn lemma_distance_passes_a_binder(
    st: TableV,
    name: Name,
    typ: Option<ExprV>,
    value: Option<ExprV>,
    distance: nat,
)
    ensures
        lookup_in(bind(st, name, typ, value), name, distance + 1) == lookup_in(
            st,
            name,
            distance,
        ),
{
    assert(bind(st, name, typ, value).drop_last() =~= st);
}

/// A scope that does not bind the name is passed at no cost.
pub proof fn lemma_search_sees_through(st: TableV, scope: ScopeV, name: Name, distance: nat)
    requires
        !scope.dom().contains(name),
    ensures
        lookup_in(st.push(scope), name, distance) == lookup_in(st, name, distance),
{
    assert(st.push(scope).drop_last() =~= st);
}

/// Under `depth` nested binders of one name, a reference at distance `distance` stands
/// for the binder that many steps out; at distance 0 that is the innermost one.
pub proof fn lemma_nested_binders(st: TableV, name: Name, depth: nat, distance: nat)
    requires
        distance < depth,
    ensures
        nest(st, name, depth).len() == st.len() + depth,
        lookup_in(nest(st, name, depth), name, distance) == Some(
            thunk_info((st.len() + depth - 1 - distance) as nat),
        ),
    decreases depth,
{
    let below = nest(st, name, (depth - 1) as nat);
    lemma_nest_len(st, name, (depth - 1) as nat);
    if distance == 0 {
        lemma_innermost_binder_wins(below, name, None, None);
    } else {
        lemma_distance_passes_a_binder(below, name, None, None, (distance - 1) as nat);
        lemma_nested_binders(st, name, (depth - 1) as nat, (distance - 1) as nat);
    }
}

/// Each nested binder is one more scope.
pub proof fn lemma_nest_len(st: TableV, name: Name, depth: nat)
    ensures
        nest(st, name, depth).len() == st.len() + depth,
    decreases depth,
{
    if depth > 0 {
        lemma_nest_len(st, name, (depth - 1) as nat);
    }
}

/// A binding that a search finds lies in the scope that it names.
pub proof fn lemma_found_where_it_says(st: TableV, name: Name, distance: nat)
    requires
        table_wf(st),
        lookup_in(st, name, distance) is Some,
    ensures
        ({
            let info = lookup_in(st, name, distance)->0;
            &&& info.scope_id < st.len()
            &&& st[info.scope_id as int].dom().contains(name)
            &&& st[info.scope_id as int][name] == info
        }),
    decreases st.len(),
{
    if st.len() > 0 {
        let below = st.drop_last();
        assert(table_wf(below)) by {
            assert forall|i: int, n: Name|
                0 <= i < below.len() && #[trigger] below[i].dom().contains(n) implies below[i][n].scope_id
                == i by {
                assert(below[i] == st[i]);
            }
        }
        if st.last().dom().contains(name) {
            if distance > 0 {
                lemma_found_where_it_says(below, name, (distance - 1) as nat);
                let info = lookup_in(st, name, distance)->0;
                assert(below[info.scope_id as int] == st[info.scope_id as int]);
            }
        } else {
            lemma_found_where_it_says(below, name, distance);
            let info = lookup_in(st, name, distance)->0;
            assert(below[info.scope_id as int] == st[info.scope_id as int]);
        }
    }
}

/// The bindings of one scope.
#[derive(Debug)]
pub struct Scope<'i> {
    name_info: Vec<(&'i str, Info<'i>)>,
}

impl<'i> View for Scope<'i> {
    type V = ScopeV;

    closed spec fn view(&self) -> ScopeV {
        entries_map(self.entries())
    }
}

impl<'i> Scope<'i> {
    /// The bindings in the order in which they were made.
    pub closed spec fn entries(&self) -> Seq<(Name, InfoV)> {
        Seq::new(self.name_info@.len(), |i: int| (self.name_info@[i].0@, self.name_info@[i].1@))
    }

    /// No name is bound twice.
    pub closed spec fn wf(&self) -> bool {
        distinct_names(self.entries())
    }

    /// A scope without bindings.
    pub fn new() -> (s: Self)
        ensures
            s.wf(),
            s@ == Map::<Name, InfoV>::empty(),
    {
        Scope { name_info: Vec::new() }
    }

    fn position(&self, name: &str) -> (r: Option<usize>)
        ensures
            match r {
                Some(i) => i < self.entries().len() && self.entries()[i as int].0 == name@,
                None => forall|k: int| 0 <= k < self.entries().len() ==> self.entries()[k].0
                    != name@,
            },
    {
        let mut i: usize = 0;
        while i < self.name_info.len()
            invariant
                i <= self.name_info.len(),
                forall|k: int| 0 <= k < i ==> self.entries()[k].0 != name@,
            decreases self.name_info.len() - i,
        {
            if str_eq(self.name_info[i].0, name) {
                return Some(i);
            }
            i = i + 1;
        }
        None
    }

    /// The binding of `name` in this scope, if it has one.
    pub fn get(&self, name: &str) -> (r: Option<&Info<'i>>)
        requires
            self.wf(),
        ensures
            match r {
                Some(info) => self@.dom().contains(name@) && self@[name@] == info@,
                None => !self@.dom().contains(name@),
            },
    {
        match self.position(name) {
            Some(i) => {
                proof {
                    lemma_present_name(self.entries(), i as int);
                }
                Some(&self.name_info[i].1)
            },
            None => {
                proof {
                    lemma_absent_name(self.entries(), name@);
                }
                None
            },
        }
    }

    /// Binds `name`, in place of an earlier binding of it in this scope.
    pub fn insert(&mut self, name: &'i str, info: Info<'i>)
        requires
            old(self).wf(),
        ensures
            final(self).wf(),
            final(self)@ == old(self)@.insert(name@, info@),
    {
        let ghost before = self.entries();
        match self.position(name) {
            Some(i) => {
                proof {
                    lemma_replace_entry(before, i as int, info@);
                }
                self.name_info.set(i, (name, info));
                assert(self.entries() =~= before.update(i as int, (name@, info@)));
            },
            None => {
                self.name_info.push((name, info));
                assert(self.entries() =~= before.push((name@, info@)));
                assert(self.entries().drop_last() =~= before);
            },
        }
    }
}

/// Every binding records the scope that holds it.
pub open spec fn table_wf(st: TableV) -> bool {
    forall|i: int, name: Name|
        0 <= i < st.len() && #[trigger] st[i].dom().contains(name) ==> st[i][name].scope_id == i
}

/// The binding of `name` that is met after `skip` other bindings of it, going from the
/// innermost scope outwards.
pub open spec fn lookup_in(st: TableV, name: Name, skip: nat) -> Option<InfoV>
    decreases st.len(),
{
    if st.len() == 0 {
        None
    } else if st.last().dom().contains(name) {
        if skip == 0 {
            Some(st.last()[name])
        } else {
            lookup_in(st.drop_last(), name, (skip - 1) as nat)
        }
    } else {
        lookup_in(st.drop_last(), name, skip)
    }
}

/// The same search, begun `offset` scopes below the innermost one.
pub open spec fn lookup_below(st: TableV, offset: nat, name: Name, skip: nat) -> Option<InfoV> {
    if offset >= st.len() {
        None
    } else {
        lookup_in(st.take(st.len() - offset), name, skip)
    }
}

/// The table with one more scope, which binds `name` alone.
pub open spec fn bind(st: TableV, name: Name, typ: Option<ExprV>, value: Option<ExprV>) -> TableV {
    st.push(Map::<Name, InfoV>::empty().insert(name, InfoV { value, typ, scope_id: st.len() }))
}

/// The stack of scopes that the reduction walks with, and the depths it has marked. The
/// innermost scope stands at the front of the queue.
pub struct SymTable<'i> {
    scope: VecDeque<Scope<'i>>,
    marks: Vec<usize>,
}

impl<'i> View for SymTable<'i> {
    type V = TableV;

    closed spec fn view(&self) -> TableV {
        Seq::new(self.scope@.len(), |i: int| self.scope@[self.scope@.len() - 1 - i]@)
    }
}

impl<'i> Default for SymTable<'i> {
    fn default() -> (t: Self)
        ensures
            t.wf(),
            t@ == Seq::<ScopeV>::empty(),
            t.marks() == Seq::<nat>::empty(),
    {
        let t = SymTable { scope: VecDeque::new(), marks: Vec::new() };
        assert(t@ =~= Seq::<ScopeV>::empty());
        assert(t.marks() =~= Seq::<nat>::empty());
        t
    }
}

impl<'i> SymTable<'i> {
    /// The depths that were marked and not yet returned to, the latest last.
    pub closed spec fn marks(&self) -> Seq<nat> {
        Seq::new(self.marks@.len(), |i: int| self.marks@[i] as nat)
    }

    /// The scopes bind no name twice, and every binding records the scope that holds it.
    pub closed spec fn wf(&self) -> bool {
        &&& forall|i: int| 0 <= i < self.scope@.len() ==> (#[trigger] self.scope@[i]).wf()
        &&& table_wf(self@)
    }

    /// A well-formed table is well-formed as the rules see it.
    pub proof fn lemma_wf_table(&self)
        requires
            self.wf(),
        ensures
            table_wf(self@),
    {
    }

    /// The number that the next scope to be opened will have: the number of open scopes.
    pub fn next_scope_id(&self) -> (id: usize)
        ensures
            id == self@.len(),
    {
        self.scope.len()
    }

    /// The number of the innermost scope.
    pub fn scope_id(&self) -> (id: usize)
        requires
            self@.len() > 0,
        ensures
            id == self@.len() - 1,
    {
        self.next_scope_id() - 1
    }

    /// How many scopes lie between the scope `sid` and the innermost one.
    pub fn scope_offset(&self, sid: usize) -> (offset: usize)
        requires
            sid < self@.len(),
        ensures
            offset == self@.len() - 1 - sid,
    {
        self.scope_id() - sid
    }

    /// Remembers the present depth.
    pub fn mark_scope(&mut self)
        ensures
            final(self)@ == old(self)@,
            final(self).marks() == old(self).marks().push(old(self)@.len()),
            old(self).wf() ==> final(self).wf(),
    {
        let depth = self.scope.len();
        let ghost before = self.marks();
        self.marks.push(depth);
        assert(self.marks() =~= before.push(depth as nat));
        assert(self@ =~= old(self)@);
    }

    /// Closes every scope that was opened since the latest mark, and forgets that mark.
    pub fn return_to_marked_scope(&mut self)
        ensures
            old(self).wf() ==> final(self).wf(),
            old(self).marks().len() == 0 ==> final(self)@ == old(self)@ && final(self).marks()
                == old(self).marks(),
            old(self).marks().len() > 0 ==> final(self).marks() == old(self).marks().drop_last()
                && final(self)@ == (if old(self).marks().last() <= old(self)@.len() {
                old(self)@.take(old(self).marks().last() as int)
            } else {
                old(self)@
            }),
    {
        let ghost marks_before = self.marks();
        let ghost before = self@;
        match self.marks.pop() {
            Some(depth) => {
                assert(self.marks() =~= marks_before.drop_last());
                assert(depth as nat == marks_before.last());
                let ghost was_wf = self.wf();
                assert(self@ =~= before.take(self@.len() as int));
                while self.scope.len() > depth
                    invariant
                        was_wf ==> self.wf(),
                        self.marks() == marks_before.drop_last(),
                        self@.len() == self.scope@.len(),
                        self@.len() <= before.len(),
                        depth <= before.len() ==> self@.len() >= depth,
                        depth > before.len() ==> self@.len() == before.len(),
                        self@ == before.take(self@.len() as int),
                    decreases self.scope.len(),
                {
                    let ghost now = self@;
                    let ghost marks_now = self.marks();
                    let _ = self.scope.pop_front();
                    assert(self@ =~= now.drop_last());
                    assert(self@ =~= before.take(self@.len() as int));
                    assert(self.marks() =~= marks_now);
                }
                assert(before.take(before.len() as int) =~= before);
            },
            None => {
                assert(self.marks() =~= marks_before);
                assert(self@ =~= before);
            },
        }
    }

    /// Opens a scope; `is_shadow` tells what the scope is for and changes nothing.
    pub fn enter_scope1(&mut self, is_shadow: bool)
        ensures
            final(self)@ == old(self)@.push(Map::<Name, InfoV>::empty()),
            final(self).marks() == old(self).marks(),
            old(self).wf() ==> final(self).wf(),
    {
        let ghost before = self@;
        self.scope.push_front(Scope::new());
        assert(self@ =~= before.push(Map::<Name, InfoV>::empty()));
        assert(self.marks() =~= old(self).marks());
    }

    /// Opens a scope.
    pub fn enter_scope(&mut self)
        ensures
            final(self)@ == old(self)@.push(Map::<Name, InfoV>::empty()),
            final(self).marks() == old(self).marks(),
            old(self).wf() ==> final(self).wf(),
    {
        self.enter_scope1(false)
    }

    /// Closes the innermost scope, if there is one.
    pub fn exit_scope(&mut self)
        ensures
            final(self)@ == (if old(self)@.len() > 0 {
                old(self)@.drop_last()
            } else {
                old(self)@
            }),
            final(self).marks() == old(self).marks(),
            old(self).wf() ==> final(self).wf(),
    {
        let ghost before = self@;
        let _ = self.scope.pop_front();
        proof {
            if before.len() > 0 {
                assert(self@ =~= before.drop_last());
            } else {
                assert(self@ =~= before);
            }
        }
        assert(self.marks() =~= old(self).marks());
    }

    /// Binds `name` in the innermost scope, in place of an earlier binding of it there.
    pub fn add(&mut self, name: &'i str, typ: Value<'i>, val: Value<'i>)
        requires
            old(self).wf(),
            old(self)@.len() > 0,
        ensures
            final(self).wf(),
            final(self).marks() == old(self).marks(),
            final(self)@ == old(self)@.update(
                old(self)@.len() - 1,
                old(self)@.last().insert(
                    name@,
                    InfoV {
                        value: value_view(&val),
                        typ: value_view(&typ),
                        scope_id: (old(self)@.len() - 1) as nat,
                    },
                ),
            ),
    {
        let ghost before = self@;
        let scope_id = self.scope_id();
        let info = Info { value: val, typ, scope_id };
        let ghost info_view = info@;
        match self.scope.pop_front() {
            Some(mut top) => {
                assert(top@ == before.last());
                top.insert(name, info);
                self.scope.push_front(top);
            },
            None => {},
        }
        assert(self@ =~= before.update(scope_id as int, before.last().insert(name@, info_view)));
        assert(self.marks() =~= old(self).marks());
    }

    /// Binds `name` without a value in the innermost scope.
    pub fn add_thunk(&mut self, name: &'i str)
        requires
            old(self).wf(),
            old(self)@.len() > 0,
        ensures
            final(self).wf(),
            final(self).marks() == old(self).marks(),
            final(self)@ == old(self)@.update(
                old(self)@.len() - 1,
                old(self)@.last().insert(name@, thunk_info((old(self)@.len() - 1) as nat)),
            ),
    {
        self.add(name, None, None)
    }

    /// Looks `name` up from `scope_offset` scopes below the innermost one, passing over
    /// `nscope` bindings of it on the way out.
    pub fn lookup_from(&self, scope_offset: usize, name: &str, nscope: u16) -> (r: Result<
        &Info<'i>,
    >)
        requires
            self.wf(),
        ensures
            match r {
                Ok(info) => lookup_below(self@, scope_offset as nat, name@, nscope as nat) == Some(
                    info@,
                ),
                Err(e) => e == Error::NotFound && lookup_below(
                    self@,
                    scope_offset as nat,
                    name@,
                    nscope as nat,
                ) is None,
            },
    {
        if scope_offset >= self.scope.len() {
            return Err(Error::NotFound);
        }
        let mut i: usize = self.scope.len() - scope_offset;
        let mut left: u16 = nscope;
        assert(self@.take(i as int).take(i as int) =~= self@.take(i as int));
        while i > 0
            invariant
                self.wf(),
                0 <= i <= self.scope@.len(),
                lookup_in(self@.take(i as int), name@, left as nat) == lookup_below(
                    self@,
                    scope_offset as nat,
                    name@,
                    nscope as nat,
                ),
            decreases i,
        {
            assert(self@.take(i as int).drop_last() =~= self@.take(i - 1));
            assert(self@.take(i as int).last() == self.scope@[self.scope@.len() - i]@);
            match self.scope[self.scope.len() - i].get(name) {
                Some(info) => {
                    if left == 0 {
                        return Ok(info);
                    }
                    left = left - 1;
                },
                None => {},
            }
            i = i - 1;
        }
        Err(Error::NotFound)
    }

    /// Looks `name` up from `scope_offset` scopes below the innermost one, at distance 0.
    pub fn lookup_from_offset(&self, scope_offset: usize, name: &str) -> (r: Result<&Info<'i>>)
        requires
            self.wf(),
        ensures
            match r {
                Ok(info) => lookup_below(self@, scope_offset as nat, name@, 0) == Some(info@),
                Err(e) => e == Error::NotFound && lookup_below(self@, scope_offset as nat, name@, 0)
                    is None,
            },
    {
        self.lookup_from(scope_offset, name, 0)
    }

    /// Looks `name` up from the innermost scope, passing over `nscope` bindings of it on
    /// the way out.
    pub fn lookup(&self, name: &str, nscope: u16) -> (r: Result<&Info<'i>>)
        requires
            self.wf(),
        ensures
            match r {
                Ok(info) => lookup_in(self@, name@, nscope as nat) == Some(info@),
                Err(e) => e == Error::NotFound && lookup_in(self@, name@, nscope as nat) is None,
            },
    {
        assert(self@.take(self@.len() as int) =~= self@);
        self.lookup_from(0, name, nscope)
    }

    /// Whether the binding found from `starting_scope_id` scopes below the innermost one
    /// has no value.
    pub fn is_thunk1(&self, starting_scope_id: usize, name: &str, nscope: u16) -> (r: Result<bool>)
        requires
            self.wf(),
        ensures
            r == (match lookup_below(self@, starting_scope_id as nat, name@, nscope as nat) {
                Some(info) => Ok::<bool, Error>(info.value is None),
                None => Err(Error::NotFound),
            }),
    {
        match self.lookup_from(starting_scope_id, name, nscope) {
            Ok(info) => Ok(info.value.is_none()),
            Err(e) => Err(e),
        }
    }

    /// Whether the binding found from the innermost scope has no value.
    pub fn is_thunk(&self, name: &str, nscope: u16) -> (r: Result<bool>)
        requires
            self.wf(),
        ensures
            r == (match lookup_in(self@, name@, nscope as nat) {
                Some(info) => Ok::<bool, Error>(info.value is None),
                None => Err(Error::NotFound),
            }),
    {
        match self.lookup(name, nscope) {
            Ok(info) => Ok(info.value.is_none()),
            Err(e) => Err(e),
        }
    }

    /// A copy of the value that `name` is bound to.
    pub fn copy_value(&self, name: &str, scope: u16) -> (r: Result<Expr<'i>>)
        requires
            self.wf(),
        ensures
            match r {
                Ok(e) => lookup_in(self@, name@, scope as nat) matches Some(info) && info.value
                    == Some(e@),
                Err(Error::NotFound) => lookup_in(self@, name@, scope as nat) is None,
                Err(Error::NoValue) => lookup_in(self@, name@, scope as nat) matches Some(info)
                    && info.value is None,
                Err(_) => false,
            },
    {
        match self.lookup(name, scope) {
            Ok(info) => match &info.value {
                Some(v) => Ok(copy_expr(v)),
                None => Err(Error::NoValue),
            },
            Err(e) => Err(e),
        }
    }
}

} // verus!
