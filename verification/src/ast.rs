use std::collections::VecDeque;
use vstd::prelude::*;
use vstd::std_specs::vecdeque::VecDequeAdditionalSpecFns;
use vstd::utf8::*;
use crate::error::NodeKind;

verus! {

broadcast use vstd::std_specs::vecdeque::group_vec_dequeue_axioms;

/// A queue with two ends.
pub type Deq<T> = VecDeque<T>;

/// A name as it stands in the source.
pub type Ident<'i> = &'i str;

/// The names of a path, from the outermost on.
pub type Path<'i> = Deq<Ident<'i>>;

/// The terms of a path.
pub type TermPath<'i> = Deq<Box<Term<'i>>>;

/// An expression in a box.
pub type Val<'i> = Box<Expr<'i>>;

/// A binding of a `let`: the name, the type if one is given, and the value.
pub type LetStmt<'i> = (Ident<'i>, Option<Val<'i>>, Val<'i>);

/// A piece of a text: what is written out, and what is interpolated behind it.
pub type TextEntry<'i> = (&'i str, Option<Val<'i>>);

/// A field of a record: its path and its value.
pub type RecordEntry<'i> = (Path<'i>, Val<'i>);

/// The fields of a record in the order in which they are written.
pub type RecordData<'i> = Deq<RecordEntry<'i>>;

/// An alternative of a union type: its tag and the type of its payload.
pub type TypeEnumEntry<'i> = (Ident<'i>, Option<Val<'i>>);

/// The alternatives of a union type in the order in which they are written.
pub type TypeEnumData<'i> = Deq<TypeEnumEntry<'i>>;

/// An expression: a plain `Term1`, a `let`, or a lambda.
#[derive(Debug, PartialEq, Eq)]
pub enum Expr<'i> {
    Term1(Term1<'i>),
    Let(Deq<LetStmt<'i>>, Val<'i>),
    Lambda(Ident<'i>, Option<Val<'i>>, Val<'i>),
}

/// What may stand in an expression: a term, applied or combined with others.
#[derive(Debug, PartialEq, Eq)]
pub enum Term1<'i> {
    Term(Term<'i>),
    Evaluation(Box<Term1<'i>>, Term<'i>),
    Arrow(Option<Ident<'i>>, Val<'i>, Val<'i>),
    With(Box<Term1<'i>>, Path<'i>, Box<Term1<'i>>),
    Operation(Box<Term1<'i>>, &'i str, Box<Term1<'i>>),
    IfThenElse(Val<'i>, Val<'i>, Val<'i>),
    Ascribe(Box<Term1<'i>>, Val<'i>),
    Construct(Box<Term1<'i>>, RecordData<'i>),
}

/// The smallest parts of an expression, and what stands between brackets.
#[derive(Debug, PartialEq, Eq)]
pub enum Term<'i> {
    Integer(bool, &'i str),
    Double(&'i str),
    FieldAccess(Box<Term<'i>>, Ident<'i>),
    Project(u8, Box<Term<'i>>, Deq<Ident<'i>>),
    Path(TermPath<'i>),
    /// A reference to `name`: how many enclosing binders of that name lie between the
    /// occurrence and its own binder, and the scope in which it was last resolved.
    Var(Ident<'i>, u16, Option<usize>),
    Text(u8, Deq<TextEntry<'i>>),
    List(Deq<Val<'i>>),
    Record(RecordData<'i>),
    TypeRecord(RecordData<'i>),
    TypeEnum(TypeEnumData<'i>),
    Import {
        path: &'i str,
        guard: Option<&'i str>,
        as_: Option<&'i str>,
        fall: Option<(&'i str, Option<&'i str>)>,
    },
    Expr(Val<'i>),
    Merge(RecordData<'i>, Box<Term<'i>>),
    Embed(&'i str),
}

/// A name as a sequence of characters.
pub type Name = Seq<char>;

/// The mathematical value of a path.
pub type PathV = Seq<Name>;

/// The mathematical value of the fields of a record.
pub type RecordV = Seq<(PathV, ExprV)>;

/// The mathematical value of the pieces of a text or of the alternatives of a union
/// type.
pub type EntriesV = Seq<(Name, Option<ExprV>)>;

/// The mathematical value of the bindings of a `let`.
pub type LetsV = Seq<(Name, Option<ExprV>, ExprV)>;

/// The mathematical value of an `Expr`.
pub enum ExprV {
    Term1(Term1V),
    Let(LetsV, Box<ExprV>),
    Lambda(Name, Option<Box<ExprV>>, Box<ExprV>),
}

/// The mathematical value of a `Term1`.
pub enum Term1V {
    Term(TermV),
    Evaluation(Box<Term1V>, TermV),
    Arrow(Option<Name>, Box<ExprV>, Box<ExprV>),
    With(Box<Term1V>, PathV, Box<Term1V>),
    Operation(Box<Term1V>, Name, Box<Term1V>),
    IfThenElse(Box<ExprV>, Box<ExprV>, Box<ExprV>),
    Ascribe(Box<Term1V>, Box<ExprV>),
    Construct(Box<Term1V>, RecordV),
}

/// The mathematical value of a `Term`.
pub enum TermV {
    Integer(bool, Name),
    Double(Name),
    FieldAccess(Box<TermV>, Name),
    Project(u8, Box<TermV>, Seq<Name>),
    Path(Seq<TermV>),
    Var(Name, nat, Option<nat>),
    Text(u8, EntriesV),
    List(Seq<ExprV>),
    Record(RecordV),
    TypeRecord(RecordV),
    TypeEnum(EntriesV),
    Import { path: Name, guard: Option<Name>, as_: Option<Name>, fall: Option<(Name, Option<Name>)> },
    Expr(Box<ExprV>),
    Merge(RecordV, Box<TermV>),
    Embed(Name),
}

/// The mathematical value of an optional name.
pub open spec fn name_opt_view(n: Option<&str>) -> Option<Name> {
    match n {
        Some(s) => Some(s@),
        None => None,
    }
}

/// The mathematical value of a path.
pub open spec fn path_view(p: &Deq<&str>) -> PathV {
    Seq::new(p@.len(), |i: int| p@[i]@)
}

/// The mathematical value of an optional expression.
pub open spec fn opt_view(v: &Option<Val>) -> Option<ExprV>
    decreases v,
{
    match v {
        Some(e) => Some(expr_view(&**e)),
        None => None,
    }
}

/// The mathematical value of an optional expression, kept in a box.
pub open spec fn boxed_opt_view(v: &Option<Val>) -> Option<Box<ExprV>>
    decreases v,
{
    match v {
        Some(e) => Some(Box::new(expr_view(&**e))),
        None => None,
    }
}

/// The mathematical values of the items of a list.
pub open spec fn vals_view(d: &Deq<Val>) -> Seq<ExprV>
    decreases d,
{
    Seq::new(
        d@.len(),
        |i: int|
            if 0 <= i < d@.len() {
                expr_view(&*d[i])
            } else {
                arbitrary()
            },
    )
}

/// The mathematical values of the terms of a path.
pub open spec fn terms_view(d: &TermPath) -> Seq<TermV>
    decreases d,
{
    Seq::new(
        d@.len(),
        |i: int|
            if 0 <= i < d@.len() {
                term_view(&*d[i])
            } else {
                arbitrary()
            },
    )
}

/// The mathematical value of the fields of a record.
pub open spec fn record_view(d: &RecordData) -> RecordV
    decreases d,
{
    Seq::new(
        d@.len(),
        |i: int|
            if 0 <= i < d@.len() {
                (path_view(&d[i].0), expr_view(&*d[i].1))
            } else {
                arbitrary()
            },
    )
}

/// The mathematical value of the pieces of a text or of the alternatives of a union
/// type.
pub open spec fn entries_view(d: &Deq<(&str, Option<Val>)>) -> EntriesV
    decreases d,
{
    Seq::new(
        d@.len(),
        |i: int|
            if 0 <= i < d@.len() {
                (d[i].0@, opt_view(&d[i].1))
            } else {
                arbitrary()
            },
    )
}

/// The mathematical value of the bindings of a `let`.
pub open spec fn lets_view(d: &Deq<LetStmt>) -> LetsV
    decreases d,
{
    Seq::new(
        d@.len(),
        |i: int|
            if 0 <= i < d@.len() {
                (d[i].0@, opt_view(&d[i].1), expr_view(&*d[i].2))
            } else {
                arbitrary()
            },
    )
}

/// The mathematical value of an expression.
pub open spec fn expr_view(e: &Expr) -> ExprV
    decreases e,
{
    match e {
        Expr::Term1(t) => ExprV::Term1(term1_view(t)),
        Expr::Let(defs, val) => ExprV::Let(lets_view(defs), Box::new(expr_view(&**val))),
        Expr::Lambda(name, typ, body) => ExprV::Lambda(
            name@,
            boxed_opt_view(typ),
            Box::new(expr_view(&**body)),
        ),
    }
}

/// The mathematical value of a `Term1`.
pub open spec fn term1_view(t: &Term1) -> Term1V
    decreases t,
{
    match t {
        Term1::Term(t) => Term1V::Term(term_view(t)),
        Term1::Evaluation(f, x) => Term1V::Evaluation(Box::new(term1_view(&**f)), term_view(x)),
        Term1::Arrow(name, a, b) => Term1V::Arrow(
            name_opt_view(*name),
            Box::new(expr_view(&**a)),
            Box::new(expr_view(&**b)),
        ),
        Term1::With(t, path, v) => Term1V::With(
            Box::new(term1_view(&**t)),
            path_view(path),
            Box::new(term1_view(&**v)),
        ),
        Term1::Operation(a, op, b) => Term1V::Operation(
            Box::new(term1_view(&**a)),
            op@,
            Box::new(term1_view(&**b)),
        ),
        Term1::IfThenElse(c, a, b) => Term1V::IfThenElse(
            Box::new(expr_view(&**c)),
            Box::new(expr_view(&**a)),
            Box::new(expr_view(&**b)),
        ),
        Term1::Ascribe(t, typ) => Term1V::Ascribe(Box::new(term1_view(&**t)), Box::new(expr_view(&**typ))),
        Term1::Construct(t, data) => Term1V::Construct(Box::new(term1_view(&**t)), record_view(data)),
    }
}

/// The mathematical value of a `Term`.
pub open spec fn term_view(t: &Term) -> TermV
    decreases t,
{
    match t {
        Term::Integer(neg, digits) => TermV::Integer(*neg, digits@),
        Term::Double(s) => TermV::Double(s@),
        Term::FieldAccess(t, name) => TermV::FieldAccess(Box::new(term_view(&**t)), name@),
        Term::Project(style, t, names) => TermV::Project(
            *style,
            Box::new(term_view(&**t)),
            path_view(names),
        ),
        Term::Path(p) => TermV::Path(terms_view(p)),
        Term::Var(name, distance, resolved) => TermV::Var(
            name@,
            *distance as nat,
            match resolved {
                Some(id) => Some(*id as nat),
                None => None,
            },
        ),
        Term::Text(style, entries) => TermV::Text(*style, entries_view(entries)),
        Term::List(items) => TermV::List(vals_view(items)),
        Term::Record(fields) => TermV::Record(record_view(fields)),
        Term::TypeRecord(fields) => TermV::TypeRecord(record_view(fields)),
        Term::TypeEnum(alts) => TermV::TypeEnum(entries_view(alts)),
        Term::Import { path, guard, as_, fall } => TermV::Import {
            path: path@,
            guard: name_opt_view(*guard),
            as_: name_opt_view(*as_),
            fall: match fall {
                Some((f, g)) => Some((f@, name_opt_view(*g))),
                None => None,
            },
        },
        Term::Expr(e) => TermV::Expr(Box::new(expr_view(&**e))),
        Term::Merge(table, t) => TermV::Merge(record_view(table), Box::new(term_view(&**t))),
        Term::Embed(s) => TermV::Embed(s@),
    }
}

impl<'i> View for Expr<'i> {
    type V = ExprV;

    open spec fn view(&self) -> ExprV {
        expr_view(self)
    }
}

impl<'i> View for Term1<'i> {
    type V = Term1V;

    open spec fn view(&self) -> Term1V {
        term1_view(self)
    }
}

impl<'i> View for Term<'i> {
    type V = TermV;

    open spec fn view(&self) -> TermV {
        term_view(self)
    }
}

/// How the views of a sequence move when its first item is taken.
pub proof fn lemma_walk<T>(all: Seq<T>, i: int)
    requires
        0 <= i <= all.len(),
        all.skip(i).len() > 0,
    ensures
        i < all.len(),
        all.skip(i)[0] == all[i],
        all.skip(i).drop_first() == all.skip(i + 1),
        all.take(i + 1).drop_last() == all.take(i),
        all.take(i + 1).last() == all[i],
        all.take(i + 1) == all.take(i).push(all[i]),
{
    assert(all.skip(i).drop_first() =~= all.skip(i + 1));
    assert(all.take(i + 1).drop_last() =~= all.take(i));
    assert(all.take(i + 1) =~= all.take(i).push(all[i]));
}

/// When nothing is left to walk, all has been taken.
pub proof fn lemma_walk_end<T>(all: Seq<T>, i: int)
    requires
        0 <= i <= all.len(),
        all.skip(i).len() == 0,
    ensures
        i == all.len(),
        all.take(i) == all,
{
    assert(all.take(i) =~= all);
}

/// How the view of the fields moves when the first field is taken.
pub proof fn lemma_record_pop(before: &RecordData, after: &RecordData)
    requires
        before@.len() > 0,
        after@ == before@.subrange(1, before@.len() as int),
    ensures
        record_view(before).len() > 0,
        record_view(after) == record_view(before).drop_first(),
        record_view(before)[0] == (path_view(&before@[0].0), expr_view(&*before@[0].1)),
{
    assert(record_view(after) =~= record_view(before).drop_first());
}

/// How the view of the fields moves when a field is put at the end.
pub proof fn lemma_record_push(before: &RecordData, after: &RecordData, entry: RecordEntry)
    requires
        after@ == before@.push(entry),
    ensures
        record_view(after) == record_view(before).push(
            (path_view(&entry.0), expr_view(&*entry.1)),
        ),
{
    assert(record_view(after) =~= record_view(before).push(
        (path_view(&entry.0), expr_view(&*entry.1)),
    ));
}

/// How the view of the items moves when the first item is taken.
pub proof fn lemma_vals_pop(before: &Deq<Val>, after: &Deq<Val>)
    requires
        before@.len() > 0,
        after@ == before@.subrange(1, before@.len() as int),
    ensures
        vals_view(before).len() > 0,
        vals_view(after) == vals_view(before).drop_first(),
        vals_view(before)[0] == expr_view(&*before@[0]),
{
    assert(vals_view(after) =~= vals_view(before).drop_first());
}

/// How the view of the items moves when an item is put at the end.
pub proof fn lemma_vals_push(before: &Deq<Val>, after: &Deq<Val>, item: Val)
    requires
        after@ == before@.push(item),
    ensures
        vals_view(after) == vals_view(before).push(expr_view(&*item)),
{
    assert(vals_view(after) =~= vals_view(before).push(expr_view(&*item)));
}

/// How the view of the entries moves when the first entry is taken.
pub proof fn lemma_entries_pop(
    before: &Deq<(&str, Option<Val>)>,
    after: &Deq<(&str, Option<Val>)>,
)
    requires
        before@.len() > 0,
        after@ == before@.subrange(1, before@.len() as int),
    ensures
        entries_view(before).len() > 0,
        entries_view(after) == entries_view(before).drop_first(),
        entries_view(before)[0] == (before@[0].0@, opt_view(&before@[0].1)),
{
    assert(entries_view(after) =~= entries_view(before).drop_first());
}

/// How the view of the entries moves when an entry is put at the end.
pub proof fn lemma_entries_push(
    before: &Deq<(&str, Option<Val>)>,
    after: &Deq<(&str, Option<Val>)>,
    entry: (&str, Option<Val>),
)
    requires
        after@ == before@.push(entry),
    ensures
        entries_view(after) == entries_view(before).push((entry.0@, opt_view(&entry.1))),
{
    assert(entries_view(after) =~= entries_view(before).push((entry.0@, opt_view(&entry.1))));
}

/// How the view of the bindings moves when the first binding is taken.
pub proof fn lemma_lets_pop(before: &Deq<LetStmt>, after: &Deq<LetStmt>)
    requires
        before@.len() > 0,
        after@ == before@.subrange(1, before@.len() as int),
    ensures
        lets_view(before).len() > 0,
        lets_view(after) == lets_view(before).drop_first(),
        lets_view(before)[0] == (
            before@[0].0@,
            opt_view(&before@[0].1),
            expr_view(&*before@[0].2),
        ),
{
    assert(lets_view(after) =~= lets_view(before).drop_first());
}

/// A queue without items has an empty view.
pub proof fn lemma_empty_views()
    ensures
        forall|d: &RecordData| d@.len() == 0 ==> #[trigger] record_view(d) == Seq::<
            (PathV, ExprV),
        >::empty(),
        forall|d: &Deq<Val>| d@.len() == 0 ==> #[trigger] vals_view(d) == Seq::<ExprV>::empty(),
        forall|d: &Deq<(&str, Option<Val>)>|
            d@.len() == 0 ==> #[trigger] entries_view(d) == Seq::<(Name, Option<ExprV>)>::empty(),
{
    assert forall|d: &RecordData| d@.len() == 0 implies #[trigger] record_view(d) == Seq::<
        (PathV, ExprV),
    >::empty() by {
        assert(record_view(d) =~= Seq::<(PathV, ExprV)>::empty());
    }
    assert forall|d: &Deq<Val>| d@.len() == 0 implies #[trigger] vals_view(d) == Seq::<
        ExprV,
    >::empty() by {
        assert(vals_view(d) =~= Seq::<ExprV>::empty());
    }
    assert forall|d: &Deq<(&str, Option<Val>)>| d@.len() == 0 implies #[trigger] entries_view(d)
        == Seq::<(Name, Option<ExprV>)>::empty() by {
        assert(entries_view(d) =~= Seq::<(Name, Option<ExprV>)>::empty());
    }
}

/// A queue that holds `t` and nothing else.
pub fn deq<T>(t: T) -> (d: Deq<T>)
    ensures
        d@ == seq![t],
{
    let mut d = VecDeque::new();
    d.push_front(t);
    assert(d@ =~= seq![t]);
    d
}

/// The number of bytes that `c` takes in UTF-8.
pub fn utf8len(c: char) -> (n: usize)
    ensures
        n == encode_scalar(c as u32).len(),
        1 <= n <= 4,
{
    let v: u32 = c as u32;
    proof {
        char_is_scalar(c);
    }
    if v < 0x80 {
        1
    } else if v < 0x800 {
        2
    } else if v < 0x10000 {
        3
    } else {
        4
    }
}

/// The value of the literal `0`, which stands in for content that has been taken away.
pub open spec fn zero_term() -> TermV {
    TermV::Integer(false, "0"@)
}

/// The literal `0` as a `Term1`.
pub open spec fn zero_term1() -> Term1V {
    Term1V::Term(zero_term())
}

/// The literal `0` as an expression.
pub open spec fn zero_expr() -> ExprV {
    ExprV::Term1(zero_term1())
}

/// The view of a fresh reference to `name`: distance 0, not resolved yet.
pub open spec fn var_view(name: Name) -> ExprV {
    ExprV::Term1(Term1V::Term(TermV::Var(name, 0, None)))
}

/// The literal `0` as a `Term`.
pub fn const_0_term<'i>() -> (t: Term<'i>)
    ensures
        t@ == zero_term(),
{
    Term::Integer(false, "0")
}

/// The literal `0` as a `Term1`.
pub fn const_0_term1<'i>() -> (t: Term1<'i>)
    ensures
        t@ == zero_term1(),
{
    Term1::Term(const_0_term())
}

/// The literal `0` as an expression.
pub fn const_0_expr<'i>() -> (e: Expr<'i>)
    ensures
        e@ == zero_expr(),
{
    Expr::Term1(const_0_term1())
}

/// A fresh reference to `s`: at distance 0 and not resolved yet.
pub fn var_expr(s: &str) -> (e: Expr<'_>)
    ensures
        e@ == var_view(s@),
{
    let t = Term::Var(s, 0, None);
    assert(t@ == TermV::Var(s@, 0, None));
    let t1 = Term1::Term(t);
    assert(t1@ == Term1V::Term(TermV::Var(s@, 0, None)));
    Expr::Term1(t1)
}

impl<'i> Default for Expr<'i> {
    fn default() -> (e: Self)
        ensures
            e@ == zero_expr(),
    {
        const_0_expr()
    }
}

impl<'i> Default for Term1<'i> {
    fn default() -> (t: Self)
        ensures
            t@ == zero_term1(),
    {
        const_0_term1()
    }
}

impl<'i> Default for Term<'i> {
    fn default() -> (t: Self)
        ensures
            t@ == zero_term(),
    {
        const_0_term()
    }
}

impl ExprV {
    pub open spec fn kind(self) -> NodeKind {
        match self {
            ExprV::Term1(t) => t.kind(),
            ExprV::Let(..) => NodeKind::Let,
            ExprV::Lambda(..) => NodeKind::Lambda,
        }
    }
}

impl Term1V {
    pub open spec fn kind(self) -> NodeKind {
        match self {
            Term1V::Term(t) => t.kind(),
            Term1V::Evaluation(..) => NodeKind::Evaluation,
            Term1V::Arrow(..) => NodeKind::Arrow,
            Term1V::With(..) => NodeKind::With,
            Term1V::Operation(..) => NodeKind::Operation,
            Term1V::IfThenElse(..) => NodeKind::IfThenElse,
            Term1V::Ascribe(..) => NodeKind::Ascribe,
            Term1V::Construct(..) => NodeKind::Construct,
        }
    }
}

impl TermV {
    pub open spec fn kind(self) -> NodeKind {
        match self {
            TermV::Integer(..) => NodeKind::Integer,
            TermV::Double(..) => NodeKind::Double,
            TermV::FieldAccess(..) => NodeKind::FieldAccess,
            TermV::Project(..) => NodeKind::Project,
            TermV::Path(..) => NodeKind::Path,
            TermV::Var(..) => NodeKind::Var,
            TermV::Text(..) => NodeKind::Text,
            TermV::List(..) => NodeKind::List,
            TermV::Record(..) => NodeKind::Record,
            TermV::TypeRecord(..) => NodeKind::TypeRecord,
            TermV::TypeEnum(..) => NodeKind::TypeEnum,
            TermV::Import { .. } => NodeKind::Import,
            TermV::Expr(..) => NodeKind::Expr,
            TermV::Merge(..) => NodeKind::Merge,
            TermV::Embed(..) => NodeKind::Embed,
        }
    }
}

impl<'i> Expr<'i> {
    /// The kind of the outermost node that is not a plain wrapper.
    pub fn kind(&self) -> (k: NodeKind)
        ensures
            k == self@.kind(),
    {
        match self {
            Expr::Term1(t) => t.kind(),
            Expr::Let(..) => NodeKind::Let,
            Expr::Lambda(..) => NodeKind::Lambda,
        }
    }
}

impl<'i> Term1<'i> {
    pub fn kind(&self) -> (k: NodeKind)
        ensures
            k == self@.kind(),
    {
        match self {
            Term1::Term(t) => t.kind(),
            Term1::Evaluation(..) => NodeKind::Evaluation,
            Term1::Arrow(..) => NodeKind::Arrow,
            Term1::With(..) => NodeKind::With,
            Term1::Operation(..) => NodeKind::Operation,
            Term1::IfThenElse(..) => NodeKind::IfThenElse,
            Term1::Ascribe(..) => NodeKind::Ascribe,
            Term1::Construct(..) => NodeKind::Construct,
        }
    }
}

impl<'i> Term<'i> {
    pub fn kind(&self) -> (k: NodeKind)
        ensures
            k == self@.kind(),
    {
        match self {
            Term::Integer(..) => NodeKind::Integer,
            Term::Double(..) => NodeKind::Double,
            Term::FieldAccess(..) => NodeKind::FieldAccess,
            Term::Project(..) => NodeKind::Project,
            Term::Path(..) => NodeKind::Path,
            Term::Var(..) => NodeKind::Var,
            Term::Text(..) => NodeKind::Text,
            Term::List(..) => NodeKind::List,
            Term::Record(..) => NodeKind::Record,
            Term::TypeRecord(..) => NodeKind::TypeRecord,
            Term::TypeEnum(..) => NodeKind::TypeEnum,
            Term::Import { .. } => NodeKind::Import,
            Term::Expr(..) => NodeKind::Expr,
            Term::Merge(..) => NodeKind::Merge,
            Term::Embed(..) => NodeKind::Embed,
        }
    }
}

/// A copy of a path, name for name.
pub fn copy_path<'i>(p: &Path<'i>) -> (r: Path<'i>)
    ensures
        path_view(&r) == path_view(p),
        r@ == p@,
{
    let mut out: Path<'i> = VecDeque::new();
    let mut i: usize = 0;
    while i < p.len()
        invariant
            i <= p.len(),
            out@ == p@.take(i as int),
        decreases p.len() - i,
    {
        out.push_back(p[i]);
        assert(out@ =~= p@.take(i + 1));
        i = i + 1;
    }
    assert(out@ =~= p@);
    out
}

#[verifier::loop_isolation(false)]
fn copy_opt<'i>(v: &Option<Val<'i>>) -> (r: Option<Val<'i>>)
    ensures
        opt_view(&r) == opt_view(v),
        boxed_opt_view(&r) == boxed_opt_view(v),
    decreases v,
{
    match v {
        Some(e) => Some(Box::new(copy_expr(e))),
        None => None,
    }
}

#[verifier::loop_isolation(false)]
fn copy_vals<'i>(d: &Deq<Val<'i>>) -> (r: Deq<Val<'i>>)
    ensures
        vals_view(&r) == vals_view(d),
    decreases d,
{
    let mut out: Deq<Val<'i>> = VecDeque::new();
    let mut i: usize = 0;
    while i < d.len()
        invariant
            i <= d.len(),
            out@.len() == i,
            forall|k: int| 0 <= k < i ==> expr_view(&*out[k]) == expr_view(&*d[k]),
        decreases d.len() - i,
    {
        let e = copy_expr(&d[i]);
        out.push_back(Box::new(e));
        i = i + 1;
    }
    assert(vals_view(&out) =~= vals_view(d));
    out
}

#[verifier::loop_isolation(false)]
fn copy_terms<'i>(d: &TermPath<'i>) -> (r: TermPath<'i>)
    ensures
        terms_view(&r) == terms_view(d),
    decreases d,
{
    let mut out: TermPath<'i> = VecDeque::new();
    let mut i: usize = 0;
    while i < d.len()
        invariant
            i <= d.len(),
            out@.len() == i,
            forall|k: int| 0 <= k < i ==> term_view(&*out[k]) == term_view(&*d[k]),
        decreases d.len() - i,
    {
        let t = copy_term(&d[i]);
        out.push_back(Box::new(t));
        i = i + 1;
    }
    assert(terms_view(&out) =~= terms_view(d));
    out
}

#[verifier::loop_isolation(false)]
fn copy_record<'i>(d: &RecordData<'i>) -> (r: RecordData<'i>)
    ensures
        record_view(&r) == record_view(d),
    decreases d,
{
    let mut out: RecordData<'i> = VecDeque::new();
    let mut i: usize = 0;
    while i < d.len()
        invariant
            i <= d.len(),
            out@.len() == i,
            forall|k: int|
                0 <= k < i ==> path_view(&out[k].0) == path_view(&d[k].0) && expr_view(&*out[k].1)
                    == expr_view(&*d[k].1),
        decreases d.len() - i,
    {
        let p = copy_path(&d[i].0);
        let e = copy_expr(&d[i].1);
        out.push_back((p, Box::new(e)));
        i = i + 1;
    }
    assert(record_view(&out) =~= record_view(d));
    out
}

#[verifier::loop_isolation(false)]
fn copy_entries<'i>(d: &Deq<(&'i str, Option<Val<'i>>)>) -> (r: Deq<(&'i str, Option<Val<'i>>)>)
    ensures
        entries_view(&r) == entries_view(d),
    decreases d,
{
    let mut out: Deq<(&'i str, Option<Val<'i>>)> = VecDeque::new();
    let mut i: usize = 0;
    while i < d.len()
        invariant
            i <= d.len(),
            out@.len() == i,
            forall|k: int|
                0 <= k < i ==> out[k].0@ == d[k].0@ && opt_view(&out[k].1) == opt_view(&d[k].1),
        decreases d.len() - i,
    {
        let v = copy_opt(&d[i].1);
        out.push_back((d[i].0, v));
        i = i + 1;
    }
    assert(entries_view(&out) =~= entries_view(d));
    out
}

#[verifier::loop_isolation(false)]
fn copy_lets<'i>(d: &Deq<LetStmt<'i>>) -> (r: Deq<LetStmt<'i>>)
    ensures
        lets_view(&r) == lets_view(d),
    decreases d,
{
    let mut out: Deq<LetStmt<'i>> = VecDeque::new();
    let mut i: usize = 0;
    while i < d.len()
        invariant
            i <= d.len(),
            out@.len() == i,
            forall|k: int|
                0 <= k < i ==> out[k].0@ == d[k].0@ && opt_view(&out[k].1) == opt_view(&d[k].1)
                    && expr_view(&*out[k].2) == expr_view(&*d[k].2),
        decreases d.len() - i,
    {
        let t = copy_opt(&d[i].1);
        let e = copy_expr(&d[i].2);
        out.push_back((d[i].0, t, Box::new(e)));
        i = i + 1;
    }
    assert(lets_view(&out) =~= lets_view(d));
    out
}

/// A deep copy of an expression.
pub fn copy_expr<'i>(e: &Expr<'i>) -> (r: Expr<'i>)
    ensures
        r@ == e@,
    decreases e,
{
    match e {
        Expr::Term1(t) => Expr::Term1(copy_term1(t)),
        Expr::Let(defs, val) => Expr::Let(copy_lets(defs), Box::new(copy_expr(val))),
        Expr::Lambda(name, typ, body) => Expr::Lambda(
            *name,
            copy_opt(typ),
            Box::new(copy_expr(body)),
        ),
    }
}

/// A deep copy of a `Term1`.
pub fn copy_term1<'i>(t: &Term1<'i>) -> (r: Term1<'i>)
    ensures
        r@ == t@,
    decreases t,
{
    match t {
        Term1::Term(t) => Term1::Term(copy_term(t)),
        Term1::Evaluation(f, x) => Term1::Evaluation(Box::new(copy_term1(f)), copy_term(x)),
        Term1::Arrow(name, a, b) => Term1::Arrow(
            *name,
            Box::new(copy_expr(a)),
            Box::new(copy_expr(b)),
        ),
        Term1::With(t, path, v) => Term1::With(
            Box::new(copy_term1(t)),
            copy_path(path),
            Box::new(copy_term1(v)),
        ),
        Term1::Operation(a, op, b) => Term1::Operation(
            Box::new(copy_term1(a)),
            *op,
            Box::new(copy_term1(b)),
        ),
        Term1::IfThenElse(c, a, b) => Term1::IfThenElse(
            Box::new(copy_expr(c)),
            Box::new(copy_expr(a)),
            Box::new(copy_expr(b)),
        ),
        Term1::Ascribe(t, typ) => Term1::Ascribe(Box::new(copy_term1(t)), Box::new(copy_expr(typ))),
        Term1::Construct(t, data) => Term1::Construct(Box::new(copy_term1(t)), copy_record(data)),
    }
}

/// A deep copy of a `Term`.
pub fn copy_term<'i>(t: &Term<'i>) -> (r: Term<'i>)
    ensures
        r@ == t@,
    decreases t,
{
    match t {
        Term::Integer(neg, digits) => Term::Integer(*neg, *digits),
        Term::Double(s) => Term::Double(*s),
        Term::FieldAccess(t, name) => Term::FieldAccess(Box::new(copy_term(t)), *name),
        Term::Project(style, t, names) => Term::Project(
            *style,
            Box::new(copy_term(t)),
            copy_path(names),
        ),
        Term::Path(p) => Term::Path(copy_terms(p)),
        Term::Var(name, distance, resolved) => Term::Var(*name, *distance, *resolved),
        Term::Text(style, entries) => Term::Text(*style, copy_entries(entries)),
        Term::List(items) => Term::List(copy_vals(items)),
        Term::Record(fields) => Term::Record(copy_record(fields)),
        Term::TypeRecord(fields) => Term::TypeRecord(copy_record(fields)),
        Term::TypeEnum(alts) => Term::TypeEnum(copy_entries(alts)),
        Term::Import { path, guard, as_, fall } => Term::Import {
            path: *path,
            guard: *guard,
            as_: *as_,
            fall: *fall,
        },
        Term::Expr(e) => Term::Expr(Box::new(copy_expr(e))),
        Term::Merge(table, t) => Term::Merge(copy_record(table), Box::new(copy_term(t))),
        Term::Embed(s) => Term::Embed(*s),
    }
}

impl<'i> Clone for Expr<'i> {
    fn clone(&self) -> (r: Self)
        ensures
            r@ == self@,
    {
        copy_expr(self)
    }
}

impl<'i> Clone for Term1<'i> {
    fn clone(&self) -> (r: Self)
        ensures
            r@ == self@,
    {
        copy_term1(self)
    }
}

impl<'i> Clone for Term<'i> {
    fn clone(&self) -> (r: Self)
        ensures
            r@ == self@,
    {
        copy_term(self)
    }
}

} // verus!
