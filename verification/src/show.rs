use vstd::prelude::*;
use vstd::std_specs::vecdeque::VecDequeAdditionalSpecFns;
use vstd::std_specs::iter::IteratorSpec;
use vstd::string::*;
use crate::text::split_chars;
use crate::ast::{
    entries_view, expr_view, lets_view, opt_view, path_view, record_view, term_view,
    terms_view, vals_view, Deq, EntriesV, Expr, ExprV, LetStmt, LetsV, Name, Path, PathV,
    RecordData, RecordV, Term, Term1, Term1V, TermPath, TermV, Val,
};

verus! {

broadcast use {vstd::std_specs::vecdeque::group_vec_dequeue_axioms, vstd::seq::group_seq_axioms};

/// The marks of a list in source text: what opens it, what closes it, what stands
/// between a name and its value, and what stands before each entry.
#[derive(Clone, Copy, Debug, PartialEq, Eq, Structural)]
pub enum ListStyle {
    Record,
    TypeRecord,
    TypeEnum,
    List,
    Projection,
    Selection,
}

/// What opens a list.
pub open spec fn opener(style: ListStyle) -> Seq<char> {
    match style {
        ListStyle::Record | ListStyle::TypeRecord | ListStyle::Projection => "{"@,
        ListStyle::TypeEnum => "<"@,
        ListStyle::List => "["@,
        ListStyle::Selection => "("@,
    }
}

/// What closes a list.
pub open spec fn closer(style: ListStyle) -> Seq<char> {
    match style {
        ListStyle::Record | ListStyle::TypeRecord | ListStyle::Projection => "}"@,
        ListStyle::TypeEnum => ">"@,
        ListStyle::List => "]"@,
        ListStyle::Selection => ")"@,
    }
}

/// What stands between a name and its value in a list.
pub open spec fn assigner(style: ListStyle) -> Seq<char> {
    match style {
        ListStyle::Record => "="@,
        ListStyle::TypeRecord | ListStyle::TypeEnum => ":"@,
        ListStyle::List | ListStyle::Projection | ListStyle::Selection => ""@,
    }
}

/// What stands before each entry of a list.
pub open spec fn separator(style: ListStyle) -> Seq<char> {
    match style {
        ListStyle::TypeEnum => "|"@,
        _ => ","@,
    }
}

/// The first `n` names of a path, with a dot between each two.
pub open spec fn render_path(path: PathV, n: nat) -> Seq<char>
    decreases n,
{
    if n == 0 || n > path.len() {
        Seq::empty()
    } else if n == 1 {
        path[0]
    } else {
        render_path(path, (n - 1) as nat) + "."@ + path[n - 1]
    }
}

/// An entry of a list as it stands in the list: after the separator, and before a space.
pub open spec fn in_list(style: ListStyle, entry: Seq<char>) -> Seq<char> {
    separator(style) + " "@ + entry + " "@
}

/// A list around its entries.
pub open spec fn around(style: ListStyle, entries: Seq<char>) -> Seq<char> {
    opener(style) + " "@ + entries + closer(style)
}

/// The source text of an expression.
pub open spec fn render_expr(e: ExprV) -> Seq<char>
    decreases e, 0nat,
{
    match e {
        ExprV::Term1(t) => render_term1(t),
        ExprV::Let(defs, body) => render_lets(defs, defs.len()) + "in "@ + render_expr(*body),
        ExprV::Lambda(name, typ, body) => match typ {
            Some(t) => "\\("@ + name + " : "@ + render_expr(*t) + ") -> "@ + render_expr(*body)
                + "\n"@,
            None => "\\("@ + name + ") -> "@ + render_expr(*body) + "\n"@,
        },
    }
}

/// An optional expression behind `before`, or nothing.
pub open spec fn render_opt(v: Option<ExprV>, before: Seq<char>) -> Seq<char>
    decreases v, 0nat,
{
    match v {
        Some(e) => before + render_expr(e),
        None => Seq::empty(),
    }
}

/// The first `n` bindings of a `let`, each on a line.
pub open spec fn render_lets(defs: LetsV, n: nat) -> Seq<char>
    decreases defs, n,
{
    if n == 0 || n > defs.len() {
        Seq::empty()
    } else {
        render_lets(defs, (n - 1) as nat) + "let "@ + defs[n - 1].0 + render_opt(
            defs[n - 1].1,
            ": "@,
        ) + " = "@ + render_expr(defs[n - 1].2) + "\n"@
    }
}

/// The source text of a `Term1`.
pub open spec fn render_term1(t: Term1V) -> Seq<char>
    decreases t, 0nat,
{
    match t {
        Term1V::Term(inner) => render_term(inner),
        Term1V::Arrow(name, a, b) => match name {
            Some(n) => "forall("@ + n + " : "@ + render_expr(*a) + ") -> "@ + render_expr(*b),
            None => render_expr(*a) + " -> "@ + render_expr(*b),
        },
        Term1V::Evaluation(f, x) => render_term1(*f) + " "@ + render_term(x),
        Term1V::Operation(a, op, b) => render_term1(*a) + " "@ + op + " "@ + render_term1(*b),
        Term1V::Ascribe(a, typ) => render_term1(*a) + " : "@ + render_expr(*typ),
        Term1V::With(a, path, v) => render_term1(*a) + " with "@ + render_path(path, path.len())
            + " = "@ + render_term1(*v),
        Term1V::IfThenElse(c, a, b) => "if "@ + render_expr(*c) + " then "@ + render_expr(*a)
            + " else "@ + render_expr(*b),
        Term1V::Construct(a, data) => render_term1(*a) + "::"@ + around(
            ListStyle::Record,
            render_fields(ListStyle::Record, data, data.len()),
        ),
    }
}

/// The first `n` fields of a record as they stand in a list.
pub open spec fn render_fields(style: ListStyle, fields: RecordV, n: nat) -> Seq<char>
    decreases fields, n,
{
    if n == 0 || n > fields.len() {
        Seq::empty()
    } else {
        render_fields(style, fields, (n - 1) as nat) + in_list(
            style,
            render_path(fields[n - 1].0, fields[n - 1].0.len()) + " "@ + assigner(style) + " "@
                + render_expr(fields[n - 1].1),
        )
    }
}

/// The first `n` alternatives of a union type as they stand in a list.
pub open spec fn render_alts(alts: EntriesV, n: nat) -> Seq<char>
    decreases alts, n,
{
    if n == 0 || n > alts.len() {
        Seq::empty()
    } else {
        render_alts(alts, (n - 1) as nat) + in_list(
            ListStyle::TypeEnum,
            alts[n - 1].0 + render_opt(alts[n - 1].1, ": "@),
        )
    }
}

/// The first `n` items as they stand in a list.
pub open spec fn render_items(items: Seq<ExprV>, n: nat) -> Seq<char>
    decreases items, n,
{
    if n == 0 || n > items.len() {
        Seq::empty()
    } else {
        render_items(items, (n - 1) as nat) + in_list(ListStyle::List, render_expr(items[n - 1]))
    }
}

/// The first `n` names as they stand in a list.
pub open spec fn render_names(style: ListStyle, names: Seq<Name>, n: nat) -> Seq<char>
    decreases n,
{
    if n == 0 || n > names.len() {
        Seq::empty()
    } else {
        render_names(style, names, (n - 1) as nat) + in_list(style, names[n - 1])
    }
}

/// The first `n` pieces of a text: what is written out, and what is interpolated.
pub open spec fn render_pieces(entries: EntriesV, n: nat) -> Seq<char>
    decreases entries, n,
{
    if n == 0 || n > entries.len() {
        Seq::empty()
    } else {
        render_pieces(entries, (n - 1) as nat) + entries[n - 1].0 + match entries[n - 1].1 {
            Some(e) => "${ "@ + render_expr(e) + " }"@,
            None => Seq::empty(),
        }
    }
}

/// The first `n` terms of a path, with a dot between each two.
pub open spec fn render_terms(terms: Seq<TermV>, n: nat) -> Seq<char>
    decreases terms, n,
{
    if n == 0 || n > terms.len() {
        Seq::empty()
    } else if n == 1 {
        render_term(terms[0])
    } else {
        render_terms(terms, (n - 1) as nat) + "."@ + render_term(terms[n - 1])
    }
}

/// The quotes of a text of the given style.
pub open spec fn quote_mark(style: u8) -> Seq<char> {
    if style == 1 {
        "\""@
    } else {
        "''"@
    }
}

/// An optional name behind `before`, or nothing.
pub open spec fn render_name_opt(v: Option<Name>, before: Seq<char>) -> Seq<char> {
    match v {
        Some(n) => before + n,
        None => Seq::empty(),
    }
}

/// The source text of a `Term`.
pub open spec fn render_term(t: TermV) -> Seq<char>
    decreases t, 0nat,
{
    match t {
        TermV::Integer(neg, digits) => if neg {
            "-"@ + digits
        } else {
            digits
        },
        TermV::Double(s) => s,
        TermV::Embed(s) => s,
        TermV::Var(name, _, _) => name,
        TermV::FieldAccess(inner, field) => render_term(*inner) + "."@ + field,
        TermV::Project(style, inner, names) => render_term(*inner) + "."@ + if style == 1 {
            around(ListStyle::Projection, render_names(ListStyle::Projection, names, names.len()))
        } else {
            around(ListStyle::Selection, render_names(ListStyle::Selection, names, names.len()))
        },
        TermV::Path(terms) => render_terms(terms, terms.len()),
        TermV::Text(style, entries) => quote_mark(style) + render_pieces(entries, entries.len())
            + quote_mark(style),
        TermV::List(items) => around(ListStyle::List, render_items(items, items.len())),
        TermV::Record(fields) => around(
            ListStyle::Record,
            render_fields(ListStyle::Record, fields, fields.len()),
        ),
        TermV::TypeRecord(fields) => around(
            ListStyle::TypeRecord,
            render_fields(ListStyle::TypeRecord, fields, fields.len()),
        ),
        TermV::TypeEnum(alts) => around(ListStyle::TypeEnum, render_alts(alts, alts.len())),
        TermV::Import { path, guard, as_, fall } => path + render_name_opt(guard, " "@)
            + render_name_opt(as_, " as "@) + match fall {
            Some((f, g)) => " ? "@ + f + render_name_opt(g, " "@),
            None => Seq::empty(),
        },
        TermV::Expr(e) => "("@ + render_expr(*e) + ")"@,
        TermV::Merge(table, inner) => "merge "@ + around(
            ListStyle::Record,
            render_fields(ListStyle::Record, table, table.len()),
        ) + " "@ + render_term(*inner),
    }
}

fn opener_of(style: ListStyle) -> (s: &'static str)
    ensures
        s@ == opener(style),
{
    match style {
        ListStyle::Record | ListStyle::TypeRecord | ListStyle::Projection => "{",
        ListStyle::TypeEnum => "<",
        ListStyle::List => "[",
        ListStyle::Selection => "(",
    }
}

fn closer_of(style: ListStyle) -> (s: &'static str)
    ensures
        s@ == closer(style),
{
    match style {
        ListStyle::Record | ListStyle::TypeRecord | ListStyle::Projection => "}",
        ListStyle::TypeEnum => ">",
        ListStyle::List => "]",
        ListStyle::Selection => ")",
    }
}

fn assigner_of(style: ListStyle) -> (s: &'static str)
    ensures
        s@ == assigner(style),
{
    match style {
        ListStyle::Record => "=",
        ListStyle::TypeRecord | ListStyle::TypeEnum => ":",
        ListStyle::List | ListStyle::Projection | ListStyle::Selection => "",
    }
}

fn separator_of(style: ListStyle) -> (s: &'static str)
    ensures
        s@ == separator(style),
{
    match style {
        ListStyle::TypeEnum => "|",
        _ => ",",
    }
}

/// Writes the names of a path with a dot between each two.
pub fn write_path(out: &mut String, path: &Path)
    ensures
        final(out)@ == old(out)@ + render_path(path_view(path), path_view(path).len()),
{
    let ghost start = out@;
    let ghost all = path_view(path);
    let mut i: usize = 0;
    assert(out@ =~= start + render_path(all, 0));
    while i < path.len()
        invariant
            i <= path.len(),
            all == path_view(path),
            all.len() == path@.len(),
            out@ == start + render_path(all, i as nat),
        decreases path.len() - i,
    {
        assert(all[i as int] == path@[i as int]@);
        if i > 0 {
            out.append(".");
        }
        out.append(path[i]);
        assert(out@ =~= start + render_path(all, (i + 1) as nat));
        i = i + 1;
    }
}

/// Writes the names of a list of names in the given style.
pub fn write_names(out: &mut String, style: ListStyle, names: &Path)
    ensures
        final(out)@ == old(out)@ + around(
            style,
            render_names(style, path_view(names), path_view(names).len()),
        ),
{
    let ghost start = out@;
    let ghost all = path_view(names);
    out.append(opener_of(style));
    out.append(" ");
    let ghost head = out@;
    let mut i: usize = 0;
    assert(out@ =~= head + render_names(style, all, 0));
    while i < names.len()
        invariant
            i <= names.len(),
            all == path_view(names),
            all.len() == names@.len(),
            out@ == head + render_names(style, all, i as nat),
        decreases names.len() - i,
    {
        assert(all[i as int] == names@[i as int]@);
        out.append(separator_of(style));
        out.append(" ");
        out.append(names[i]);
        out.append(" ");
        assert(out@ =~= head + render_names(style, all, (i + 1) as nat));
        i = i + 1;
    }
    out.append(closer_of(style));
    assert(out@ =~= start + around(style, render_names(style, all, all.len())));
}

#[verifier::loop_isolation(false)]
fn write_opt(out: &mut String, v: &Option<Val>, before: &str)
    ensures
        final(out)@ == old(out)@ + render_opt(opt_view(v), before@),
    decreases v, 0nat,
{
    let ghost start = out@;
    match v {
        Some(e) => {
            out.append(before);
            write_expr(out, e);
            assert(out@ =~= start + render_opt(opt_view(v), before@));
        },
        None => {
            assert(out@ =~= start + render_opt(opt_view(v), before@));
        },
    }
}

#[verifier::loop_isolation(false)]
fn write_lets(out: &mut String, defs: &Deq<LetStmt>)
    ensures
        final(out)@ == old(out)@ + render_lets(lets_view(defs), lets_view(defs).len()),
    decreases defs, 0nat,
{
    let ghost start = out@;
    let ghost all = lets_view(defs);
    let mut i: usize = 0;
    assert(out@ =~= start + render_lets(all, 0));
    while i < defs.len()
        invariant
            i <= defs.len(),
            all.len() == defs@.len(),
            out@ == start + render_lets(all, i as nat),
        decreases defs.len() - i,
    {
        assert(all[i as int] == (
            defs[i as int].0@,
            opt_view(&defs[i as int].1),
            expr_view(&*defs[i as int].2),
        ));
        out.append("let ");
        out.append(defs[i].0);
        write_opt(out, &defs[i].1, ": ");
        out.append(" = ");
        write_expr(out, &defs[i].2);
        out.append("\n");
        assert(out@ =~= start + render_lets(all, (i + 1) as nat));
        i = i + 1;
    }
}

/// Writes one field of a record as it stands in a list.
fn write_field(out: &mut String, style: ListStyle, path: &Path, value: &Expr)
    ensures
        final(out)@ == old(out)@ + in_list(
            style,
            render_path(path_view(path), path_view(path).len()) + " "@ + assigner(style) + " "@
                + render_expr(value@),
        ),
    decreases value, 1nat,
{
    let ghost start = out@;
    let ghost name = render_path(path_view(path), path_view(path).len());
    let ghost sep = separator(style);
    let ghost asg = assigner(style);
    out.append(separator_of(style));
    out.append(" ");
    assert(out@ =~= start + (sep + " "@));
    write_path(out, path);
    out.append(" ");
    assert(out@ =~= start + (sep + " "@) + (name + " "@));
    out.append(assigner_of(style));
    out.append(" ");
    assert(out@ =~= start + (sep + " "@) + (name + " "@ + asg + " "@));
    write_expr(out, value);
    assert(out@ =~= start + (sep + " "@) + (name + " "@ + asg + " "@ + render_expr(value@)));
    out.append(" ");
    assert(out@ =~= start + (sep + " "@ + (name + " "@ + asg + " "@ + render_expr(value@)) + " "@));
}

#[verifier::loop_isolation(false)]
fn write_fields(out: &mut String, style: ListStyle, fields: &RecordData)
    ensures
        final(out)@ == old(out)@ + around(
            style,
            render_fields(style, record_view(fields), record_view(fields).len()),
        ),
    decreases fields, 0nat,
{
    let ghost start = out@;
    let ghost all = record_view(fields);
    out.append(opener_of(style));
    out.append(" ");
    let ghost head = out@;
    let mut i: usize = 0;
    assert(out@ =~= head + render_fields(style, all, 0));
    while i < fields.len()
        invariant
            i <= fields.len(),
            all.len() == fields@.len(),
            out@ == head + render_fields(style, all, i as nat),
        decreases fields.len() - i,
    {
        assert(all[i as int] == (path_view(&fields[i as int].0), expr_view(&*fields[i as int].1)));
        write_field(out, style, &fields[i].0, &fields[i].1);
        assert(out@ =~= head + render_fields(style, all, (i + 1) as nat));
        i = i + 1;
    }
    out.append(closer_of(style));
    assert(out@ =~= start + around(style, render_fields(style, all, all.len())));
}

#[verifier::loop_isolation(false)]
fn write_alts(out: &mut String, alts: &Deq<(&str, Option<Val>)>)
    ensures
        final(out)@ == old(out)@ + around(
            ListStyle::TypeEnum,
            render_alts(entries_view(alts), entries_view(alts).len()),
        ),
    decreases alts, 0nat,
{
    let ghost start = out@;
    let ghost all = entries_view(alts);
    out.append("<");
    out.append(" ");
    let ghost head = out@;
    let mut i: usize = 0;
    assert(out@ =~= head + render_alts(all, 0));
    while i < alts.len()
        invariant
            i <= alts.len(),
            all.len() == alts@.len(),
            out@ == head + render_alts(all, i as nat),
        decreases alts.len() - i,
    {
        assert(all[i as int] == (alts[i as int].0@, opt_view(&alts[i as int].1)));
        out.append("|");
        out.append(" ");
        out.append(alts[i].0);
        write_opt(out, &alts[i].1, ": ");
        out.append(" ");
        assert(out@ =~= head + render_alts(all, (i + 1) as nat));
        i = i + 1;
    }
    out.append(">");
    assert(out@ =~= start + around(ListStyle::TypeEnum, render_alts(all, all.len())));
}

#[verifier::loop_isolation(false)]
fn write_items(out: &mut String, items: &Deq<Val>)
    ensures
        final(out)@ == old(out)@ + around(
            ListStyle::List,
            render_items(vals_view(items), vals_view(items).len()),
        ),
    decreases items, 0nat,
{
    let ghost start = out@;
    let ghost all = vals_view(items);
    out.append("[");
    out.append(" ");
    let ghost head = out@;
    let mut i: usize = 0;
    assert(out@ =~= head + render_items(all, 0));
    while i < items.len()
        invariant
            i <= items.len(),
            all.len() == items@.len(),
            out@ == head + render_items(all, i as nat),
        decreases items.len() - i,
    {
        assert(all[i as int] == expr_view(&*items[i as int]));
        out.append(",");
        out.append(" ");
        write_expr(out, &items[i]);
        out.append(" ");
        assert(out@ =~= head + render_items(all, (i + 1) as nat));
        i = i + 1;
    }
    out.append("]");
    assert(out@ =~= start + around(ListStyle::List, render_items(all, all.len())));
}

#[verifier::loop_isolation(false)]
fn write_pieces(out: &mut String, entries: &Deq<(&str, Option<Val>)>)
    ensures
        final(out)@ == old(out)@ + render_pieces(
            entries_view(entries),
            entries_view(entries).len(),
        ),
    decreases entries, 0nat,
{
    let ghost start = out@;
    let ghost all = entries_view(entries);
    let mut i: usize = 0;
    assert(out@ =~= start + render_pieces(all, 0));
    while i < entries.len()
        invariant
            i <= entries.len(),
            all.len() == entries@.len(),
            out@ == start + render_pieces(all, i as nat),
        decreases entries.len() - i,
    {
        assert(all[i as int] == (entries[i as int].0@, opt_view(&entries[i as int].1)));
        out.append(entries[i].0);
        match &entries[i].1 {
            Some(e) => {
                out.append("${ ");
                write_expr(out, e);
                out.append(" }");
            },
            None => {},
        }
        assert(out@ =~= start + render_pieces(all, (i + 1) as nat));
        i = i + 1;
    }
}

#[verifier::loop_isolation(false)]
fn write_terms(out: &mut String, terms: &TermPath)
    ensures
        final(out)@ == old(out)@ + render_terms(terms_view(terms), terms_view(terms).len()),
    decreases terms, 0nat,
{
    let ghost start = out@;
    let ghost all = terms_view(terms);
    let mut i: usize = 0;
    assert(out@ =~= start + render_terms(all, 0));
    while i < terms.len()
        invariant
            i <= terms.len(),
            all.len() == terms@.len(),
            out@ == start + render_terms(all, i as nat),
        decreases terms.len() - i,
    {
        assert(all[i as int] == term_view(&*terms[i as int]));
        if i > 0 {
            out.append(".");
        }
        write_term(out, &terms[i]);
        assert(out@ =~= start + render_terms(all, (i + 1) as nat));
        i = i + 1;
    }
}

fn write_name_opt(out: &mut String, v: Option<&str>, before: &str)
    ensures
        final(out)@ == old(out)@ + render_name_opt(crate::ast::name_opt_view(v), before@),
{
    let ghost start = out@;
    match v {
        Some(n) => {
            out.append(before);
            out.append(n);
            assert(out@ =~= start + (before@ + n@));
        },
        None => {
            assert(out@ =~= start + Seq::<char>::empty());
        },
    }
}

/// Writes the source text of an expression.
pub fn write_expr(out: &mut String, e: &Expr)
    ensures
        final(out)@ == old(out)@ + render_expr(e@),
    decreases e, 0nat,
{
    let ghost start = out@;
    match e {
        Expr::Term1(t) => {
            write_term1(out, t);
        },
        Expr::Let(defs, body) => {
            write_lets(out, defs);
            out.append("in ");
            let ghost head = render_lets(lets_view(defs), lets_view(defs).len()) + "in "@;
            assert(out@ =~= start + head);
            write_expr(out, body);
            assert(out@ =~= start + (head + render_expr(expr_view(&**body))));
        },
        Expr::Lambda(name, typ, body) => {
            out.append("\\(");
            out.append(name);
            let ghost head = "\\("@ + name@;
            assert(out@ =~= start + head);
            match typ {
                Some(t) => {
                    assert(crate::ast::boxed_opt_view(typ) == Some(Box::new(expr_view(&**t))));
                    out.append(" : ");
                    write_expr(out, t);
                    let ghost typed = head + " : "@ + render_expr(expr_view(&**t));
                    assert(out@ =~= start + typed);
                    out.append(") -> ");
                    write_expr(out, body);
                    let ghost full = typed + ") -> "@ + render_expr(expr_view(&**body));
                    assert(out@ =~= start + full);
                    out.append("\n");
                    assert(out@ =~= start + (full + "\n"@));
                },
                None => {
                    assert(crate::ast::boxed_opt_view(typ) is None);
                    out.append(") -> ");
                    write_expr(out, body);
                    let ghost full = head + ") -> "@ + render_expr(expr_view(&**body));
                    assert(out@ =~= start + full);
                    out.append("\n");
                    assert(out@ =~= start + (full + "\n"@));
                },
            }
        },
    }
}

/// Writes the source text of a `Term1`.
pub fn write_term1(out: &mut String, t: &Term1)
    ensures
        final(out)@ == old(out)@ + render_term1(t@),
    decreases t, 0nat,
{
    let ghost start = out@;
    match t {
        Term1::Term(inner) => {
            write_term(out, inner);
        },
        Term1::Arrow(name, a, b) => {
            match name {
                Some(n) => {
                    out.append("forall(");
                    out.append(n);
                    out.append(" : ");
                    write_expr(out, a);
                    out.append(") -> ");
                },
                None => {
                    write_expr(out, a);
                    out.append(" -> ");
                },
            }
            write_expr(out, b);
        },
        Term1::Evaluation(f, x) => {
            write_term1(out, f);
            out.append(" ");
            write_term(out, x);
        },
        Term1::Operation(a, op, b) => {
            write_term1(out, a);
            out.append(" ");
            out.append(op);
            out.append(" ");
            write_term1(out, b);
        },
        Term1::Ascribe(a, typ) => {
            write_term1(out, a);
            out.append(" : ");
            write_expr(out, typ);
        },
        Term1::With(a, path, v) => {
            write_term1(out, a);
            out.append(" with ");
            write_path(out, path);
            out.append(" = ");
            write_term1(out, v);
        },
        Term1::IfThenElse(c, a, b) => {
            out.append("if ");
            write_expr(out, c);
            out.append(" then ");
            write_expr(out, a);
            out.append(" else ");
            write_expr(out, b);
        },
        Term1::Construct(a, data) => {
            write_term1(out, a);
            out.append("::");
            write_fields(out, ListStyle::Record, data);
        },
    }
    assert(out@ =~= start + render_term1(t@));
}

/// Writes the source text of a `Term`.
pub fn write_term(out: &mut String, t: &Term)
    ensures
        final(out)@ == old(out)@ + render_term(t@),
    decreases t, 0nat,
{
    let ghost start = out@;
    match t {
        Term::Integer(neg, digits) => {
            if *neg {
                out.append("-");
            }
            out.append(digits);
        },
        Term::Double(s) => {
            out.append(s);
        },
        Term::Embed(s) => {
            out.append(s);
        },
        Term::Var(name, _, _) => {
            out.append(name);
        },
        Term::FieldAccess(inner, field) => {
            write_term(out, inner);
            out.append(".");
            out.append(field);
        },
        Term::Project(style, inner, names) => {
            write_term(out, inner);
            out.append(".");
            if *style == 1 {
                write_names(out, ListStyle::Projection, names);
            } else {
                write_names(out, ListStyle::Selection, names);
            }
        },
        Term::Path(terms) => {
            write_terms(out, terms);
        },
        Term::Text(style, entries) => {
            let mark = if *style == 1 {
                "\""
            } else {
                "''"
            };
            out.append(mark);
            write_pieces(out, entries);
            out.append(mark);
        },
        Term::List(items) => {
            write_items(out, items);
        },
        Term::Record(fields) => {
            write_fields(out, ListStyle::Record, fields);
        },
        Term::TypeRecord(fields) => {
            write_fields(out, ListStyle::TypeRecord, fields);
        },
        Term::TypeEnum(alts) => {
            write_alts(out, alts);
        },
        Term::Import { path, guard, as_, fall } => {
            out.append(path);
            write_name_opt(out, *guard, " ");
            write_name_opt(out, *as_, " as ");
            match fall {
                Some((f, g)) => {
                    out.append(" ? ");
                    out.append(f);
                    write_name_opt(out, *g, " ");
                },
                None => {},
            }
        },
        Term::Expr(e) => {
            out.append("(");
            write_expr(out, e);
            out.append(")");
        },
        Term::Merge(table, inner) => {
            out.append("merge ");
            write_fields(out, ListStyle::Record, table);
            out.append(" ");
            write_term(out, inner);
        },
    }
    assert(out@ =~= start + render_term(t@));
}

/// The first `n` characters of `s`, or all of `s` if it has fewer.
pub fn prefix(s: &str, n: usize) -> (r: &str)
    ensures
        r@ == s@.take(
            if n <= s@.len() {
                n as int
            } else {
                s@.len() as int
            },
        ),
{
    let mut it = s.chars();
    let mut k: usize = 0;
    proof {
        assert(s@.skip(0) =~= s@);
    }
    loop
        invariant_except_break
            it.obeys_prophetic_iter_laws(),
            it.remaining() == s@.skip(k as int),
        invariant
            k <= n,
            k <= s@.len(),
        ensures
            k == n || k == s@.len(),
        decreases s@.len() - k,
    {
        broadcast use next_postcondition;

        if k >= n {
            break ;
        }
        match it.next() {
            Some(_) => {
                proof {
                    assert(s@.skip(k as int).drop_first() =~= s@.skip(k + 1));
                }
                k = k + 1;
            },
            None => {
                break ;
            },
        }
    }
    split_chars(s, k).0
}

/// An expression, a `Term1` or a `Term` to be shown as source text.
pub struct Show<T>(pub T);

impl<'a, 'i> Show<&'a Expr<'i>> {
    /// The source text of the expression.
    pub fn text(&self) -> (s: String)
        ensures
            s@ == render_expr(self.0@),
    {
        let mut out = String::new();
        write_expr(&mut out, self.0);
        assert(out@ =~= render_expr(self.0@));
        out
    }
}

impl<'a, 'i> Show<&'a Term1<'i>> {
    /// The source text of the `Term1`.
    pub fn text(&self) -> (s: String)
        ensures
            s@ == render_term1(self.0@),
    {
        let mut out = String::new();
        write_term1(&mut out, self.0);
        assert(out@ =~= render_term1(self.0@));
        out
    }
}

impl<'a, 'i> Show<&'a Term<'i>> {
    /// The source text of the `Term`.
    pub fn text(&self) -> (s: String)
        ensures
            s@ == render_term(self.0@),
    {
        let mut out = String::new();
        write_term(&mut out, self.0);
        assert(out@ =~= render_term(self.0@));
        out
    }
}

} // verus!
