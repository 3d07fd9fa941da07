use vstd::prelude::*;
use vstd::std_specs::iter::IteratorSpec;
use vstd::std_specs::vecdeque::VecDequeAdditionalSpecFns;
use vstd::string::*;
use crate::ast::{
    boxed_opt_view, entries_view, expr_view, lets_view, opt_view, path_view, record_view,
    utf8len, vals_view, Deq, EntriesV, Expr, ExprV, LetStmt, LetsV, Name,
    RecordData, RecordV, Term, Term1, Term1V, TermV, Val,
};
use crate::context::names_view;
use crate::lex::{begins_with, starts_with};
use crate::semantics::unboxed;
use crate::text::{byte_len, lemma_byte_len_step, split_chars, str_eq};

verus! {

broadcast use {vstd::std_specs::vecdeque::group_vec_dequeue_axioms, vstd::seq::group_seq_axioms};

/// Whether a path names something to be fetched over HTTP.
pub open spec fn http(path: Seq<char>) -> bool {
    begins_with(path, "http://"@) || begins_with(path, "https://"@)
}

/// Whether a path stands for itself, whatever file names it.
pub open spec fn absolute(path: Seq<char>) -> bool {
    http(path) || begins_with(path, "/"@)
}

/// Whether a path names something to be fetched over HTTP.
pub fn is_http(path: &str) -> (b: bool)
    ensures
        b == http(path@),
{
    starts_with(path, "http://") || starts_with(path, "https://")
}

/// Whether a path stands for itself, whatever file names it.
pub fn is_absolute(path: &str) -> (b: bool)
    ensures
        b == absolute(path@),
{
    is_http(path) || starts_with(path, "/")
}

/// The number of characters of `s` up to its last `/`, that one counted.
pub open spec fn dir_len(s: Seq<char>) -> nat
    decreases s.len(),
{
    if s.len() == 0 {
        0
    } else if s.last() == '/' {
        s.len()
    } else {
        dir_len(s.drop_last())
    }
}

/// The directory is a part of the path.
pub proof fn lemma_dir_len_bound(s: Seq<char>)
    ensures
        dir_len(s) <= s.len(),
    decreases s.len(),
{
    if s.len() > 0 && s.last() != '/' {
        lemma_dir_len_bound(s.drop_last());
    }
}

/// A path in two parts: the directory, with its last `/`, and the name in it.
pub fn dir_base(path: &str) -> (r: (&str, &str))
    ensures
        r.0@ == path@.take(dir_len(path@) as int),
        r.1@ == path@.skip(dir_len(path@) as int),
{
    let total = path.as_bytes().len();
    let mut off: usize = 0;
    let mut k: usize = 0;
    let mut cut: usize = 0;
    let mut it = path.chars();
    proof {
        assert(path@.take(0) =~= Seq::<char>::empty());
        assert(path@.skip(0) =~= path@);
    }
    loop
        invariant_except_break
            it.obeys_prophetic_iter_laws(),
            it.remaining() == path@.skip(k as int),
            off == byte_len(path@.take(k as int)),
        invariant
            k <= path@.len(),
            k <= off <= total,
            total == byte_len(path@),
            cut == dir_len(path@.take(k as int)),
            cut <= k,
        ensures
            k == path@.len(),
        decreases path@.len() - k,
    {
        broadcast use next_postcondition;

        match it.next() {
            Some(c) => {
                proof {
                    assert(path@.skip(k as int)[0] == path@[k as int]);
                    assert(path@.skip(k as int).drop_first() =~= path@.skip(k + 1));
                    lemma_byte_len_step(path@, k as int);
                    assert(path@.take(k + 1).drop_last() =~= path@.take(k as int));
                    assert(path@.take(k + 1).last() == path@[k as int]);
                }
                off = off + utf8len(c);
                k = k + 1;
                if c == '/' {
                    cut = k;
                }
            },
            None => {
                break ;
            },
        }
    }
    proof {
        assert(path@.take(k as int) =~= path@);
    }
    split_chars(path, cut)
}

/// The characters of a text, one by one.
pub fn chars_of(s: &str) -> (v: Vec<char>)
    ensures
        v@ == s@,
{
    let mut v: Vec<char> = Vec::new();
    let mut it = s.chars();
    let ghost mut k: int = 0;
    proof {
        assert(s@.skip(0) =~= s@);
        assert(s@.take(0) =~= Seq::<char>::empty());
    }
    loop
        invariant_except_break
            it.obeys_prophetic_iter_laws(),
            it.remaining() == s@.skip(k),
        invariant
            0 <= k <= s@.len(),
            v@ == s@.take(k),
        ensures
            v@ == s@,
        decreases s@.len() - k,
    {
        broadcast use next_postcondition;

        match it.next() {
            Some(c) => {
                proof {
                    assert(s@.skip(k)[0] == s@[k]);
                    assert(s@.skip(k).drop_first() =~= s@.skip(k + 1));
                }
                v.push(c);
                proof {
                    assert(v@ =~= s@.take(k + 1));
                    k = k + 1;
                }
            },
            None => {
                proof {
                    assert(s@.take(k) =~= s@);
                }
                break ;
            },
        }
    }
    v
}

/// `String::push` of std, which puts the character at the end of the text and leaves
/// the rest of the text as it was.
#[verifier::external_body]
fn push_char(s: &mut String, c: char)
    ensures
        final(s)@ == old(s)@.push(c),
{
    s.push(c)
}

/// The text that the characters spell.
pub fn string_of(v: &Vec<char>) -> (s: String)
    ensures
        s@ == v@,
{
    let mut s = String::new();
    let mut i: usize = 0;
    while i < v.len()
        invariant
            i <= v.len(),
            s@ == v@.take(i as int),
        decreases v.len() - i,
    {
        push_char(&mut s, v[i]);
        assert(s@ =~= v@.take(i + 1));
        i = i + 1;
    }
    assert(v@.take(i as int) =~= v@);
    s
}

/// Whether `pat` stands in `s` at `i`.
pub open spec fn has_at(s: Seq<char>, i: int, pat: Seq<char>) -> bool {
    0 <= i && i + pat.len() <= s.len() && s.subrange(i, i + pat.len()) == pat
}

/// The first place at or after `from` where `pat` stands in `s`.
pub open spec fn find_from(s: Seq<char>, pat: Seq<char>, from: nat) -> Option<nat>
    decreases s.len() - from,
{
    if from + pat.len() > s.len() {
        None
    } else if has_at(s, from as int, pat) {
        Some(from)
    } else if from < s.len() {
        find_from(s, pat, from + 1)
    } else {
        None
    }
}

/// `s` without the characters from `from` up to `to`.
pub open spec fn without(s: Seq<char>, from: nat, to: nat) -> Seq<char> {
    s.take(from as int) + s.skip(to as int)
}

/// The path with every `././` taken out, from the first on.
pub open spec fn drop_dot_pairs(s: Seq<char>) -> Seq<char>
    decreases s.len(),
{
    match find_from(s, "././"@, 0) {
        Some(n) => if n + 4 <= s.len() {
            drop_dot_pairs(without(s, n, n + 4))
        } else {
            s
        },
        None => s,
    }
}

/// The path with each `../` taken out together with the part before it, and each `./`
/// taken out, as far as they stand behind a `/`. The walk stands at `p`; the part
/// before it begins at `q`, and `trace` holds where the parts before that begin.
pub open spec fn fold_parents(s: Seq<char>, p: nat, q: nat, trace: Seq<usize>) -> Seq<char>
    decreases s.len(), s.len() - p,
{
    if !(q <= p <= s.len()) {
        s
    } else if p > 0 && p + 3 <= s.len() && has_at(s, p as int, "../"@) {
        if trace.len() > 0 {
            fold_parents(without(s, q, p + 3), q, trace.last() as nat, trace.drop_last())
        } else {
            fold_parents(without(s, q, p + 3), q, 0, trace)
        }
    } else if p > 0 && p + 2 <= s.len() && has_at(s, p as int, "./"@) {
        fold_parents(without(s, p, p + 2), p, q, trace)
    } else {
        match find_from(s, "/"@, p) {
            Some(n) => if p <= n < s.len() && n < usize::MAX {
                fold_parents(s, n + 1, p, trace.push(q as usize))
            } else {
                s
            },
            None => s,
        }
    }
}

/// The path without the parts that `./` and `../` make needless.
pub open spec fn clean(s: Seq<char>) -> Seq<char> {
    fold_parents(drop_dot_pairs(s), 0, 0, Seq::empty())
}

/// Whether `pat` stands in `v` at `i`.
pub fn matches_at(v: &Vec<char>, i: usize, pat: &str) -> (b: bool)
    ensures
        b == has_at(v@, i as int, pat@),
{
    if i > v.len() {
        return false;
    }
    let mut it = pat.chars();
    let mut k: usize = i;
    let ghost mut j: int = 0;
    proof {
        assert(pat@.skip(0) =~= pat@);
    }
    loop
        invariant
            0 <= j <= pat@.len(),
            k == i + j,
            k <= v@.len(),
            it.obeys_prophetic_iter_laws(),
            it.remaining() == pat@.skip(j),
            forall|x: int| 0 <= x < j ==> v@[i + x] == pat@[x],
        decreases pat@.len() - j,
    {
        broadcast use next_postcondition;

        match it.next() {
            None => {
                assert(v@.subrange(i as int, i + pat@.len()) =~= pat@);
                return true;
            },
            Some(c) => {
                proof {
                    assert(pat@.skip(j)[0] == pat@[j]);
                    assert(pat@.skip(j).drop_first() =~= pat@.skip(j + 1));
                }
                if k >= v.len() {
                    return false;
                }
                if v[k] != c {
                    proof {
                        if i + pat@.len() <= v@.len() {
                            assert(v@.subrange(i as int, i + pat@.len())[j] == v@[i + j]);
                        }
                    }
                    return false;
                }
                k = k + 1;
                proof {
                    j = j + 1;
                }
            },
        }
    }
}

/// The first place at or after `from` where `pat` stands in `v`.
pub fn find(v: &Vec<char>, pat: &str, from: usize) -> (r: Option<usize>)
    ensures
        match r {
            Some(n) => find_from(v@, pat@, from as nat) == Some(n as nat) && from <= n
                && has_at(v@, n as int, pat@),
            None => find_from(v@, pat@, from as nat) is None,
        },
{
    let mut i: usize = from;
    loop
        invariant
            from <= i,
            find_from(v@, pat@, i as nat) == find_from(v@, pat@, from as nat),
        decreases v.len() - i,
    {
        if matches_at(v, i, pat) {
            return Some(i);
        }
        if i >= v.len() {
            return None;
        }
        i = i + 1;
    }
}

/// Takes the characters from `from` up to `to` out of `v`.
pub fn remove_range(v: &mut Vec<char>, from: usize, to: usize)
    requires
        from <= to <= old(v)@.len(),
    ensures
        final(v)@ == without(old(v)@, from as nat, to as nat),
{
    let ghost all = v@;
    let mut left: usize = to - from;
    assert(v@ =~= without(all, from as nat, from as nat));
    while left > 0
        invariant
            from + left <= to,
            to <= all.len(),
            v@ == without(all, from as nat, (to - left) as nat),
        decreases left,
    {
        let _ = v.remove(from);
        left = left - 1;
        assert(v@ =~= without(all, from as nat, (to - left) as nat));
    }
}

/// The characters of a path without the parts that `./` and `../` make needless.
pub fn clean_chars(path: Vec<char>) -> (r: Vec<char>)
    ensures
        r@ == clean(path@),
{
    let mut v = path;
    loop
        invariant
            drop_dot_pairs(v@) == drop_dot_pairs(path@),
        ensures
            v@ == drop_dot_pairs(path@),
        decreases v@.len(),
    {
        match find(&v, "././", 0) {
            Some(n) => {
                proof {
                    reveal_strlit("././");
                    assert("././"@.len() == 4);
                }
                let total = v.len();
                assert(n + 4 <= total);
                remove_range(&mut v, n, n + 4);
            },
            None => {
                break ;
            },
        }
    }
    let ghost start = v@;
    let mut trace: Vec<usize> = Vec::new();
    let mut q: usize = 0;
    let mut p: usize = 0;
    loop
        invariant
            q <= p <= v@.len(),
            forall|i: int| 0 <= i < trace@.len() ==> #[trigger] trace@[i] <= q,
            forall|i: int, j: int| 0 <= i <= j < trace@.len() ==> trace@[i] <= trace@[j],
            fold_parents(v@, p as nat, q as nat, trace@) == fold_parents(start, 0, 0, Seq::empty()),
        ensures
            v@ == fold_parents(start, 0, 0, Seq::empty()),
        decreases v@.len(), v@.len() - p,
    {
        proof {
            reveal_strlit("../");
            reveal_strlit("./");
            reveal_strlit("/");
            assert("../"@.len() == 3);
            assert("./"@.len() == 2);
            assert("/"@.len() == 1);
        }
        let total = v.len();
        if p > 0 && matches_at(&v, p, "../") {
            assert(p + 3 <= total);
            let ghost before = trace@;
            remove_range(&mut v, q, p + 3);
            p = q;
            match trace.pop() {
                Some(older) => {
                    assert(older == before.last());
                    assert(trace@ =~= before.drop_last());
                    q = older;
                },
                None => {
                    q = 0;
                },
            }
        } else if p > 0 && matches_at(&v, p, "./") {
            assert(p + 2 <= total);
            remove_range(&mut v, p, p + 2);
        } else {
            match find(&v, "/", p) {
                Some(n) => {
                    assert(n + 1 <= total);
                    let ghost before = trace@;
                    trace.push(q);
                    assert(trace@ =~= before.push(q));
                    q = p;
                    p = n + 1;
                },
                None => {
                    break ;
                },
            }
        }
    }
    v
}

/// Takes out of `path` the parts that `./` and `../` make needless.
pub fn path_clean(path: &mut String)
    ensures
        final(path)@ == clean(old(path)@),
{
    let cleaned = clean_chars(chars_of(path.as_str()));
    *path = string_of(&cleaned);
}

/// What a path in the file `base` stands for: itself if it is absolute, and else the
/// path from the directory of `base`, made clean.
pub open spec fn resolved(base: Seq<char>, path: Seq<char>) -> Seq<char> {
    if absolute(path) {
        path
    } else {
        clean(base.take(dir_len(base) as int) + path)
    }
}

/// Turns `path`, as it is written in the file `base`, into what it stands for.
pub fn path_resolve(base: &str, path: &mut String)
    ensures
        final(path)@ == resolved(base@, old(path)@),
{
    if !is_absolute(path.as_str()) {
        let (dir, _) = dir_base(base);
        let mut joined = String::from_str(dir);
        joined.append(path.as_str());
        *path = joined;
        path_clean(path);
    }
}

/// The paths of the imports of an expression in the order in which they are written; an
/// import of `missing` is none.
pub open spec fn imports_expr(e: ExprV) -> Seq<Name>
    decreases e, 0nat,
{
    match e {
        ExprV::Term1(t) => imports_term1(t),
        ExprV::Let(defs, body) => imports_lets(defs, defs.len()) + imports_expr(*body),
        ExprV::Lambda(_, typ, body) => imports_opt(unboxed(typ)) + imports_expr(*body),
    }
}

/// The imports of an optional expression.
pub open spec fn imports_opt(v: Option<ExprV>) -> Seq<Name>
    decreases v, 0nat,
{
    match v {
        Some(e) => imports_expr(e),
        None => Seq::empty(),
    }
}

/// The imports of the first `n` bindings of a `let`.
pub open spec fn imports_lets(defs: LetsV, n: nat) -> Seq<Name>
    decreases defs, n,
{
    if n == 0 || n > defs.len() {
        Seq::empty()
    } else {
        imports_lets(defs, (n - 1) as nat) + imports_opt(defs[n - 1].1) + imports_expr(
            defs[n - 1].2,
        )
    }
}

/// The imports of the first `n` fields.
pub open spec fn imports_fields(fields: RecordV, n: nat) -> Seq<Name>
    decreases fields, n,
{
    if n == 0 || n > fields.len() {
        Seq::empty()
    } else {
        imports_fields(fields, (n - 1) as nat) + imports_expr(fields[n - 1].1)
    }
}

/// The imports of the first `n` entries.
pub open spec fn imports_entries(entries: EntriesV, n: nat) -> Seq<Name>
    decreases entries, n,
{
    if n == 0 || n > entries.len() {
        Seq::empty()
    } else {
        imports_entries(entries, (n - 1) as nat) + imports_opt(entries[n - 1].1)
    }
}

/// The imports of the first `n` items.
pub open spec fn imports_items(items: Seq<ExprV>, n: nat) -> Seq<Name>
    decreases items, n,
{
    if n == 0 || n > items.len() {
        Seq::empty()
    } else {
        imports_items(items, (n - 1) as nat) + imports_expr(items[n - 1])
    }
}

/// The paths of the imports of a `Term1` in the order in which they are written.
pub open spec fn imports_term1(t: Term1V) -> Seq<Name>
    decreases t, 0nat,
{
    match t {
        Term1V::Term(inner) => imports_term(inner),
        Term1V::Evaluation(f, x) => imports_term1(*f) + imports_term(x),
        Term1V::Arrow(_, a, b) => imports_expr(*a) + imports_expr(*b),
        Term1V::With(a, _, b) => imports_term1(*a) + imports_term1(*b),
        Term1V::Operation(a, _, b) => imports_term1(*a) + imports_term1(*b),
        Term1V::IfThenElse(c, a, b) => imports_expr(*c) + imports_expr(*a) + imports_expr(*b),
        Term1V::Ascribe(a, typ) => imports_term1(*a) + imports_expr(*typ),
        Term1V::Construct(a, data) => imports_term1(*a) + imports_fields(data, data.len()),
    }
}

/// The paths of the imports of a `Term` in the order in which they are written.
pub open spec fn imports_term(t: TermV) -> Seq<Name>
    decreases t, 0nat,
{
    match t {
        TermV::Import { path, .. } => if path == "missing"@ {
            Seq::empty()
        } else {
            seq![path]
        },
        TermV::FieldAccess(inner, _) => imports_term(*inner),
        TermV::Project(_, inner, _) => imports_term(*inner),
        TermV::Text(_, entries) => imports_entries(entries, entries.len()),
        TermV::List(items) => imports_items(items, items.len()),
        TermV::Record(fields) => imports_fields(fields, fields.len()),
        TermV::TypeRecord(fields) => imports_fields(fields, fields.len()),
        TermV::TypeEnum(alts) => imports_entries(alts, alts.len()),
        TermV::Expr(e) => imports_expr(*e),
        TermV::Merge(table, inner) => imports_fields(table, table.len()) + imports_term(*inner),
        TermV::Integer(..) | TermV::Double(..) | TermV::Path(..) | TermV::Var(..)
        | TermV::Embed(..) => Seq::empty(),
    }
}

proof fn lemma_names_push(before: Seq<&str>, name: &str)
    ensures
        names_view(before.push(name)) == names_view(before) + seq![name@],
{
    assert(names_view(before.push(name)) =~= names_view(before) + seq![name@]);
}

#[verifier::loop_isolation(false)]
fn collect_opt<'i>(out: &mut Vec<&'i str>, v: &Option<Val<'i>>)
    ensures
        names_view(final(out)@) == names_view(old(out)@) + imports_opt(opt_view(v)),
    decreases v, 0nat,
{
    let ghost start = names_view(out@);
    match v {
        Some(e) => {
            collect_expr(out, e);
        },
        None => {
            assert(names_view(out@) =~= start + imports_opt(opt_view(v)));
        },
    }
}

#[verifier::loop_isolation(false)]
fn collect_lets<'i>(out: &mut Vec<&'i str>, defs: &Deq<LetStmt<'i>>)
    ensures
        names_view(final(out)@) == names_view(old(out)@) + imports_lets(
            lets_view(defs),
            lets_view(defs).len(),
        ),
    decreases defs, 0nat,
{
    let ghost start = names_view(out@);
    let ghost all = lets_view(defs);
    let mut i: usize = 0;
    assert(names_view(out@) =~= start + imports_lets(all, 0));
    while i < defs.len()
        invariant
            i <= defs.len(),
            all.len() == defs@.len(),
            names_view(out@) == start + imports_lets(all, i as nat),
        decreases defs.len() - i,
    {
        assert(all[i as int] == (
            defs[i as int].0@,
            opt_view(&defs[i as int].1),
            expr_view(&*defs[i as int].2),
        ));
        collect_opt(out, &defs[i].1);
        collect_expr(out, &defs[i].2);
        assert(names_view(out@) =~= start + imports_lets(all, (i + 1) as nat));
        i = i + 1;
    }
}

#[verifier::loop_isolation(false)]
fn collect_fields<'i>(out: &mut Vec<&'i str>, fields: &RecordData<'i>)
    ensures
        names_view(final(out)@) == names_view(old(out)@) + imports_fields(
            record_view(fields),
            record_view(fields).len(),
        ),
    decreases fields, 0nat,
{
    let ghost start = names_view(out@);
    let ghost all = record_view(fields);
    let mut i: usize = 0;
    assert(names_view(out@) =~= start + imports_fields(all, 0));
    while i < fields.len()
        invariant
            i <= fields.len(),
            all.len() == fields@.len(),
            names_view(out@) == start + imports_fields(all, i as nat),
        decreases fields.len() - i,
    {
        assert(all[i as int] == (path_view(&fields[i as int].0), expr_view(&*fields[i as int].1)));
        collect_expr(out, &fields[i].1);
        assert(names_view(out@) =~= start + imports_fields(all, (i + 1) as nat));
        i = i + 1;
    }
}

#[verifier::loop_isolation(false)]
fn collect_entries<'i>(out: &mut Vec<&'i str>, entries: &Deq<(&'i str, Option<Val<'i>>)>)
    ensures
        names_view(final(out)@) == names_view(old(out)@) + imports_entries(
            entries_view(entries),
            entries_view(entries).len(),
        ),
    decreases entries, 0nat,
{
    let ghost start = names_view(out@);
    let ghost all = entries_view(entries);
    let mut i: usize = 0;
    assert(names_view(out@) =~= start + imports_entries(all, 0));
    while i < entries.len()
        invariant
            i <= entries.len(),
            all.len() == entries@.len(),
            names_view(out@) == start + imports_entries(all, i as nat),
        decreases entries.len() - i,
    {
        assert(all[i as int] == (entries[i as int].0@, opt_view(&entries[i as int].1)));
        collect_opt(out, &entries[i].1);
        assert(names_view(out@) =~= start + imports_entries(all, (i + 1) as nat));
        i = i + 1;
    }
}

#[verifier::loop_isolation(false)]
fn collect_items<'i>(out: &mut Vec<&'i str>, items: &Deq<Val<'i>>)
    ensures
        names_view(final(out)@) == names_view(old(out)@) + imports_items(
            vals_view(items),
            vals_view(items).len(),
        ),
    decreases items, 0nat,
{
    let ghost start = names_view(out@);
    let ghost all = vals_view(items);
    let mut i: usize = 0;
    assert(names_view(out@) =~= start + imports_items(all, 0));
    while i < items.len()
        invariant
            i <= items.len(),
            all.len() == items@.len(),
            names_view(out@) == start + imports_items(all, i as nat),
        decreases items.len() - i,
    {
        assert(all[i as int] == expr_view(&*items[i as int]));
        collect_expr(out, &items[i]);
        assert(names_view(out@) =~= start + imports_items(all, (i + 1) as nat));
        i = i + 1;
    }
}

/// Puts the paths of the imports of `e` at the end of `out`.
pub fn collect_expr<'i>(out: &mut Vec<&'i str>, e: &Expr<'i>)
    ensures
        names_view(final(out)@) == names_view(old(out)@) + imports_expr(e@),
    decreases e, 0nat,
{
    let ghost start = names_view(out@);
    match e {
        Expr::Term1(t) => {
            collect_term1(out, t);
        },
        Expr::Let(defs, body) => {
            collect_lets(out, defs);
            collect_expr(out, body);
        },
        Expr::Lambda(_, typ, body) => {
            assert(unboxed(boxed_opt_view(typ)) == opt_view(typ));
            collect_opt(out, typ);
            collect_expr(out, body);
        },
    }
    assert(names_view(out@) =~= start + imports_expr(e@));
}

/// Puts the paths of the imports of `t` at the end of `out`.
pub fn collect_term1<'i>(out: &mut Vec<&'i str>, t: &Term1<'i>)
    ensures
        names_view(final(out)@) == names_view(old(out)@) + imports_term1(t@),
    decreases t, 0nat,
{
    let ghost start = names_view(out@);
    match t {
        Term1::Term(inner) => {
            collect_term(out, inner);
        },
        Term1::Evaluation(f, x) => {
            collect_term1(out, f);
            collect_term(out, x);
        },
        Term1::Arrow(_, a, b) => {
            collect_expr(out, a);
            collect_expr(out, b);
        },
        Term1::With(a, _, b) => {
            collect_term1(out, a);
            collect_term1(out, b);
        },
        Term1::Operation(a, _, b) => {
            collect_term1(out, a);
            collect_term1(out, b);
        },
        Term1::IfThenElse(c, a, b) => {
            collect_expr(out, c);
            collect_expr(out, a);
            collect_expr(out, b);
        },
        Term1::Ascribe(a, typ) => {
            collect_term1(out, a);
            collect_expr(out, typ);
        },
        Term1::Construct(a, data) => {
            collect_term1(out, a);
            collect_fields(out, data);
        },
    }
    assert(names_view(out@) =~= start + imports_term1(t@));
}

/// Puts the paths of the imports of `t` at the end of `out`.
pub fn collect_term<'i>(out: &mut Vec<&'i str>, t: &Term<'i>)
    ensures
        names_view(final(out)@) == names_view(old(out)@) + imports_term(t@),
    decreases t, 0nat,
{
    let ghost start = names_view(out@);
    match t {
        Term::Import { path, .. } => {
            if !str_eq(path, "missing") {
                proof {
                    lemma_names_push(out@, *path);
                }
                out.push(*path);
            }
        },
        Term::FieldAccess(inner, _) => {
            collect_term(out, inner);
        },
        Term::Project(_, inner, _) => {
            collect_term(out, inner);
        },
        Term::Text(_, entries) => {
            collect_entries(out, entries);
        },
        Term::List(items) => {
            collect_items(out, items);
        },
        Term::Record(fields) => {
            collect_fields(out, fields);
        },
        Term::TypeRecord(fields) => {
            collect_fields(out, fields);
        },
        Term::TypeEnum(alts) => {
            collect_entries(out, alts);
        },
        Term::Expr(e) => {
            collect_expr(out, e);
        },
        Term::Merge(table, inner) => {
            collect_fields(out, table);
            collect_term(out, inner);
        },
        Term::Integer(..) | Term::Double(..) | Term::Path(..) | Term::Var(..) | Term::Embed(..) => {},
    }
    assert(names_view(out@) =~= start + imports_term(t@));
}

/// The paths of the imports of `e` in the order in which they are written.
pub fn import_paths<'i>(e: &Expr<'i>) -> (paths: Vec<&'i str>)
    ensures
        names_view(paths@) == imports_expr(e@),
{
    let mut out: Vec<&'i str> = Vec::new();
    assert(names_view(out@) =~= Seq::<Name>::empty());
    collect_expr(&mut out, e);
    assert(names_view(out@) =~= imports_expr(e@));
    out
}

/// The texts that a list of strings spells.
pub open spec fn texts(list: Seq<String>) -> Seq<Seq<char>> {
    Seq::new(list.len(), |i: int| list[i]@)
}

/// Whether `s` is one of `list`.
pub fn holds(list: &Vec<String>, s: &str) -> (b: bool)
    ensures
        b == texts(list@).contains(s@),
{
    let mut i: usize = 0;
    while i < list.len()
        invariant
            i <= list.len(),
            forall|k: int| 0 <= k < i ==> texts(list@)[k] != s@,
        decreases list.len() - i,
    {
        if str_eq(list[i].as_str(), s) {
            assert(texts(list@)[i as int] == s@);
            return true;
        }
        i = i + 1;
    }
    false
}

/// The addresses among the first `n` of `uris` that are to be fetched: those that are
/// fetched over HTTP and are not among `fetched`.
pub open spec fn to_fetch(uris: Seq<Seq<char>>, fetched: Seq<Seq<char>>, n: nat) -> Seq<Seq<char>>
    decreases n,
{
    if n == 0 || n > uris.len() {
        Seq::empty()
    } else {
        let before = to_fetch(uris, fetched, (n - 1) as nat);
        let uri = uris[n - 1];
        if http(uri) && !fetched.contains(uri) && !before.contains(uri) {
            before.push(uri)
        } else {
            before
        }
    }
}

/// The arguments that tell `curl` to fetch the first `n` of `news` into `output_dir`.
pub open spec fn curl_args(output_dir: Seq<char>, news: Seq<Seq<char>>, n: nat) -> Seq<Seq<char>>
    decreases n,
{
    if n == 0 || n > news.len() {
        seq!["--no-progress-meter"@, "--create-dirs"@, "--output-dir"@, output_dir]
    } else {
        curl_args(output_dir, news, (n - 1) as nat) + seq![news[n - 1], "--output"@, news[n - 1]]
    }
}

/// The place of the first of `files` that has the path `path`.
pub open spec fn first_index(files: Seq<(Seq<char>, Seq<char>)>, path: Seq<char>) -> Option<nat>
    decreases files.len(),
{
    if files.len() == 0 {
        None
    } else if files[0].0 == path {
        Some(0)
    } else {
        match first_index(files.drop_first(), path) {
            Some(i) => Some(i + 1),
            None => None,
        }
    }
}

proof fn lemma_first_index(files: Seq<(Seq<char>, Seq<char>)>, path: Seq<char>, i: int)
    requires
        0 <= i <= files.len(),
        forall|k: int| 0 <= k < i ==> (#[trigger] files[k]).0 != path,
        i < files.len() ==> files[i].0 == path,
    ensures
        first_index(files, path) == (if i < files.len() {
            Some(i as nat)
        } else {
            None
        }),
    decreases files.len(),
{
    if files.len() > 0 && i > 0 {
        let rest = files.drop_first();
        assert forall|k: int| 0 <= k < i - 1 implies (#[trigger] rest[k]).0 != path by {
            assert(rest[k] == files[k + 1]);
        }
        if i < files.len() {
            assert(rest[i - 1] == files[i]);
        }
        lemma_first_index(rest, path, i - 1);
    }
}

/// The files that were read, the addresses that were fetched, and where fetched files
/// are kept.
pub struct Reservoir {
    output_dir: String,
    enable_resolve: bool,
    enable_fetch: bool,
    files: Vec<(String, String)>,
    fetched_uris: Vec<String>,
    uris: Vec<String>,
}

impl Reservoir {
    /// The paths and the texts of the files that were read, in the order of reading.
    pub closed spec fn files(&self) -> Seq<(Seq<char>, Seq<char>)> {
        Seq::new(self.files@.len(), |i: int| (self.files@[i].0@, self.files@[i].1@))
    }

    /// The addresses that were handed to `curl`.
    pub closed spec fn fetched(&self) -> Seq<Seq<char>> {
        texts(self.fetched_uris@)
    }

    /// The addresses that the file in hand imports.
    pub closed spec fn uris(&self) -> Seq<Seq<char>> {
        texts(self.uris@)
    }

    /// The directory under which fetched files are kept.
    pub closed spec fn dir(&self) -> Seq<char> {
        self.output_dir@
    }

    /// Whether imports are followed.
    pub closed spec fn resolves(&self) -> bool {
        self.enable_resolve
    }

    /// Whether addresses are fetched.
    pub closed spec fn fetches(&self) -> bool {
        self.enable_fetch
    }

    /// Two reservoirs that are set up alike.
    pub open spec fn same_setup(&self, other: &Self) -> bool {
        &&& self.dir() == other.dir()
        &&& self.resolves() == other.resolves()
        &&& self.fetches() == other.fetches()
    }

    /// Whether a file of that path was read.
    pub open spec fn knows(&self, path: Seq<char>) -> bool {
        first_index(self.files(), path) is Some
    }

    /// A reservoir that has read nothing, follows imports and fetches nothing.
    pub fn new(output_dir: String) -> (r: Self)
        ensures
            r.dir() == output_dir@,
            r.resolves(),
            !r.fetches(),
            r.files().len() == 0,
            r.fetched().len() == 0,
            r.uris().len() == 0,
    {
        Reservoir {
            output_dir,
            enable_resolve: true,
            enable_fetch: false,
            files: Vec::new(),
            fetched_uris: Vec::new(),
            uris: Vec::new(),
        }
    }

    /// The directory under which fetched files are kept.
    pub fn output_dir(&self) -> (dir: &str)
        ensures
            dir@ == self.dir(),
    {
        self.output_dir.as_str()
    }

    /// Whether imports are followed.
    pub fn enable_resolve(&self) -> (b: bool)
        ensures
            b == self.resolves(),
    {
        self.enable_resolve
    }

    /// Whether addresses are fetched.
    pub fn enable_fetch(&self) -> (b: bool)
        ensures
            b == self.fetches(),
    {
        self.enable_fetch
    }

    /// Says whether imports are to be followed.
    pub fn set_resolve(&mut self, on: bool)
        ensures
            final(self).resolves() == on,
            final(self).fetches() == old(self).fetches(),
            final(self).dir() == old(self).dir(),
            final(self).files() == old(self).files(),
            final(self).fetched() == old(self).fetched(),
            final(self).uris() == old(self).uris(),
    {
        self.enable_resolve = on;
    }

    /// Says whether addresses are to be fetched.
    pub fn set_fetch(&mut self, on: bool)
        ensures
            final(self).fetches() == on,
            final(self).resolves() == old(self).resolves(),
            final(self).dir() == old(self).dir(),
            final(self).files() == old(self).files(),
            final(self).fetched() == old(self).fetched(),
            final(self).uris() == old(self).uris(),
    {
        self.enable_fetch = on;
    }

    fn index_of(&self, path: &str) -> (r: Option<usize>)
        ensures
            match r {
                Some(i) => first_index(self.files(), path@) == Some(i as nat) && i
                    < self.files().len(),
                None => first_index(self.files(), path@) is None,
            },
    {
        let mut i: usize = 0;
        while i < self.files.len()
            invariant
                i <= self.files.len(),
                forall|k: int| 0 <= k < i ==> (#[trigger] self.files()[k]).0 != path@,
            decreases self.files.len() - i,
        {
            if str_eq(self.files[i].0.as_str(), path) {
                proof {
                    assert(self.files()[i as int].0 == path@);
                    lemma_first_index(self.files(), path@, i as int);
                }
                return Some(i);
            }
            i = i + 1;
        }
        proof {
            lemma_first_index(self.files(), path@, self.files().len() as int);
        }
        None
    }

    /// The text of the file of that path, if it was read.
    pub fn file(&self, path: &str) -> (r: Option<&str>)
        ensures
            match r {
                Some(text) => first_index(self.files(), path@) matches Some(i) && self.files()[i as int].1
                    == text@,
                None => !self.knows(path@),
            },
    {
        match self.index_of(path) {
            Some(i) => {
                assert(self.files()[i as int].1 == self.files@[i as int].1@);
                Some(self.files[i].1.as_str())
            },
            None => None,
        }
    }

    /// Whether a file of that path was read.
    pub fn has_file(&self, path: &str) -> (b: bool)
        ensures
            b == self.knows(path@),
    {
        self.index_of(path).is_some()
    }

    /// The number of files that were read.
    pub fn file_count(&self) -> (n: usize)
        ensures
            n == self.files().len(),
    {
        self.files.len()
    }

    /// The path and the text of the file that was read as the `i`th.
    pub fn file_at(&self, i: usize) -> (r: (&str, &str))
        requires
            i < self.files().len(),
        ensures
            (r.0@, r.1@) == self.files()[i as int],
    {
        (self.files[i].0.as_str(), self.files[i].1.as_str())
    }

    /// Where the file of that path is read from: what was fetched lies under the output
    /// directory.
    pub fn real_path(&self, path: &str) -> (r: String)
        ensures
            r@ == if http(path@) {
                self.dir() + path@
            } else {
                path@
            },
    {
        if is_http(path) {
            let mut r = self.output_dir.clone();
            r.append(path);
            r
        } else {
            String::from_str(path)
        }
    }

    /// Keeps the text of a file that was read, in place of a text that was kept for the
    /// same path.
    pub fn store(&mut self, path: String, text: String)
        ensures
            final(self).files() == (match first_index(old(self).files(), path@) {
                Some(i) => old(self).files().update(i as int, (path@, text@)),
                None => old(self).files().push((path@, text@)),
            }),
            final(self).fetched() == old(self).fetched(),
            final(self).uris() == old(self).uris(),
            final(self).same_setup(old(self)),
    {
        let ghost before = self.files();
        let ghost entry = (path@, text@);
        match self.index_of(path.as_str()) {
            Some(i) => {
                self.files.set(i, (path, text));
                assert(self.files() =~= before.update(i as int, entry));
            },
            None => {
                self.files.push((path, text));
                assert(self.files() =~= before.push(entry));
            },
        }
    }

    /// Forgets the addresses of the file that was in hand.
    pub fn begin(&mut self)
        ensures
            final(self).uris().len() == 0,
            final(self).files() == old(self).files(),
            final(self).fetched() == old(self).fetched(),
            final(self).same_setup(old(self)),
    {
        self.uris.clear();
    }

    /// Notes an import of the file `base`: if it stands for an address that is fetched
    /// over HTTP and is not noted yet, the address is kept.
    pub fn register(&mut self, base: &str, import: &str)
        ensures
            final(self).uris() == (if http(resolved(base@, import@)) && !old(self).uris().contains(
                resolved(base@, import@),
            ) {
                old(self).uris().push(resolved(base@, import@))
            } else {
                old(self).uris()
            }),
            final(self).files() == old(self).files(),
            final(self).fetched() == old(self).fetched(),
            final(self).same_setup(old(self)),
    {
        let mut path = String::from_str(import);
        path_resolve(base, &mut path);
        if is_http(path.as_str()) && !holds(&self.uris, path.as_str()) {
            let ghost before = self.uris();
            let ghost text = path@;
            self.uris.push(path);
            assert(self.uris() =~= before.push(text));
        }
    }

    /// The arguments for `curl` that fetch the noted addresses which were not fetched
    /// yet; those count as fetched from now on. `None` if there is nothing to fetch.
    pub fn fetch_arguments(&mut self) -> (r: Option<Vec<String>>)
        ensures
            ({
                let news = to_fetch(old(self).uris(), old(self).fetched(), old(self).uris().len());
                &&& final(self).fetched() == old(self).fetched() + news
                &&& match r {
                    Some(args) => news.len() > 0 && texts(args@) == curl_args(
                        old(self).dir(),
                        news,
                        news.len(),
                    ),
                    None => news.len() == 0,
                }
            }),
            final(self).uris() == old(self).uris(),
            final(self).files() == old(self).files(),
            final(self).same_setup(old(self)),
    {
        let ghost uris = self.uris();
        let ghost fetched = self.fetched();
        let ghost dir = self.output_dir@;
        let mut args: Vec<String> = Vec::new();
        args.push(String::from_str("--no-progress-meter"));
        args.push(String::from_str("--create-dirs"));
        args.push(String::from_str("--output-dir"));
        args.push(self.output_dir.clone());
        let mut news: Vec<String> = Vec::new();
        let mut i: usize = 0;
        assert(texts(news@) =~= to_fetch(uris, fetched, 0));
        assert(texts(args@) =~= curl_args(dir, texts(news@), 0));
        while i < self.uris.len()
            invariant
                i <= self.uris.len(),
                uris == self.uris(),
                uris.len() == self.uris@.len(),
                fetched == self.fetched(),
                dir == self.output_dir@,
                self.files() == old(self).files(),
                self.same_setup(old(self)),
                texts(news@) == to_fetch(uris, fetched, i as nat),
                texts(args@) == curl_args(dir, texts(news@), news@.len()),
            decreases self.uris.len() - i,
        {
            let ghost uri = uris[i as int];
            assert(uri == self.uris@[i as int]@);
            let fresh = is_http(self.uris[i].as_str()) && !holds(
                &self.fetched_uris,
                self.uris[i].as_str(),
            ) && !holds(&news, self.uris[i].as_str());
            if fresh {
                let ghost news_before = texts(news@);
                let ghost args_before = texts(args@);
                news.push(self.uris[i].clone());
                assert(texts(news@) =~= news_before.push(uri));
                args.push(self.uris[i].clone());
                args.push(String::from_str("--output"));
                args.push(self.uris[i].clone());
                assert(texts(args@) =~= args_before + seq![uri, "--output"@, uri]);
                assert(curl_args(dir, texts(news@), (news@.len() - 1) as nat) == args_before) by {
                    lemma_curl_args_prefix(dir, news_before, texts(news@), news_before.len());
                }
            }
            i = i + 1;
        }
        let count = news.len();
        let ghost fetched_before = self.fetched();
        let ghost added = texts(news@);
        self.fetched_uris.append(&mut news);
        assert(self.fetched() =~= fetched_before + added);
        if count == 0 {
            None
        } else {
            Some(args)
        }
    }
}

/// The arguments for the first addresses do not depend on the addresses after them.
proof fn lemma_curl_args_prefix(dir: Seq<char>, a: Seq<Seq<char>>, b: Seq<Seq<char>>, n: nat)
    requires
        n <= a.len() <= b.len(),
        forall|i: int| 0 <= i < a.len() ==> a[i] == b[i],
    ensures
        curl_args(dir, a, n) == curl_args(dir, b, n),
    decreases n,
{
    if n > 0 {
        lemma_curl_args_prefix(dir, a, b, (n - 1) as nat);
    }
}

} // verus!
