use vstd::prelude::*;
use crate::ast::{vals_view, Deq, Expr, ExprV, Term, Term1, Val};

verus! {

/// What may be a list literal.
pub trait IsList<'i> {
    /// The items of the list, where this is one.
    spec fn list_view(&self) -> Option<Seq<ExprV>>;

    fn is_list(&self) -> (b: bool)
        ensures
            b == (self.list_view() is Some),
    ;

    /// The items of the list, to be changed in place.
    fn get_list_mut(&mut self) -> (items: &mut Deq<Val<'i>>)
        requires
            old(self).list_view() is Some,
        ensures
            Some(vals_view(items)) == old(self).list_view(),
            final(self).list_view() == Some(vals_view(final(items))),
    ;
}

impl<'i> IsList<'i> for Term<'i> {
    open spec fn list_view(&self) -> Option<Seq<ExprV>> {
        match self {
            Term::List(items) => Some(vals_view(items)),
            _ => None,
        }
    }

    fn is_list(&self) -> (b: bool) {
        match self {
            Term::List(_) => true,
            _ => false,
        }
    }

    fn get_list_mut(&mut self) -> (items: &mut Deq<Val<'i>>) {
        match self {
            Term::List(l) => l,
            _ => vstd::pervasive::unreached(),
        }
    }
}

impl<'i> IsList<'i> for Term1<'i> {
    open spec fn list_view(&self) -> Option<Seq<ExprV>> {
        match self {
            Term1::Term(t) => t.list_view(),
            _ => None,
        }
    }

    fn is_list(&self) -> (b: bool) {
        match self {
            Term1::Term(t) => t.is_list(),
            _ => false,
        }
    }

    fn get_list_mut(&mut self) -> (items: &mut Deq<Val<'i>>) {
        match self {
            Term1::Term(t) => t.get_list_mut(),
            _ => vstd::pervasive::unreached(),
        }
    }
}

impl<'i> IsList<'i> for Expr<'i> {
    open spec fn list_view(&self) -> Option<Seq<ExprV>> {
        match self {
            Expr::Term1(t) => t.list_view(),
            _ => None,
        }
    }

    fn is_list(&self) -> (b: bool) {
        match self {
            Expr::Term1(t) => t.is_list(),
            _ => false,
        }
    }

    fn get_list_mut(&mut self) -> (items: &mut Deq<Val<'i>>) {
        match self {
            Expr::Term1(t) => t.get_list_mut(),
            _ => vstd::pervasive::unreached(),
        }
    }
}

impl<'i, T: IsList<'i>> IsList<'i> for Box<T> {
    open spec fn list_view(&self) -> Option<Seq<ExprV>> {
        (**self).list_view()
    }

    fn is_list(&self) -> (b: bool) {
        (**self).is_list()
    }

    fn get_list_mut(&mut self) -> (items: &mut Deq<Val<'i>>) {
        (**self).get_list_mut()
    }
}

} // verus!
