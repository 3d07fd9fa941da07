use vstd::prelude::*;

verus! {

/// The shape of a node, without its contents.
#[derive(Clone, Copy, Debug, PartialEq, Eq, Structural)]
pub enum NodeKind {
    Let,
    Lambda,
    Evaluation,
    Arrow,
    With,
    Operation,
    IfThenElse,
    Ascribe,
    Construct,
    Integer,
    Double,
    FieldAccess,
    Project,
    Path,
    Var,
    Text,
    List,
    Record,
    TypeRecord,
    TypeEnum,
    Import,
    Expr,
    Merge,
    Embed,
}

/// Why a reduction or a symbol-table query gave up.
#[derive(Clone, Copy, Debug, PartialEq, Eq, Structural)]
pub enum Error {
    /// A name was looked up and the scope stack was exhausted before a binding was found.
    NotFound,
    /// A value was asked of a binding that has none.
    NoValue,
    /// A `merge` scrutinee carries a tag for which the handler table has no entry.
    FieldNotFound,
    /// A `merge` scrutinee or handler has a shape that cannot be dispatched on.
    MalformedMerge,
    /// No rule covers a node of this kind in the state it was met in.
    Unsupported(NodeKind),
    /// The nesting of reductions went past the limit of the context.
    DepthLimit,
}

/// A value, or why there is none.
pub type Result<T> = core::result::Result<T, Error>;

} // verus!
