//! The syntactic elements that the renderers work on.
//!
//! Every node is an immutable view over an already-parsed tree, reduced to
//! plain values: leaf sub-trees that the renderers never look inside (types,
//! lifetimes) carry the text that the plain, non-width-aware stringifier
//! produced for them, together with the byte-offset span of the node in the
//! original source buffer.

use vstd::prelude::*;

verus! {

/// A byte-offset range into the original source buffer.
#[derive(Clone, Copy, Debug, PartialEq, Eq, Structural)]
pub struct Span {
    pub lo: usize,
    pub hi: usize,
}

/// A lifetime, pre-rendered to text (e.g. `'a`).
pub struct Lifetime {
    pub text: String,
    pub span: Span,
}

/// A type, pre-rendered to text by the plain stringifier.
pub struct Ty {
    pub text: String,
    pub span: Span,
}

/// An associated-type binding, `ident = ty`.
pub struct TypeBinding {
    pub ident: String,
    pub ty: Ty,
    pub span: Span,
}

/// The generic arguments of one path segment: either an angle-bracket list
/// (all three groups empty means no arguments at all) or the parenthesized
/// function-trait sugar, never both.
pub enum PathParameters {
    AngleBracketed { lifetimes: Vec<Lifetime>, types: Vec<Ty>, bindings: Vec<TypeBinding> },
    Parenthesized { inputs: Vec<Ty>, output: Option<Ty> },
}

/// One `::`-delimited component of a path.
pub struct PathSegment {
    pub identifier: String,
    pub parameters: PathParameters,
}

/// A possibly multi-segment name reference, e.g. `std::vec::Vec<T>`.
pub struct Path {
    pub global: bool,
    pub segments: Vec<PathSegment>,
    pub span: Span,
}

/// The `<Type as Trait>` prefix of a qualified path; `position` counts how
/// many leading segments of the path belong to the trait qualification.
pub struct QSelf {
    pub ty: Ty,
    pub position: usize,
}

/// A lifetime declaration with its (possibly empty) bounds, `'a: 'b + 'c`.
pub struct LifetimeDef {
    pub lifetime: Lifetime,
    pub bounds: Vec<Lifetime>,
}

/// A reference to a trait, named by a path.
pub struct TraitRef {
    pub path: Path,
}

/// A trait reference under an optional higher-ranked `for<...>` binder.
pub struct PolyTraitRef {
    pub bound_lifetimes: Vec<LifetimeDef>,
    pub trait_ref: TraitRef,
}

/// Whether a trait bound is plain (`Trait`) or relaxed (`?Trait`).
pub enum TraitBoundModifier {
    Plain,
    Maybe,
}

/// One bound of a type parameter: a trait bound or a lifetime bound.
pub enum TyParamBound {
    TraitTyParamBound(PolyTraitRef, TraitBoundModifier),
    RegionTyParamBound(Lifetime),
}

/// A type parameter at its declaration site, with bounds and default.
pub struct TyParam {
    pub ident: String,
    pub bounds: Vec<TyParamBound>,
    pub default: Option<Ty>,
}

/// One clause of a `where` list.
pub enum WherePredicate {
    BoundPredicate { bound_lifetimes: Vec<LifetimeDef>, bounded_ty: Ty, bounds: Vec<TyParamBound> },
    RegionPredicate { lifetime: Lifetime, bounds: Vec<Lifetime> },
    EqPredicate { path: Path, ty: Ty },
}

} // verus!
