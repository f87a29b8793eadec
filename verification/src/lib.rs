//! Width-constrained rendering of qualified paths, generic argument lists,
//! and where-clause predicates, as used inside a source-code formatter.
//!
//! Given a parsed syntactic element and a rendering budget (maximum line
//! width plus current column offset), the renderers produce a textual
//! rendition that either fits the budget on one line or is laid out across
//! multiple lines with a deterministic layout policy, or fail outright
//! (`None`) so that the caller can retry with a different strategy.
//!
//! The parsed tree does not record whether a `::` token preceded a generic
//! argument list (`Foo<A, B>` in item position versus `Foo::<A, B>` in
//! expression position), so that distinction is recovered by inspecting the
//! raw source bytes between the rendering cursor and the list opener.

pub mod ast;
pub mod lists;
pub mod source;
pub mod types;
