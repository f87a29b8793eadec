//! The renderers: a possibly-qualified path as `::`-joined segments, one
//! segment with its generic arguments, and where-clause predicates, trait
//! bounds, lifetime declarations and type parameters.
//!
//! Every renderer takes a budget (`width`, the columns still free on the
//! line) and an `offset` (the column where its output will start). It
//! returns `None` exactly when the element cannot be rendered in that
//! space; no output is ever truncated. The specification functions below
//! state the produced text exactly, so each exec renderer is verified to
//! return precisely that text.

use vstd::prelude::*;

use crate::ast::Lifetime;
use crate::ast::LifetimeDef;
use crate::ast::Path;
use crate::ast::PathParameters;
use crate::ast::PathSegment;
use crate::ast::PolyTraitRef;
use crate::ast::QSelf;
use crate::ast::Span;
use crate::ast::TraitBoundModifier;
use crate::ast::Ty;
use crate::ast::TyParam;
use crate::ast::TyParamBound;
use crate::ast::TypeBinding;
use crate::ast::WherePredicate;
use crate::lists::ListFormatting;
use crate::lists::join_strings;
use crate::lists::join_with;
use crate::lists::lemma_append_nl_free;
use crate::lists::lemma_write_list_lines_fit;
use crate::lists::list_fits_horizontally;
use crate::lists::max_line_len;
use crate::lists::nl_free;
use crate::lists::spec_write_list;
use crate::lists::write_list;
use crate::source::RewriteContext;
use crate::source::extra_offset;
use crate::source::first_at;
use crate::source::get_path_separator;
use crate::source::has_byte;
use crate::source::sep_scan;
use crate::source::span_after;
use crate::source::spec_extra_offset;
use crate::source::spec_separator;

verus! {

// ------------------------------------------------------------------
// One generic argument of an angle-bracket list.
// ------------------------------------------------------------------
/// One item of an angle-bracket argument list: a lifetime, a type, or an
/// associated-type binding.
pub enum SegmentParam {
    LifeTime(Lifetime),
    Type(Ty),
    Binding(TypeBinding),
}

/// The text of an associated-type binding, `ident = ty`.
pub open spec fn spec_binding_text(b: TypeBinding) -> Seq<char> {
    b.ident@ + seq![' ', '=', ' '] + b.ty.text@
}

/// The text of one angle-bracket argument.
pub open spec fn spec_param_text(p: SegmentParam) -> Seq<char> {
    match p {
        SegmentParam::LifeTime(lt) => lt.text@,
        SegmentParam::Type(ty) => ty.text@,
        SegmentParam::Binding(b) => spec_binding_text(b),
    }
}

/// The source span of one angle-bracket argument.
pub open spec fn spec_param_span(p: SegmentParam) -> Span {
    match p {
        SegmentParam::LifeTime(lt) => lt.span,
        SegmentParam::Type(ty) => ty.span,
        SegmentParam::Binding(b) => b.span,
    }
}

impl SegmentParam {
    pub fn get_span(&self) -> (r: Span)
        ensures
            r == spec_param_span(*self),
    {
        match self {
            SegmentParam::LifeTime(lt) => lt.span,
            SegmentParam::Type(ty) => ty.span,
            SegmentParam::Binding(b) => b.span,
        }
    }

    /// Renders this argument to text; width-unaware, as the plain
    /// stringifier renders each piece.
    pub fn to_text(&self) -> (r: String)
        ensures
            r@ == spec_param_text(*self),
    {
        match self {
            SegmentParam::LifeTime(lt) => String::from_str(lt.text.as_str()),
            SegmentParam::Type(ty) => String::from_str(ty.text.as_str()),
            SegmentParam::Binding(b) => {
                let mut s = String::from_str(b.ident.as_str());
                s.append(" = ");
                s.append(b.ty.text.as_str());
                proof {
                    reveal_strlit(" = ");
                    assert(s@ =~= spec_binding_text(*b));
                }
                s
            },
        }
    }
}

// ------------------------------------------------------------------
// Well-formedness of a render call with respect to the source buffer.
// ------------------------------------------------------------------
/// The ordered texts of a segment's angle-bracket arguments: lifetimes,
/// then types, then associated-type bindings, each group in input order.
pub open spec fn spec_angle_param_texts(
    lifetimes: Seq<Lifetime>,
    types: Seq<Ty>,
    bindings: Seq<TypeBinding>,
) -> Seq<Seq<char>> {
    lifetimes.map_values(|l: Lifetime| l.text@) + types.map_values(|t: Ty| t.text@)
        + bindings.map_values(|b: TypeBinding| spec_binding_text(b))
}

/// Whether the segment carries a non-empty angle-bracket argument list.
pub open spec fn seg_has_angle_params(seg: PathSegment) -> bool {
    match seg.parameters {
        PathParameters::AngleBracketed { lifetimes, types, bindings } => lifetimes.len() > 0
            || types.len() > 0 || bindings.len() > 0,
        _ => false,
    }
}

/// The span of the last argument of a segment that has arguments.
pub open spec fn seg_last_param_span(seg: PathSegment) -> Span {
    match seg.parameters {
        PathParameters::AngleBracketed { lifetimes, types, bindings } => if bindings.len() > 0 {
            bindings@.last().span
        } else if types.len() > 0 {
            types@.last().span
        } else {
            lifetimes@.last().span
        },
        PathParameters::Parenthesized { inputs, .. } => inputs@.last().span,
    }
}

/// Where the rendering cursor stands after this segment: one past the end
/// of its last argument, or unchanged for a segment without arguments.
pub open spec fn seg_next_lo(seg: PathSegment, lo: int) -> int {
    match seg.parameters {
        PathParameters::AngleBracketed { .. } => if seg_has_angle_params(seg) {
            seg_last_param_span(seg).hi + 1
        } else {
            lo
        },
        PathParameters::Parenthesized { inputs, .. } => if inputs.len() > 0 {
            inputs@.last().span.hi + 1
        } else {
            lo
        },
    }
}

/// What the source buffer must provide for one segment to be rendered with
/// cursor `lo`: the list opener must occur in `[lo, hi)` ahead of the
/// cursor, the separator scan must meet a deciding byte, and the cursor
/// arithmetic must not overflow. The parser guarantees all of this for
/// spans it produced.
pub open spec fn segment_wf(seg: PathSegment, lo: int, hi: int, src: Seq<u8>) -> bool {
    match seg.parameters {
        PathParameters::AngleBracketed { .. } => seg_has_angle_params(seg) ==> {
            &&& 0 <= lo <= hi <= src.len()
            &&& has_byte(src, lo, hi, 60)
            &&& sep_scan(src, lo, first_at(src, lo, hi, 60) + 1) is Some
            &&& seg_last_param_span(seg).hi < usize::MAX
        },
        PathParameters::Parenthesized { inputs, .. } => {
            &&& inputs.len() > 0
            &&& inputs@.last().span.hi < usize::MAX
        },
    }
}

/// `segment_wf` for each segment in turn, with the cursor advanced as the
/// renderer advances it.
pub open spec fn segments_wf(segs: Seq<PathSegment>, lo: int, hi: int, src: Seq<u8>) -> bool
    decreases segs.len(),
{
    segs.len() == 0 || (segment_wf(segs[0], lo, hi, src) && segments_wf(
        segs.drop_first(),
        seg_next_lo(segs[0], lo),
        hi,
        src,
    ))
}

// ------------------------------------------------------------------
// The rendered text of one segment.
// ------------------------------------------------------------------
/// The text that rendering one segment produces, or `None` when the budget
/// runs out: the identifier, then either the angle-bracket list (with the
/// separator recovered from the source) or the parenthesized list with its
/// optional `-> output` tail.
pub open spec fn spec_segment(
    seg: PathSegment,
    lo: int,
    hi: int,
    src: Seq<u8>,
    width: int,
    offset: int,
) -> Option<Seq<char>> {
    let ident = seg.identifier@;
    if width < ident.len() {
        None
    } else {
        let w = width - ident.len();
        let off = offset + ident.len();
        match seg.parameters {
            PathParameters::AngleBracketed { lifetimes, types, bindings } => {
                if lifetimes.len() > 0 || types.len() > 0 || bindings.len() > 0 {
                    let texts = spec_angle_param_texts(lifetimes@, types@, bindings@);
                    let list_lo = first_at(src, lo, hi, 60) + 1;
                    let sep = spec_separator(sep_scan(src, lo, list_lo) == Some(true));
                    let eo = 1 + sep.len();
                    if w < eo + 1 {
                        None
                    } else {
                        Some(
                            ident + sep + seq!['<'] + spec_write_list(
                                texts,
                                (off + eo) as nat,
                                w - eo - 1,
                            ) + seq!['>'],
                        )
                    }
                } else {
                    Some(ident)
                }
            },
            PathParameters::Parenthesized { inputs, output } => {
                let out = match output {
                    Some(t) => seq![' ', '-', '>', ' '] + t.text@,
                    None => Seq::<char>::empty(),
                };
                if w < out.len() + 2 {
                    None
                } else {
                    let texts = inputs@.map_values(|t: Ty| t.text@);
                    Some(
                        ident + seq!['('] + spec_write_list(texts, (off + 1) as nat, w - out.len()
                            - 2) + seq![')'] + out,
                    )
                }
            },
        }
    }
}

proof fn lemma_map_values_push<A, B>(s: Seq<A>, f: spec_fn(A) -> B, x: A)
    ensures
        s.push(x).map_values(f) =~= s.map_values(f).push(f(x)),
{
}

proof fn lemma_take_push<A>(s: Seq<A>, i: int)
    requires
        0 <= i < s.len(),
    ensures
        s.take(i + 1) =~= s.take(i).push(s[i]),
{
}

/// Copies a lifetime node.
fn copy_lifetime(l: &Lifetime) -> (r: Lifetime)
    ensures
        r.text@ == l.text@,
        r.span == l.span,
{
    Lifetime { text: String::from_str(l.text.as_str()), span: l.span }
}

/// Copies a type node.
fn copy_ty(t: &Ty) -> (r: Ty)
    ensures
        r.text@ == t.text@,
        r.span == t.span,
{
    Ty { text: String::from_str(t.text.as_str()), span: t.span }
}

/// Copies an associated-type binding node.
fn copy_binding(b: &TypeBinding) -> (r: TypeBinding)
    ensures
        r.ident@ == b.ident@,
        r.ty.text@ == b.ty.text@,
        r.ty.span == b.ty.span,
        r.span == b.span,
{
    TypeBinding { ident: String::from_str(b.ident.as_str()), ty: copy_ty(&b.ty), span: b.span }
}

/// Renders one path segment. The cursor `span_lo` must stand at or before
/// the start of the segment and past the end of any previous segment's
/// arguments; `span_hi` is the end of the whole path. When the segment has
/// arguments, the cursor is advanced past the end of the last one, so that
/// the invariant holds again for the next segment.
pub fn rewrite_segment(
    segment: &PathSegment,
    span_lo: &mut usize,
    span_hi: usize,
    context: &RewriteContext,
    width: usize,
    offset: usize,
) -> (r: Option<String>)
    requires
        segment_wf(*segment, *old(span_lo) as int, span_hi as int, context.src@),
        offset + width <= usize::MAX,
    ensures
        (r is Some) == (spec_segment(
            *segment,
            *old(span_lo) as int,
            span_hi as int,
            context.src@,
            width as int,
            offset as int,
        ) is Some),
        r is Some ==> r.unwrap()@ == spec_segment(
            *segment,
            *old(span_lo) as int,
            span_hi as int,
            context.src@,
            width as int,
            offset as int,
        ).unwrap(),
        r is Some ==> *final(span_lo) as int == seg_next_lo(*segment, *old(span_lo) as int),
        r is None ==> *final(span_lo) == *old(span_lo),
{
    let ident_len = segment.identifier.as_str().unicode_len();
    if width < ident_len {
        return None;
    }
    let width = width - ident_len;
    let offset = offset + ident_len;
    match &segment.parameters {
        PathParameters::AngleBracketed { lifetimes, types, bindings } => {
            if lifetimes.len() > 0 || types.len() > 0 || bindings.len() > 0 {
                let ghost all_texts = spec_angle_param_texts(lifetimes@, types@, bindings@);
                let mut param_list: Vec<SegmentParam> = Vec::new();
                let ghost lt_texts = lifetimes@.map_values(|l: Lifetime| l.text@);
                let ghost ty_texts = types@.map_values(|t: Ty| t.text@);
                let ghost bd_texts = bindings@.map_values(|b: TypeBinding| spec_binding_text(b));
                let mut i: usize = 0;
                while i < lifetimes.len()
                    invariant
                        i <= lifetimes.len(),
                        lt_texts == lifetimes@.map_values(|l: Lifetime| l.text@),
                        lt_texts.len() == lifetimes@.len(),
                        param_list@.map_values(|p: SegmentParam| spec_param_text(p))
                            == lt_texts.take(i as int),
                    decreases lifetimes.len() - i,
                {
                    param_list.push(SegmentParam::LifeTime(copy_lifetime(&lifetimes[i])));
                    proof {
                        lemma_map_values_push(
                            param_list@.drop_last(),
                            |p: SegmentParam| spec_param_text(p),
                            param_list@.last(),
                        );
                        assert(param_list@.drop_last() =~= param_list@.take(
                            param_list@.len() - 1,
                        ));
                        lemma_take_push(lt_texts, i as int);
                        assert(param_list@.map_values(|p: SegmentParam| spec_param_text(p))
                            =~= lt_texts.take(i + 1));
                    }
                    i = i + 1;
                }
                let mut i: usize = 0;
                while i < types.len()
                    invariant
                        i <= types.len(),
                        lt_texts == lifetimes@.map_values(|l: Lifetime| l.text@),
                        ty_texts == types@.map_values(|t: Ty| t.text@),
                        ty_texts.len() == types@.len(),
                        param_list@.map_values(|p: SegmentParam| spec_param_text(p)) == lt_texts
                            + ty_texts.take(i as int),
                    decreases types.len() - i,
                {
                    param_list.push(SegmentParam::Type(copy_ty(&types[i])));
                    proof {
                        lemma_map_values_push(
                            param_list@.drop_last(),
                            |p: SegmentParam| spec_param_text(p),
                            param_list@.last(),
                        );
                        assert(param_list@.drop_last() =~= param_list@.take(
                            param_list@.len() - 1,
                        ));
                        lemma_take_push(ty_texts, i as int);
                        assert(ty_texts[i as int] == types@[i as int].text@);
                        assert((lt_texts + ty_texts.take(i as int)).push(ty_texts[i as int])
                            =~= lt_texts + ty_texts.take(i as int).push(ty_texts[i as int]));
                        assert(param_list@.map_values(|p: SegmentParam| spec_param_text(p))
                            =~= lt_texts + ty_texts.take(i + 1));
                    }
                    i = i + 1;
                }
                let mut i: usize = 0;
                while i < bindings.len()
                    invariant
                        i <= bindings.len(),
                        lt_texts == lifetimes@.map_values(|l: Lifetime| l.text@),
                        ty_texts == types@.map_values(|t: Ty| t.text@),
                        bd_texts == bindings@.map_values(|b: TypeBinding| spec_binding_text(b)),
                        bd_texts.len() == bindings@.len(),
                        param_list@.map_values(|p: SegmentParam| spec_param_text(p)) == lt_texts
                            + ty_texts + bd_texts.take(i as int),
                    decreases bindings.len() - i,
                {
                    let b = copy_binding(&bindings[i]);
                    proof {
                        assert(spec_binding_text(b) == spec_binding_text(bindings@[i as int]));
                    }
                    param_list.push(SegmentParam::Binding(b));
                    proof {
                        lemma_map_values_push(
                            param_list@.drop_last(),
                            |p: SegmentParam| spec_param_text(p),
                            param_list@.last(),
                        );
                        assert(param_list@.drop_last() =~= param_list@.take(
                            param_list@.len() - 1,
                        ));
                        lemma_take_push(bd_texts, i as int);
                        assert(bd_texts[i as int] == spec_binding_text(bindings@[i as int]));
                        assert((lt_texts + ty_texts + bd_texts.take(i as int)).push(
                            bd_texts[i as int],
                        ) =~= lt_texts + ty_texts + bd_texts.take(i as int).push(
                            bd_texts[i as int],
                        ));
                        assert(param_list@.map_values(|p: SegmentParam| spec_param_text(p))
                            =~= lt_texts + ty_texts + bd_texts.take(i + 1));
                    }
                    i = i + 1;
                }
                proof {
                    assert(lt_texts.take(lifetimes@.len() as int) =~= lt_texts);
                    assert(ty_texts.take(types@.len() as int) =~= ty_texts);
                    assert(bd_texts.take(bindings@.len() as int) =~= bd_texts);
                    assert(param_list@.map_values(|p: SegmentParam| spec_param_text(p))
                        == all_texts);
                }
                // the cursor for the next segment: one past the last argument
                let next_span_lo = if bindings.len() > 0 {
                    bindings[bindings.len() - 1].span.hi + 1
                } else if types.len() > 0 {
                    types[types.len() - 1].span.hi + 1
                } else {
                    lifetimes[lifetimes.len() - 1].span.hi + 1
                };
                let list_lo = span_after(Span { lo: *span_lo, hi: span_hi }, 60, context);
                let separator = get_path_separator(context, *span_lo, list_lo);
                let sep_len = separator.unicode_len();
                // 1 for <
                let extra = 1 + sep_len;
                // 1 for >
                if width < extra + 1 {
                    return None;
                }
                let list_width = width - extra - 1;
                let mut items: Vec<String> = Vec::new();
                let mut k: usize = 0;
                while k < param_list.len()
                    invariant
                        k <= param_list.len(),
                        param_list@.map_values(|p: SegmentParam| spec_param_text(p)) == all_texts,
                        all_texts.len() == param_list@.len(),
                        items@.map_values(|s: String| s@) == all_texts.take(k as int),
                    decreases param_list.len() - k,
                {
                    items.push(param_list[k].to_text());
                    proof {
                        lemma_take_push(all_texts, k as int);
                        assert(items@.map_values(|s: String| s@) =~= all_texts.take(k + 1));
                    }
                    k = k + 1;
                }
                proof {
                    assert(all_texts.take(param_list@.len() as int) =~= all_texts);
                }
                let fmt = ListFormatting { indent: offset + extra, width: list_width };
                // update pos
                *span_lo = next_span_lo;
                let list_str = write_list(&items, &fmt);
                let mut result = String::from_str(segment.identifier.as_str());
                result.append(separator);
                result.append("<");
                result.append(list_str.as_str());
                result.append(">");
                proof {
                    reveal_strlit("<");
                    reveal_strlit(">");
                    assert(result@ =~= spec_segment(
                        *segment,
                        *old(span_lo) as int,
                        span_hi as int,
                        context.src@,
                        (width + ident_len) as int,
                        (offset - ident_len) as int,
                    ).unwrap());
                }
                Some(result)
            } else {
                Some(String::from_str(segment.identifier.as_str()))
            }
        },
        PathParameters::Parenthesized { inputs, output } => {
            let output_str = match output {
                Some(ty) => {
                    let mut s = String::from_str(" -> ");
                    s.append(ty.text.as_str());
                    proof {
                        reveal_strlit(" -> ");
                        assert(s@ =~= seq![' ', '-', '>', ' '] + ty.text@);
                    }
                    s
                },
                None => String::new(),
            };
            let out_len = output_str.as_str().unicode_len();
            // 2 for ()
            if width < 2 {
                return None;
            }
            if out_len > width - 2 {
                return None;
            }
            let budget = width - 2 - out_len;
            let ghost in_texts = inputs@.map_values(|t: Ty| t.text@);
            let mut items: Vec<String> = Vec::new();
            let mut k: usize = 0;
            while k < inputs.len()
                invariant
                    k <= inputs.len(),
                    in_texts == inputs@.map_values(|t: Ty| t.text@),
                    in_texts.len() == inputs@.len(),
                    items@.map_values(|s: String| s@) == in_texts.take(k as int),
                decreases inputs.len() - k,
            {
                items.push(String::from_str(inputs[k].text.as_str()));
                proof {
                    lemma_take_push(in_texts, k as int);
                    assert(items@.map_values(|s: String| s@) =~= in_texts.take(k + 1));
                }
                k = k + 1;
            }
            proof {
                assert(in_texts.take(inputs@.len() as int) =~= in_texts);
            }
            // 1 for (
            let fmt = ListFormatting { indent: offset + 1, width: budget };
            // update pos
            *span_lo = inputs[inputs.len() - 1].span.hi + 1;
            let list_str = write_list(&items, &fmt);
            let mut result = String::from_str(segment.identifier.as_str());
            result.append("(");
            result.append(list_str.as_str());
            result.append(")");
            result.append(output_str.as_str());
            proof {
                reveal_strlit("(");
                reveal_strlit(")");
                assert(result@ =~= spec_segment(
                    *segment,
                    *old(span_lo) as int,
                    span_hi as int,
                    context.src@,
                    (width + ident_len) as int,
                    (offset - ident_len) as int,
                ).unwrap());
            }
            Some(result)
        },
    }
}

// ------------------------------------------------------------------
// The rendered text of a run of segments, and of a whole path.
// ------------------------------------------------------------------
/// The text that rendering the segments onto `buffer` produces: each
/// segment is rendered with the budget left on the current output line and
/// joined to the previous ones with `::`, the cursor advancing as each
/// segment consumes source. `None` as soon as any step runs out of budget.
pub open spec fn spec_segments(
    buffer: Seq<char>,
    segs: Seq<PathSegment>,
    lo: int,
    hi: int,
    src: Seq<u8>,
    width: int,
    offset: int,
    first: bool,
) -> Option<Seq<char>>
    decreases segs.len(),
{
    if segs.len() == 0 {
        Some(buffer)
    } else {
        let eo = spec_extra_offset(buffer, offset);
        if width < eo {
            None
        } else {
            match spec_segment(segs[0], lo, hi, src, width - eo, offset + eo) {
                None => None,
                Some(s) => {
                    let joined = if first {
                        buffer + s
                    } else {
                        buffer + seq![':', ':'] + s
                    };
                    spec_segments(
                        joined,
                        segs.drop_first(),
                        seg_next_lo(segs[0], lo),
                        hi,
                        src,
                        width,
                        offset,
                        false,
                    )
                },
            }
        }
    }
}

/// Renders `segments[from..to]` onto `buffer`, joining consecutive
/// segments with `::`. Each segment gets the budget that remains after the
/// text already emitted on the current output line.
#[verifier::loop_isolation(false)]
pub fn rewrite_path_segments(
    buffer: String,
    segments: &Vec<PathSegment>,
    from: usize,
    to: usize,
    span_lo: usize,
    span_hi: usize,
    context: &RewriteContext,
    width: usize,
    offset: usize,
) -> (r: Option<String>)
    requires
        from <= to <= segments.len(),
        segments_wf(
            segments@.subrange(from as int, to as int),
            span_lo as int,
            span_hi as int,
            context.src@,
        ),
        offset + width <= usize::MAX,
    ensures
        (r is Some) == (spec_segments(
            buffer@,
            segments@.subrange(from as int, to as int),
            span_lo as int,
            span_hi as int,
            context.src@,
            width as int,
            offset as int,
            true,
        ) is Some),
        r is Some ==> r.unwrap()@ == spec_segments(
            buffer@,
            segments@.subrange(from as int, to as int),
            span_lo as int,
            span_hi as int,
            context.src@,
            width as int,
            offset as int,
            true,
        ).unwrap(),
{
    let ghost target = spec_segments(
        buffer@,
        segments@.subrange(from as int, to as int),
        span_lo as int,
        span_hi as int,
        context.src@,
        width as int,
        offset as int,
        true,
    );
    let mut buffer = buffer;
    let mut lo = span_lo;
    let mut first = true;
    let mut i = from;
    while i < to
        invariant
            from <= i <= to <= segments.len(),
            offset + width <= usize::MAX,
            segments_wf(
                segments@.subrange(i as int, to as int),
                lo as int,
                span_hi as int,
                context.src@,
            ),
            spec_segments(
                buffer@,
                segments@.subrange(i as int, to as int),
                lo as int,
                span_hi as int,
                context.src@,
                width as int,
                offset as int,
                first,
            ) == target,
        decreases to - i,
    {
        let ghost segs_now = segments@.subrange(i as int, to as int);
        let ghost old_lo = lo as int;
        let ghost old_first = first;
        let ghost prev = buffer@;
        proof {
            assert(segs_now[0] == segments@[i as int]);
            assert(segs_now.drop_first() =~= segments@.subrange(i as int + 1, to as int));
        }
        let extra = extra_offset(buffer.as_str(), offset);
        if width < extra {
            proof {
                assert(spec_segments(
                    prev,
                    segs_now,
                    old_lo,
                    span_hi as int,
                    context.src@,
                    width as int,
                    offset as int,
                    old_first,
                ) is None);
            }
            return None;
        }
        let remaining_width = width - extra;
        let new_offset = offset + extra;
        let segment_string = rewrite_segment(
            &segments[i],
            &mut lo,
            span_hi,
            context,
            remaining_width,
            new_offset,
        );
        match segment_string {
            None => {
                proof {
                    assert(spec_segments(
                        prev,
                        segs_now,
                        old_lo,
                        span_hi as int,
                        context.src@,
                        width as int,
                        offset as int,
                        old_first,
                    ) is None);
                }
                return None;
            },
            Some(s) => {
                if first {
                    first = false;
                } else {
                    buffer.append("::");
                }
                buffer.append(s.as_str());
                proof {
                    reveal_strlit("::");
                    assert(buffer@ =~= if old_first {
                        prev + s@
                    } else {
                        prev + seq![':', ':'] + s@
                    });
                    assert(spec_segments(
                        prev,
                        segs_now,
                        old_lo,
                        span_hi as int,
                        context.src@,
                        width as int,
                        offset as int,
                        old_first,
                    ) == spec_segments(
                        buffer@,
                        segs_now.drop_first(),
                        seg_next_lo(segs_now[0], old_lo),
                        span_hi as int,
                        context.src@,
                        width as int,
                        offset as int,
                        false,
                    ));
                }
            },
        }
        i = i + 1;
    }
    proof {
        assert(segments@.subrange(i as int, to as int).len() == 0);
    }
    Some(buffer)
}

/// What the source buffer and the tree must provide for a whole path
/// render: the qualified-self index within bounds, and each run of
/// segments well-formed from its starting cursor.
pub open spec fn path_wf(src: Seq<u8>, qself: Option<QSelf>, path: Path) -> bool {
    match qself {
        Some(q) => {
            &&& q.position <= path.segments.len()
            &&& q.ty.span.hi < usize::MAX
            &&& segments_wf(
                path.segments@.take(q.position as int),
                path.span.lo as int,
                path.span.hi as int,
                src,
            )
            &&& segments_wf(
                path.segments@.skip(q.position as int),
                q.ty.span.hi + 1,
                path.span.hi as int,
                src,
            )
        },
        None => segments_wf(path.segments@, path.span.lo as int, path.span.hi as int, src),
    }
}

/// The text that rendering a possibly-qualified path produces, or `None`
/// when the budget runs out. With a qualified self the prefix
/// `<Type as Seg0::..::SegK` is rendered first with three columns reserved
/// for the closing `>::`, and the remaining segments follow with the
/// cursor moved past the qualifying type.
pub open spec fn spec_rewrite_path(
    src: Seq<u8>,
    qself: Option<QSelf>,
    path: Path,
    width: int,
    offset: int,
) -> Option<Seq<char>> {
    let buf0: Seq<char> = if path.global {
        seq![':', ':']
    } else {
        Seq::<char>::empty()
    };
    match qself {
        None => {
            let eo = spec_extra_offset(buf0, offset);
            if width < eo {
                None
            } else {
                spec_segments(
                    buf0,
                    path.segments@,
                    path.span.lo as int,
                    path.span.hi as int,
                    src,
                    width - eo,
                    offset + eo,
                    true,
                )
            }
        },
        Some(q) => {
            let buf1 = buf0 + seq!['<'] + q.ty.text@ + seq![' ', 'a', 's', ' '];
            let eo1 = spec_extra_offset(buf1, offset);
            if width < eo1 + 3 {
                None
            } else {
                match spec_segments(
                    buf1,
                    path.segments@.take(q.position as int),
                    path.span.lo as int,
                    path.span.hi as int,
                    src,
                    width - eo1 - 3,
                    offset + eo1,
                    true,
                ) {
                    None => None,
                    Some(prefix) => {
                        let buf2 = prefix + seq!['>', ':', ':'];
                        let eo2 = spec_extra_offset(buf2, offset);
                        if width < eo2 {
                            None
                        } else {
                            spec_segments(
                                buf2,
                                path.segments@.skip(q.position as int),
                                q.ty.span.hi + 1,
                                path.span.hi as int,
                                src,
                                width - eo2,
                                offset + eo2,
                                true,
                            )
                        }
                    },
                }
            }
        },
    }
}

/// The spec value of an optional borrowed argument.
pub open spec fn deref_opt<T>(o: Option<&T>) -> Option<T> {
    match o {
        Some(x) => Some(*x),
        None => None,
    }
}

/// Renders a possibly-qualified path. Does not wrap on simple segments:
/// line breaks come only from argument lists that fall back to the
/// one-item-per-line layout.
#[verifier::rlimit(60)]
pub fn rewrite_path(
    context: &RewriteContext,
    qself: Option<&QSelf>,
    path: &Path,
    width: usize,
    offset: usize,
) -> (r: Option<String>)
    requires
        path_wf(context.src@, deref_opt(qself), *path),
        offset + width <= usize::MAX,
    ensures
        (r is Some) == (spec_rewrite_path(
            context.src@,
            deref_opt(qself),
            *path,
            width as int,
            offset as int,
        ) is Some),
        r is Some ==> r.unwrap()@ == spec_rewrite_path(
            context.src@,
            deref_opt(qself),
            *path,
            width as int,
            offset as int,
        ).unwrap(),
{
    let ghost src = context.src@;
    let ghost spec_r = spec_rewrite_path(
        src,
        deref_opt(qself),
        *path,
        width as int,
        offset as int,
    );
    let ghost buf0: Seq<char> = if path.global {
        seq![':', ':']
    } else {
        Seq::<char>::empty()
    };
    let mut result = if path.global {
        let r = String::from_str("::");
        proof {
            reveal_strlit("::");
            assert(r@ =~= seq![':', ':']);
        }
        r
    } else {
        String::new()
    };
    proof {
        assert(result@ == buf0);
    }
    let hi = path.span.hi;
    match qself {
        Some(q) => {
            let skip_count = q.position;
            result.append("<");
            result.append(q.ty.text.as_str());
            result.append(" as ");
            let ghost buf1 = buf0 + seq!['<'] + q.ty.text@ + seq![' ', 'a', 's', ' '];
            proof {
                reveal_strlit("<");
                reveal_strlit(" as ");
                assert(result@ =~= buf1);
            }
            let extra = extra_offset(result.as_str(), offset);
            // 3 = ">::".len()
            if width < extra {
                proof {
                    assert(spec_r is None);
                }
                return None;
            }
            if width - extra < 3 {
                proof {
                    assert(spec_r is None);
                }
                return None;
            }
            let budget = width - extra - 3;
            proof {
                assert(path.segments@.subrange(0, skip_count as int) =~= path.segments@.take(
                    skip_count as int,
                ));
            }
            let ghost spec_prefix = spec_segments(
                buf1,
                path.segments@.take(skip_count as int),
                path.span.lo as int,
                path.span.hi as int,
                src,
                budget as int,
                (offset + extra) as int,
                true,
            );
            match rewrite_path_segments(
                result,
                &path.segments,
                0,
                skip_count,
                path.span.lo,
                hi,
                context,
                budget,
                offset + extra,
            ) {
                None => {
                    proof {
                        assert(spec_prefix is None);
                        assert(spec_r is None);
                    }
                    None
                },
                Some(mut prefix) => {
                    let ghost buf2 = spec_prefix.unwrap() + seq!['>', ':', ':'];
                    prefix.append(">::");
                    proof {
                        reveal_strlit(">::");
                        assert(prefix@ =~= buf2);
                    }
                    let span_lo = q.ty.span.hi + 1;
                    let extra2 = extra_offset(prefix.as_str(), offset);
                    if width < extra2 {
                        proof {
                            assert(spec_r is None);
                        }
                        return None;
                    }
                    proof {
                        assert(path.segments@.subrange(
                            skip_count as int,
                            path.segments@.len() as int,
                        ) =~= path.segments@.skip(skip_count as int));
                        assert(spec_r == spec_segments(
                            buf2,
                            path.segments@.skip(skip_count as int),
                            q.ty.span.hi + 1,
                            path.span.hi as int,
                            src,
                            width - extra2,
                            offset + extra2,
                            true,
                        ));
                    }
                    rewrite_path_segments(
                        prefix,
                        &path.segments,
                        skip_count,
                        path.segments.len(),
                        span_lo,
                        hi,
                        context,
                        width - extra2,
                        offset + extra2,
                    )
                },
            }
        },
        None => {
            let extra = extra_offset(result.as_str(), offset);
            if width < extra {
                proof {
                    assert(spec_r is None);
                }
                return None;
            }
            proof {
                assert(path.segments@.subrange(0, path.segments@.len() as int)
                    =~= path.segments@);
                assert(spec_r == spec_segments(
                    buf0,
                    path.segments@,
                    path.span.lo as int,
                    path.span.hi as int,
                    src,
                    width - extra,
                    offset + extra,
                    true,
                ));
            }
            rewrite_path_segments(
                result,
                &path.segments,
                0,
                path.segments.len(),
                path.span.lo,
                hi,
                context,
                width - extra,
                offset + extra,
            )
        },
    }
}

impl Path {
    /// Renders this path without a qualified self.
    pub fn rewrite(&self, context: &RewriteContext, width: usize, offset: usize) -> (r: Option<
        String,
    >)
        requires
            path_wf(context.src@, None, *self),
            offset + width <= usize::MAX,
        ensures
            (r is Some) == (spec_rewrite_path(
                context.src@,
                None,
                *self,
                width as int,
                offset as int,
            ) is Some),
            r is Some ==> r.unwrap()@ == spec_rewrite_path(
                context.src@,
                None,
                *self,
                width as int,
                offset as int,
            ).unwrap(),
    {
        rewrite_path(context, None, self, width, offset)
    }
}

// ------------------------------------------------------------------
// Lifetime declarations, trait bounds, predicates, type parameters.
// ------------------------------------------------------------------
/// The text of a lifetime declaration: the lifetime alone, or
/// `'l: 'b1 + 'b2 + ...` when it has bounds. Always single-line.
pub open spec fn spec_lifetime_def(ld: LifetimeDef) -> Seq<char> {
    if ld.bounds.len() == 0 {
        ld.lifetime.text@
    } else {
        ld.lifetime.text@ + seq![':', ' '] + join_with(
            ld.bounds@.map_values(|l: Lifetime| l.text@),
            seq![' ', '+', ' '],
        )
    }
}

impl LifetimeDef {
    /// Renders this lifetime declaration. Width-unaware: a lifetime name
    /// plus its bounds is assumed never to need wrapping, so this always
    /// succeeds.
    pub fn rewrite(&self, _context: &RewriteContext, _width: usize, _offset: usize) -> (r: Option<
        String,
    >)
        ensures
            r is Some,
            r.unwrap()@ == spec_lifetime_def(*self),
    {
        if self.bounds.len() == 0 {
            Some(String::from_str(self.lifetime.text.as_str()))
        } else {
            let ghost bound_texts = self.bounds@.map_values(|l: Lifetime| l.text@);
            let mut texts: Vec<String> = Vec::new();
            let mut i: usize = 0;
            while i < self.bounds.len()
                invariant
                    i <= self.bounds.len(),
                    bound_texts == self.bounds@.map_values(|l: Lifetime| l.text@),
                    bound_texts.len() == self.bounds@.len(),
                    texts@.map_values(|s: String| s@) == bound_texts.take(i as int),
                decreases self.bounds.len() - i,
            {
                texts.push(String::from_str(self.bounds[i].text.as_str()));
                proof {
                    lemma_take_push(bound_texts, i as int);
                    assert(texts@.map_values(|s: String| s@) =~= bound_texts.take(i + 1));
                }
                i = i + 1;
            }
            proof {
                assert(bound_texts.take(self.bounds@.len() as int) =~= bound_texts);
            }
            let joined = join_strings(&texts, " + ");
            let mut r = String::from_str(self.lifetime.text.as_str());
            r.append(": ");
            r.append(joined.as_str());
            proof {
                reveal_strlit(": ");
                reveal_strlit(" + ");
                assert(" + "@ =~= seq![' ', '+', ' ']);
                assert(r@ =~= spec_lifetime_def(*self));
            }
            Some(r)
        }
    }
}

/// Renders each lifetime declaration of a `for<...>` binder; each render
/// gets the full `width` and `offset`, as the declarations are
/// width-unaware.
fn rewrite_lifetime_defs(
    context: &RewriteContext,
    defs: &Vec<LifetimeDef>,
    width: usize,
    offset: usize,
) -> (r: Vec<String>)
    ensures
        r@.map_values(|s: String| s@) == defs@.map_values(|ld: LifetimeDef| spec_lifetime_def(ld)),
{
    let ghost def_texts = defs@.map_values(|ld: LifetimeDef| spec_lifetime_def(ld));
    let mut out: Vec<String> = Vec::new();
    let mut i: usize = 0;
    while i < defs.len()
        invariant
            i <= defs.len(),
            def_texts == defs@.map_values(|ld: LifetimeDef| spec_lifetime_def(ld)),
            def_texts.len() == defs@.len(),
            out@.map_values(|s: String| s@) == def_texts.take(i as int),
        decreases defs.len() - i,
    {
        let s = defs[i].rewrite(context, width, offset);
        out.push(s.unwrap());
        proof {
            lemma_take_push(def_texts, i as int);
            assert(out@.map_values(|s: String| s@) =~= def_texts.take(i + 1));
        }
        i = i + 1;
    }
    proof {
        assert(def_texts.take(defs@.len() as int) =~= def_texts);
    }
    out
}

/// Whether the paths inside a poly trait reference are well-formed for the
/// source buffer.
pub open spec fn poly_trait_ref_wf(src: Seq<u8>, p: PolyTraitRef) -> bool {
    path_wf(src, None, p.trait_ref.path)
}

/// The text of a higher-ranked trait reference: the path alone, or
/// `for<binders> path` with six columns plus the binder text reserved
/// before the path is rendered.
pub open spec fn spec_poly_trait_ref(
    src: Seq<u8>,
    p: PolyTraitRef,
    width: int,
    offset: int,
) -> Option<Seq<char>> {
    if p.bound_lifetimes.len() > 0 {
        let lifetime_str = join_with(
            p.bound_lifetimes@.map_values(|ld: LifetimeDef| spec_lifetime_def(ld)),
            seq![',', ' '],
        );
        let eo = lifetime_str.len() + 6;
        if width < eo {
            None
        } else {
            match spec_rewrite_path(src, None, p.trait_ref.path, width - eo, offset + eo) {
                None => None,
                Some(path_str) => Some(
                    seq!['f', 'o', 'r', '<'] + lifetime_str + seq!['>', ' '] + path_str,
                ),
            }
        }
    } else {
        spec_rewrite_path(src, None, p.trait_ref.path, width, offset)
    }
}

impl PolyTraitRef {
    /// Renders this trait reference, with its `for<...>` binder when it
    /// has one.
    pub fn rewrite(&self, context: &RewriteContext, width: usize, offset: usize) -> (r: Option<
        String,
    >)
        requires
            poly_trait_ref_wf(context.src@, *self),
            offset + width <= usize::MAX,
        ensures
            (r is Some) == (spec_poly_trait_ref(
                context.src@,
                *self,
                width as int,
                offset as int,
            ) is Some),
            r is Some ==> r.unwrap()@ == spec_poly_trait_ref(
                context.src@,
                *self,
                width as int,
                offset as int,
            ).unwrap(),
    {
        if self.bound_lifetimes.len() > 0 {
            let lds = rewrite_lifetime_defs(context, &self.bound_lifetimes, width, offset);
            let lifetime_str = join_strings(&lds, ", ");
            proof {
                reveal_strlit(", ");
                assert(", "@ =~= seq![',', ' ']);
            }
            let llen = lifetime_str.as_str().unicode_len();
            // 6 is "for<> ".len()
            if width < 6 {
                return None;
            }
            if llen > width - 6 {
                return None;
            }
            let extra = llen + 6;
            let max_path_width = width - extra;
            match rewrite_path(context, None, &self.trait_ref.path, max_path_width, offset
                + extra) {
                None => None,
                Some(path_str) => {
                    let mut res = String::from_str("for<");
                    res.append(lifetime_str.as_str());
                    res.append("> ");
                    res.append(path_str.as_str());
                    proof {
                        reveal_strlit("for<");
                        reveal_strlit("> ");
                        assert(res@ =~= spec_poly_trait_ref(
                            context.src@,
                            *self,
                            width as int,
                            offset as int,
                        ).unwrap());
                    }
                    Some(res)
                },
            }
        } else {
            rewrite_path(context, None, &self.trait_ref.path, width, offset)
        }
    }
}

/// Whether the paths inside one bound are well-formed for the source
/// buffer.
pub open spec fn ty_param_bound_wf(src: Seq<u8>, b: TyParamBound) -> bool {
    match b {
        TyParamBound::TraitTyParamBound(p, _) => poly_trait_ref_wf(src, p),
        TyParamBound::RegionTyParamBound(_) => true,
    }
}

/// The text of one bound: the trait reference itself, `?` plus the trait
/// reference rendered with one column less, or a lifetime's text.
pub open spec fn spec_ty_param_bound(
    src: Seq<u8>,
    b: TyParamBound,
    width: int,
    offset: int,
) -> Option<Seq<char>> {
    match b {
        TyParamBound::TraitTyParamBound(p, TraitBoundModifier::Plain) => spec_poly_trait_ref(
            src,
            p,
            width,
            offset,
        ),
        TyParamBound::TraitTyParamBound(p, TraitBoundModifier::Maybe) => {
            if width < 1 {
                None
            } else {
                match spec_poly_trait_ref(src, p, width - 1, offset + 1) {
                    None => None,
                    Some(s) => Some(seq!['?'] + s),
                }
            }
        },
        TyParamBound::RegionTyParamBound(l) => Some(l.text@),
    }
}

impl TyParamBound {
    /// Renders one bound of a type parameter. A relaxed (`?`) bound
    /// consumes exactly one width unit beyond the trait reference's own
    /// rendering.
    pub fn rewrite(&self, context: &RewriteContext, width: usize, offset: usize) -> (r: Option<
        String,
    >)
        requires
            ty_param_bound_wf(context.src@, *self),
            offset + width <= usize::MAX,
        ensures
            (r is Some) == (spec_ty_param_bound(
                context.src@,
                *self,
                width as int,
                offset as int,
            ) is Some),
            r is Some ==> r.unwrap()@ == spec_ty_param_bound(
                context.src@,
                *self,
                width as int,
                offset as int,
            ).unwrap(),
    {
        match self {
            TyParamBound::TraitTyParamBound(tref, TraitBoundModifier::Plain) => tref.rewrite(
                context,
                width,
                offset,
            ),
            TyParamBound::TraitTyParamBound(tref, TraitBoundModifier::Maybe) => {
                if width < 1 {
                    return None;
                }
                match tref.rewrite(context, width - 1, offset + 1) {
                    None => None,
                    Some(s) => {
                        let mut r = String::from_str("?");
                        r.append(s.as_str());
                        proof {
                            reveal_strlit("?");
                            assert(r@ =~= seq!['?'] + s@);
                        }
                        Some(r)
                    },
                }
            },
            TyParamBound::RegionTyParamBound(l) => Some(String::from_str(l.text.as_str())),
        }
    }
}

/// Whether each bound of a list is well-formed for the source buffer.
pub open spec fn bounds_wf(src: Seq<u8>, bs: Seq<TyParamBound>) -> bool {
    forall|i: int| 0 <= i < bs.len() ==> ty_param_bound_wf(src, bs[i])
}

/// The texts of a list of bounds, each rendered with the same budget, or
/// `None` as soon as one of them fails.
pub open spec fn spec_bounds_texts(
    src: Seq<u8>,
    bs: Seq<TyParamBound>,
    width: int,
    offset: int,
) -> Option<Seq<Seq<char>>>
    decreases bs.len(),
{
    if bs.len() == 0 {
        Some(Seq::<Seq<char>>::empty())
    } else {
        match spec_bounds_texts(src, bs.drop_last(), width, offset) {
            None => None,
            Some(pre) => match spec_ty_param_bound(src, bs.last(), width, offset) {
                None => None,
                Some(t) => Some(pre.push(t)),
            },
        }
    }
}

proof fn lemma_bounds_texts_step(src: Seq<u8>, bs: Seq<TyParamBound>, width: int, offset: int, i: int)
    requires
        0 <= i < bs.len(),
    ensures
        spec_bounds_texts(src, bs.take(i + 1), width, offset) == match spec_bounds_texts(
            src,
            bs.take(i),
            width,
            offset,
        ) {
            None => None,
            Some(pre) => match spec_ty_param_bound(src, bs[i], width, offset) {
                None => None,
                Some(t) => Some(pre.push(t)),
            },
        },
{
    let t = bs.take(i + 1);
    assert(t.drop_last() =~= bs.take(i));
    assert(t.last() == bs[i]);
}

proof fn lemma_bounds_texts_prefix_none(
    src: Seq<u8>,
    bs: Seq<TyParamBound>,
    width: int,
    offset: int,
    i: int,
)
    requires
        0 <= i <= bs.len(),
        spec_bounds_texts(src, bs.take(i), width, offset) is None,
    ensures
        spec_bounds_texts(src, bs, width, offset) is None,
    decreases bs.len() - i,
{
    if i == bs.len() {
        assert(bs.take(i) =~= bs);
    } else {
        lemma_bounds_texts_step(src, bs, width, offset, i);
        lemma_bounds_texts_prefix_none(src, bs, width, offset, i + 1);
    }
}

/// Renders each bound of a list with the same budget, failing as soon as
/// one of them does.
#[verifier::loop_isolation(false)]
fn rewrite_bounds(
    context: &RewriteContext,
    bounds: &Vec<TyParamBound>,
    width: usize,
    offset: usize,
) -> (r: Option<Vec<String>>)
    requires
        bounds_wf(context.src@, bounds@),
        offset + width <= usize::MAX,
    ensures
        (r is Some) == (spec_bounds_texts(
            context.src@,
            bounds@,
            width as int,
            offset as int,
        ) is Some),
        r is Some ==> r.unwrap()@.map_values(|s: String| s@) == spec_bounds_texts(
            context.src@,
            bounds@,
            width as int,
            offset as int,
        ).unwrap(),
{
    let mut out: Vec<String> = Vec::new();
    let mut i: usize = 0;
    while i < bounds.len()
        invariant
            i <= bounds.len(),
            spec_bounds_texts(context.src@, bounds@.take(i as int), width as int, offset as int)
                == Some(out@.map_values(|s: String| s@)),
        decreases bounds.len() - i,
    {
        proof {
            lemma_bounds_texts_step(context.src@, bounds@, width as int, offset as int, i as int);
        }
        match bounds[i].rewrite(context, width, offset) {
            None => {
                proof {
                    lemma_bounds_texts_prefix_none(
                        context.src@,
                        bounds@,
                        width as int,
                        offset as int,
                        i as int + 1,
                    );
                }
                return None;
            },
            Some(s) => {
                out.push(s);
                proof {
                    assert(out@.map_values(|s: String| s@) =~= out@.drop_last().map_values(
                        |s: String| s@,
                    ).push(out@.last()@));
                }
            },
        }
        i = i + 1;
    }
    proof {
        assert(bounds@.take(bounds@.len() as int) =~= bounds@);
    }
    Some(out)
}

/// Whether the paths inside a predicate are well-formed for the source
/// buffer.
pub open spec fn where_predicate_wf(src: Seq<u8>, p: WherePredicate) -> bool {
    match p {
        WherePredicate::BoundPredicate { bounds, .. } => bounds_wf(src, bounds@),
        WherePredicate::RegionPredicate { .. } => true,
        WherePredicate::EqPredicate { path, .. } => path_wf(src, None, path),
    }
}

/// The text of a bound predicate, or `None` when the budget runs out:
/// the binder text, the bounded type and the literal punctuation are
/// reserved before the bounds are rendered with what remains.
pub open spec fn spec_bound_predicate(
    src: Seq<u8>,
    bound_lifetimes: Seq<LifetimeDef>,
    bounded_ty: Ty,
    bounds: Seq<TyParamBound>,
    width: int,
    offset: int,
) -> Option<Seq<char>> {
    if bound_lifetimes.len() > 0 {
        let lifetime_str = join_with(
            bound_lifetimes.map_values(|ld: LifetimeDef| spec_lifetime_def(ld)),
            seq![',', ' '],
        );
        let used = lifetime_str.len() + bounded_ty.text@.len() + 8;
        if width < used {
            None
        } else {
            match spec_bounds_texts(src, bounds, width - used, offset + used) {
                None => None,
                Some(ts) => Some(
                    seq!['f', 'o', 'r', '<'] + lifetime_str + seq!['>', ' '] + bounded_ty.text@
                        + seq![':', ' '] + join_with(ts, seq![' ', '+', ' ']),
                ),
            }
        }
    } else {
        let used = bounded_ty.text@.len() + 2;
        if width < used {
            None
        } else {
            match spec_bounds_texts(src, bounds, width - used, offset + used) {
                None => None,
                Some(ts) => Some(
                    bounded_ty.text@ + seq![':', ' '] + join_with(ts, seq![' ', '+', ' ']),
                ),
            }
        }
    }
}

/// The text of a region predicate: the lifetime and its bounds, always on
/// one line.
pub open spec fn spec_region_predicate(lifetime: Lifetime, bounds: Seq<Lifetime>) -> Seq<char> {
    lifetime.text@ + seq![':', ' '] + join_with(
        bounds.map_values(|l: Lifetime| l.text@),
        seq![' ', '+', ' '],
    )
}

/// The text of an equality predicate, or `None` when ` = ` plus the type
/// alone already exceed the budget.
pub open spec fn spec_eq_predicate(
    src: Seq<u8>,
    path: Path,
    ty: Ty,
    width: int,
    offset: int,
) -> Option<Seq<char>> {
    let used = 3 + ty.text@.len();
    if width < used {
        None
    } else {
        match spec_rewrite_path(src, None, path, width - used, offset + used) {
            None => None,
            Some(path_str) => Some(path_str + seq![' ', '=', ' '] + ty.text@),
        }
    }
}

/// The text of one where-clause predicate, or `None` when the budget runs
/// out.
pub open spec fn spec_where_predicate(
    src: Seq<u8>,
    p: WherePredicate,
    width: int,
    offset: int,
) -> Option<Seq<char>> {
    match p {
        WherePredicate::BoundPredicate { bound_lifetimes, bounded_ty, bounds } =>
            spec_bound_predicate(src, bound_lifetimes@, bounded_ty, bounds@, width, offset),
        WherePredicate::RegionPredicate { lifetime, bounds } => Some(
            spec_region_predicate(lifetime, bounds@),
        ),
        WherePredicate::EqPredicate { path, ty } => spec_eq_predicate(src, path, ty, width, offset),
    }
}

/// Renders a bound predicate that carries a `for<...>` binder.
#[verifier::rlimit(100)]
#[verifier::spinoff_prover]
fn rewrite_bound_predicate_binders(
    context: &RewriteContext,
    bound_lifetimes: &Vec<LifetimeDef>,
    bounded_ty: &Ty,
    bounds: &Vec<TyParamBound>,
    width: usize,
    offset: usize,
) -> (r: Option<String>)
    requires
        bound_lifetimes.len() > 0,
        bounds_wf(context.src@, bounds@),
        offset + width <= usize::MAX,
    ensures
        (r is Some) == (spec_bound_predicate(
            context.src@,
            bound_lifetimes@,
            *bounded_ty,
            bounds@,
            width as int,
            offset as int,
        ) is Some),
        r is Some ==> r.unwrap()@ == spec_bound_predicate(
            context.src@,
            bound_lifetimes@,
            *bounded_ty,
            bounds@,
            width as int,
            offset as int,
        ).unwrap(),
{
    let ghost lspec = join_with(
        bound_lifetimes@.map_values(|ld: LifetimeDef| spec_lifetime_def(ld)),
        seq![',', ' '],
    );
    let lds = rewrite_lifetime_defs(context, bound_lifetimes, width, offset);
    let lifetime_str = join_strings(&lds, ", ");
    proof {
        reveal_strlit(", ");
        assert(", "@ =~= seq![',', ' ']);
        assert(lifetime_str@ == lspec);
    }
    let llen = lifetime_str.as_str().unicode_len();
    let tlen = bounded_ty.text.as_str().unicode_len();
    // 8 = "for<> : ".len()
    if width < 8 {
        return None;
    }
    if llen > width - 8 {
        return None;
    }
    if tlen > width - 8 - llen {
        return None;
    }
    let used_width = llen + tlen + 8;
    let ghost bspec = spec_bounds_texts(
        context.src@,
        bounds@,
        width - used_width,
        offset + used_width,
    );
    match rewrite_bounds(context, bounds, width - used_width, offset + used_width) {
        None => None,
        Some(bstrs) => {
            let bounds_str = join_strings(&bstrs, " + ");
            proof {
                reveal_strlit(" + ");
                assert(" + "@ =~= seq![' ', '+', ' ']);
                assert(bounds_str@ == join_with(bspec.unwrap(), seq![' ', '+', ' ']));
            }
            let mut res = String::from_str("for<");
            res.append(lifetime_str.as_str());
            res.append("> ");
            res.append(bounded_ty.text.as_str());
            res.append(": ");
            res.append(bounds_str.as_str());
            proof {
                reveal_strlit("for<");
                reveal_strlit("> ");
                reveal_strlit(": ");
                assert(res@ =~= seq!['f', 'o', 'r', '<'] + lspec + seq!['>', ' ']
                    + bounded_ty.text@ + seq![':', ' '] + join_with(
                    bspec.unwrap(),
                    seq![' ', '+', ' '],
                ));
            }
            Some(res)
        },
    }
}

/// Renders a bound predicate without a binder.
fn rewrite_bound_predicate_plain(
    context: &RewriteContext,
    bounded_ty: &Ty,
    bounds: &Vec<TyParamBound>,
    width: usize,
    offset: usize,
) -> (r: Option<String>)
    requires
        bounds_wf(context.src@, bounds@),
        offset + width <= usize::MAX,
    ensures
        (r is Some) == (spec_bound_predicate(
            context.src@,
            Seq::<LifetimeDef>::empty(),
            *bounded_ty,
            bounds@,
            width as int,
            offset as int,
        ) is Some),
        r is Some ==> r.unwrap()@ == spec_bound_predicate(
            context.src@,
            Seq::<LifetimeDef>::empty(),
            *bounded_ty,
            bounds@,
            width as int,
            offset as int,
        ).unwrap(),
{
    let tlen = bounded_ty.text.as_str().unicode_len();
    // 2 = ": ".len()
    if width < 2 {
        return None;
    }
    if tlen > width - 2 {
        return None;
    }
    let used_width = tlen + 2;
    let ghost bspec = spec_bounds_texts(
        context.src@,
        bounds@,
        width - used_width,
        offset + used_width,
    );
    match rewrite_bounds(context, bounds, width - used_width, offset + used_width) {
        None => None,
        Some(bstrs) => {
            let bounds_str = join_strings(&bstrs, " + ");
            proof {
                reveal_strlit(" + ");
                assert(" + "@ =~= seq![' ', '+', ' ']);
                assert(bounds_str@ == join_with(bspec.unwrap(), seq![' ', '+', ' ']));
            }
            let mut res = String::from_str(bounded_ty.text.as_str());
            res.append(": ");
            res.append(bounds_str.as_str());
            proof {
                reveal_strlit(": ");
                assert(res@ =~= bounded_ty.text@ + seq![':', ' '] + join_with(
                    bspec.unwrap(),
                    seq![' ', '+', ' '],
                ));
            }
            Some(res)
        },
    }
}

/// Renders a region predicate; single-line, always succeeds.
fn rewrite_region_predicate(lifetime: &Lifetime, bounds: &Vec<Lifetime>) -> (r: String)
    ensures
        r@ == spec_region_predicate(*lifetime, bounds@),
{
    let ghost bound_texts = bounds@.map_values(|l: Lifetime| l.text@);
    let mut texts: Vec<String> = Vec::new();
    let mut i: usize = 0;
    while i < bounds.len()
        invariant
            i <= bounds.len(),
            bound_texts == bounds@.map_values(|l: Lifetime| l.text@),
            bound_texts.len() == bounds@.len(),
            texts@.map_values(|s: String| s@) == bound_texts.take(i as int),
        decreases bounds.len() - i,
    {
        texts.push(String::from_str(bounds[i].text.as_str()));
        proof {
            lemma_take_push(bound_texts, i as int);
            assert(texts@.map_values(|s: String| s@) =~= bound_texts.take(i + 1));
        }
        i = i + 1;
    }
    proof {
        assert(bound_texts.take(bounds@.len() as int) =~= bound_texts);
    }
    let joined = join_strings(&texts, " + ");
    let mut res = String::from_str(lifetime.text.as_str());
    res.append(": ");
    res.append(joined.as_str());
    proof {
        reveal_strlit(": ");
        reveal_strlit(" + ");
        assert(" + "@ =~= seq![' ', '+', ' ']);
        assert(res@ =~= spec_region_predicate(*lifetime, bounds@));
    }
    res
}

/// Renders an equality predicate.
fn rewrite_eq_predicate(
    context: &RewriteContext,
    path: &Path,
    ty: &Ty,
    width: usize,
    offset: usize,
) -> (r: Option<String>)
    requires
        path_wf(context.src@, None, *path),
        offset + width <= usize::MAX,
    ensures
        (r is Some) == (spec_eq_predicate(
            context.src@,
            *path,
            *ty,
            width as int,
            offset as int,
        ) is Some),
        r is Some ==> r.unwrap()@ == spec_eq_predicate(
            context.src@,
            *path,
            *ty,
            width as int,
            offset as int,
        ).unwrap(),
{
    let tlen = ty.text.as_str().unicode_len();
    // 3 = " = ".len()
    if width < 3 {
        return None;
    }
    if tlen > width - 3 {
        return None;
    }
    let used_width = 3 + tlen;
    match rewrite_path(context, None, path, width - used_width, offset + used_width) {
        None => None,
        Some(path_str) => {
            let mut res = path_str;
            res.append(" = ");
            res.append(ty.text.as_str());
            proof {
                reveal_strlit(" = ");
                assert(res@ =~= spec_eq_predicate(
                    context.src@,
                    *path,
                    *ty,
                    width as int,
                    offset as int,
                ).unwrap());
            }
            Some(res)
        },
    }
}

impl WherePredicate {
    /// Renders one where-clause predicate.
    pub fn rewrite(&self, context: &RewriteContext, width: usize, offset: usize) -> (r: Option<
        String,
    >)
        requires
            where_predicate_wf(context.src@, *self),
            offset + width <= usize::MAX,
        ensures
            (r is Some) == (spec_where_predicate(
                context.src@,
                *self,
                width as int,
                offset as int,
            ) is Some),
            r is Some ==> r.unwrap()@ == spec_where_predicate(
                context.src@,
                *self,
                width as int,
                offset as int,
            ).unwrap(),
    {
        match self {
            WherePredicate::BoundPredicate { bound_lifetimes, bounded_ty, bounds } => {
                if bound_lifetimes.len() > 0 {
                    rewrite_bound_predicate_binders(
                        context,
                        bound_lifetimes,
                        bounded_ty,
                        bounds,
                        width,
                        offset,
                    )
                } else {
                    proof {
                        assert(bound_lifetimes@ =~= Seq::<LifetimeDef>::empty());
                    }
                    rewrite_bound_predicate_plain(context, bounded_ty, bounds, width, offset)
                }
            },
            WherePredicate::RegionPredicate { lifetime, bounds } => Some(
                rewrite_region_predicate(lifetime, bounds),
            ),
            WherePredicate::EqPredicate { path, ty } => rewrite_eq_predicate(
                context,
                path,
                ty,
                width,
                offset,
            ),
        }
    }
}

/// Whether the paths inside a type parameter's bounds are well-formed for
/// the source buffer.
pub open spec fn ty_param_wf(src: Seq<u8>, tp: TyParam) -> bool {
    bounds_wf(src, tp.bounds@)
}

/// The text of a type parameter at its declaration site, or `None` when a
/// bound fails to render. The bounds are rendered with the full `width`
/// and `offset`, not reduced by the identifier and `: ` prefix; that
/// width-accounting gap is deliberate and kept.
pub open spec fn spec_ty_param(
    src: Seq<u8>,
    tp: TyParam,
    width: int,
    offset: int,
) -> Option<Seq<char>> {
    let with_bounds: Option<Seq<char>> = if tp.bounds.len() > 0 {
        match spec_bounds_texts(src, tp.bounds@, width, offset) {
            None => None,
            Some(ts) => Some(tp.ident@ + seq![':', ' '] + join_with(ts, seq![' ', '+', ' '])),
        }
    } else {
        Some(tp.ident@)
    };
    match with_bounds {
        None => None,
        Some(s) => match tp.default {
            Some(d) => Some(s + seq![' ', '=', ' '] + d.text@),
            None => Some(s),
        },
    }
}

impl TyParam {
    /// Renders a type parameter declaration: identifier, bounds, default.
    pub fn rewrite(&self, context: &RewriteContext, width: usize, offset: usize) -> (r: Option<
        String,
    >)
        requires
            ty_param_wf(context.src@, *self),
            offset + width <= usize::MAX,
        ensures
            (r is Some) == (spec_ty_param(
                context.src@,
                *self,
                width as int,
                offset as int,
            ) is Some),
            r is Some ==> r.unwrap()@ == spec_ty_param(
                context.src@,
                *self,
                width as int,
                offset as int,
            ).unwrap(),
    {
        let mut result = String::from_str(self.ident.as_str());
        if self.bounds.len() > 0 {
            result.append(": ");
            match rewrite_bounds(context, &self.bounds, width, offset) {
                None => {
                    return None;
                },
                Some(bstrs) => {
                    let bounds_str = join_strings(&bstrs, " + ");
                    result.append(bounds_str.as_str());
                    proof {
                        reveal_strlit(": ");
                        reveal_strlit(" + ");
                        assert(" + "@ =~= seq![' ', '+', ' ']);
                        assert(result@ =~= self.ident@ + seq![':', ' '] + join_with(
                            spec_bounds_texts(
                                context.src@,
                                self.bounds@,
                                width as int,
                                offset as int,
                            ).unwrap(),
                            seq![' ', '+', ' '],
                        ));
                    }
                },
            }
        }
        match &self.default {
            Some(def) => {
                let ghost before = result@;
                result.append(" = ");
                result.append(def.text.as_str());
                proof {
                    reveal_strlit(" = ");
                    assert(result@ =~= before + seq![' ', '=', ' '] + def.text@);
                }
            },
            None => {},
        }
        Some(result)
    }
}

// ------------------------------------------------------------------
// Laws of the renderers.
// ------------------------------------------------------------------
/// Argument-ordering law: whatever order the groups of a segment's
/// angle-bracket arguments arrive in, the rendered item list holds the
/// lifetimes first, then the types, then the associated-type bindings,
/// each group keeping its own order.
pub proof fn lemma_argument_ordering(
    lifetimes: Seq<Lifetime>,
    types: Seq<Ty>,
    bindings: Seq<TypeBinding>,
)
    ensures
        spec_angle_param_texts(lifetimes, types, bindings).len() == lifetimes.len() + types.len()
            + bindings.len(),
        forall|i: int|
            0 <= i < lifetimes.len() ==> spec_angle_param_texts(lifetimes, types, bindings)[i]
                == lifetimes[i].text@,
        forall|i: int|
            lifetimes.len() <= i < lifetimes.len() + types.len() ==> spec_angle_param_texts(
                lifetimes,
                types,
                bindings,
            )[i] == types[i - lifetimes.len()].text@,
        forall|i: int|
            lifetimes.len() + types.len() <= i < lifetimes.len() + types.len() + bindings.len()
                ==> spec_angle_param_texts(lifetimes, types, bindings)[i] == spec_binding_text(
                bindings[i - lifetimes.len() - types.len()],
            ),
{
}

/// The ordered texts of a segment's arguments, whichever form they take.
pub open spec fn seg_angle_texts(seg: PathSegment) -> Seq<Seq<char>> {
    match seg.parameters {
        PathParameters::AngleBracketed { lifetimes, types, bindings } => spec_angle_param_texts(
            lifetimes@,
            types@,
            bindings@,
        ),
        PathParameters::Parenthesized { inputs, .. } => inputs@.map_values(|t: Ty| t.text@),
    }
}

/// The width left for the argument list of a segment with angle-bracket
/// arguments: the budget minus the identifier, the recovered separator,
/// and the two brackets.
pub open spec fn seg_list_width(seg: PathSegment, lo: int, hi: int, src: Seq<u8>, width: int) -> int {
    let sep = spec_separator(sep_scan(src, lo, first_at(src, lo, hi, 60) + 1) == Some(true));
    width - seg.identifier@.len() - sep.len() - 2
}

/// Round-trip-fit law at the segment level: when a segment with an
/// angle-bracket argument list renders successfully, its identifier is
/// single-line, and every argument text is single-line and within the
/// width left for the list, then no line of the rendered text runs past
/// column `offset + width` (the first line starts at column `offset`;
/// continuation lines carry their own indentation). When the list fits on
/// one line the whole rendering stays within `width` columns.
pub proof fn lemma_segment_lines_fit(
    seg: PathSegment,
    lo: int,
    hi: int,
    src: Seq<u8>,
    width: int,
    offset: int,
)
    requires
        0 <= offset,
        seg_has_angle_params(seg),
        nl_free(seg.identifier@),
        spec_segment(seg, lo, hi, src, width, offset) is Some,
        forall|i: int|
            0 <= i < seg_angle_texts(seg).len() ==> nl_free(#[trigger] seg_angle_texts(seg)[i])
                && seg_angle_texts(seg)[i].len() <= seg_list_width(seg, lo, hi, src, width),
    ensures
        max_line_len(spec_segment(seg, lo, hi, src, width, offset).unwrap()) <= offset + width,
        list_fits_horizontally(seg_angle_texts(seg), seg_list_width(seg, lo, hi, src, width))
            ==> max_line_len(spec_segment(seg, lo, hi, src, width, offset).unwrap()) <= width,
{
    match seg.parameters {
        PathParameters::AngleBracketed { lifetimes, types, bindings } => {
            let ident = seg.identifier@;
            let texts = seg_angle_texts(seg);
            let list_lo = first_at(src, lo, hi, 60) + 1;
            let sep = spec_separator(sep_scan(src, lo, list_lo) == Some(true));
            let eo = 1 + sep.len();
            let w = width - ident.len();
            let lw = seg_list_width(seg, lo, hi, src, width);
            let indent = (offset + ident.len() + eo) as nat;
            let prefix = ident + sep + seq!['<'];
            assert(nl_free(sep));
            assert(nl_free(prefix));
            assert(prefix.len() == ident.len() + eo);
            assert(texts.len() >= 1);
            lemma_write_list_lines_fit(prefix, texts, indent, lw);
            let body = prefix + spec_write_list(texts, indent, lw);
            lemma_append_nl_free(body, seq!['>']);
            assert(spec_segment(seg, lo, hi, src, width, offset).unwrap() =~= body + seq!['>']);
        },
        PathParameters::Parenthesized { .. } => {
            assert(false);
        },
    }
}

/// Budget-underflow law: a segment whose identifier alone exceeds the
/// width budget never renders; it fails rather than truncate.
pub proof fn lemma_budget_underflow(
    seg: PathSegment,
    lo: int,
    hi: int,
    src: Seq<u8>,
    width: int,
    offset: int,
)
    requires
        width < seg.identifier@.len(),
    ensures
        spec_segment(seg, lo, hi, src, width, offset) is None,
{
}

/// Relaxed-bound law: a bound marked "maybe" renders as `?` before the
/// trait reference, and consumes exactly one width unit beyond the
/// reference's own rendering.
pub proof fn lemma_relaxed_bound(src: Seq<u8>, p: PolyTraitRef, width: int, offset: int)
    requires
        width >= 1,
    ensures
        spec_ty_param_bound(
            src,
            TyParamBound::TraitTyParamBound(p, TraitBoundModifier::Maybe),
            width,
            offset,
        ) == match spec_poly_trait_ref(src, p, width - 1, offset + 1) {
            None => None,
            Some(s) => Some(seq!['?'] + s),
        },
{
}

/// Equality-predicate reservation law: ` = ` plus the plain-rendered type
/// is budgeted before the path is rendered; when that reservation alone
/// exceeds the width, the render fails.
pub proof fn lemma_eq_predicate_reservation(
    src: Seq<u8>,
    path: Path,
    ty: Ty,
    width: int,
    offset: int,
)
    requires
        width < 3 + ty.text@.len(),
    ensures
        spec_eq_predicate(src, path, ty, width, offset) is None,
{
}

} // verus!
