use typefmt::ast::Lifetime;
use typefmt::ast::LifetimeDef;
use typefmt::ast::Path;
use typefmt::ast::PathParameters;
use typefmt::ast::PathSegment;
use typefmt::ast::PolyTraitRef;
use typefmt::ast::QSelf;
use typefmt::ast::Span;
use typefmt::ast::TraitBoundModifier;
use typefmt::ast::TraitRef;
use typefmt::ast::Ty;
use typefmt::ast::TyParam;
use typefmt::ast::TyParamBound;
use typefmt::ast::TypeBinding;
use typefmt::ast::WherePredicate;
use typefmt::lists::ListFormatting;
use typefmt::lists::join_strings;
use typefmt::lists::write_list;
use typefmt::source::RewriteContext;
use typefmt::source::extra_offset;
use typefmt::source::get_path_separator;
use typefmt::types::SegmentParam;
use typefmt::types::rewrite_path;

fn ctx(s: &str) -> RewriteContext {
    RewriteContext { src: s.as_bytes().to_vec() }
}

fn sp(lo: usize, hi: usize) -> Span {
    Span { lo, hi }
}

fn lifetime(t: &str, lo: usize, hi: usize) -> Lifetime {
    Lifetime { text: t.to_string(), span: sp(lo, hi) }
}

fn ty(t: &str, lo: usize, hi: usize) -> Ty {
    Ty { text: t.to_string(), span: sp(lo, hi) }
}

fn no_params() -> PathParameters {
    PathParameters::AngleBracketed { lifetimes: Vec::new(), types: Vec::new(), bindings: Vec::new() }
}

fn plain_seg(id: &str) -> PathSegment {
    PathSegment { identifier: id.to_string(), parameters: no_params() }
}

fn type_seg(id: &str, types: Vec<Ty>) -> PathSegment {
    PathSegment {
        identifier: id.to_string(),
        parameters: PathParameters::AngleBracketed { lifetimes: Vec::new(), types, bindings: Vec::new() },
    }
}

fn path(segments: Vec<PathSegment>, lo: usize, hi: usize) -> Path {
    Path { global: false, segments, span: sp(lo, hi) }
}

fn trait_bound(id: &str, modifier: TraitBoundModifier) -> TyParamBound {
    TyParamBound::TraitTyParamBound(
        PolyTraitRef {
            bound_lifetimes: Vec::new(),
            trait_ref: TraitRef { path: path(vec![plain_seg(id)], 0, 0) },
        },
        modifier,
    )
}

// --- separator inference ---------------------------------------------

#[test]
fn separator_expression_position() {
    // Foo::<A, B> keeps its literal `::`
    let context = ctx("Foo::<A, B>");
    let p = path(vec![type_seg("Foo", vec![ty("A", 6, 7), ty("B", 9, 10)])], 0, 11);
    let r = rewrite_path(&context, None, &p, 80, 0);
    assert_eq!(r, Some("Foo::<A, B>".to_string()));
}

#[test]
fn separator_item_position() {
    // Foo<A, B> gets no leading `::`
    let context = ctx("Foo<A, B>");
    let p = path(vec![type_seg("Foo", vec![ty("A", 4, 5), ty("B", 7, 8)])], 0, 9);
    let r = rewrite_path(&context, None, &p, 80, 0);
    assert_eq!(r, Some("Foo<A, B>".to_string()));
}

#[test]
fn separator_with_whitespace() {
    // whitespace between `::` and `<` is skipped by the backward scan
    let context = ctx("Foo:: <A, B>");
    let p = path(vec![type_seg("Foo", vec![ty("A", 7, 8), ty("B", 10, 11)])], 0, 12);
    let r = rewrite_path(&context, None, &p, 80, 0);
    assert_eq!(r, Some("Foo::<A, B>".to_string()));
}

#[test]
fn separator_scan_directly() {
    let context = ctx("Foo::<A, B>");
    // the scan window runs from the path start to just after the `<`
    assert_eq!(get_path_separator(&context, 0, 6), "::");
    let context2 = ctx("Foo<A, B>");
    assert_eq!(get_path_separator(&context2, 0, 4), "");
}

// --- argument ordering ------------------------------------------------

#[test]
fn argument_ordering() {
    // lifetimes, then types, then bindings
    let context = ctx("Foo<'a, T, Item = U>");
    let p = path(
        vec![PathSegment {
            identifier: "Foo".to_string(),
            parameters: PathParameters::AngleBracketed {
                lifetimes: vec![lifetime("'a", 4, 6)],
                types: vec![ty("T", 8, 9)],
                bindings: vec![TypeBinding {
                    ident: "Item".to_string(),
                    ty: ty("U", 18, 19),
                    span: sp(11, 19),
                }],
            },
        }],
        0,
        20,
    );
    let r = rewrite_path(&context, None, &p, 80, 0);
    assert_eq!(r, Some("Foo<'a, T, Item = U>".to_string()));
}

// --- budget underflow -------------------------------------------------

#[test]
fn budget_underflow_fails() {
    let context = ctx("Foo");
    let p = path(vec![plain_seg("Foo")], 0, 3);
    assert_eq!(rewrite_path(&context, None, &p, 2, 0), None);
}

#[test]
fn budget_exact_fit() {
    let context = ctx("Foo");
    let p = path(vec![plain_seg("Foo")], 0, 3);
    assert_eq!(rewrite_path(&context, None, &p, 3, 0), Some("Foo".to_string()));
}

// --- list tactic fallback ---------------------------------------------

#[test]
fn list_fits_horizontally() {
    let context = ctx("Foo<A, B, C>");
    let p = path(
        vec![type_seg("Foo", vec![ty("A", 4, 5), ty("B", 7, 8), ty("C", 10, 11)])],
        0,
        12,
    );
    let r = rewrite_path(&context, None, &p, 12, 0);
    assert_eq!(r, Some("Foo<A, B, C>".to_string()));
}

#[test]
fn list_falls_back_to_vertical() {
    // one unit under the horizontal budget: one argument per line, each
    // indented to the column just after the `<`
    let context = ctx("Foo<A, B, C>");
    let p = path(
        vec![type_seg("Foo", vec![ty("A", 4, 5), ty("B", 7, 8), ty("C", 10, 11)])],
        0,
        12,
    );
    let r = rewrite_path(&context, None, &p, 11, 0);
    assert_eq!(r, Some("Foo<A,\n    B,\n    C>".to_string()));
}

#[test]
fn vertical_lines_stay_within_budget() {
    let context = ctx("Foo<Abcd, Efgh>");
    let p = path(vec![type_seg("Foo", vec![ty("Abcd", 4, 8), ty("Efgh", 10, 14)])], 0, 15);
    let width = 14;
    let r = rewrite_path(&context, None, &p, width, 0).unwrap();
    for line in r.split('\n') {
        assert!(line.len() <= width + 1);
    }
    assert_eq!(r, "Foo<Abcd,\n    Efgh>");
}

// --- qualified self ---------------------------------------------------

#[test]
fn qualified_self() {
    let context = ctx("<Foo as Bar>::baz");
    let p = path(vec![plain_seg("Bar"), plain_seg("baz")], 0, 17);
    let q = QSelf { ty: ty("Foo", 1, 4), position: 1 };
    let r = rewrite_path(&context, Some(&q), &p, 80, 0);
    assert_eq!(r, Some("<Foo as Bar>::baz".to_string()));
}

#[test]
fn qualified_self_prefix_budget() {
    // the prefix render reserves three columns for `>::`
    let context = ctx("<Foo as Bar>::baz");
    let p = path(vec![plain_seg("Bar"), plain_seg("baz")], 0, 17);
    let q = QSelf { ty: ty("Foo", 1, 4), position: 1 };
    assert_eq!(rewrite_path(&context, Some(&q), &p, 10, 0), None);
    // the emitted prefix is charged against each following segment budget
    assert_eq!(rewrite_path(&context, Some(&q), &p, 30, 0), None);
    assert_eq!(rewrite_path(&context, Some(&q), &p, 31, 0), Some("<Foo as Bar>::baz".to_string()));
}

// --- global path ------------------------------------------------------

#[test]
fn global_path() {
    let context = ctx("::std::vec");
    let p = Path {
        global: true,
        segments: vec![plain_seg("std"), plain_seg("vec")],
        span: sp(0, 10),
    };
    assert_eq!(rewrite_path(&context, None, &p, 10, 0), Some("::std::vec".to_string()));
}

// --- parenthesized parameters -----------------------------------------

#[test]
fn parenthesized_with_output() {
    let context = ctx("Fn(A, B) -> C");
    let p = path(
        vec![PathSegment {
            identifier: "Fn".to_string(),
            parameters: PathParameters::Parenthesized {
                inputs: vec![ty("A", 3, 4), ty("B", 6, 7)],
                output: Some(ty("C", 12, 13)),
            },
        }],
        0,
        13,
    );
    assert_eq!(rewrite_path(&context, None, &p, 80, 0), Some("Fn(A, B) -> C".to_string()));
}

#[test]
fn parenthesized_without_output() {
    let context = ctx("Fn(A)");
    let p = path(
        vec![PathSegment {
            identifier: "Fn".to_string(),
            parameters: PathParameters::Parenthesized { inputs: vec![ty("A", 3, 4)], output: None },
        }],
        0,
        5,
    );
    assert_eq!(rewrite_path(&context, None, &p, 5, 0), Some("Fn(A)".to_string()));
}

#[test]
fn parenthesized_output_reservation() {
    // the output text and both parentheses are reserved up front
    let context = ctx("Fn(A) -> Cde");
    let p = path(
        vec![PathSegment {
            identifier: "Fn".to_string(),
            parameters: PathParameters::Parenthesized {
                inputs: vec![ty("A", 3, 4)],
                output: Some(ty("Cde", 9, 12)),
            },
        }],
        0,
        12,
    );
    assert_eq!(rewrite_path(&context, None, &p, 8, 0), None);
    assert_eq!(rewrite_path(&context, None, &p, 12, 0), Some("Fn(A) -> Cde".to_string()));
}

// --- relaxed bound ----------------------------------------------------

#[test]
fn relaxed_bound() {
    let context = ctx("");
    let b = trait_bound("Sized", TraitBoundModifier::Maybe);
    assert_eq!(b.rewrite(&context, 6, 0), Some("?Sized".to_string()));
}

#[test]
fn relaxed_bound_costs_one_unit() {
    let context = ctx("");
    let plain = trait_bound("Sized", TraitBoundModifier::Plain);
    let maybe = trait_bound("Sized", TraitBoundModifier::Maybe);
    assert_eq!(plain.rewrite(&context, 5, 0), Some("Sized".to_string()));
    assert_eq!(maybe.rewrite(&context, 5, 0), None);
    assert_eq!(maybe.rewrite(&context, 6, 0), Some("?Sized".to_string()));
}

#[test]
fn region_bound() {
    let context = ctx("");
    let b = TyParamBound::RegionTyParamBound(lifetime("'a", 0, 0));
    assert_eq!(b.rewrite(&context, 0, 0), Some("'a".to_string()));
}

// --- where predicates -------------------------------------------------

#[test]
fn equality_predicate() {
    let context = ctx("Foo");
    let pred = WherePredicate::EqPredicate {
        path: path(vec![plain_seg("Foo")], 0, 3),
        ty: ty("Bar", 0, 0),
    };
    assert_eq!(pred.rewrite(&context, 9, 0), Some("Foo = Bar".to_string()));
}

#[test]
fn equality_predicate_reservation() {
    // ` = ` plus the type is budgeted before the path is rendered
    let context = ctx("Foo");
    let pred = WherePredicate::EqPredicate {
        path: path(vec![plain_seg("Foo")], 0, 3),
        ty: ty("Bar", 0, 0),
    };
    assert_eq!(pred.rewrite(&context, 5, 0), None);
    assert_eq!(pred.rewrite(&context, 8, 0), None);
}

#[test]
fn region_predicate() {
    let context = ctx("");
    let pred = WherePredicate::RegionPredicate {
        lifetime: lifetime("'a", 0, 0),
        bounds: vec![lifetime("'b", 0, 0), lifetime("'c", 0, 0)],
    };
    assert_eq!(pred.rewrite(&context, 80, 0), Some("'a: 'b + 'c".to_string()));
    // region predicates are width-unaware: they always render on one line
    assert_eq!(pred.rewrite(&context, 0, 0), Some("'a: 'b + 'c".to_string()));
}

#[test]
fn bound_predicate_plain() {
    let context = ctx("Foo");
    let pred = WherePredicate::BoundPredicate {
        bound_lifetimes: Vec::new(),
        bounded_ty: ty("T", 0, 0),
        bounds: vec![trait_bound("Foo", TraitBoundModifier::Plain)],
    };
    assert_eq!(pred.rewrite(&context, 8, 0), Some("T: Foo".to_string()));
    assert_eq!(pred.rewrite(&context, 2, 0), None);
}

#[test]
fn bound_predicate_with_binder() {
    let context = ctx("Foo");
    let pred = WherePredicate::BoundPredicate {
        bound_lifetimes: vec![LifetimeDef { lifetime: lifetime("'a", 0, 0), bounds: Vec::new() }],
        bounded_ty: ty("T", 0, 0),
        bounds: vec![trait_bound("Foo", TraitBoundModifier::Plain)],
    };
    assert_eq!(pred.rewrite(&context, 20, 0), Some("for<'a> T: Foo".to_string()));
}

#[test]
fn bound_predicate_propagates_failure() {
    // a bound that cannot fit makes the whole predicate fail
    let context = ctx("Longtrait");
    let pred = WherePredicate::BoundPredicate {
        bound_lifetimes: Vec::new(),
        bounded_ty: ty("T", 0, 0),
        bounds: vec![trait_bound("Longtrait", TraitBoundModifier::Plain)],
    };
    assert_eq!(pred.rewrite(&context, 11, 0), None);
    assert_eq!(pred.rewrite(&context, 12, 0), Some("T: Longtrait".to_string()));
}

// --- lifetime declarations and type parameters -------------------------

#[test]
fn lifetime_def_without_bounds() {
    let context = ctx("");
    let ld = LifetimeDef { lifetime: lifetime("'a", 0, 0), bounds: Vec::new() };
    assert_eq!(ld.rewrite(&context, 0, 0), Some("'a".to_string()));
}

#[test]
fn lifetime_def_with_bounds() {
    let context = ctx("");
    let ld = LifetimeDef {
        lifetime: lifetime("'a", 0, 0),
        bounds: vec![lifetime("'b", 0, 0), lifetime("'c", 0, 0)],
    };
    assert_eq!(ld.rewrite(&context, 0, 0), Some("'a: 'b + 'c".to_string()));
}

#[test]
fn ty_param_bare() {
    let context = ctx("");
    let tp = TyParam { ident: "T".to_string(), bounds: Vec::new(), default: None };
    assert_eq!(tp.rewrite(&context, 80, 0), Some("T".to_string()));
}

#[test]
fn ty_param_with_bounds_and_default() {
    let context = ctx("Foo");
    let tp = TyParam {
        ident: "T".to_string(),
        bounds: vec![trait_bound("Foo", TraitBoundModifier::Plain)],
        default: Some(ty("Bar", 0, 0)),
    };
    assert_eq!(tp.rewrite(&context, 80, 0), Some("T: Foo = Bar".to_string()));
}

// --- poly trait references ---------------------------------------------

#[test]
fn poly_trait_ref_with_binder() {
    let context = ctx("Foo");
    let ptr = PolyTraitRef {
        bound_lifetimes: vec![LifetimeDef { lifetime: lifetime("'a", 0, 0), bounds: Vec::new() }],
        trait_ref: TraitRef { path: path(vec![plain_seg("Foo")], 0, 3) },
    };
    assert_eq!(ptr.rewrite(&context, 20, 0), Some("for<'a> Foo".to_string()));
    // six columns plus the binder text are reserved before the path
    assert_eq!(ptr.rewrite(&context, 10, 0), None);
    assert_eq!(ptr.rewrite(&context, 11, 0), Some("for<'a> Foo".to_string()));
}

// --- the scanning helpers ----------------------------------------------

#[test]
fn extra_offset_single_line() {
    assert_eq!(extra_offset("abc", 5), 3);
}

#[test]
fn extra_offset_multi_line() {
    assert_eq!(extra_offset("ab\ncdef", 1), 3);
    assert_eq!(extra_offset("ab\nc", 4), 0);
}

#[test]
fn segment_join_is_not_charged() {
    // the `::` joining two segments is appended without consuming budget,
    // so a two-segment path can exceed the width by the join's length
    let context = ctx("a::b");
    let p = path(vec![plain_seg("a"), plain_seg("b")], 0, 4);
    assert_eq!(rewrite_path(&context, None, &p, 3, 0), Some("a::b".to_string()));
    assert_eq!(rewrite_path(&context, None, &p, 4, 0), Some("a::b".to_string()));
}

#[test]
fn cursor_advances_between_segments() {
    // the second segment's separator scan starts after the first
    // segment's arguments, so each list keeps its own `::`
    let context = ctx("x::<A>::y::<B>");
    let p = path(
        vec![type_seg("x", vec![ty("A", 4, 5)]), type_seg("y", vec![ty("B", 12, 13)])],
        0,
        14,
    );
    assert_eq!(rewrite_path(&context, None, &p, 80, 0), Some("x::<A>::y::<B>".to_string()));
}

#[test]
fn vertical_indent_follows_offset() {
    // continuation lines are indented to the column just after the `<`,
    // counted from the start of the output line
    let context = ctx("Foo<A, B, C>");
    let p = path(
        vec![type_seg("Foo", vec![ty("A", 4, 5), ty("B", 7, 8), ty("C", 10, 11)])],
        0,
        12,
    );
    let r = rewrite_path(&context, None, &p, 11, 2);
    assert_eq!(r, Some("Foo<A,\n      B,\n      C>".to_string()));
}

#[test]
fn segment_param_text_and_span() {
    let binding = SegmentParam::Binding(TypeBinding {
        ident: "Item".to_string(),
        ty: ty("U", 18, 19),
        span: sp(11, 19),
    });
    assert_eq!(binding.to_text(), "Item = U".to_string());
    assert_eq!(binding.get_span(), sp(11, 19));
    let lt = SegmentParam::LifeTime(lifetime("'a", 4, 6));
    assert_eq!(lt.to_text(), "'a".to_string());
    assert_eq!(lt.get_span(), sp(4, 6));
    let t = SegmentParam::Type(ty("T", 8, 9));
    assert_eq!(t.to_text(), "T".to_string());
    assert_eq!(t.get_span(), sp(8, 9));
}

#[test]
fn write_list_tactics() {
    let items = vec!["A".to_string(), "Bc".to_string(), "D".to_string()];
    // "A, Bc, D" is eight columns wide
    let horizontal = write_list(&items, &ListFormatting { indent: 2, width: 8 });
    assert_eq!(horizontal, "A, Bc, D");
    let vertical = write_list(&items, &ListFormatting { indent: 2, width: 7 });
    assert_eq!(vertical, "A,\n  Bc,\n  D");
}

#[test]
fn join_strings_separators() {
    let items = vec!["x".to_string(), "y".to_string()];
    assert_eq!(join_strings(&items, " + "), "x + y");
    assert_eq!(join_strings(&Vec::new(), " + "), "");
}

#[test]
fn path_method_matches_free_function() {
    let context = ctx("Foo<A, B>");
    let p = path(vec![type_seg("Foo", vec![ty("A", 4, 5), ty("B", 7, 8)])], 0, 9);
    assert_eq!(p.rewrite(&context, 80, 0), rewrite_path(&context, None, &p, 80, 0));
}
