//! The rendering context and the raw-source scanning routines.
//!
//! The parsed tree discards token-level punctuation, so the renderers must
//! recover the `::` separator preceding a generic-argument list by scanning
//! the raw bytes of the original source between the rendering cursor and the
//! list opener. That scanning is kept here, isolated from the renderers.

use vstd::prelude::*;

use crate::ast::Span;

verus! {

/// The budget-free part of the rendering state: a read-only handle to the
/// original source buffer. Scanning is byte-wise; only ASCII whitespace and
/// the ASCII tokens `:`, `<` are meaningful to it.
pub struct RewriteContext {
    pub src: Vec<u8>,
}

/// ASCII whitespace, as the byte-wise scans treat it.
pub open spec fn is_ws_byte(b: u8) -> bool {
    b == 32 || (9 <= b && b <= 13)
}

/// The length of the text after its last newline; the whole length if the
/// text has no newline.
pub open spec fn last_line_len(text: Seq<char>) -> int
    decreases text.len(),
{
    if text.len() == 0 {
        0
    } else if text.last() == '\n' {
        0
    } else {
        1 + last_line_len(text.drop_last())
    }
}

pub open spec fn has_newline(text: Seq<char>) -> bool {
    exists|i: int| 0 <= i < text.len() && text[i] == '\n'
}

/// How many columns the already-emitted `text` adds beyond `offset` on the
/// current output line: the whole text length when it is single-line, else
/// the length of its last line minus `offset` (never below zero).
pub open spec fn spec_extra_offset(text: Seq<char>, offset: int) -> int {
    if has_newline(text) {
        if last_line_len(text) >= offset {
            last_line_len(text) - offset
        } else {
            0
        }
    } else {
        text.len() as int
    }
}

proof fn lemma_last_line_after_nl(text: Seq<char>, idx: int)
    requires
        0 <= idx < text.len(),
        text[idx] == '\n',
        forall|j: int| idx < j < text.len() ==> text[j] != '\n',
    ensures
        last_line_len(text) == text.len() - idx - 1,
    decreases text.len(),
{
    if idx == text.len() - 1 {
    } else {
        assert(text.last() != '\n');
        lemma_last_line_after_nl(text.drop_last(), idx);
    }
}

proof fn lemma_last_line_no_nl(text: Seq<char>)
    requires
        forall|j: int| 0 <= j < text.len() ==> text[j] != '\n',
    ensures
        last_line_len(text) == text.len(),
    decreases text.len(),
{
    if text.len() > 0 {
        lemma_last_line_no_nl(text.drop_last());
    }
}

/// Columns consumed on the current output line by `text`, beyond `offset`.
pub fn extra_offset(text: &str, offset: usize) -> (r: usize)
    ensures
        r == spec_extra_offset(text@, offset as int),
{
    let n = text.unicode_len();
    let mut i = n;
    while i > 0
        invariant
            i <= n,
            n == text@.len(),
            forall|j: int| i <= j < n ==> text@[j] != '\n',
        decreases i,
    {
        if text.get_char(i - 1) == '\n' {
            proof {
                lemma_last_line_after_nl(text@, i as int - 1);
            }
            let ll = n - i;
            if ll >= offset {
                return ll - offset;
            } else {
                return 0;
            }
        }
        i = i - 1;
    }
    proof {
        lemma_last_line_no_nl(text@);
    }
    n
}

/// The position of the first occurrence of `b` in `src[lo..hi)`; `hi` when
/// there is none.
pub open spec fn first_at(src: Seq<u8>, lo: int, hi: int, b: u8) -> int
    decreases hi - lo,
{
    if lo >= hi {
        hi
    } else if src[lo] == b {
        lo
    } else {
        first_at(src, lo + 1, hi, b)
    }
}

pub open spec fn has_byte(src: Seq<u8>, lo: int, hi: int, b: u8) -> bool {
    exists|i: int| lo <= i < hi && src[i] == b
}

proof fn lemma_first_at(src: Seq<u8>, lo: int, hi: int, b: u8, i: int)
    requires
        lo <= i < hi,
        src[i] == b,
        forall|j: int| lo <= j < i ==> src[j] != b,
    ensures
        first_at(src, lo, hi, b) == i,
    decreases i - lo,
{
    if lo < i {
        lemma_first_at(src, lo + 1, hi, b, i);
    }
}

/// The byte position one past the first occurrence of `needle` within
/// `span`, in the source buffer.
pub fn span_after(span: Span, needle: u8, context: &RewriteContext) -> (r: usize)
    requires
        span.lo <= span.hi <= context.src.len(),
        has_byte(context.src@, span.lo as int, span.hi as int, needle),
    ensures
        r == first_at(context.src@, span.lo as int, span.hi as int, needle) + 1,
        span.lo < r <= span.hi,
        context.src@[r - 1] == needle,
{
    let mut i = span.lo;
    loop
        invariant
            span.lo <= i <= span.hi <= context.src.len(),
            has_byte(context.src@, span.lo as int, span.hi as int, needle),
            forall|j: int| span.lo <= j < i ==> context.src@[j] != needle,
        decreases span.hi - i,
    {
        if i == span.hi {
            // contradicts `has_byte`
            proof {
                assert(false);
            }
            return span.hi;
        }
        if context.src[i] == needle {
            proof {
                lemma_first_at(context.src@, span.lo as int, span.hi as int, needle, i as int);
            }
            return i + 1;
        }
        i = i + 1;
    }
}

/// The backward scan that decides the separator before a generic-argument
/// list: starting just before position `i` and moving toward `lo`, skip
/// whitespace and `<`; `Some(true)` when a `:` is met first (separator
/// `::`), `Some(false)` when any other byte is met first (no separator),
/// `None` when the scan runs out of bytes.
pub open spec fn sep_scan(src: Seq<u8>, lo: int, i: int) -> Option<bool>
    decreases i - lo,
{
    if i <= lo {
        None
    } else if src[i - 1] == 58 {
        Some(true)
    } else if is_ws_byte(src[i - 1]) || src[i - 1] == 60 {
        sep_scan(src, lo, i - 1)
    } else {
        Some(false)
    }
}

/// The separator text that a scan outcome stands for.
pub open spec fn spec_separator(two_colons: bool) -> Seq<char> {
    if two_colons {
        seq![':', ':']
    } else {
        Seq::<char>::empty()
    }
}

/// Decides whether the generic-argument list beginning at `segment_start`
/// was written with a leading `::` in the source. The parsed tree does not
/// distinguish item-position generics (`Foo<A, B>`) from expression-position
/// generics (`Foo::<A, B>`), so the raw text between the cursor and the
/// list opener is scanned backward. A comment in that range containing `<`
/// or `:` can mislead the scan; that limitation is documented, not fixed.
pub fn get_path_separator(context: &RewriteContext, path_start: usize, segment_start: usize) -> (r:
    &'static str)
    requires
        path_start <= segment_start <= context.src.len(),
        sep_scan(context.src@, path_start as int, segment_start as int) is Some,
    ensures
        r@ == spec_separator(
            sep_scan(context.src@, path_start as int, segment_start as int) == Some(true),
        ),
{
    let mut i = segment_start;
    while i > path_start
        invariant
            path_start <= i <= segment_start <= context.src.len(),
            sep_scan(context.src@, path_start as int, segment_start as int) == sep_scan(
                context.src@,
                path_start as int,
                i as int,
            ),
        decreases i,
    {
        let b = context.src[i - 1];
        if b == 58 {
            proof {
                reveal_strlit("::");
                assert("::"@ =~= spec_separator(true));
            }
            return "::";
        } else if b == 32 || (9 <= b && b <= 13) || b == 60 {
            i = i - 1;
        } else {
            proof {
                reveal_strlit("");
                assert(""@ =~= spec_separator(false));
            }
            return "";
        }
    }
    // the scan is exhausted, which the precondition rules out
    proof {
        assert(false);
    }
    ""
}

} // verus!
