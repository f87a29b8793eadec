//! The list-layout engine: joins an ordered collection of pre-rendered
//! items with the try-horizontal-then-vertical tactic, a `,` separator and
//! no trailing separator. The closing terminator is appended by the caller.

use vstd::prelude::*;

use crate::source::last_line_len;

verus! {

/// `n` spaces.
pub open spec fn spaces(n: nat) -> Seq<char>
    decreases n,
{
    if n == 0 {
        Seq::<char>::empty()
    } else {
        spaces((n - 1) as nat).push(' ')
    }
}

/// The items joined by `sep`; empty for no items.
pub open spec fn join_with(items: Seq<Seq<char>>, sep: Seq<char>) -> Seq<char>
    decreases items.len(),
{
    if items.len() == 0 {
        Seq::<char>::empty()
    } else if items.len() == 1 {
        items[0]
    } else {
        join_with(items.drop_last(), sep) + sep + items.last()
    }
}

/// The separator of a one-line layout: `, `.
pub open spec fn horizontal_sep() -> Seq<char> {
    seq![',', ' ']
}

/// The separator of a one-item-per-line layout: `,`, a line break, and
/// indentation to the item column.
pub open spec fn vertical_sep(indent: nat) -> Seq<char> {
    seq![',', '\n'] + spaces(indent)
}

/// Whether the one-line layout of the items stays within `width`.
pub open spec fn list_fits_horizontally(items: Seq<Seq<char>>, width: int) -> bool {
    join_with(items, horizontal_sep()).len() <= width
}

/// What the layout engine produces: the one-line join when it fits in
/// `width`, else the one-item-per-line join indented to column `indent`.
pub open spec fn spec_write_list(items: Seq<Seq<char>>, indent: nat, width: int) -> Seq<char> {
    if list_fits_horizontally(items, width) {
        join_with(items, horizontal_sep())
    } else {
        join_with(items, vertical_sep(indent))
    }
}

/// How a list is to be laid out: the column of each item in the vertical
/// layout, and the width available to the horizontal layout.
pub struct ListFormatting {
    pub indent: usize,
    pub width: usize,
}

proof fn lemma_join_step(items: Seq<Seq<char>>, sep: Seq<char>, i: int)
    requires
        0 <= i < items.len(),
    ensures
        join_with(items.take(i + 1), sep) == if i == 0 {
            items[0]
        } else {
            join_with(items.take(i), sep) + sep + items[i]
        },
{
    let t = items.take(i + 1);
    if i == 0 {
        assert(t[0] == items[0]);
    } else {
        assert(t.drop_last() =~= items.take(i));
        assert(t.last() == items[i]);
    }
}

proof fn lemma_join_len_mono(items: Seq<Seq<char>>, sep: Seq<char>, i: int)
    requires
        0 <= i <= items.len(),
    ensures
        join_with(items.take(i), sep).len() <= join_with(items, sep).len(),
    decreases items.len() - i,
{
    if i == items.len() {
        assert(items.take(i) =~= items);
    } else {
        lemma_join_step(items, sep, i);
        lemma_join_len_mono(items, sep, i + 1);
    }
}

/// Joins the items with `sep`.
pub fn join_strings(items: &Vec<String>, sep: &str) -> (r: String)
    ensures
        r@ == join_with(items@.map_values(|s: String| s@), sep@),
{
    let ghost gitems = items@.map_values(|s: String| s@);
    let mut r = String::new();
    let mut i: usize = 0;
    while i < items.len()
        invariant
            i <= items.len(),
            gitems == items@.map_values(|s: String| s@),
            gitems.len() == items@.len(),
            r@ == join_with(gitems.take(i as int), sep@),
        decreases items.len() - i,
    {
        if i > 0 {
            r.append(sep);
        }
        r.append(items[i].as_str());
        proof {
            lemma_join_step(gitems, sep@, i as int);
        }
        i = i + 1;
    }
    proof {
        assert(gitems.take(items@.len() as int) =~= gitems);
    }
    r
}

/// Whether the one-line layout of the items stays within `width`.
fn list_fits(items: &Vec<String>, width: usize) -> (r: bool)
    ensures
        r == list_fits_horizontally(items@.map_values(|s: String| s@), width as int),
{
    let ghost gitems = items@.map_values(|s: String| s@);
    let mut used: usize = 0;
    let mut i: usize = 0;
    while i < items.len()
        invariant
            i <= items.len(),
            gitems == items@.map_values(|s: String| s@),
            gitems.len() == items@.len(),
            used == join_with(gitems.take(i as int), horizontal_sep()).len(),
            used <= width,
        decreases items.len() - i,
    {
        proof {
            lemma_join_step(gitems, horizontal_sep(), i as int);
        }
        let l = items[i].as_str().unicode_len();
        if i > 0 {
            if width - used < 2 {
                proof {
                    lemma_join_len_mono(gitems, horizontal_sep(), i as int + 1);
                }
                return false;
            }
            used = used + 2;
        }
        if l > width - used {
            proof {
                lemma_join_len_mono(gitems, horizontal_sep(), i as int + 1);
            }
            return false;
        }
        used = used + l;
        i = i + 1;
    }
    proof {
        assert(gitems.take(items@.len() as int) =~= gitems);
    }
    true
}

/// Lays the items out: on one line when that fits within `fmt.width`, else
/// one per line, each continuation line indented to column `fmt.indent`.
pub fn write_list(items: &Vec<String>, fmt: &ListFormatting) -> (r: String)
    ensures
        r@ == spec_write_list(
            items@.map_values(|s: String| s@),
            fmt.indent as nat,
            fmt.width as int,
        ),
{
    if list_fits(items, fmt.width) {
        let r = join_strings(items, ", ");
        proof {
            reveal_strlit(", ");
            assert(", "@ =~= horizontal_sep());
        }
        r
    } else {
        let mut sep = String::from_str(",\n");
        proof {
            reveal_strlit(",\n");
            assert(sep@ =~= seq![',', '\n'] + spaces(0));
        }
        let mut j: usize = 0;
        while j < fmt.indent
            invariant
                j <= fmt.indent,
                sep@ == seq![',', '\n'] + spaces(j as nat),
            decreases fmt.indent - j,
        {
            sep.append(" ");
            proof {
                reveal_strlit(" ");
                assert(spaces((j + 1) as nat) =~= spaces(j as nat) + " "@);
                assert(seq![',', '\n'] + spaces(j as nat) + " "@ =~= seq![',', '\n'] + spaces(
                    (j + 1) as nat,
                ));
            }
            j = j + 1;
        }
        join_strings(items, sep.as_str())
    }
}

// ------------------------------------------------------------------
// The budget law of the layout engine.
// ------------------------------------------------------------------
/// Whether a text contains no line break.
pub open spec fn nl_free(s: Seq<char>) -> bool {
    forall|k: int| 0 <= k < s.len() ==> s[k] != '\n'
}

/// The length of the longest newline-free run of the text: the measure of
/// its widest line.
pub open spec fn max_line_len(text: Seq<char>) -> int
    decreases text.len(),
{
    if text.len() == 0 {
        0
    } else if text.last() == '\n' {
        max_line_len(text.drop_last())
    } else {
        let m = max_line_len(text.drop_last());
        let l = last_line_len(text);
        if l >= m {
            l
        } else {
            m
        }
    }
}

proof fn lemma_line_bounds(t: Seq<char>)
    ensures
        0 <= last_line_len(t),
        last_line_len(t) <= max_line_len(t),
    decreases t.len(),
{
    if t.len() > 0 {
        lemma_line_bounds(t.drop_last());
    }
}

pub proof fn lemma_append_nl_free(a: Seq<char>, s: Seq<char>)
    requires
        nl_free(s),
    ensures
        last_line_len(a + s) == last_line_len(a) + s.len(),
        max_line_len(a + s) == if max_line_len(a) >= last_line_len(a) + s.len() {
            max_line_len(a)
        } else {
            last_line_len(a) + s.len()
        },
    decreases s.len(),
{
    lemma_line_bounds(a);
    if s.len() == 0 {
        assert(a + s =~= a);
    } else {
        lemma_append_nl_free(a, s.drop_last());
        assert(a + s =~= (a + s.drop_last()).push(s.last()));
        assert((a + s).last() != '\n');
        assert((a + s).drop_last() =~= a + s.drop_last());
    }
}

proof fn lemma_append_newline(a: Seq<char>)
    ensures
        max_line_len(a + seq!['\n']) == max_line_len(a),
        last_line_len(a + seq!['\n']) == 0,
{
    assert((a + seq!['\n']).last() == '\n');
    assert((a + seq!['\n']).drop_last() =~= a);
}

proof fn lemma_spaces_plain(n: nat)
    ensures
        spaces(n).len() == n,
        nl_free(spaces(n)),
    decreases n,
{
    if n > 0 {
        lemma_spaces_plain((n - 1) as nat);
    }
}

proof fn lemma_join_horizontal_nl_free(items: Seq<Seq<char>>)
    requires
        forall|i: int| 0 <= i < items.len() ==> nl_free(#[trigger] items[i]),
    ensures
        nl_free(join_with(items, horizontal_sep())),
    decreases items.len(),
{
    if items.len() > 1 {
        lemma_join_horizontal_nl_free(items.drop_last());
    }
}

proof fn lemma_join_vertical_lines(prefix: Seq<char>, items: Seq<Seq<char>>, indent: nat, width: int)
    requires
        nl_free(prefix),
        prefix.len() <= indent,
        0 <= width,
        items.len() >= 1,
        forall|i: int| 0 <= i < items.len() ==> nl_free(#[trigger] items[i]) && items[i].len()
            <= width,
    ensures
        max_line_len(prefix + join_with(items, vertical_sep(indent))) <= indent + width + 1,
        last_line_len(prefix + join_with(items, vertical_sep(indent))) <= indent + width,
    decreases items.len(),
{
    lemma_spaces_plain(indent);
    if items.len() == 1 {
        let t = items[0];
        assert(Seq::<char>::empty() + (prefix + t) =~= prefix + t);
        lemma_append_nl_free(Seq::<char>::empty(), prefix + t);
    } else {
        lemma_join_vertical_lines(prefix, items.drop_last(), indent, width);
        let j0 = prefix + join_with(items.drop_last(), vertical_sep(indent));
        let a1 = j0 + seq![','];
        let a2 = a1 + seq!['\n'];
        let a3 = a2 + spaces(indent);
        let a4 = a3 + items.last();
        lemma_append_nl_free(j0, seq![',']);
        lemma_append_newline(a1);
        lemma_append_nl_free(a2, spaces(indent));
        lemma_append_nl_free(a3, items.last());
        assert(prefix + join_with(items, vertical_sep(indent)) =~= a4);
    }
}

/// The budget law of the layout engine: when every item is single-line
/// and no longer than `width`, and the list is laid out after a
/// single-line `prefix` that ends at or before column `indent`, then a
/// list that fits horizontally stays within `prefix` plus `width` columns
/// on its one line, and a list laid out vertically keeps every line
/// within `indent + width + 1` columns (one extra column for the
/// separator that ends a continuation line).
pub proof fn lemma_write_list_lines_fit(
    prefix: Seq<char>,
    items: Seq<Seq<char>>,
    indent: nat,
    width: int,
)
    requires
        nl_free(prefix),
        prefix.len() <= indent,
        0 <= width,
        items.len() >= 1,
        forall|i: int| 0 <= i < items.len() ==> nl_free(#[trigger] items[i]) && items[i].len()
            <= width,
    ensures
        max_line_len(prefix + spec_write_list(items, indent, width)) <= indent + width + 1,
        last_line_len(prefix + spec_write_list(items, indent, width)) <= indent + width,
        list_fits_horizontally(items, width) ==> max_line_len(
            prefix + spec_write_list(items, indent, width),
        ) <= prefix.len() + width,
{
    if list_fits_horizontally(items, width) {
        let j = join_with(items, horizontal_sep());
        lemma_join_horizontal_nl_free(items);
        assert(nl_free(prefix + j));
        assert(Seq::<char>::empty() + (prefix + j) =~= prefix + j);
        lemma_append_nl_free(Seq::<char>::empty(), prefix + j);
    } else {
        lemma_join_vertical_lines(prefix, items, indent, width);
    }
}

} // verus!
