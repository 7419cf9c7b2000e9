//! Render a [`Directive`] as the line-oriented text the shims parse.
//!
//! Shape is a directive header followed by zero or more tab-separated item lines:
//!
//! ```text
//! items
//! build<TAB>build<TAB>Compile the crate<TAB>command
//! ```
//!
//! The header carries no version: the shim version is negotiated on the request side.

use vstd::prelude::*;

use crate::engine::{Directive, DirectiveView, Item, ItemView, items_view, wire_token};
use crate::text::{chars_of, push_char};

verus! {

/// Directive header for a list of candidates.
pub const HEADER_ITEMS: &'static str = "items";

/// Directive header asking the shell to complete directory names itself.
pub const HEADER_DIRS: &'static str = "dirs";

/// Directive header asking the shell to complete file names itself.
pub const HEADER_FILES: &'static str = "files";

/// A tab, newline or carriage return becomes a space; anything else is kept.
pub open spec fn sanitize_char(c: char) -> char {
    if c == '\t' || c == '\n' || c == '\r' {
        ' '
    } else {
        c
    }
}

/// `field` with every column- or record-forging character replaced by a space.
pub open spec fn sanitized(field: Seq<char>) -> Seq<char> {
    field.map_values(|c: char| sanitize_char(c))
}

/// One item as its four tab-separated columns, newline-terminated.
pub open spec fn item_line(item: ItemView) -> Seq<char> {
    sanitized(item.value) + seq!['\t'] + sanitized(item.display) + seq!['\t'] + sanitized(
        item.tooltip,
    ) + seq!['\t'] + wire_token(item.kind) + seq!['\n']
}

/// The item lines of `items`, in order.
pub open spec fn item_lines(items: Seq<ItemView>) -> Seq<char>
    decreases items.len(),
{
    if items.len() == 0 {
        seq![]
    } else {
        item_lines(items.drop_last()) + item_line(items.last())
    }
}

/// The text a shim receives for `d`.
pub open spec fn spec_render(d: DirectiveView) -> Seq<char> {
    match d {
        DirectiveView::Dirs => HEADER_DIRS@ + seq!['\n'],
        DirectiveView::Files => HEADER_FILES@ + seq!['\n'],
        DirectiveView::Items(items) => HEADER_ITEMS@ + seq!['\n'] + item_lines(items),
    }
}

/// How many times `c` occurs in `s`.
pub open spec fn occurrences(s: Seq<char>, c: char) -> nat
    decreases s.len(),
{
    if s.len() == 0 {
        0
    } else {
        occurrences(s.drop_last(), c) + if s.last() == c {
            1nat
        } else {
            0nat
        }
    }
}

proof fn lemma_occurrences_concat(a: Seq<char>, b: Seq<char>, c: char)
    ensures
        occurrences(a + b, c) == occurrences(a, c) + occurrences(b, c),
    decreases b.len(),
{
    if b.len() == 0 {
        assert(a + b =~= a);
    } else {
        assert((a + b).drop_last() =~= a + b.drop_last());
        lemma_occurrences_concat(a, b.drop_last(), c);
    }
}

proof fn lemma_occurrences_absent(s: Seq<char>, c: char)
    requires
        forall|i: int| 0 <= i < s.len() ==> s[i] != c,
    ensures
        occurrences(s, c) == 0,
    decreases s.len(),
{
    if s.len() > 0 {
        lemma_occurrences_absent(s.drop_last(), c);
    }
}

/// A sanitized field holds no tab, newline or carriage return.
proof fn lemma_sanitized_is_clean(field: Seq<char>)
    ensures
        occurrences(sanitized(field), '\t') == 0,
        occurrences(sanitized(field), '\n') == 0,
{
    assert forall|i: int| 0 <= i < sanitized(field).len() implies sanitized(field)[i] != '\t'
        && sanitized(field)[i] != '\n' by {
        assert(sanitized(field)[i] == sanitize_char(field[i]));
    }
    lemma_occurrences_absent(sanitized(field), '\t');
    lemma_occurrences_absent(sanitized(field), '\n');
}

/// A word made of letters holds no tab or newline.
proof fn lemma_word_is_clean(w: Seq<char>)
    requires
        forall|i: int| 0 <= i < w.len() ==> 'a' <= #[trigger] w[i] <= 'z',
    ensures
        occurrences(w, '\t') == 0,
        occurrences(w, '\n') == 0,
{
    lemma_occurrences_absent(w, '\t');
    lemma_occurrences_absent(w, '\n');
}

proof fn lemma_item_line_counts(item: ItemView)
    ensures
        occurrences(item_line(item), '\n') == 1,
        occurrences(item_line(item), '\t') == 3,
        item_line(item).last() == '\n',
{
    reveal_strlit("command");
    reveal_strlit("param");
    reveal_strlit("value");
    lemma_sanitized_is_clean(item.value);
    lemma_sanitized_is_clean(item.display);
    lemma_sanitized_is_clean(item.tooltip);
    lemma_word_is_clean(wire_token(item.kind));
    let tab = seq!['\t'];
    let nl = seq!['\n'];
    let a = sanitized(item.value);
    let b = sanitized(item.display);
    let c = sanitized(item.tooltip);
    let k = wire_token(item.kind);
    assert(occurrences(tab, '\t') == 1 && occurrences(tab, '\n') == 0) by {
        reveal_with_fuel(occurrences, 2);
    }
    assert(occurrences(nl, '\t') == 0 && occurrences(nl, '\n') == 1) by {
        reveal_with_fuel(occurrences, 2);
    }
    assert forall|ch: char| #[trigger] occurrences(item_line(item), ch) == occurrences(a, ch)
        + occurrences(tab, ch) + occurrences(b, ch) + occurrences(tab, ch) + occurrences(c, ch)
        + occurrences(tab, ch) + occurrences(k, ch) + occurrences(nl, ch) by {
        lemma_occurrences_concat(a, tab, ch);
        lemma_occurrences_concat(a + tab, b, ch);
        lemma_occurrences_concat(a + tab + b, tab, ch);
        lemma_occurrences_concat(a + tab + b + tab, c, ch);
        lemma_occurrences_concat(a + tab + b + tab + c, tab, ch);
        lemma_occurrences_concat(a + tab + b + tab + c + tab, k, ch);
        lemma_occurrences_concat(a + tab + b + tab + c + tab + k, nl, ch);
    }
    assert(occurrences(item_line(item), '\n') == 1);
    assert(occurrences(item_line(item), '\t') == 3);
}

proof fn lemma_item_lines_counts(items: Seq<ItemView>)
    ensures
        occurrences(item_lines(items), '\n') == items.len(),
        occurrences(item_lines(items), '\t') == 3 * items.len(),
        items.len() > 0 ==> item_lines(items).last() == '\n',
    decreases items.len(),
{
    if items.len() > 0 {
        lemma_item_lines_counts(items.drop_last());
        lemma_item_line_counts(items.last());
        lemma_occurrences_concat(item_lines(items.drop_last()), item_line(items.last()), '\n');
        lemma_occurrences_concat(item_lines(items.drop_last()), item_line(items.last()), '\t');
    }
}

/// One record per item and four columns per record, whatever the fields hold: an item list
/// renders as its header line and one newline-terminated line per item, with exactly three
/// tabs in each; the directory and file sentinels render as one line with no tab.
pub proof fn lemma_render_records(d: DirectiveView)
    ensures
        spec_render(d).last() == '\n',
        occurrences(spec_render(d), '\n') == match d {
            DirectiveView::Items(items) => items.len() + 1,
            _ => 1,
        },
        occurrences(spec_render(d), '\t') == match d {
            DirectiveView::Items(items) => 3 * items.len(),
            _ => 0,
        },
{
    reveal_strlit("items");
    reveal_strlit("dirs");
    reveal_strlit("files");
    let nl = seq!['\n'];
    assert(occurrences(nl, '\t') == 0 && occurrences(nl, '\n') == 1) by {
        reveal_with_fuel(occurrences, 2);
    }
    let header = match d {
        DirectiveView::Dirs => HEADER_DIRS@,
        DirectiveView::Files => HEADER_FILES@,
        DirectiveView::Items(_) => HEADER_ITEMS@,
    };
    lemma_word_is_clean(header);
    lemma_occurrences_concat(header, nl, '\n');
    lemma_occurrences_concat(header, nl, '\t');
    match d {
        DirectiveView::Items(items) => {
            lemma_item_lines_counts(items);
            lemma_occurrences_concat(header + nl, item_lines(items), '\n');
            lemma_occurrences_concat(header + nl, item_lines(items), '\t');
            if items.len() == 0 {
                assert(item_lines(items) =~= seq![]);
                assert(header + nl + item_lines(items) =~= header + nl);
            }
        },
        _ => {},
    }
}

/// The columns of an item line, read by the shim from the left: the first column is the text
/// inserted on the command line, the item's value with only tabs, newlines and carriage
/// returns blanked, so a value free of them is inserted exactly; then, each after a tab, the
/// display text, the tooltip and the kind's wire name, and the line ends in a newline. A
/// one-item list renders as the header line and that line.
pub proof fn lemma_item_columns(item: ItemView)
    ensures
        ({
            let line = item_line(item);
            let n = item.value.len() as int;
            let m = item.display.len() as int;
            &&& line.len() > n + 1 + m
            &&& forall|i: int| 0 <= i < n ==> #[trigger] line[i] == sanitize_char(item.value[i])
            &&& forall|i: int| 0 <= i < n ==> line[i] != '\t'
            &&& line[n] == '\t'
            &&& forall|i: int|
                0 <= i < m ==> #[trigger] line[n + 1 + i] == sanitize_char(item.display[i])
            &&& line[n + 1 + m] == '\t'
            &&& forall|i: int|
                0 <= i < item.tooltip.len() ==> #[trigger] line[n + 2 + m + i] == sanitize_char(
                    item.tooltip[i],
                )
            &&& line[n + 2 + m + item.tooltip.len()] == '\t'
            &&& line.subrange(n + 3 + m + item.tooltip.len(), line.len() - 1) == wire_token(
                item.kind,
            )
            &&& line.last() == '\n'
            &&& (forall|i: int|
                0 <= i < n ==> item.value[i] != '\t' && item.value[i] != '\n' && item.value[i]
                    != '\r') ==> line.subrange(0, n) == item.value
        }),
        spec_render(DirectiveView::Items(seq![item])) == HEADER_ITEMS@ + seq!['\n'] + item_line(
            item,
        ),
{
    let line = item_line(item);
    let a = sanitized(item.value);
    let b = sanitized(item.display);
    let n = item.value.len() as int;
    let m = item.display.len() as int;
    assert(line =~= a + seq!['\t'] + b + seq!['\t'] + (sanitized(item.tooltip) + seq!['\t']
        + wire_token(item.kind) + seq!['\n']));
    assert forall|i: int| 0 <= i < n implies #[trigger] line[i] == sanitize_char(
        item.value[i],
    ) && line[i] != '\t' by {
        assert(line[i] == a[i]);
    }
    assert forall|i: int| 0 <= i < m implies #[trigger] line[n + 1 + i] == sanitize_char(
        item.display[i],
    ) by {
        assert(line[n + 1 + i] == b[i]);
    }
    let c = sanitized(item.tooltip);
    assert forall|i: int| 0 <= i < item.tooltip.len() implies #[trigger] line[n + 2 + m + i]
        == sanitize_char(item.tooltip[i]) by {
        assert(line[n + 2 + m + i] == c[i]);
    }
    assert(line.subrange(n + 3 + m + item.tooltip.len(), line.len() - 1) =~= wire_token(
        item.kind,
    ));
    if forall|i: int|
        0 <= i < n ==> item.value[i] != '\t' && item.value[i] != '\n' && item.value[i] != '\r' {
        assert(line.subrange(0, n) =~= item.value);
    }
    let items = seq![item];
    assert(items.drop_last() =~= Seq::<ItemView>::empty());
    assert(items.last() == item);
    assert(item_lines(items.drop_last()) =~= Seq::<char>::empty());
    assert(item_lines(items) =~= item_line(item));
}

/// Replace every character that would forge a column or a record with a space.
///
/// Task names, help text and choices all come from a project's `pyproject.toml`, so they are
/// untrusted as far as this format is concerned.
fn sanitize(field: &str) -> (r: String)
    ensures
        r@ == sanitized(field@),
{
    let cs = chars_of(field);
    let mut out = String::new();
    let mut i: usize = 0;
    while i < cs.len()
        invariant
            i <= cs.len(),
            cs@ == field@,
            out@ == sanitized(cs@.take(i as int)),
        decreases cs.len() - i,
    {
        let c = cs[i];
        let d = if c == '\t' || c == '\n' || c == '\r' {
            ' '
        } else {
            c
        };
        push_char(&mut out, d);
        assert(sanitized(cs@.take(i + 1)) =~= sanitized(cs@.take(i as int)).push(d));
        i += 1;
    }
    assert(cs@.take(cs@.len() as int) =~= cs@);
    out
}

/// One item as its four tab-separated columns, newline-terminated.
fn render_item(item: &Item) -> (r: String)
    ensures
        r@ == item_line(item@),
{
    let mut out = sanitize(item.value.as_str());
    push_char(&mut out, '\t');
    out.append(sanitize(item.display.as_str()).as_str());
    push_char(&mut out, '\t');
    out.append(sanitize(item.tooltip.as_str()).as_str());
    push_char(&mut out, '\t');
    out.append(item.kind.as_wire());
    push_char(&mut out, '\n');
    assert(out@ =~= item_line(item@));
    out
}

/// Render a directive for transmission to a shim.
pub fn render(directive: &Directive) -> (r: String)
    ensures
        r@ == spec_render(directive@),
{
    match directive {
        Directive::Dirs => {
            let mut out = String::from_str(HEADER_DIRS);
            push_char(&mut out, '\n');
            out
        },
        Directive::Files => {
            let mut out = String::from_str(HEADER_FILES);
            push_char(&mut out, '\n');
            out
        },
        Directive::Items(items) => {
            let ghost iv = items_view(items@);
            let mut out = String::from_str(HEADER_ITEMS);
            push_char(&mut out, '\n');
            let ghost head = out@;
            let mut i: usize = 0;
            while i < items.len()
                invariant
                    i <= items.len(),
                    iv == items_view(items@),
                    head == HEADER_ITEMS@ + seq!['\n'],
                    out@ == head + item_lines(iv.take(i as int)),
                decreases items.len() - i,
            {
                out.append(render_item(&items[i]).as_str());
                assert(iv.take(i + 1).drop_last() =~= iv.take(i as int));
                assert(iv.take(i + 1).last() == items[i as int]@);
                assert(out@ =~= head + item_lines(iv.take(i + 1)));
                i += 1;
            }
            assert(iv.take(items@.len() as int) =~= iv);
            out
        },
    }
}

} // verus!
