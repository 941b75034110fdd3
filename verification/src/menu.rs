use crate::constants::{help_spans, help_text};
use crate::node::{share, Node};
use crate::options::Options;
use crate::style::{plain_text, spans, styled, Span, SpanView, Style};
use crate::terminal::{display_width, draws, line_width, minus, DrawView, Terminal};
use crate::text::{repeated, run_of, same_text};
use crate::tui::{command_indicator, entry_spans, format_node, indicator_spans, Action};
use std::rc::Rc;
use vstd::prelude::*;
use vstd::string::*;

verus! {

/// The lowercase form of a text, as the standard library defines it.
pub uninterp spec fn lowercase_of(text: Seq<char>) -> Seq<char>;

/// Whether the standard library counts a character as a lowercase letter.
pub uninterp spec fn is_lowercase_char(c: char) -> bool;

/// `str::to_lowercase`: the lowercase form of the text, which depends on the
/// text alone.
#[verifier::external_body]
fn lowercased(text: &str) -> (lower: String)
    ensures
        lower@ == lowercase_of(text@),
{
    text.to_lowercase()
}

/// `char::is_lowercase`: whether the character is a lowercase letter.
#[verifier::external_body]
fn char_is_lowercase(c: char) -> (lower: bool)
    ensures
        lower == is_lowercase_char(c),
{
    c.is_lowercase()
}

/// `a` comes before `b` in the order of the dictionary: at the first place
/// where they differ `a` has the smaller character, or `a` ends there and
/// `b` goes on.
pub open spec fn lex_less(a: Seq<char>, b: Seq<char>) -> bool
    decreases a.len(),
{
    if b.len() == 0 {
        false
    } else if a.len() == 0 {
        true
    } else if a[0] != b[0] {
        a[0] < b[0]
    } else {
        lex_less(a.drop_first(), b.drop_first())
    }
}

/// The key starts with a lowercase letter.
pub open spec fn starts_lowercase(key: Seq<char>) -> bool {
    key.len() > 0 && is_lowercase_char(key[0])
}

/// Which of two keys is shown first, given their lowercase forms and whether
/// each starts with a lowercase letter: the one whose lowercase form comes
/// first in the order of the dictionary; of two keys with the same lowercase
/// form the one that starts with a lowercase letter; and of keys that this
/// does not tell apart the one that comes first in the order of the
/// dictionary itself.
pub open spec fn before_given(
    a: Seq<char>,
    b: Seq<char>,
    a_lower: Seq<char>,
    b_lower: Seq<char>,
    a_starts_lower: bool,
    b_starts_lower: bool,
) -> bool {
    if a_lower != b_lower {
        lex_less(a_lower, b_lower)
    } else if a_starts_lower != b_starts_lower {
        a_starts_lower
    } else {
        lex_less(a, b)
    }
}

/// The key `a` is shown before the key `b`.
pub open spec fn key_before(a: Seq<char>, b: Seq<char>) -> bool {
    before_given(
        a,
        b,
        lowercase_of(a),
        lowercase_of(b),
        starts_lowercase(a),
        starts_lowercase(b),
    )
}

/// The node at position `i` of `nodes` is shown before the one at position
/// `j`: its key comes first, or neither key comes first and it stands
/// earlier in the list.
pub open spec fn shown_before(nodes: Seq<Rc<Node>>, i: int, j: int) -> bool {
    key_before(nodes[i].key@, nodes[j].key@) || (!key_before(nodes[j].key@, nodes[i].key@) && i
        < j)
}

/// `order` lists the first `upto` positions of `nodes`, each once, those
/// shown first in front.
pub open spec fn orders(order: Seq<int>, nodes: Seq<Rc<Node>>, upto: int) -> bool {
    &&& order.len() == upto
    &&& forall|k: int| 0 <= k < order.len() ==> 0 <= #[trigger] order[k] < upto
    &&& forall|a: int, b: int|
        0 <= a < b < order.len() ==> shown_before(nodes, #[trigger] order[a], #[trigger] order[b])
}

/// `sorted` holds the nodes of `nodes` in the order in which they are shown;
/// nodes that the keys do not tell apart keep the order they had.
pub open spec fn sorted_of(sorted: Seq<Rc<Node>>, nodes: Seq<Rc<Node>>) -> bool {
    exists|order: Seq<int>|
        orders(order, nodes, nodes.len() as int) && #[trigger] picked(order, nodes) == sorted
}

/// The nodes at the positions that `order` lists.
pub open spec fn picked(order: Seq<int>, nodes: Seq<Rc<Node>>) -> Seq<Rc<Node>> {
    order.map_values(|i: int| nodes[i])
}

/// No text comes before itself.
pub proof fn lemma_lex_irreflexive(a: Seq<char>)
    ensures
        !lex_less(a, a),
    decreases a.len(),
{
    if a.len() > 0 {
        lemma_lex_irreflexive(a.drop_first());
    }
}

/// Of two different texts one comes before the other.
pub proof fn lemma_lex_total(a: Seq<char>, b: Seq<char>)
    requires
        a != b,
    ensures
        lex_less(a, b) || lex_less(b, a),
    decreases a.len(),
{
    if a.len() > 0 && b.len() > 0 && a[0] == b[0] {
        if a.drop_first() == b.drop_first() {
            assert(a =~= seq![a[0]] + a.drop_first());
            assert(b =~= seq![b[0]] + b.drop_first());
        }
        lemma_lex_total(a.drop_first(), b.drop_first());
    } else if a.len() == 0 && b.len() == 0 {
        assert(a =~= b);
    }
}

/// What comes before a text comes before everything that the text comes
/// before.
pub proof fn lemma_lex_transitive(a: Seq<char>, b: Seq<char>, c: Seq<char>)
    requires
        lex_less(a, b),
        lex_less(b, c),
    ensures
        lex_less(a, c),
    decreases a.len(),
{
    if a.len() > 0 && a[0] == b[0] && b[0] == c[0] {
        lemma_lex_transitive(a.drop_first(), b.drop_first(), c.drop_first());
    }
}

/// A key that is shown before another is shown before any third key, or the
/// third key is shown before the other.
pub proof fn lemma_key_before_between(a: Seq<char>, b: Seq<char>, c: Seq<char>)
    requires
        key_before(a, b),
    ensures
        key_before(a, c) || key_before(c, b),
{
    let la = lowercase_of(a);
    let lb = lowercase_of(b);
    let lc = lowercase_of(c);
    lemma_lex_irreflexive(a);
    lemma_lex_irreflexive(la);
    if la != lc {
        lemma_lex_total(la, lc);
    }
    if lc != lb {
        lemma_lex_total(lc, lb);
    }
    if la != lb && lex_less(lc, la) {
        lemma_lex_transitive(lc, la, lb);
    }
    if la != lb && lex_less(lb, lc) {
        lemma_lex_transitive(la, lb, lc);
    }
    if a != c {
        lemma_lex_total(a, c);
    }
    if c != b {
        lemma_lex_total(c, b);
    }
    if lex_less(a, b) && lex_less(c, a) {
        lemma_lex_transitive(c, a, b);
    }
    if lex_less(a, b) && lex_less(b, c) {
        lemma_lex_transitive(a, b, c);
    }
}

/// Of two keys at most one is shown before the other.
pub proof fn lemma_key_before_one_way(a: Seq<char>, b: Seq<char>)
    requires
        key_before(a, b),
    ensures
        !key_before(b, a),
{
    let la = lowercase_of(a);
    let lb = lowercase_of(b);
    if lex_less(la, lb) && lex_less(lb, la) {
        lemma_lex_transitive(la, lb, la);
        lemma_lex_irreflexive(la);
    }
    if lex_less(a, b) && lex_less(b, a) {
        lemma_lex_transitive(a, b, a);
        lemma_lex_irreflexive(a);
    }
}

/// Whether `a` comes before `b` in the order of the dictionary.
fn text_less(a: &str, b: &str) -> (less: bool)
    ensures
        less == lex_less(a@, b@),
{
    let n = a.unicode_len();
    let m = b.unicode_len();
    let mut i: usize = 0;
    proof {
        assert(a@.skip(0) =~= a@);
        assert(b@.skip(0) =~= b@);
    }
    while i < n && i < m
        invariant
            i <= n,
            i <= m,
            n == a@.len(),
            m == b@.len(),
            lex_less(a@, b@) == lex_less(a@.skip(i as int), b@.skip(i as int)),
        decreases n - i,
    {
        let x = a.get_char(i);
        let y = b.get_char(i);
        proof {
            assert(a@.skip(i as int)[0] == x);
            assert(b@.skip(i as int)[0] == y);
            assert(a@.skip(i as int).drop_first() =~= a@.skip(i + 1));
            assert(b@.skip(i as int).drop_first() =~= b@.skip(i + 1));
        }
        if x != y {
            return x < y;
        }
        i += 1;
    }
    i < m
}

/// Whether the key starts with a lowercase letter.
fn key_starts_lowercase(key: &str) -> (lower: bool)
    ensures
        lower == starts_lowercase(key@),
{
    if key.unicode_len() == 0 {
        false
    } else {
        char_is_lowercase(key.get_char(0))
    }
}

/// Whether the key `a` is shown before the key `b`, given their lowercase
/// forms and whether each starts with a lowercase letter.
pub fn ordered_before(
    a: &str,
    b: &str,
    a_lower: &str,
    b_lower: &str,
    a_starts_lower: bool,
    b_starts_lower: bool,
) -> (before: bool)
    ensures
        before == before_given(a@, b@, a_lower@, b_lower@, a_starts_lower, b_starts_lower),
{
    if !same_text(a_lower, b_lower) {
        text_less(a_lower, b_lower)
    } else if a_starts_lower != b_starts_lower {
        a_starts_lower
    } else {
        text_less(a, b)
    }
}

/// Whether the key `a` is shown before the key `b`.
pub fn comes_before(a: &str, b: &str) -> (before: bool)
    ensures
        before == key_before(a@, b@),
{
    let a_key_lower = lowercased(a);
    let b_key_lower = lowercased(b);
    ordered_before(
        a,
        b,
        a_key_lower.as_str(),
        b_key_lower.as_str(),
        key_starts_lowercase(a),
        key_starts_lowercase(b),
    )
}

/// The entries of a menu in the order in which they are shown.
pub fn sort_menu(nodes: &[Rc<Node>]) -> (sorted: Vec<Rc<Node>>)
    ensures
        sorted_of(sorted@, nodes@),
{
    let mut sorted: Vec<Rc<Node>> = Vec::new();
    let ghost mut order: Seq<int> = Seq::empty();
    let mut i: usize = 0;
    proof {
        assert(picked(order, nodes@) =~= sorted@);
    }
    while i < nodes.len()
        invariant
            i <= nodes@.len(),
            orders(order, nodes@, i as int),
            picked(order, nodes@) == sorted@,
        decreases nodes@.len() - i,
    {
        let node = &nodes[i];
        let mut place: usize = sorted.len();
        while place > 0 && comes_before(node.key.as_str(), sorted[place - 1].key.as_str())
            invariant
                place <= sorted@.len(),
                i < nodes@.len(),
                *node == nodes@[i as int],
                forall|k: int|
                    place <= k < sorted@.len() ==> key_before(
                        node.key@,
                        (#[trigger] sorted@[k]).key@,
                    ),
            decreases place,
        {
            place -= 1;
        }
        let ghost before = sorted@;
        let ghost old_order = order;
        sorted.insert(place, share(node));
        proof {
            order = old_order.insert(place as int, i as int);
            assert(picked(order, nodes@) =~= sorted@) by {
                assert forall|k: int| 0 <= k < order.len() implies picked(order, nodes@)[k]
                    == sorted@[k] by {
                    if k < place {
                        assert(order[k] == old_order[k]);
                        assert(picked(old_order, nodes@)[k] == before[k]);
                    } else if k > place {
                        assert(order[k] == old_order[k - 1]);
                        assert(picked(old_order, nodes@)[k - 1] == before[k - 1]);
                    }
                }
            }
            assert forall|k: int| 0 <= k < order.len() implies 0 <= #[trigger] order[k] < i + 1 by {
                if k < place {
                    assert(order[k] == old_order[k]);
                } else if k > place {
                    assert(order[k] == old_order[k - 1]);
                }
            }
            assert forall|a: int, b: int| 0 <= a < b < order.len() implies shown_before(
                nodes@,
                #[trigger] order[a],
                #[trigger] order[b],
            ) by {
                if b < place {
                    assert(order[a] == old_order[a] && order[b] == old_order[b]);
                } else if a > place {
                    assert(order[a] == old_order[a - 1] && order[b] == old_order[b - 1]);
                } else if a < place && b > place {
                    assert(order[a] == old_order[a] && order[b] == old_order[b - 1]);
                } else if a == place {
                    assert(order[b] == old_order[b - 1]);
                    assert(picked(old_order, nodes@)[b - 1] == before[b - 1]);
                    assert(key_before(node.key@, before[b - 1].key@));
                } else {
                    // a < place == b: nothing up to `place` comes behind the new node
                    assert(order[a] == old_order[a]);
                    assert(old_order[a] < i);
                    let last = place - 1;
                    assert(picked(old_order, nodes@)[last] == before[last]);
                    assert(picked(old_order, nodes@)[a] == before[a]);
                    assert(!key_before(node.key@, before[last].key@));
                    if key_before(node.key@, before[a].key@) {
                        lemma_key_before_between(node.key@, before[a].key@, before[last].key@);
                        assert(key_before(before[last].key@, before[a].key@));
                        assert(a < last);
                        assert(shown_before(nodes@, old_order[a], old_order[last]));
                        if key_before(before[a].key@, before[last].key@) {
                            lemma_key_before_one_way(before[a].key@, before[last].key@);
                        }
                    }
                }
            }
        }
        i += 1;
    }
    sorted
}

/// The largest of `widths`, 0 for none.
pub open spec fn widest(widths: Seq<usize>) -> usize
    decreases widths.len(),
{
    if widths.len() == 0 {
        0
    } else if widths.last() > widest(widths.drop_last()) {
        widths.last()
    } else {
        widest(widths.drop_last())
    }
}

/// The widths of the columns of a table that is filled column by column,
/// `rows` cells to a column: each column is as wide as its widest cell.
pub open spec fn column_widths(widths: Seq<usize>, rows: nat) -> Seq<usize>
    decreases widths.len(),
{
    if widths.len() == 0 || rows == 0 {
        Seq::<usize>::empty()
    } else if widths.len() <= rows {
        seq![widest(widths)]
    } else {
        seq![widest(widths.take(rows as int))] + column_widths(widths.skip(rows as int), rows)
    }
}

/// The width of column `c`, 0 for a column that the table does not have.
pub open spec fn width_at(columns: Seq<usize>, c: int) -> usize {
    if 0 <= c < columns.len() {
        columns[c]
    } else {
        0
    }
}

/// The spans of each cell of a list.
pub open spec fn cell_spans(cells: Seq<Vec<Span>>) -> Seq<Seq<SpanView>> {
    cells.map_values(|cell: Vec<Span>| spans(cell@))
}

/// The display width of each cell of a list.
pub open spec fn cell_widths(cells: Seq<Seq<SpanView>>) -> Seq<usize> {
    cells.map_values(|cell: Seq<SpanView>| display_width(plain_text(cell)))
}

/// A row of the table from the cell at position `k`, which stands in column
/// `c`, to the end of the row: each cell is followed by spaces up to the
/// width of its column and by a tabulator, and the next cell of the row
/// stands `rows` positions further on in the list.
pub open spec fn table_row(
    cells: Seq<Seq<SpanView>>,
    widths: Seq<usize>,
    columns: Seq<usize>,
    rows: nat,
    k: int,
    c: int,
) -> Seq<SpanView>
    decreases cells.len() - k,
{
    if rows == 0 || k < 0 || k >= cells.len() {
        Seq::<SpanView>::empty()
    } else {
        cells[k] + seq![
            styled(
                Style::Plain,
                repeated(' ', minus(width_at(columns, c) as int, width_at(widths, k) as int)),
            ),
            styled(Style::Plain, seq!['\t']),
        ] + (if k + rows < cells.len() {
            table_row(cells, widths, columns, rows, k + rows, c + 1)
        } else {
            Seq::<SpanView>::empty()
        })
    }
}

/// The keys of the nodes of the path so far, with a dim `" > "` between them.
pub open spec fn pressed_keys(path: Seq<Rc<Node>>) -> Seq<SpanView>
    decreases path.len(),
{
    if path.len() == 0 {
        Seq::<SpanView>::empty()
    } else if path.len() == 1 {
        seq![styled(Style::Plain, path[0].key@)]
    } else {
        pressed_keys(path.drop_last()).push(styled(Style::DarkGrey, seq![' ', '>', ' '])).push(
            styled(Style::Plain, path.last().key@),
        )
    }
}

/// The line that shows the keys pressed so far.
pub open spec fn pressed_spans(path: Seq<Rc<Node>>) -> Seq<SpanView> {
    seq![styled(Style::Grey, "Keys pressed:"@), styled(Style::Plain, seq![' '])] + pressed_keys(
        path,
    )
}

/// What stands above the menu: the command and the keys pressed so far, or,
/// before the first key, a request to press one; each followed by an empty
/// line.
pub open spec fn header_draws(terminal: Terminal, path: Seq<Rc<Node>>) -> Seq<DrawView> {
    if path.len() > 0 {
        terminal.line_draws(indicator_spans(path)) + terminal.empty_line_draws()
            + terminal.line_draws(pressed_spans(path)) + terminal.empty_line_draws()
    } else {
        terminal.line_draws(seq![styled(Style::Grey, "Press a key to select an option"@)])
            + terminal.empty_line_draws() + terminal.line_draws(
            seq![styled(Style::Grey, "Available keys:"@)],
        ) + terminal.empty_line_draws()
    }
}

/// The first `upto` rows of the table as lines.
pub open spec fn table_draws(
    terminal: Terminal,
    cells: Seq<Seq<SpanView>>,
    rows: nat,
    upto: nat,
) -> Seq<DrawView>
    decreases upto,
{
    if upto == 0 {
        Seq::<DrawView>::empty()
    } else {
        table_draws(terminal, cells, rows, (upto - 1) as nat) + terminal.line_draws(
            table_row(
                cells,
                cell_widths(cells),
                column_widths(cell_widths(cells), rows),
                rows,
                upto - 1,
                0,
            ),
        )
    }
}

/// The entries of a menu as cells, in the order given.
pub open spec fn entry_cells(entries: Seq<Rc<Node>>, tag: bool) -> Seq<Seq<SpanView>> {
    entries.map_values(|node: Rc<Node>| entry_spans(*node, tag))
}

/// The menu as it is drawn for `shown`, the entries in the order in which
/// they are shown: the cleared area, the header, the entries as a table of
/// `rows` rows, an empty line, the help text centred, and the bottom border.
pub open spec fn menu_draws(
    terminal: Terminal,
    path: Seq<Rc<Node>>,
    shown: Seq<Rc<Node>>,
    tag: bool,
    rows: nat,
) -> Seq<DrawView> {
    terminal.clear_draws() + header_draws(terminal, path) + table_draws(
        terminal,
        entry_cells(shown, tag),
        rows,
        rows,
    ) + terminal.empty_line_draws() + terminal.centred_draws(help_spans())
        + terminal.bottom_border_draws()
}

/// The notice that an action asks for, at the start of the row: that a key
/// selects nothing, or that there is nothing to confirm; nothing for any
/// other action.
pub open spec fn notice_draws(terminal: Terminal, action: Action) -> Seq<DrawView> {
    match action {
        Action::InvalidKey(c) => seq![DrawView::MoveToColumn(0)] + terminal.write_draws(
            seq![
                styled(Style::Red, "Invalid key:"@),
                styled(Style::Plain, seq![' ']),
                styled(Style::Plain, seq![c]),
            ],
        ),
        Action::NothingToConfirm => seq![DrawView::MoveToColumn(0)] + terminal.write_draws(
            seq![styled(Style::Red, "No command to execute"@)],
        ),
        _ => Seq::<DrawView>::empty(),
    }
}

/// The rows that a content area of `height` rows leaves for the entries of
/// the menu: four rows go to the header and two to the help text.
pub fn menu_rows(height: usize) -> (rows: usize)
    ensures
        rows == minus(height as int, 6),
{
    if height >= 6 {
        height - 6
    } else {
        0
    }
}

/// The widths of the columns of a table of `num_rows` rows whose cells have
/// these widths.
pub fn layout_columns(widths: &[usize], num_rows: usize) -> (columns: Vec<usize>)
    ensures
        columns@ == column_widths(widths@, num_rows as nat),
{
    let mut columns: Vec<usize> = Vec::new();
    if num_rows == 0 {
        return columns;
    }
    let n = widths.len();
    let mut start: usize = 0;
    proof {
        assert(widths@.skip(0) =~= widths@);
        assert(columns@ + column_widths(widths@, num_rows as nat) =~= column_widths(
            widths@,
            num_rows as nat,
        ));
    }
    while start < n
        invariant
            start <= n,
            n == widths@.len(),
            num_rows > 0,
            column_widths(widths@, num_rows as nat) == columns@ + column_widths(
                widths@.skip(start as int),
                num_rows as nat,
            ),
        decreases n - start,
    {
        let ghost rest = widths@.skip(start as int);
        let ghost done = columns@;
        let end: usize = if n - start <= num_rows {
            n
        } else {
            start + num_rows
        };
        let mut width: usize = 0;
        let mut i: usize = start;
        while i < end
            invariant
                start <= i <= end <= n,
                n == widths@.len(),
                width == widest(widths@.subrange(start as int, i as int)),
            decreases end - i,
        {
            proof {
                assert(widths@.subrange(start as int, i + 1).drop_last() =~= widths@.subrange(
                    start as int,
                    i as int,
                ));
            }
            if widths[i] > width {
                width = widths[i];
            }
            i += 1;
        }
        columns.push(width);
        proof {
            if n - start <= num_rows {
                assert(widths@.subrange(start as int, end as int) =~= rest);
                assert(widths@.skip(end as int) =~= Seq::<usize>::empty());
                assert(columns@ + column_widths(widths@.skip(end as int), num_rows as nat)
                    =~= done + column_widths(rest, num_rows as nat));
            } else {
                assert(widths@.subrange(start as int, end as int) =~= rest.take(num_rows as int));
                assert(widths@.skip(end as int) =~= rest.skip(num_rows as int));
                assert(columns@ + column_widths(widths@.skip(end as int), num_rows as nat)
                    =~= done + column_widths(rest, num_rows as nat));
            }
        }
        start = end;
    }
    proof {
        assert(widths@.skip(start as int) =~= Seq::<usize>::empty());
        assert(columns@ + Seq::<usize>::empty() =~= columns@);
    }
    columns
}

/// One row of the table: its cells, each filled up to the width of its
/// column and followed by a tabulator.
pub fn table_line(
    cells: &[Vec<Span>],
    widths: &[usize],
    columns: &[usize],
    num_rows: usize,
    row: usize,
) -> (line: Vec<Span>)
    ensures
        spans(line@) == table_row(
            cell_spans(cells@),
            widths@,
            columns@,
            num_rows as nat,
            row as int,
            0,
        ),
{
    let mut line: Vec<Span> = Vec::new();
    let n = cells.len();
    let ghost all = cell_spans(cells@);
    if num_rows == 0 {
        proof {
            assert(spans(line@) =~= Seq::<SpanView>::empty());
        }
        return line;
    }
    let mut k: usize = row;
    let mut c: usize = 0;
    proof {
        reveal_strlit("\t");
        assert("\t"@ =~= seq!['\t']);
    }
    if k >= n {
        proof {
            assert(spans(line@) =~= Seq::<SpanView>::empty());
        }
        return line;
    }
    let mut more = true;
    proof {
        assert(spans(line@) + table_row(all, widths@, columns@, num_rows as nat, row as int, 0)
            =~= table_row(all, widths@, columns@, num_rows as nat, row as int, 0));
    }
    while more
        invariant
            n == cells@.len(),
            all == cell_spans(cells@),
            num_rows > 0,
            c <= k,
            more ==> k < n,
            "\t"@ == seq!['\t'],
            table_row(all, widths@, columns@, num_rows as nat, row as int, 0) == spans(line@) + (
            if more {
                table_row(all, widths@, columns@, num_rows as nat, k as int, c as int)
            } else {
                Seq::<SpanView>::empty()
            }),
        decreases n - k, (if more { 1int } else { 0int }),
    {
        let ghost before = spans(line@);
        let cell = &cells[k];
        let mut i: usize = 0;
        proof {
            assert(spans(line@) =~= before + spans(cell@).take(0));
        }
        while i < cell.len()
            invariant
                i <= cell@.len(),
                spans(line@) == before + spans(cell@).take(i as int),
            decreases cell@.len() - i,
        {
            let ghost prev = line@;
            let span = Span { style: cell[i].style, text: cell[i].text.clone() };
            line.push(span);
            proof {
                assert(span@ == spans(cell@)[i as int]);
                assert(spans(line@) =~= spans(prev).push(span@));
                assert(spans(cell@).take(i + 1) =~= spans(cell@).take(i as int).push(span@));
                assert(spans(line@) =~= before + spans(cell@).take(i + 1));
            }
            i += 1;
        }
        proof {
            assert(spans(cell@).take(i as int) =~= spans(cell@));
            assert(all[k as int] == spans(cell@));
        }
        let column_width: usize = if c < columns.len() {
            columns[c]
        } else {
            0
        };
        let cell_width: usize = if k < widths.len() {
            widths[k]
        } else {
            0
        };
        let fill: usize = if column_width >= cell_width {
            column_width - cell_width
        } else {
            0
        };
        let ghost filled = line@;
        let gap_span = Span { style: Style::Plain, text: run_of(' ', fill) };
        let tab_span = Span::new(Style::Plain, "\t");
        let ghost tail = seq![gap_span@, tab_span@];
        line.push(gap_span);
        line.push(tab_span);
        proof {
            assert(spans(line@) =~= spans(filled) + tail);
            assert(spans(line@) =~= before + (all[k as int] + tail));
        }
        if n - k > num_rows {
            proof {
                let rest = table_row(all, widths@, columns@, num_rows as nat, k + num_rows, c + 1);
                assert(before + (all[k as int] + tail + rest) =~= spans(line@) + rest);
            }
            k += num_rows;
            c += 1;
        } else {
            proof {
                assert(before + (all[k as int] + tail + Seq::<SpanView>::empty()) =~= spans(line@)
                    + Seq::<SpanView>::empty());
            }
            more = false;
        }
    }
    proof {
        assert(spans(line@) + Seq::<SpanView>::empty() =~= spans(line@));
    }
    line
}

/// The line that shows the keys pressed so far.
pub fn keys_pressed(path: &[Rc<Node>]) -> (line: Vec<Span>)
    ensures
        spans(line@) == pressed_spans(path@),
{
    let mut line: Vec<Span> = Vec::new();
    proof {
        reveal_strlit(" ");
        assert(" "@ =~= seq![' ']);
        reveal_strlit(" > ");
        assert(" > "@ =~= seq![' ', '>', ' ']);
    }
    line.push(Span::new(Style::Grey, "Keys pressed:"));
    line.push(Span::new(Style::Plain, " "));
    let ghost head = spans(line@);
    proof {
        assert(head =~= seq![
            styled(Style::Grey, "Keys pressed:"@),
            styled(Style::Plain, seq![' ']),
        ]);
        assert(spans(line@) =~= head + pressed_keys(path@.take(0)));
    }
    let mut i: usize = 0;
    while i < path.len()
        invariant
            i <= path@.len(),
            " > "@ == seq![' ', '>', ' '],
            spans(line@) == head + pressed_keys(path@.take(i as int)),
        decreases path@.len() - i,
    {
        proof {
            assert(path@.take(i + 1).drop_last() =~= path@.take(i as int));
            assert(path@.take(i + 1).last() == path@[i as int]);
            assert(path@.take(i + 1)[0] == path@[0]);
        }
        let ghost prev = line@;
        if i > 0 {
            line.push(Span::new(Style::DarkGrey, " > "));
            proof {
                assert(spans(line@) =~= spans(prev).push(
                    styled(Style::DarkGrey, seq![' ', '>', ' ']),
                ));
            }
        }
        let ghost mid = line@;
        line.push(Span { style: Style::Plain, text: path[i].key.clone() });
        proof {
            assert(spans(line@) =~= spans(mid).push(styled(Style::Plain, path@[i as int].key@)));
            if i == 0 {
                assert(pressed_keys(path@.take(0)) =~= Seq::<SpanView>::empty());
            }
            assert(spans(line@) =~= head + pressed_keys(path@.take(i + 1)));
        }
        i += 1;
    }
    proof {
        assert(path@.take(i as int) =~= path@);
    }
    line
}

/// Draws what stands above the menu.
fn render_header(terminal: &mut Terminal, path: &[Rc<Node>])
    ensures
        old(terminal).drew(final(terminal), header_draws(*old(terminal), path@)),
{
    let ghost start = draws(terminal.out@);
    if path.len() > 0 {
        let indicator = command_indicator(path);
        terminal.write_line(indicator.as_slice());
        terminal.empty_border_line();
        let pressed = keys_pressed(path);
        terminal.write_line(pressed.as_slice());
        terminal.empty_border_line();
    } else {
        let mut first: Vec<Span> = Vec::new();
        first.push(Span::new(Style::Grey, "Press a key to select an option"));
        let mut second: Vec<Span> = Vec::new();
        second.push(Span::new(Style::Grey, "Available keys:"));
        proof {
            assert(spans(first@) =~= seq![styled(Style::Grey, "Press a key to select an option"@)]);
            assert(spans(second@) =~= seq![styled(Style::Grey, "Available keys:"@)]);
        }
        terminal.write_line(first.as_slice());
        terminal.empty_border_line();
        terminal.write_line(second.as_slice());
        terminal.empty_border_line();
    }
    proof {
        assert(draws(terminal.out@) =~= start + header_draws(*old(terminal), path@));
    }
}

/// Draws the menu: the header for the path, the entries in the order in
/// which they are shown as a table of `num_rows` rows, and the help text.
pub fn render_menu(
    terminal: &mut Terminal,
    path: &[Rc<Node>],
    entries: &[Rc<Node>],
    opts: &Options,
    num_rows: usize,
)
    ensures
        exists|shown: Seq<Rc<Node>>|
            sorted_of(shown, entries@) && old(terminal).drew(
                final(terminal),
                #[trigger] menu_draws(
                    *old(terminal),
                    path@,
                    shown,
                    opts.print_immediate_tag,
                    num_rows as nat,
                ),
            ),
{
    let ghost start = draws(terminal.out@);
    let ghost first = *terminal;
    terminal.clear_screen();
    render_header(terminal, path);
    let sorted_nodes = sort_menu(entries);
    let ghost all = entry_cells(sorted_nodes@, opts.print_immediate_tag);
    let mut cells: Vec<Vec<Span>> = Vec::new();
    let mut widths: Vec<usize> = Vec::new();
    let mut i: usize = 0;
    while i < sorted_nodes.len()
        invariant
            i <= sorted_nodes@.len(),
            all == entry_cells(sorted_nodes@, opts.print_immediate_tag),
            cell_spans(cells@) == all.take(i as int),
            widths@ == cell_widths(all).take(i as int),
        decreases sorted_nodes@.len() - i,
    {
        let cell = format_node(&sorted_nodes[i], opts);
        let ghost old_cells = cells@;
        let ghost old_widths = widths@;
        let width = line_width(cell.as_slice());
        widths.push(width);
        cells.push(cell);
        proof {
            assert(all[i as int] == entry_spans(*sorted_nodes@[i as int], opts.print_immediate_tag));
            assert(cell_spans(cells@) =~= cell_spans(old_cells).push(all[i as int]));
            assert(all.take(i + 1) =~= all.take(i as int).push(all[i as int]));
            assert(cell_widths(all)[i as int] == width);
            assert(cell_widths(all).take(i + 1) =~= cell_widths(all).take(i as int).push(width));
        }
        i += 1;
    }
    proof {
        assert(all.take(i as int) =~= all);
        assert(cell_widths(all).take(i as int) =~= cell_widths(all));
    }
    let columns = layout_columns(widths.as_slice(), num_rows);
    let ghost head = draws(terminal.out@);
    let mut row: usize = 0;
    proof {
        assert(draws(terminal.out@) =~= head + table_draws(first, all, num_rows as nat, 0));
    }
    while row < num_rows
        invariant
            row <= num_rows,
            terminal.same_layout(&first),
            cell_spans(cells@) == all,
            widths@ == cell_widths(all),
            columns@ == column_widths(cell_widths(all), num_rows as nat),
            draws(terminal.out@) == head + table_draws(first, all, num_rows as nat, row as nat),
        decreases num_rows - row,
    {
        let line = table_line(
            cells.as_slice(),
            widths.as_slice(),
            columns.as_slice(),
            num_rows,
            row,
        );
        let ghost shown_line = spans(line@);
        terminal.write_line(line.as_slice());
        proof {
            assert(terminal.line_draws(shown_line) == first.line_draws(shown_line));
            assert(draws(terminal.out@) =~= head + table_draws(
                first,
                all,
                num_rows as nat,
                (row + 1) as nat,
            ));
        }
        row += 1;
    }
    terminal.empty_border_line();
    let help = help_text();
    terminal.write_centered(help.as_slice());
    terminal.draw_bottom_border();
    proof {
        assert(draws(terminal.out@) =~= start + menu_draws(
            first,
            path@,
            sorted_nodes@,
            opts.print_immediate_tag,
            num_rows as nat,
        ));
    }
}

/// Draws the notice that an action asks for, if it asks for one.
pub fn render_notice(terminal: &mut Terminal, action: &Action)
    ensures
        old(terminal).drew(final(terminal), notice_draws(*old(terminal), *action)),
{
    let ghost start = draws(terminal.out@);
    match action {
        Action::InvalidKey(c) => {
            terminal.start_of_row();
            let mut line: Vec<Span> = Vec::new();
            line.push(Span::new(Style::Red, "Invalid key:"));
            line.push(Span::new(Style::Plain, " "));
            line.push(Span { style: Style::Plain, text: run_of(*c, 1) });
            proof {
                reveal_strlit(" ");
                assert(" "@ =~= seq![' ']);
                assert(repeated(*c, 1) =~= seq![*c]);
                assert(spans(line@) =~= seq![
                    styled(Style::Red, "Invalid key:"@),
                    styled(Style::Plain, seq![' ']),
                    styled(Style::Plain, seq![*c]),
                ]);
            }
            terminal.write(line.as_slice());
        },
        Action::NothingToConfirm => {
            terminal.start_of_row();
            let mut line: Vec<Span> = Vec::new();
            line.push(Span::new(Style::Red, "No command to execute"));
            proof {
                assert(spans(line@) =~= seq![styled(Style::Red, "No command to execute"@)]);
            }
            terminal.write(line.as_slice());
        },
        _ => {},
    }
    proof {
        assert(draws(terminal.out@) =~= start + notice_draws(*old(terminal), *action));
    }
}

} // verus!
