use crate::input::{cancel_hint, column_behind, hint_line, row_below};
use crate::key::Key;
use crate::style::{spans, styled, Span, SpanView, Style};
use crate::terminal::{clip16, display_width, draws, minus, text_width, DrawView, Terminal};
use crate::text::{pop_char, push_char};
use fuzzy_matcher::skim::SkimMatcherV2;
use fuzzy_matcher::FuzzyMatcher;
use vstd::prelude::*;
use vstd::string::*;

verus! {

/// The dialog that narrows a list of lines down by a typed query and lets
/// the user pick one.
#[derive(Debug)]
pub struct FuzzySelect<'a> {
    pub items: &'a [String],
    pub prompt: String,
}

/// A line that matches the query: its position in the list, how well it
/// matches, and its text.
#[derive(Debug)]
pub struct MatchedItem {
    pub index: usize,
    pub score: i64,
    pub text: String,
}

/// What the user has done in the dialog so far: the query typed, and the
/// position of the highlighted line among the matches.
#[derive(Debug)]
pub struct FuzzyState {
    pub query: String,
    pub selected_index: usize,
}

/// What the dialog does after a key.
#[derive(Debug, Clone, Copy, PartialEq, Eq)]
pub enum FuzzyAction {
    /// Show the matches again and wait for the next key.
    Continue,
    /// The dialog ends with the line at this position of the list.
    Submit(usize),
    /// The dialog ends without a line.
    Cancel,
}

/// The longest line and the longest query, in characters, that are handed
/// to the matcher.
pub const MATCH_LIMIT: usize = 1048576;

/// The score that the skim matcher gives `choice` for `pattern`, none where
/// `choice` does not match.
pub uninterp spec fn skim_match(choice: Seq<char>, pattern: Seq<char>) -> Option<i64>;

/// `SkimMatcherV2::fuzzy_match` on a matcher with default settings, made for
/// this one call: the score depends on the two texts alone. The matcher adds
/// scores up in 32 bits, at most a few dozen for each character, so texts
/// within the limit cannot make them overflow.
#[verifier::external_body]
fn fuzzy_score(choice: &str, pattern: &str) -> (score: Option<i64>)
    requires
        choice@.len() <= MATCH_LIMIT,
        pattern@.len() <= MATCH_LIMIT,
    ensures
        score == skim_match(choice@, pattern@),
{
    SkimMatcherV2::default().fuzzy_match(choice, pattern)
}

/// The score of the line at position `i`, none where no score is given.
pub open spec fn score_at(scores: Seq<Option<i64>>, i: int) -> Option<i64> {
    if 0 <= i < scores.len() {
        scores[i]
    } else {
        None
    }
}

/// `a` is listed before `b`: it has the higher score, or the same score and
/// the earlier place in the list.
pub open spec fn ranks_before(a: MatchedItem, b: MatchedItem) -> bool {
    a.score > b.score || (a.score == b.score && a.index < b.index)
}

/// `matched` holds the first `upto` of `items` that have a score, each with
/// its position, score and text, the better score first and equal scores in
/// the order of the list.
pub open spec fn ranked_upto(
    matched: Seq<MatchedItem>,
    items: Seq<String>,
    scores: Seq<Option<i64>>,
    upto: int,
) -> bool {
    &&& forall|k: int|
        0 <= k < matched.len() ==> {
            let entry = #[trigger] matched[k];
            &&& entry.index < upto
            &&& score_at(scores, entry.index as int) == Some(entry.score)
            &&& entry.text@ == items[entry.index as int]@
        }
    &&& forall|i: int|
        0 <= i < upto && score_at(scores, i) is Some ==> exists|k: int|
            0 <= k < matched.len() && (#[trigger] matched[k]).index == i
    &&& forall|a: int, b: int|
        0 <= a < b < matched.len() ==> ranks_before(#[trigger] matched[a], #[trigger] matched[b])
}

/// `matched` holds exactly the lines of `items` that have a score, ranked.
pub open spec fn ranked(
    matched: Seq<MatchedItem>,
    items: Seq<String>,
    scores: Seq<Option<i64>>,
) -> bool {
    ranked_upto(matched, items, scores, items.len() as int)
}

/// The scores of `items` for `query`: every line scores 0 for an empty
/// query; otherwise the matcher decides, and a line or a query beyond the
/// limit of the matcher has no score.
pub open spec fn scores_for(items: Seq<String>, query: Seq<char>) -> Seq<Option<i64>> {
    Seq::new(
        items.len(),
        |i: int|
            if query.len() == 0 {
                Some(0i64)
            } else if query.len() > MATCH_LIMIT || items[i]@.len() > MATCH_LIMIT {
                None
            } else {
                skim_match(items[i]@, query)
            },
    )
}

/// The highlighted position after it was brought back into the list of
/// `count` matches.
pub open spec fn clamp_selected(selected: usize, count: nat) -> usize {
    if selected >= count && count > 0 {
        (count - 1) as usize
    } else {
        selected
    }
}

/// What a key does in the dialog, given the lines that match the query as
/// it stood before the key.
pub open spec fn fuzzy_stepped(
    matched: Seq<MatchedItem>,
    before: FuzzyState,
    key: Key,
    after: FuzzyState,
    action: FuzzyAction,
) -> bool {
    let selected = clamp_selected(before.selected_index, matched.len());
    match key {
        Key::Esc => after.query@ == before.query@ && after.selected_index == selected && action
            == FuzzyAction::Cancel,
        Key::Enter => after.query@ == before.query@ && after.selected_index == selected && action
            == (if matched.len() == 0 {
            FuzzyAction::Cancel
        } else {
            FuzzyAction::Submit(matched[selected as int].index)
        }),
        Key::Char(c) => after.query@ == before.query@.push(c) && after.selected_index == 0
            && action == FuzzyAction::Continue,
        Key::Backspace => action == FuzzyAction::Continue && if before.query@.len() > 0 {
            after.query@ == before.query@.drop_last() && after.selected_index == 0
        } else {
            after.query@ == before.query@ && after.selected_index == selected
        },
        Key::Up => after.query@ == before.query@ && action == FuzzyAction::Continue
            && after.selected_index == (if selected > 0 {
            (selected - 1) as usize
        } else {
            0usize
        }),
        Key::Down => after.query@ == before.query@ && action == FuzzyAction::Continue
            && after.selected_index == (if matched.len() > 0 && selected < matched.len() - 1 {
            (selected + 1) as usize
        } else {
            selected
        }),
        Key::Other => after.query@ == before.query@ && after.selected_index == selected && action
            == FuzzyAction::Continue,
    }
}

/// The line of the dialog: the prompt in yellow, a space, and the query.
pub open spec fn query_line(prompt: Seq<char>, query: Seq<char>) -> Seq<SpanView> {
    seq![
        styled(Style::Yellow, prompt),
        styled(Style::Plain, seq![' ']),
        styled(Style::Plain, query),
    ]
}

/// A line of the list: behind a yellow mark if it is the highlighted one,
/// behind two spaces otherwise.
pub open spec fn item_line(text: Seq<char>, highlighted: bool) -> Seq<SpanView> {
    if highlighted {
        seq![
            styled(Style::Yellow, seq!['>']),
            styled(Style::Plain, seq![' ']),
            styled(Style::Plain, text),
        ]
    } else {
        seq![styled(Style::Plain, seq![' ', ' ']), styled(Style::Plain, text)]
    }
}

/// The first `rows` rows of the list: a line for each match as far as there
/// are matches, empty lines below.
pub open spec fn list_draws(
    terminal: Terminal,
    matched: Seq<MatchedItem>,
    selected: usize,
    rows: nat,
) -> Seq<DrawView>
    decreases rows,
{
    if rows == 0 {
        Seq::<DrawView>::empty()
    } else {
        let i = rows - 1;
        list_draws(terminal, matched, selected, i as nat) + (if i < matched.len() {
            terminal.line_draws(item_line(matched[i].text@, i == selected))
        } else {
            terminal.empty_line_draws()
        })
    }
}

/// The dialog as it is drawn: the line with the prompt and the query, an
/// empty line, the list in the rows that are left above the hint, an empty
/// line, the hint centred, the bottom border, and the cursor behind the
/// query.
pub open spec fn select_draws(
    terminal: Terminal,
    prompt: Seq<char>,
    query: Seq<char>,
    matched: Seq<MatchedItem>,
    selected: usize,
) -> Seq<DrawView> {
    let rows = minus(terminal.tui_height as int, if terminal.border {
        2
    } else {
        0
    });
    let edge: int = if terminal.border {
        2
    } else {
        1
    };
    terminal.clear_draws() + terminal.line_draws(query_line(prompt, query))
        + terminal.empty_line_draws() + list_draws(
        terminal,
        matched,
        selected,
        minus(rows as int, 4),
    ) + terminal.empty_line_draws() + terminal.centred_draws(cancel_hint())
        + terminal.bottom_border_draws() + seq![
        DrawView::MoveTo(
            clip16(edge + display_width(prompt) + 1 + display_width(query)),
            row_of_query(terminal),
        ),
    ]
}

/// The row of the line with the query.
pub open spec fn row_of_query(terminal: Terminal) -> u16 {
    clip16(terminal.start_row + (if terminal.border {
        1int
    } else {
        0int
    }))
}

/// Ranks the lines that have a score: the better score first, and lines of
/// equal score in the order of the list. A line without a score, or beyond
/// the scores given, is left out.
pub fn rank_matches(items: &[String], scores: &[Option<i64>]) -> (matched: Vec<MatchedItem>)
    ensures
        ranked(matched@, items@, scores@),
{
    let mut matched: Vec<MatchedItem> = Vec::new();
    let mut i: usize = 0;
    while i < items.len()
        invariant
            i <= items@.len(),
            ranked_upto(matched@, items@, scores@, i as int),
        decreases items@.len() - i,
    {
        let score = if i < scores.len() {
            scores[i]
        } else {
            None
        };
        match score {
            Some(value) => {
                let mut place: usize = matched.len();
                while place > 0 && matched[place - 1].score < value
                    invariant
                        place <= matched@.len(),
                        forall|k: int| place <= k < matched@.len() ==> (#[trigger] matched@[k]).score < value,
                    decreases place,
                {
                    place -= 1;
                }
                let ghost before = matched@;
                let entry = MatchedItem { index: i, score: value, text: items[i].clone() };
                matched.insert(place, entry);
                proof {
                    let after = matched@;
                    assert(after[place as int] == entry);
                    assert forall|k: int| 0 <= k < after.len() implies ({
                        let e = #[trigger] after[k];
                        &&& e.index < i + 1
                        &&& score_at(scores@, e.index as int) == Some(e.score)
                        &&& e.text@ == items@[e.index as int]@
                    }) by {
                        if k < place {
                            assert(after[k] == before[k]);
                        } else if k > place {
                            assert(after[k] == before[k - 1]);
                        }
                    }
                    assert forall|j: int| 0 <= j < i + 1 && score_at(scores@, j) is Some implies exists|
                        k: int,
                    |
                        0 <= k < after.len() && (#[trigger] after[k]).index == j by {
                        if j < i {
                            let k0 = choose|k: int|
                                0 <= k < before.len() && (#[trigger] before[k]).index == j;
                            if k0 < place {
                                assert(after[k0] == before[k0]);
                            } else {
                                assert(after[k0 + 1] == before[k0]);
                            }
                        } else {
                            assert(after[place as int].index == j);
                        }
                    }
                    assert forall|a: int, b: int| 0 <= a < b < after.len() implies ranks_before(
                        #[trigger] after[a],
                        #[trigger] after[b],
                    ) by {
                        if b < place {
                            assert(after[a] == before[a] && after[b] == before[b]);
                        } else if a > place {
                            assert(after[a] == before[a - 1] && after[b] == before[b - 1]);
                        } else if a < place && b > place {
                            assert(after[a] == before[a] && after[b] == before[b - 1]);
                        } else if a == place {
                            assert(after[b] == before[b - 1]);
                        } else {
                            assert(after[a] == before[a]);
                            assert(before[a].index < i);
                            if place > 0 {
                                assert(before[place - 1].score >= value);
                                if a < place - 1 {
                                    assert(ranks_before(before[a], before[place - 1]));
                                }
                            }
                        }
                    }
                }
            },
            None => {},
        }
        i += 1;
    }
    matched
}

impl<'a> FuzzySelect<'a> {
    /// A dialog over `items` with the default prompt.
    pub fn new(items: &'a [String]) -> (dialog: FuzzySelect<'a>)
        ensures
            dialog.items@ == items@,
            dialog.prompt@ == " :"@,
    {
        FuzzySelect { items, prompt: String::from_str(" :") }
    }

    /// The same dialog with another prompt.
    pub fn with_prompt(self, prompt: String) -> (dialog: FuzzySelect<'a>)
        ensures
            dialog.items@ == self.items@,
            dialog.prompt == prompt,
    {
        FuzzySelect { items: self.items, prompt }
    }

    /// The state in which the dialog opens: no query, the first line
    /// highlighted.
    pub fn start() -> (state: FuzzyState)
        ensures
            state.query@.len() == 0,
            state.selected_index == 0,
    {
        FuzzyState { query: String::new(), selected_index: 0 }
    }

    /// The lines that match `query`, ranked. With an empty query every line
    /// matches, in the order of the list.
    pub fn filter_items(&self, query: &str) -> (matched: Vec<MatchedItem>)
        ensures
            ranked(matched@, self.items@, scores_for(self.items@, query@)),
    {
        let mut scores: Vec<Option<i64>> = Vec::new();
        let blank = query.is_empty();
        let query_fits = query.unicode_len() <= MATCH_LIMIT;
        let mut i: usize = 0;
        while i < self.items.len()
            invariant
                i <= self.items@.len(),
                blank == (query@.len() == 0),
                query_fits == (query@.len() <= MATCH_LIMIT),
                scores@ == scores_for(self.items@, query@).take(i as int),
            decreases self.items@.len() - i,
        {
            let item = self.items[i].as_str();
            let score = if blank {
                Some(0i64)
            } else if !query_fits || item.unicode_len() > MATCH_LIMIT {
                None
            } else {
                fuzzy_score(item, query)
            };
            scores.push(score);
            proof {
                assert(scores@ =~= scores_for(self.items@, query@).take(i + 1));
            }
            i += 1;
        }
        proof {
            assert(scores@ =~= scores_for(self.items@, query@));
        }
        rank_matches(self.items, scores.as_slice())
    }

    /// Draws the dialog: the query, the matches with the one at position
    /// `selected_index` highlighted, and the hint.
    pub fn render(
        &self,
        terminal: &mut Terminal,
        query: &str,
        matched_items: &[MatchedItem],
        selected_index: usize,
    )
        ensures
            old(terminal).drew(
                final(terminal),
                select_draws(*old(terminal), self.prompt@, query@, matched_items@, selected_index),
            ),
    {
        let ghost start = draws(terminal.out@);
        let ghost first = *terminal;
        proof {
            reveal_strlit(" ");
            assert(" "@ =~= seq![' ']);
            reveal_strlit(">");
            assert(">"@ =~= seq!['>']);
            reveal_strlit("  ");
            assert("  "@ =~= seq![' ', ' ']);
        }
        terminal.clear_screen();
        let mut line: Vec<Span> = Vec::new();
        line.push(Span { style: Style::Yellow, text: self.prompt.clone() });
        line.push(Span::new(Style::Plain, " "));
        line.push(Span::new(Style::Plain, query));
        proof {
            assert(spans(line@) =~= query_line(self.prompt@, query@));
        }
        terminal.write_line(line.as_slice());
        terminal.empty_border_line();
        let ghost head = draws(terminal.out@);
        let content_rows = terminal.get_content_rows();
        let num_items: usize = if content_rows >= 4 {
            content_rows - 4
        } else {
            0
        };
        let mut i: usize = 0;
        proof {
            assert(draws(terminal.out@) =~= head + list_draws(first, matched_items@, selected_index, 0));
        }
        while i < num_items
            invariant
                i <= num_items,
                terminal.same_layout(&first),
                " "@ == seq![' '],
                ">"@ == seq!['>'],
                "  "@ == seq![' ', ' '],
                draws(terminal.out@) == head + list_draws(
                    first,
                    matched_items@,
                    selected_index,
                    i as nat,
                ),
            decreases num_items - i,
        {
            if i < matched_items.len() {
                let item = &matched_items[i];
                let mut display: Vec<Span> = Vec::new();
                if i == selected_index {
                    display.push(Span::new(Style::Yellow, ">"));
                    display.push(Span::new(Style::Plain, " "));
                } else {
                    display.push(Span::new(Style::Plain, "  "));
                }
                display.push(Span { style: Style::Plain, text: item.text.clone() });
                proof {
                    assert(spans(display@) =~= item_line(item.text@, i == selected_index));
                }
                terminal.write_line(display.as_slice());
            } else {
                terminal.empty_border_line();
            }
            proof {
                assert(terminal.line_draws(item_line(matched_items@[i as int].text@, i == selected_index))
                    == first.line_draws(item_line(matched_items@[i as int].text@, i == selected_index)));
                assert(terminal.empty_line_draws() == first.empty_line_draws());
                assert(draws(terminal.out@) =~= head + list_draws(
                    first,
                    matched_items@,
                    selected_index,
                    (i + 1) as nat,
                ));
            }
            i += 1;
        }
        terminal.empty_border_line();
        let hint = hint_line();
        terminal.write_centered(hint.as_slice());
        terminal.draw_bottom_border();
        let edge: usize = if terminal.has_border() {
            2
        } else {
            1
        };
        let column = column_behind(edge, text_width(self.prompt.as_str()), text_width(query));
        let row = row_below(terminal.get_start_row(), terminal.has_border());
        terminal.move_cursor_to(column, row);
        proof {
            assert(draws(terminal.out@) =~= start + select_draws(
                first,
                self.prompt@,
                query@,
                matched_items@,
                selected_index,
            ));
        }
    }

    /// Brings the highlighted position back into the list of matches.
    pub fn settle(matched: &Vec<MatchedItem>, state: &mut FuzzyState)
        ensures
            final(state).query == old(state).query,
            final(state).selected_index == clamp_selected(old(state).selected_index, matched@.len()),
    {
        let count = matched.len();
        if state.selected_index >= count && count > 0 {
            state.selected_index = count - 1;
        }
    }

    /// Applies one key, where `matched` are the lines that match the query
    /// as it stands.
    pub fn apply_key(matched: &Vec<MatchedItem>, state: &mut FuzzyState, key: Key) -> (action:
        FuzzyAction)
        ensures
            fuzzy_stepped(matched@, *old(state), key, *final(state), action),
    {
        let count = matched.len();
        FuzzySelect::settle(matched, state);
        match key {
            Key::Esc => FuzzyAction::Cancel,
            Key::Enter => {
                if count == 0 {
                    FuzzyAction::Cancel
                } else {
                    FuzzyAction::Submit(matched[state.selected_index].index)
                }
            },
            Key::Char(c) => {
                push_char(&mut state.query, c);
                state.selected_index = 0;
                FuzzyAction::Continue
            },
            Key::Backspace => {
                if !state.query.as_str().is_empty() {
                    let _ = pop_char(&mut state.query);
                    state.selected_index = 0;
                }
                FuzzyAction::Continue
            },
            Key::Up => {
                if state.selected_index > 0 {
                    state.selected_index = state.selected_index - 1;
                }
                FuzzyAction::Continue
            },
            Key::Down => {
                if count > 0 && state.selected_index < count - 1 {
                    state.selected_index = state.selected_index + 1;
                }
                FuzzyAction::Continue
            },
            Key::Other => FuzzyAction::Continue,
        }
    }
}

} // verus!
