//! What holds between the parts of the finder.

use crate::draw;
use crate::draw::CommandView;
use crate::output;
use crate::output::{OutputMessage, OutputStageView};
use crate::ranking;
use crate::select::{SelectMessage, SelectStageView};
use crate::state;
use crate::state::{FuzzyMatchState, FuzzySelectState, TokenView};
use crate::text;
use crate::tokens;
use vstd::prelude::*;

verus! {

/// What Enter chooses is what the marked row shows: once the matches and the selection made from
/// them have been taken in, the match that is selected has a row of its own, that row is the one
/// that is marked, and the name in it is the name of the selected tab.
pub proof fn law_the_marked_row_shows_the_selected_tab(
    select: SelectStageView,
    before: OutputStageView,
    found: FuzzyMatchState,
    between: OutputStageView,
    selection: Option<FuzzySelectState>,
    after: OutputStageView,
)
    requires
        select.index >= 0,
        select.can_answer(SelectMessage::Matches(found)),
        before.steps(OutputMessage::Matches(found), between),
        state::selection_view(selection) == select.after(
            SelectMessage::Matches(found),
        ).selection(),
        between.steps(OutputMessage::Select(selection), after),
    ensures
        selection is None <==> found@.matches.len() == 0,
        selection matches Some(selected) ==> {
            let i = selected@.index;
            &&& 0 <= i < draw::rows_shown(after.display(), select.terminal_height)
            &&& forall|row: int| draw::selects(after.display(), row) <==> row == i
            &&& tokens::joined(after.matches[i].name) == text::padded(
                selected@.tab.name,
                after.doc_index,
            )
        },
{
    if let Some(selected) = selection {
        let i = selected@.index;
        let m = found@.matches[i];
        assert(tokens::shows(m, after.doc_index, after.matches[i]));
        tokens::law_tokens_hold_the_text(
            after.matches[i].name,
            text::padded(m.tab.name, after.doc_index),
            m.name_indices,
        );
    }
}

/// The row of a match shows the tab that was found: the lead, the name of the tab, spaces up to the
/// column of the docs, and the doc of the tab where it has one, and nothing else.
pub proof fn law_row_reads_as_the_tab(
    before: OutputStageView,
    found: FuzzyMatchState,
    after: OutputStageView,
    i: int,
    selected: bool,
)
    requires
        before.steps(OutputMessage::Matches(found), after),
        0 <= i < found.matches@.len(),
    ensures
        ({
            let tab = found.matches@[i].tab;
            let gap = after.doc_index - vstd::utf8::encode_utf8(tab.name@).len();
            &&& gap >= 2
            &&& draw::match_row(after.matches[i], i, selected).map_values(
                |c: CommandView| draw::text_of(c),
            ).flatten() == (if selected {
                "> "@
            } else {
                "  "@
            }) + (tab.name@ + Seq::new(gap as nat, |k: int| ' ')) + match tab.doc {
                Some(doc) => doc@,
                None => Seq::empty(),
            }
        }),
{
    let m = found.matches@[i];
    assert(found@.matches[i] == m@);
    let shown = after.matches[i];
    assert(tokens::shows(m@, after.doc_index, shown));
    output::lemma_name_ends_before_the_docs(before, found, after, i);
    let padded = text::padded(m@.tab.name, after.doc_index);
    let gap = after.doc_index - vstd::utf8::encode_utf8(m.tab.name@).len();
    assert(padded =~= m.tab.name@ + Seq::new(gap as nat, |k: int| ' '));
    tokens::law_cut_keeps_the_text(shown.name, padded, m@.name_indices);
    if let Some(doc) = m.tab.doc {
        tokens::law_cut_keeps_the_text(shown.doc->0, doc@, m@.doc_indices);
    }
    draw::law_match_row_reads_as_the_match(shown, i, selected);
}

/// In the row of a match, a character of the name is underlined exactly when the match marks the
/// byte at which it begins, and the same holds of the doc.
pub proof fn law_row_underlines_what_was_matched(
    before: OutputStageView,
    found: FuzzyMatchState,
    after: OutputStageView,
    i: int,
    selected: bool,
    t: int,
    c: int,
)
    requires
        before.steps(OutputMessage::Matches(found), after),
        0 <= i < found.matches@.len(),
        i + 2 <= u16::MAX,
        ranking::ascends(found.matches@[i].name_indices@),
        ranking::ascends(found.matches@[i].doc_indices@),
    ensures
        ({
            let m = found.matches@[i];
            let shown = after.matches[i];
            let row = draw::match_row(shown, i, selected);
            let at = shown.name.take(t).map_values(|s: TokenView| s.text).flatten().len() + c;
            0 <= t < shown.name.len() && 0 <= c < shown.name[t].text.len() && at
                < m.tab.name@.len() ==> (row[2 + t] matches CommandView::Print(text, style) && {
                &&& text[c] == m.tab.name@[at]
                &&& style.underlined <==> exists|p: int|
                    0 <= p < m.name_indices@.len() && #[trigger] m.name_indices@[p]
                        == vstd::utf8::encode_utf8(m.tab.name@.take(at)).len()
            })
        }),
        ({
            let m = found.matches@[i];
            let shown = after.matches[i];
            let row = draw::match_row(shown, i, selected);
            let names = shown.name.len();
            m.tab.doc matches Some(doc) ==> shown.doc matches Some(tokens) && {
                let at = tokens.take(t).map_values(|s: TokenView| s.text).flatten().len() + c;
                0 <= t < tokens.len() && 0 <= c < tokens[t].text.len() ==> at < doc@.len() && (
                row[3 + names + t] matches CommandView::Print(text, style) && {
                    &&& text[c] == doc@[at]
                    &&& style.underlined <==> exists|p: int|
                        0 <= p < m.doc_indices@.len() && #[trigger] m.doc_indices@[p]
                            == vstd::utf8::encode_utf8(doc@.take(at)).len()
                })
            }
        }),
{
    let m = found.matches@[i];
    assert(found@.matches[i] == m@);
    let shown = after.matches[i];
    assert(tokens::shows(m@, after.doc_index, shown));
    draw::law_match_row_prints_the_tokens(shown, i, selected);
    let row = draw::match_row(shown, i, selected);
    let padded = text::padded(m@.tab.name, after.doc_index);
    text::law_padding_adds_spaces(m@.tab.name, after.doc_index);
    if 0 <= t < shown.name.len() && 0 <= c < shown.name[t].text.len() {
        let at = shown.name.take(t).map_values(|s: TokenView| s.text).flatten().len() + c;
        tokens::law_matched_begins_at_a_mark(shown.name, padded, m@.name_indices, t, c);
        if at < m.tab.name@.len() {
            assert(padded.take(at as int) =~= m.tab.name@.take(at as int));
            assert(padded[at as int] == padded.take(m.tab.name@.len() as int)[at as int]);
            assert(row[2 + t] is Print);
        }
    }
    if let Some(doc) = m.tab.doc {
        let pieces = shown.doc->0;
        if 0 <= t < pieces.len() && 0 <= c < pieces[t].text.len() {
            tokens::law_matched_begins_at_a_mark(pieces, doc@, m@.doc_indices, t, c);
            assert(row[3 + shown.name.len() + t] is Print);
        }
    }
}

} // verus!
