//! What the finder shows.

use crate::message::FuzzyEvent;
use crate::service::FuzzyFinderService;
use crate::state;
use crate::state::{
    FuzzyMatch, FuzzyMatchState, FuzzyOutputEvent, FuzzyOutputMatch, FuzzyQueryState,
    FuzzySelectState, MatchView, OutputMatchView, OutputView, QueryView, SelectionView, TokenView,
};
use crate::text;
use crate::tokens;
use std::sync::Arc;
use vstd::prelude::*;

verus! {

/// The column, in bytes, at which docs are shown before there is any match.
pub const FIRST_DOC_INDEX: usize = 4;

/// What is shown last was made from: the query, the matches as they are shown and out of how many
/// entries, the column at which docs are shown, and the selection.
#[derive(Debug, Clone, PartialEq, Eq)]
pub struct OutputStage {
    pub query_state: Arc<FuzzyQueryState>,
    pub match_state: Arc<Vec<FuzzyOutputMatch>>,
    pub total: usize,
    pub doc_index: usize,
    pub select_state: Arc<Option<FuzzySelectState>>,
}

/// What a [`OutputStage`] stands for.
#[verifier::ext_equal]
pub struct OutputStageView {
    pub query: QueryView,
    pub matches: Seq<OutputMatchView>,
    pub total: int,
    pub doc_index: int,
    pub selection: Option<SelectionView>,
}

impl View for OutputStage {
    type V = OutputStageView;

    open spec fn view(&self) -> OutputStageView {
        OutputStageView {
            query: self.query_state@,
            matches: state::views(self.match_state@),
            total: self.total as int,
            doc_index: self.doc_index as int,
            selection: state::selection_view(*self.select_state),
        }
    }
}

/// What reaches the part of the finder that shows it.
#[derive(Debug, Clone, PartialEq, Eq)]
pub enum OutputMessage {
    Query(FuzzyQueryState),
    Matches(FuzzyMatchState),
    Select(Option<FuzzySelectState>),
    Event(FuzzyEvent),
}

/// The number of bytes of the longest name among the matches.
pub open spec fn widest(matches: Seq<MatchView>) -> int
    decreases matches.len(),
{
    if matches.len() == 0 {
        0
    } else {
        let before = widest(matches.drop_last());
        let len = text::byte_len(matches.last().tab.name) as int;
        if len > before {
            len
        } else {
            before
        }
    }
}

/// The first column past all names, with two columns between; 0 where there are none.
pub open spec fn column(matches: Seq<MatchView>) -> int {
    if matches.len() == 0 {
        0
    } else {
        widest(matches) + 2
    }
}

impl OutputStageView {
    /// Whether the message leads to a new display.
    pub open spec fn answers(message: OutputMessage) -> bool {
        match message {
            OutputMessage::Event(FuzzyEvent::Resize(_, _)) => true,
            OutputMessage::Event(_) => false,
            _ => true,
        }
    }

    /// The column at which docs are shown after these matches: it only ever moves right.
    pub open spec fn doc_index_after(self, matches: Seq<MatchView>) -> int {
        if column(matches) > self.doc_index {
            column(matches)
        } else {
            self.doc_index
        }
    }

    /// `next` is what is shown after the message.
    pub open spec fn steps(self, message: OutputMessage, next: OutputStageView) -> bool {
        match message {
            OutputMessage::Query(query) => next == (OutputStageView { query: query@, ..self }),
            OutputMessage::Matches(found) => {
                &&& next == (OutputStageView {
                    matches: next.matches,
                    total: found@.total,
                    doc_index: self.doc_index_after(found@.matches),
                    ..self
                })
                &&& show_all(found@.matches, next.doc_index, next.matches)
            },
            OutputMessage::Select(selection) => next == (OutputStageView {
                selection: state::selection_view(selection),
                ..self
            }),
            OutputMessage::Event(_) => next == self,
        }
    }

    /// What is drawn.
    pub open spec fn display(self) -> OutputView {
        OutputView {
            query: self.query,
            selection: self.selection,
            matches: self.matches,
            total: self.total,
        }
    }
}

/// `shown` are the matches as they are displayed, names padded to `width` bytes.
pub open spec fn show_all(
    matches: Seq<MatchView>,
    width: int,
    shown: Seq<OutputMatchView>,
) -> bool {
    &&& shown.len() == matches.len()
    &&& forall|i: int|
        0 <= i < matches.len() ==> tokens::shows(matches[i], width, #[trigger] shown[i])
}

/// Whether a column past all names can be counted.
pub open spec fn can_show(message: OutputMessage) -> bool {
    message matches OutputMessage::Matches(found) ==> column(found@.matches) <= usize::MAX
}

impl OutputStage {
    /// An empty query, no match and no selection.
    pub fn new() -> (r: OutputStage)
        ensures
            r@ == (OutputStageView {
                query: QueryView { query: Seq::empty(), cursor_index: 0 },
                matches: Seq::empty(),
                total: 0,
                doc_index: FIRST_DOC_INDEX as int,
                selection: None,
            }),
            r.doc_index == 4,
    {
        let r = OutputStage {
            query_state: Arc::new(FuzzyQueryState::default()),
            match_state: Arc::new(Vec::new()),
            total: 0,
            doc_index: FIRST_DOC_INDEX,
            select_state: Arc::new(None),
        };
        proof {
            assert(state::views(r.match_state@) =~= Seq::empty());
        }
        r
    }
}

impl FuzzyFinderService {
    /// Takes in a message, and gives out what is to be drawn where the message changes it.
    pub fn output_state(stage: &mut OutputStage, message: OutputMessage) -> (r: Option<
        FuzzyOutputEvent,
    >)
        requires
            can_show(message),
        ensures
            old(stage)@.steps(message, final(stage)@),
            r is Some <==> OutputStageView::answers(message),
            r matches Some(event) ==> event@ == final(stage)@.display(),
    {
        match message {
            OutputMessage::Query(query) => {
                stage.query_state = Arc::new(query);
            },
            OutputMessage::Matches(found) => {
                stage.total = found.total;
                let past_names: usize = Self::past_names(&found.matches);
                if past_names > stage.doc_index {
                    stage.doc_index = past_names;
                }
                stage.match_state = Arc::new(Self::shown(found.matches, stage.doc_index));
            },
            OutputMessage::Select(selection) => {
                stage.select_state = Arc::new(selection);
            },
            OutputMessage::Event(event) => match event {
                FuzzyEvent::Resize(_, _) => {},
                _ => {
                    return None;
                },
            },
        }
        Some(
            FuzzyOutputEvent {
                query_state: stage.query_state.clone(),
                select_state: stage.select_state.clone(),
                matches: stage.match_state.clone(),
                total: stage.total,
            },
        )
    }

    /// The first column past all names, with two columns between; 0 where there are none.
    fn past_names(matches: &Vec<FuzzyMatch>) -> (r: usize)
        requires
            column(state::views(matches@)) <= usize::MAX,
        ensures
            r == column(state::views(matches@)),
    {
        let ghost all = state::views(matches@);
        let mut most: usize = 0;
        let mut i: usize = 0;
        proof {
            assert(all.take(0) =~= Seq::empty());
        }
        while i < matches.len()
            invariant
                i <= matches@.len(),
                all == state::views(matches@),
                most == widest(all.take(i as int)),
            decreases matches@.len() - i,
        {
            let len: usize = text::len_of(matches[i].tab.name.as_str());
            proof {
                assert(all.take(i + 1).drop_last() =~= all.take(i as int));
                assert(all.take(i + 1).last() == matches@[i as int]@);
            }
            if len > most {
                most = len;
            }
            i = i + 1;
        }
        proof {
            assert(all.take(i as int) =~= all);
        }
        if matches.is_empty() {
            0
        } else {
            most + 2
        }
    }

    /// The matches as they are displayed, names padded to `width` bytes.
    fn shown(matches: Vec<FuzzyMatch>, width: usize) -> (r: Vec<FuzzyOutputMatch>)
        ensures
            show_all(state::views(matches@), width as int, state::views(r@)),
    {
        let ghost all = matches@;
        let mut r: Vec<FuzzyOutputMatch> = Vec::new();
        for mat in it: matches
            invariant
                it.seq() == all,
                r@.len() == it.index(),
                forall|i: int|
                    0 <= i < r@.len() ==> tokens::shows(
                        all[i]@,
                        width as int,
                        (#[trigger] r@[i])@,
                    ),
        {
            let (name, doc) = Self::parse(mat, width);
            r.push(FuzzyOutputMatch { name, doc });
        }
        r
    }
}

proof fn lemma_widest(matches: Seq<MatchView>, i: int)
    requires
        0 <= i < matches.len(),
    ensures
        text::byte_len(matches[i].tab.name) <= widest(matches),
    decreases matches.len(),
{
    if i < matches.len() - 1 {
        lemma_widest(matches.drop_last(), i);
    }
}

/// Docs line up: after the matches are taken in, every name is shown in exactly as many bytes as
/// the column of the docs.
pub proof fn law_docs_line_up(
    before: OutputStageView,
    found: FuzzyMatchState,
    after: OutputStageView,
    i: int,
)
    requires
        before.steps(OutputMessage::Matches(found), after),
        0 <= i < found@.matches.len(),
    ensures
        text::byte_len(tokens::joined(after.matches[i].name)) == after.doc_index,
{
    let m = found@.matches[i];
    assert(tokens::shows(m, after.doc_index, after.matches[i]));
    tokens::law_tokens_hold_the_text(
        after.matches[i].name,
        text::padded(m.tab.name, after.doc_index),
        m.name_indices,
    );
    lemma_widest(found@.matches, i);
    text::lemma_padded_len(m.tab.name, after.doc_index);
}

/// The column of the docs never moves left.
pub proof fn law_doc_column_never_moves_left(
    before: OutputStageView,
    message: OutputMessage,
    after: OutputStageView,
)
    requires
        before.steps(message, after),
    ensures
        after.doc_index >= before.doc_index,
{
}

proof fn lemma_widest_is_one(matches: Seq<MatchView>)
    requires
        matches.len() > 0,
    ensures
        exists|i: int|
            0 <= i < matches.len() && text::byte_len((#[trigger] matches[i]).tab.name) == widest(
                matches,
            ),
    decreases matches.len(),
{
    reveal_with_fuel(widest, 2);
    let front = matches.drop_last();
    if front.len() > 0 {
        lemma_widest_is_one(front);
        let i = choose|i: int|
            0 <= i < front.len() && text::byte_len((#[trigger] front[i]).tab.name) == widest(front);
        assert(matches[i] == front[i]);
    }
    assert(matches[matches.len() - 1] == matches.last());
}

pub proof fn lemma_name_ends_before_the_docs(
    before: OutputStageView,
    found: FuzzyMatchState,
    after: OutputStageView,
    i: int,
)
    requires
        before.steps(OutputMessage::Matches(found), after),
        0 <= i < found.matches@.len(),
    ensures
        vstd::utf8::encode_utf8(found.matches@[i].tab.name@).len() + 2 <= after.doc_index,
{
    assert(found@.matches[i] == found.matches@[i]@);
    lemma_widest(found@.matches, i);
}

/// Docs begin two columns past the longest name there has been, and no further right: past every
/// name of the new matches, and where they began before or right past one of these names.
pub proof fn law_docs_begin_past_the_longest_name(
    before: OutputStageView,
    found: FuzzyMatchState,
    after: OutputStageView,
)
    requires
        before.doc_index >= 0,
        before.steps(OutputMessage::Matches(found), after),
    ensures
        after.doc_index >= before.doc_index,
        forall|i: int|
            0 <= i < found.matches@.len() ==> vstd::utf8::encode_utf8(
                (#[trigger] found.matches@[i]).tab.name@,
            ).len() + 2 <= after.doc_index,
        after.doc_index == before.doc_index || exists|i: int|
            0 <= i < found.matches@.len() && vstd::utf8::encode_utf8(
                (#[trigger] found.matches@[i]).tab.name@,
            ).len() + 2 == after.doc_index,
{
    let all = found@.matches;
    assert forall|i: int| 0 <= i < found.matches@.len() implies vstd::utf8::encode_utf8(
        (#[trigger] found.matches@[i]).tab.name@,
    ).len() + 2 <= after.doc_index by {
        lemma_name_ends_before_the_docs(before, found, after, i);
    }
    if all.len() > 0 {
        lemma_widest_is_one(all);
        let i = choose|i: int|
            0 <= i < all.len() && text::byte_len((#[trigger] all[i]).tab.name) == widest(all);
        assert(all[i] == found.matches@[i]@);
        let name = found.matches@[i].tab.name@;
        assert(all[i].tab.name == name);
        assert(vstd::utf8::encode_utf8(name).len() + 2 == column(all));
    }
}

/// Each message changes what it brings and nothing else: the query, the selection, or the matches
/// with their number and the column of the docs.
pub proof fn law_output_takes_in_what_it_is_told(
    before: OutputStageView,
    message: OutputMessage,
    after: OutputStageView,
)
    requires
        before.steps(message, after),
    ensures
        message matches OutputMessage::Query(query) ==> after.query.query == query.query@
            && after.query.cursor_index == query.cursor_index,
        !(message is Query) ==> after.query == before.query,
        message matches OutputMessage::Select(Some(selected)) ==> (
        after.selection matches Some(shown) && shown.index == selected.index && shown.tab
            == selected.tab@),
        message matches OutputMessage::Select(None) ==> after.selection is None,
        !(message is Select) ==> after.selection == before.selection,
        message matches OutputMessage::Matches(found) ==> after.total == found.total
            && after.matches.len() == found.matches@.len(),
        !(message is Matches) ==> after.matches == before.matches && after.total == before.total
            && after.doc_index == before.doc_index,
{
}

/// Each match is shown in its own place: its name, with nothing but spaces after it up to the column
/// of the docs, and its doc as it is, where it has one.
pub proof fn law_each_match_is_shown_in_its_place(
    before: OutputStageView,
    found: FuzzyMatchState,
    after: OutputStageView,
    i: int,
)
    requires
        before.steps(OutputMessage::Matches(found), after),
        0 <= i < found.matches@.len(),
    ensures
        ({
            let m = found.matches@[i];
            let name = after.matches[i].name.map_values(|t: TokenView| t.text).flatten();
            &&& name.len() >= m.tab.name@.len()
            &&& name.take(m.tab.name@.len() as int) == m.tab.name@
            &&& forall|k: int| m.tab.name@.len() <= k < name.len() ==> #[trigger] name[k] == ' '
            &&& vstd::utf8::encode_utf8(name).len() == after.doc_index
            &&& after.matches[i].doc is Some <==> m.tab.doc is Some
            &&& m.tab.doc matches Some(doc) ==> (after.matches[i].doc matches Some(shown)
                && shown.map_values(|t: TokenView| t.text).flatten() == doc@)
        }),
{
    let m = found.matches@[i];
    assert(found@.matches[i] == m@);
    let shown = after.matches[i];
    assert(tokens::shows(m@, after.doc_index, shown));
    let padded = text::padded(m@.tab.name, after.doc_index);
    tokens::law_cut_keeps_the_text(shown.name, padded, m@.name_indices);
    text::law_padding_adds_spaces(m@.tab.name, after.doc_index);
    lemma_widest(found@.matches, i);
    text::lemma_padded_len(m@.tab.name, after.doc_index);
    if let Some(doc) = m.tab.doc {
        tokens::law_cut_keeps_the_text(shown.doc->0, doc@, m@.doc_indices);
    }
}

/// Whatever is shown is drawn again when it changes and when the terminal has a new size, and at no
/// other time; what is drawn is what is shown.
pub proof fn law_display_is_what_was_taken_in(stage: OutputStageView, message: OutputMessage)
    ensures
        stage.display().query == stage.query,
        stage.display().selection == stage.selection,
        stage.display().matches == stage.matches,
        stage.display().total == stage.total,
        !(message is Event) ==> OutputStageView::answers(message),
        message matches OutputMessage::Event(event) ==> (OutputStageView::answers(message) <==> event
            is Resize),
        !(message is Matches) ==> can_show(message),
{
}

/// Matches can be shown whenever two columns past each of their names can be counted.
pub proof fn law_names_that_can_be_counted_can_be_shown(found: FuzzyMatchState)
    requires
        forall|i: int|
            0 <= i < found.matches@.len() ==> vstd::utf8::encode_utf8(
                (#[trigger] found.matches@[i]).tab.name@,
            ).len() + 2 <= usize::MAX,
    ensures
        can_show(OutputMessage::Matches(found)),
{
    let all = found@.matches;
    if all.len() > 0 {
        lemma_widest_is_one(all);
        let i = choose|i: int|
            0 <= i < all.len() && text::byte_len((#[trigger] all[i]).tab.name) == widest(all);
        assert(all[i] == found.matches@[i]@);
        assert(vstd::utf8::encode_utf8(found.matches@[i].tab.name@).len() + 2 <= usize::MAX);
    }
}

/// The part that shows the finder is told by the query, the matches as they are shown, the number
/// of entries, the column of the docs and the selection.
pub proof fn law_output_stage_is_seen_whole(stage: OutputStage, i: int)
    ensures
        stage@.query == (*stage.query_state)@,
        stage@.matches.len() == stage.match_state@.len(),
        0 <= i < stage.match_state@.len() ==> stage@.matches[i] == stage.match_state@[i]@,
        stage@.total == stage.total,
        stage@.doc_index == stage.doc_index,
        stage@.selection is Some <==> *stage.select_state is Some,
        *stage.select_state matches Some(selected) ==> stage@.selection == Some(selected@),
{
}

} // verus!
