//! Which match the selection stands on, and what Enter makes of it.

use crate::message::{FuzzyEvent, FuzzySelection, FuzzyShutdown};
use crate::service::FuzzyFinderService;
use crate::state;
use crate::state::{FuzzyMatch, FuzzyMatchState, FuzzySelectState, MatchView, SelectionView};
use std::sync::Arc;
use vstd::prelude::*;

verus! {

/// The rows that the finder keeps for what is not a match.
pub const RESERVED_ROWS: usize = 2;

/// What the selection is made from: the place where it stands, the matches, and how many rows the
/// terminal has.
#[derive(Debug, Clone, PartialEq, Eq)]
pub struct SelectStage {
    pub index: usize,
    pub matches: Vec<FuzzyMatch>,
    pub terminal_height: usize,
}

/// What a [`SelectStage`] stands for.
#[verifier::ext_equal]
pub struct SelectStageView {
    pub index: int,
    pub matches: Seq<MatchView>,
    pub terminal_height: int,
}

impl View for SelectStage {
    type V = SelectStageView;

    open spec fn view(&self) -> SelectStageView {
        SelectStageView {
            index: self.index as int,
            matches: state::views(self.matches@),
            terminal_height: self.terminal_height as int,
        }
    }
}

/// What reaches the selection.
#[derive(Debug, Clone, PartialEq, Eq)]
pub enum SelectMessage {
    Event(FuzzyEvent),
    Matches(FuzzyMatchState),
}

impl SelectStageView {
    /// Whether the message is one that the selection answers to.
    pub open spec fn answers(message: SelectMessage) -> bool {
        match message {
            SelectMessage::Event(FuzzyEvent::MoveUp) => true,
            SelectMessage::Event(FuzzyEvent::MoveDown) => true,
            SelectMessage::Event(FuzzyEvent::MoveFirst) => true,
            SelectMessage::Event(FuzzyEvent::MoveLast) => true,
            SelectMessage::Event(FuzzyEvent::Resize(_, _)) => true,
            SelectMessage::Event(_) => false,
            SelectMessage::Matches(_) => true,
        }
    }

    /// What the message asks for, before the selection is brought back among what can be seen.
    pub open spec fn moved(self, message: SelectMessage) -> SelectStageView {
        match message {
            SelectMessage::Event(FuzzyEvent::MoveUp) => SelectStageView {
                index: if self.index > 0 {
                    self.index - 1
                } else {
                    self.index
                },
                ..self
            },
            SelectMessage::Event(FuzzyEvent::MoveDown) => SelectStageView {
                index: self.index + 1,
                ..self
            },
            SelectMessage::Event(FuzzyEvent::MoveFirst) => SelectStageView { index: 0, ..self },
            SelectMessage::Event(FuzzyEvent::MoveLast) => SelectStageView {
                index: if self.matches.len() > 0 {
                    self.matches.len() - 1
                } else {
                    self.index
                },
                ..self
            },
            SelectMessage::Event(FuzzyEvent::Resize(_, rows)) => SelectStageView {
                terminal_height: rows as int,
                ..self
            },
            SelectMessage::Event(_) => self,
            SelectMessage::Matches(found) => SelectStageView {
                matches: state::views(found.matches@),
                ..self
            },
        }
    }

    /// The place nearest to `index` that is on the screen and holds a match; the first one where
    /// there is no match.
    pub open spec fn settled_index(self) -> int {
        let on_screen = if self.terminal_height < self.index + 1 + RESERVED_ROWS {
            self.terminal_height - 1 - RESERVED_ROWS
        } else {
            self.index
        };
        if self.matches.len() == 0 {
            0
        } else if self.matches.len() <= on_screen {
            self.matches.len() - 1
        } else {
            on_screen
        }
    }

    /// What the selection is made from after a message.
    pub open spec fn after(self, message: SelectMessage) -> SelectStageView {
        if Self::answers(message) {
            let moved = self.moved(message);
            SelectStageView { index: moved.settled_index(), ..moved }
        } else {
            self
        }
    }

    /// The match that the selection stands on, where there is one.
    pub open spec fn selection(self) -> Option<SelectionView> {
        if 0 <= self.index < self.matches.len() {
            Some(SelectionView { index: self.index, tab: self.matches[self.index].tab })
        } else {
            None
        }
    }

    /// Whether the message can be answered: at least one row is left for matches, and the place
    /// asked for can be counted.
    pub open spec fn can_answer(self, message: SelectMessage) -> bool {
        Self::answers(message) ==> {
            &&& self.moved(message).terminal_height >= 1 + RESERVED_ROWS
            &&& self.moved(message).index + 1 + RESERVED_ROWS <= usize::MAX
        }
    }
}

impl SelectStage {
    /// A selection on no match, in a terminal of this many rows.
    pub fn new(terminal_height: u16) -> (r: SelectStage)
        ensures
            r@ == (SelectStageView {
                index: 0,
                matches: Seq::empty(),
                terminal_height: terminal_height as int,
            }),
    {
        let r = SelectStage {
            index: 0,
            matches: Vec::new(),
            terminal_height: terminal_height as usize,
        };
        proof {
            assert(state::views(r.matches@) =~= Seq::empty());
        }
        r
    }

    /// Whether the message can be answered: at least one row is left for matches, and the place
    /// asked for can be counted.
    pub fn is_answerable(&self, message: &SelectMessage) -> (r: bool)
        ensures
            r == self@.can_answer(*message),
    {
        let mut index: usize = self.index;
        let mut terminal_height: usize = self.terminal_height;
        match message {
            SelectMessage::Event(event) => match event {
                FuzzyEvent::MoveUp => {
                    if index > 0 {
                        index = index - 1;
                    }
                },
                FuzzyEvent::MoveDown => {
                    if index == usize::MAX {
                        return false;
                    }
                    index = index + 1;
                },
                FuzzyEvent::MoveFirst => {
                    index = 0;
                },
                FuzzyEvent::MoveLast => {
                    if !self.matches.is_empty() {
                        index = self.matches.len() - 1;
                    }
                },
                FuzzyEvent::Resize(_, rows) => {
                    terminal_height = *rows as usize;
                },
                _ => {
                    return true;
                },
            },
            SelectMessage::Matches(_) => {},
        }
        terminal_height >= 1 + RESERVED_ROWS && index <= usize::MAX - 1 - RESERVED_ROWS
    }
}

impl FuzzyFinderService {
    /// Moves the selection, and gives it out where the message is one that it answers to.
    pub fn select_state(stage: &mut SelectStage, message: SelectMessage) -> (r: Option<
        Option<FuzzySelectState>,
    >)
        requires
            old(stage)@.can_answer(message),
        ensures
            final(stage)@ == old(stage)@.after(message),
            r is Some <==> SelectStageView::answers(message),
            r matches Some(selection) ==> state::selection_view(selection)
                == final(stage)@.selection(),
    {
        match message {
            SelectMessage::Event(event) => match event {
                FuzzyEvent::MoveUp => {
                    if stage.index > 0 {
                        stage.index = stage.index - 1;
                    }
                },
                FuzzyEvent::MoveDown => {
                    stage.index = stage.index + 1;
                },
                FuzzyEvent::MoveFirst => {
                    stage.index = 0;
                },
                FuzzyEvent::MoveLast => {
                    if !stage.matches.is_empty() {
                        stage.index = stage.matches.len() - 1;
                    }
                },
                FuzzyEvent::Resize(_, rows) => {
                    stage.terminal_height = rows as usize;
                },
                _ => {
                    return None;
                },
            },
            SelectMessage::Matches(found) => {
                stage.matches = found.matches;
            },
        }

        if stage.terminal_height < stage.index + 1 + RESERVED_ROWS {
            stage.index = stage.terminal_height - 1 - RESERVED_ROWS;
        }
        if stage.matches.is_empty() {
            stage.index = 0;
        } else if stage.matches.len() <= stage.index {
            stage.index = stage.matches.len() - 1;
        }
        if stage.index < stage.matches.len() {
            let tab = stage.matches[stage.index].tab.clone();
            Some(Some(FuzzySelectState { index: stage.index, tab }))
        } else {
            Some(None)
        }
    }

    /// Takes in a message, and tells what becomes of the finder: Enter ends it, with the tab that
    /// is selected or with none; a selection is kept for that time.
    pub fn send_selected(selection: &mut Option<FuzzySelectState>, message: SendMessage) -> (r:
        SendAction)
        ensures
            match message {
                SendMessage::Event(FuzzyEvent::Enter) => match *old(selection) {
                    Some(selected) => r matches SendAction::Select(FuzzySelection(name)) && name@
                        == selected@.tab.name,
                    None => r == SendAction::Shutdown(FuzzyShutdown {  }),
                },
                _ => r == SendAction::Continue,
            },
            match message {
                SendMessage::Selection(next) => *final(selection) == next,
                _ => *final(selection) == *old(selection),
            },
    {
        match message {
            SendMessage::Event(FuzzyEvent::Enter) => match selection {
                Some(selected) => SendAction::Select(FuzzySelection(selected.tab.name.clone())),
                None => SendAction::Shutdown(FuzzyShutdown {  }),
            },
            SendMessage::Event(_) => SendAction::Continue,
            SendMessage::Selection(next) => {
                *selection = next;
                SendAction::Continue
            },
        }
    }
}

/// What reaches the part of the finder that ends it.
#[derive(Debug, Clone, PartialEq, Eq)]
pub enum SendMessage {
    Event(FuzzyEvent),
    Selection(Option<FuzzySelectState>),
}

/// What becomes of the finder.
#[derive(Debug, Clone, PartialEq, Eq)]
pub enum SendAction {
    Continue,
    Select(FuzzySelection),
    Shutdown(FuzzyShutdown),
}

/// After any message that it answers to, the selection stands on a match that is on the screen,
/// or on nothing where there is no match.
pub proof fn law_selection_is_on_screen(before: SelectStageView, message: SelectMessage)
    requires
        SelectStageView::answers(message),
        before.index >= 0,
        before.can_answer(message),
    ensures
        before.after(message).selection() is None <==> before.after(message).matches.len() == 0,
        before.after(message).selection() matches Some(selected) ==> {
            &&& 0 <= selected.index < before.after(message).matches.len()
            &&& selected.index + RESERVED_ROWS < before.after(message).terminal_height
            &&& selected.tab == before.after(message).matches[selected.index].tab
        },
{
}

/// A selection that stands on the screen can answer any message, as long as the terminal keeps a
/// row for matches; and it then stands on the screen again.
pub proof fn law_selection_can_go_on(before: SelectStageView, message: SelectMessage)
    requires
        0 <= before.index,
        before.index + 1 + RESERVED_ROWS <= before.terminal_height <= u16::MAX,
        before.matches.len() + RESERVED_ROWS <= usize::MAX,
        message matches SelectMessage::Event(FuzzyEvent::Resize(_, rows)) ==> rows >= 1
            + RESERVED_ROWS,
    ensures
        before.can_answer(message),
        0 <= before.after(message).index,
        before.after(message).index + 1 + RESERVED_ROWS <= before.after(message).terminal_height
            <= u16::MAX,
{
}

/// A move down and a move up leave the selection where it was, where it could move down.
pub proof fn law_up_undoes_down(before: SelectStageView)
    requires
        0 <= before.index,
        before.index + 1 < before.matches.len(),
        before.index + 1 + RESERVED_ROWS < before.terminal_height,
    ensures
        before.after(SelectMessage::Event(FuzzyEvent::MoveDown)).after(
            SelectMessage::Event(FuzzyEvent::MoveUp),
        ) == before,
{
}

/// The selection goes where it is asked to go: one place up or down, to the first match, to the
/// last one, or nowhere else. It stops short of that place only at the ends of the matches and at
/// the last row of the terminal, of which two rows are not for matches.
pub proof fn law_selection_goes_where_it_is_asked(before: SelectStageView, message: SelectMessage)
    requires
        before.index >= 0,
        before.can_answer(message),
    ensures
        message matches SelectMessage::Event(FuzzyEvent::MoveUp) ==> lands(
            before.after(message),
            before.index - 1,
        ),
        message matches SelectMessage::Event(FuzzyEvent::MoveDown) ==> lands(
            before.after(message),
            before.index + 1,
        ),
        message matches SelectMessage::Event(FuzzyEvent::MoveFirst) ==> lands(
            before.after(message),
            0,
        ),
        message matches SelectMessage::Event(FuzzyEvent::MoveLast) ==> lands(
            before.after(message),
            before.matches.len() - 1,
        ),
        message matches SelectMessage::Event(FuzzyEvent::Resize(_, _)) ==> lands(
            before.after(message),
            before.index,
        ),
        message matches SelectMessage::Matches(_) ==> lands(before.after(message), before.index),
{
}

/// Whether the selection stands on `asked`, or as near to it as a match on the screen is.
pub open spec fn lands(stage: SelectStageView, asked: int) -> bool {
    &&& stage.matches.len() == 0 ==> stage.index == 0
    &&& stage.matches.len() > 0 ==> {
        &&& 0 <= stage.index < stage.matches.len()
        &&& stage.index + 2 < stage.terminal_height
        &&& stage.index < asked ==> (stage.index + 1 == stage.matches.len() || stage.index + 3
            == stage.terminal_height)
        &&& stage.index > asked ==> stage.index == 0
    }
}

/// A place that is on the screen and holds a match is reached, and no other match is selected: a
/// move from it goes to its neighbour, and new matches or a new size of the terminal leave the
/// selection on the place that it stands on.
pub proof fn law_selection_reaches_its_neighbour(
    before: SelectStageView,
    columns: u16,
    rows: u16,
    found: FuzzyMatchState,
)
    requires
        0 <= before.index < before.matches.len(),
        before.index + 2 < before.terminal_height,
    ensures
        before.index > 0 ==> before.after(SelectMessage::Event(FuzzyEvent::MoveUp)).index
            == before.index - 1,
        before.index == 0 ==> before.after(SelectMessage::Event(FuzzyEvent::MoveUp)).index == 0,
        before.index + 1 < before.matches.len() && before.index + 3 < before.terminal_height
            ==> before.after(SelectMessage::Event(FuzzyEvent::MoveDown)).index == before.index + 1,
        before.index + 1 == before.matches.len() || before.index + 3 == before.terminal_height
            ==> before.after(SelectMessage::Event(FuzzyEvent::MoveDown)).index == before.index,
        before.after(SelectMessage::Event(FuzzyEvent::MoveFirst)).index == 0,
        before.matches.len() + 2 <= before.terminal_height ==> before.after(
            SelectMessage::Event(FuzzyEvent::MoveLast),
        ).index == before.matches.len() - 1,
        before.matches.len() + 2 > before.terminal_height ==> before.after(
            SelectMessage::Event(FuzzyEvent::MoveLast),
        ).index == before.terminal_height - 3,
        before.index + 2 < rows ==> before.after(
            SelectMessage::Event(FuzzyEvent::Resize(columns, rows)),
        ).index == before.index,
        3 <= rows <= before.index + 2 ==> before.after(
            SelectMessage::Event(FuzzyEvent::Resize(columns, rows)),
        ).index == rows - 3,
        before.index < found.matches@.len() ==> before.after(SelectMessage::Matches(found)).index
            == before.index,
        0 < found.matches@.len() <= before.index ==> before.after(
            SelectMessage::Matches(found),
        ).index == found.matches@.len() - 1,
        found.matches@.len() == 0 ==> before.after(SelectMessage::Matches(found)).index == 0,
{
}

/// What is selected is the match that stands at the selected place, and it is told by that place.
/// Nothing is selected where nothing stands there.
pub proof fn law_selected_is_the_match_at_the_place(stage: SelectStageView)
    ensures
        stage.selection() is Some <==> 0 <= stage.index < stage.matches.len(),
        stage.selection() matches Some(selected) ==> {
            &&& selected.index == stage.index
            &&& selected.tab == stage.matches[stage.index].tab
        },
{
}

/// Only new matches change the matches, and only a new size of the terminal changes the rows: of
/// the two numbers of a size, the second is the one that counts rows.
pub proof fn law_selection_keeps_the_rest(before: SelectStageView, message: SelectMessage)
    ensures
        message matches SelectMessage::Matches(found) ==> {
            &&& before.after(message).matches.len() == found.matches@.len()
            &&& forall|i: int|
                0 <= i < found.matches@.len() ==> #[trigger] before.after(message).matches[i]
                    == found.matches@[i]@
        },
        message is Event ==> before.after(message).matches == before.matches,
        message matches SelectMessage::Event(FuzzyEvent::Resize(_, rows)) ==> before.after(
            message,
        ).terminal_height == rows,
        !(message matches SelectMessage::Event(FuzzyEvent::Resize(_, _))) ==> before.after(
            message,
        ).terminal_height == before.terminal_height,
{
}

/// What does not move the selection is not answered and changes nothing: typing, moves in the
/// query and Enter. All else is answered.
pub proof fn law_editing_does_not_concern_the_selection(
    before: SelectStageView,
    event: FuzzyEvent,
    found: FuzzyMatchState,
)
    ensures
        SelectStageView::answers(SelectMessage::Event(event)) <==> (event is MoveUp || event
            is MoveDown || event is MoveFirst || event is MoveLast || event is Resize),
        SelectStageView::answers(SelectMessage::Matches(found)),
        event is Insert || event is Delete || event is MoveLeft || event is MoveRight || event
            is Enter ==> before.after(SelectMessage::Event(event)) == before && before.can_answer(
            SelectMessage::Event(event),
        ),
{
}

/// A terminal with a third row can always be answered to, and one without it never, but for what is
/// not answered anyway.
pub proof fn law_third_row_is_enough(before: SelectStageView, message: SelectMessage)
    requires
        SelectStageView::answers(message),
        0 <= before.index,
        before.index + 4 <= usize::MAX,
        before.matches.len() + 4 <= usize::MAX,
    ensures
        message matches SelectMessage::Event(FuzzyEvent::Resize(_, rows)) ==> (before.can_answer(
            message,
        ) <==> rows >= 3),
        !(message matches SelectMessage::Event(FuzzyEvent::Resize(_, _))) ==> (before.can_answer(
            message,
        ) <==> before.terminal_height >= 3),
{
}

/// The part that selects is told by the place of the selection, the matches and the rows.
pub proof fn law_select_stage_is_seen_whole(stage: SelectStage, i: int)
    ensures
        stage@.index == stage.index,
        stage@.matches.len() == stage.matches@.len(),
        0 <= i < stage.matches@.len() ==> stage@.matches[i] == stage.matches@[i]@,
        stage@.terminal_height == stage.terminal_height,
{
}

} // verus!
