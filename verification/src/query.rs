//! How the query is edited.

use crate::message::FuzzyEvent;
use crate::service::FuzzyFinderService;
use crate::state::{FuzzyQueryState, QueryView};
use crate::text;
use vstd::prelude::*;

verus! {

impl QueryView {
    /// Whether the event is one that the query answers to.
    pub open spec fn answers(event: FuzzyEvent) -> bool {
        match event {
            FuzzyEvent::MoveLeft => true,
            FuzzyEvent::MoveRight => true,
            FuzzyEvent::Insert(_) => true,
            FuzzyEvent::Delete => true,
            _ => false,
        }
    }

    /// The character that Delete removes: the one before the cursor, or the first one where the
    /// cursor stands before it.
    pub open spec fn deletes_at(self) -> int {
        if self.cursor_index > 0 {
            self.cursor_index - 1
        } else {
            0
        }
    }

    /// The query after an event. The cursor moves right as long as it is less than the number of
    /// bytes of the query; past the last character, what is typed goes to the end, and nothing is
    /// there to be deleted.
    pub open spec fn after(self, event: FuzzyEvent) -> QueryView {
        match event {
            FuzzyEvent::MoveLeft => QueryView {
                query: self.query,
                cursor_index: if self.cursor_index > 0 {
                    self.cursor_index - 1
                } else {
                    self.cursor_index
                },
            },
            FuzzyEvent::MoveRight => QueryView {
                query: self.query,
                cursor_index: if self.cursor_index < text::byte_len(self.query) {
                    self.cursor_index + 1
                } else {
                    self.cursor_index
                },
            },
            FuzzyEvent::Insert(c) => QueryView {
                query: if self.cursor_index < self.query.len() {
                    self.query.insert(self.cursor_index, c)
                } else {
                    self.query.push(c)
                },
                cursor_index: self.cursor_index + 1,
            },
            FuzzyEvent::Delete => QueryView {
                query: if self.deletes_at() < self.query.len() {
                    self.query.remove(self.deletes_at())
                } else {
                    self.query
                },
                cursor_index: self.deletes_at(),
            },
            _ => self,
        }
    }

    /// Whether the cursor stands in the query: it is not past the number of its bytes.
    pub open spec fn cursor_in_query(self) -> bool {
        0 <= self.cursor_index <= text::byte_len(self.query)
    }
}

impl FuzzyFinderService {
    /// Edits the query, and gives it out where the event is one that it answers to.
    pub fn query_state(state: &mut FuzzyQueryState, event: FuzzyEvent) -> (r: Option<
        FuzzyQueryState,
    >)
        requires
            event is Insert ==> old(state).cursor_index < usize::MAX,
        ensures
            final(state)@ == old(state)@.after(event),
            r is Some <==> QueryView::answers(event),
            r matches Some(given) ==> given@ == final(state)@,
    {
        match event {
            FuzzyEvent::MoveLeft => {
                if state.cursor_index > 0 {
                    state.cursor_index = state.cursor_index - 1;
                }
            },
            FuzzyEvent::MoveRight => {
                if state.cursor_index < text::len_of(state.query.as_str()) {
                    state.cursor_index = state.cursor_index + 1;
                }
            },
            FuzzyEvent::Insert(c) => {
                if state.cursor_index < state.query.as_str().unicode_len() {
                    state.query = text::inserted(state.query.as_str(), state.cursor_index, c);
                } else {
                    state.query.push(c);
                }
                state.cursor_index = state.cursor_index + 1;
            },
            FuzzyEvent::Delete => {
                let remove: usize = if state.cursor_index > 0 {
                    state.cursor_index - 1
                } else {
                    0
                };
                if remove < state.query.as_str().unicode_len() {
                    state.query = text::removed(state.query.as_str(), remove);
                }
                state.cursor_index = remove;
            },
            _ => {
                return None;
            },
        }
        Some(state.clone())
    }
}

/// The cursor never leaves the query, whatever is typed.
pub proof fn law_cursor_stays_in_query(before: QueryView, event: FuzzyEvent)
    requires
        before.cursor_in_query(),
    ensures
        before.after(event).cursor_in_query(),
{
    let q = before.query;
    match event {
        FuzzyEvent::Insert(c) => {
            let at = if before.cursor_index < q.len() {
                before.cursor_index
            } else {
                q.len() as int
            };
            text::lemma_byte_len_insert(q, at, c);
            assert(q.insert(q.len() as int, c) =~= q.push(c));
        },
        FuzzyEvent::Delete => {
            let at = before.deletes_at();
            if at < q.len() {
                text::lemma_byte_len_at_least(q.remove(at));
            }
        },
        _ => {},
    }
}

/// What is typed and then deleted leaves the query and the cursor as they were, from a cursor
/// that is not past the last character.
pub proof fn law_delete_undoes_insert(before: QueryView, c: char)
    requires
        0 <= before.cursor_index <= before.query.len(),
    ensures
        before.after(FuzzyEvent::Insert(c)).after(FuzzyEvent::Delete) == before,
{
    let q = before.query;
    let at = before.cursor_index;
    if at < q.len() {
        assert(q.insert(at, c).remove(at) =~= q);
    } else {
        assert(q.push(c).remove(at) =~= q);
    }
}

/// A move to the right and a move to the left leave the query and the cursor as they were, where
/// the cursor could move right.
pub proof fn law_left_undoes_right(before: QueryView)
    requires
        before.cursor_in_query(),
        before.cursor_index < text::byte_len(before.query),
    ensures
        before.after(FuzzyEvent::MoveRight).after(FuzzyEvent::MoveLeft) == before,
{
}

impl QueryView {
    /// The query after the characters of `text` have been typed, one by one.
    pub open spec fn typed(self, text: Seq<char>) -> QueryView
        decreases text.len(),
    {
        if text.len() == 0 {
            self
        } else {
            self.typed(text.drop_last()).after(FuzzyEvent::Insert(text.last()))
        }
    }
}

/// What is typed at the end of the query is added to it, and the cursor stays at the end.
pub proof fn law_typing_adds_to_the_end(before: QueryView, text: Seq<char>)
    requires
        before.cursor_index == before.query.len(),
    ensures
        before.typed(text) == (QueryView {
            query: before.query + text,
            cursor_index: before.cursor_index + text.len(),
        }),
    decreases text.len(),
{
    if text.len() == 0 {
        assert(before.query + text =~= before.query);
    } else {
        law_typing_adds_to_the_end(before, text.drop_last());
        assert((before.query + text.drop_last()).push(text.last()) =~= before.query + text);
    }
}

/// A character that is typed goes to the cursor, with what stood before the cursor left of it and
/// the rest right of it, and the cursor moves past it. Past the last character, it goes to the end.
pub proof fn law_insert_puts_the_character_at_the_cursor(before: QueryView, c: char)
    requires
        0 <= before.cursor_index,
    ensures
        before.cursor_index <= before.query.len() ==> before.after(FuzzyEvent::Insert(c)).query
            == before.query.take(before.cursor_index) + seq![c] + before.query.skip(
            before.cursor_index,
        ),
        before.cursor_index >= before.query.len() ==> before.after(FuzzyEvent::Insert(c)).query
            == before.query + seq![c],
        before.after(FuzzyEvent::Insert(c)).cursor_index == before.cursor_index + 1,
{
    let q = before.query;
    let at = before.cursor_index;
    if at < q.len() {
        assert(q.insert(at, c) =~= q.take(at) + seq![c] + q.skip(at));
    } else {
        assert(q.push(c) =~= q + seq![c]);
        assert(at == q.len() ==> q.take(at) + seq![c] + q.skip(at) =~= q + seq![c]);
    }
}

/// Delete takes away the character left of the cursor and moves the cursor to where it stood; at
/// the start of the query it takes away the first character, and past the end nothing.
pub proof fn law_delete_takes_the_character_before_the_cursor(before: QueryView)
    requires
        0 <= before.cursor_index,
    ensures
        0 < before.cursor_index <= before.query.len() ==> before.after(FuzzyEvent::Delete).query
            == before.query.take(before.cursor_index - 1) + before.query.skip(before.cursor_index),
        before.cursor_index == 0 && before.query.len() > 0 ==> before.after(
            FuzzyEvent::Delete,
        ).query == before.query.skip(1),
        before.cursor_index > before.query.len() || before.query.len() == 0 ==> before.after(
            FuzzyEvent::Delete,
        ).query == before.query,
        before.cursor_index > 0 ==> before.after(FuzzyEvent::Delete).cursor_index
            == before.cursor_index - 1,
        before.cursor_index == 0 ==> before.after(FuzzyEvent::Delete).cursor_index == 0,
{
    let q = before.query;
    let at = before.cursor_index;
    if 0 < at <= q.len() {
        assert(q.remove(at - 1) =~= q.take(at - 1) + q.skip(at));
    } else if at == 0 && q.len() > 0 {
        assert(q.remove(0) =~= q.skip(1));
    }
}

/// Left and right move the cursor by one and leave the query alone. The cursor stops at the start
/// of the query on the left, and at the number of its bytes on the right.
pub proof fn law_moves_shift_the_cursor_by_one(before: QueryView)
    requires
        0 <= before.cursor_index,
    ensures
        before.after(FuzzyEvent::MoveLeft).query == before.query,
        before.cursor_index > 0 ==> before.after(FuzzyEvent::MoveLeft).cursor_index
            == before.cursor_index - 1,
        before.cursor_index == 0 ==> before.after(FuzzyEvent::MoveLeft).cursor_index == 0,
        before.after(FuzzyEvent::MoveRight).query == before.query,
        before.cursor_index < vstd::utf8::encode_utf8(before.query).len() ==> before.after(
            FuzzyEvent::MoveRight,
        ).cursor_index == before.cursor_index + 1,
        before.cursor_index >= vstd::utf8::encode_utf8(before.query).len() ==> before.after(
            FuzzyEvent::MoveRight,
        ).cursor_index == before.cursor_index,
{
}

/// What does not edit the query leaves it as it is, and is not answered; what edits it always is.
pub proof fn law_only_editing_concerns_the_query(before: QueryView, event: FuzzyEvent)
    ensures
        QueryView::answers(event) <==> (event is Insert || event is Delete || event is MoveLeft
            || event is MoveRight),
        !(event is Insert || event is Delete || event is MoveLeft || event is MoveRight)
            ==> before.after(event) == before,
{
}

} // verus!
