//! The values that the stages of the finder hold and hand to one another.

use std::sync::Arc;
use vstd::prelude::*;

verus! {

/// The elements of a sequence, each taken by its view.
pub open spec fn views<T: View>(s: Seq<T>) -> Seq<T::V> {
    s.map_values(|t: T| t@)
}

/// An optional text, taken by its view.
pub open spec fn text_view(text: Option<String>) -> Option<Seq<char>> {
    match text {
        Some(t) => Some(t@),
        None => None,
    }
}

/// A tab that the finder can offer.
#[derive(Debug, Clone, PartialEq, Eq)]
pub struct TabEntry {
    pub name: String,
    pub doc: Option<String>,
    /// When the tab was last selected; a larger value is more recent.
    pub last_selected: u128,
    /// A sticky entry is offered whatever the query is.
    pub sticky: bool,
}

/// What a [`TabEntry`] stands for.
#[verifier::ext_equal]
pub struct TabEntryView {
    pub name: Seq<char>,
    pub doc: Option<Seq<char>>,
    pub last_selected: u128,
    pub sticky: bool,
}

impl View for TabEntry {
    type V = TabEntryView;

    open spec fn view(&self) -> TabEntryView {
        TabEntryView {
            name: self.name@,
            doc: text_view(self.doc),
            last_selected: self.last_selected,
            sticky: self.sticky,
        }
    }
}

impl TabEntry {
    /// The entry that offers to create a tab called `name`.
    pub fn entry_new(name: &str) -> (r: TabEntry)
        ensures
            r@ == TabEntryView::entry_new(name@),
            r.name@ == name@,
            r.doc is None,
            r.last_selected == 0,
            r.sticky,
    {
        TabEntry { name: name.to_owned(), doc: None, last_selected: 0, sticky: true }
    }
}

impl TabEntryView {
    /// The entry that offers to create a tab called `name`.
    pub open spec fn entry_new(name: Seq<char>) -> TabEntryView {
        TabEntryView { name, doc: None, last_selected: 0, sticky: true }
    }

    /// The text that a query is matched against: the name, then the doc where there is one.
    pub open spec fn pattern(self) -> Seq<char> {
        match self.doc {
            Some(doc) => self.name + doc,
            None => self.name,
        }
    }
}

/// The tabs that are open to the finder.
#[derive(Debug, Clone, PartialEq, Eq)]
pub struct FuzzyTabsState {
    pub tabs: Vec<TabEntry>,
}

/// The query as typed, and where the cursor stands in it, counted in characters.
#[derive(Debug, PartialEq, Eq)]
pub struct FuzzyQueryState {
    pub query: String,
    pub cursor_index: usize,
}

/// What a [`FuzzyQueryState`] stands for.
#[verifier::ext_equal]
pub struct QueryView {
    pub query: Seq<char>,
    pub cursor_index: int,
}

impl View for FuzzyQueryState {
    type V = QueryView;

    open spec fn view(&self) -> QueryView {
        QueryView { query: self.query@, cursor_index: self.cursor_index as int }
    }
}

impl Clone for FuzzyQueryState {
    fn clone(&self) -> (r: Self)
        ensures
            r == *self,
    {
        FuzzyQueryState { query: self.query.clone(), cursor_index: self.cursor_index }
    }
}

impl Default for FuzzyQueryState {
    fn default() -> (r: Self)
        ensures
            r@ == (QueryView { query: Seq::empty(), cursor_index: 0 }),
    {
        FuzzyQueryState { query: String::new(), cursor_index: 0 }
    }
}

/// An entry that the query found, with the places to be marked in its name and in its doc. They
/// are read as byte offsets; those that come from the matcher were counted in characters, which
/// is the same in ASCII text.
#[derive(Debug, Clone, PartialEq, Eq)]
pub struct FuzzyMatch {
    pub score: i64,
    pub name_indices: Vec<usize>,
    pub doc_indices: Vec<usize>,
    pub tab: Arc<TabEntry>,
}

/// What a [`FuzzyMatch`] stands for.
#[verifier::ext_equal]
pub struct MatchView {
    pub score: i64,
    pub name_indices: Seq<usize>,
    pub doc_indices: Seq<usize>,
    pub tab: TabEntryView,
}

impl View for FuzzyMatch {
    type V = MatchView;

    open spec fn view(&self) -> MatchView {
        MatchView {
            score: self.score,
            name_indices: self.name_indices@,
            doc_indices: self.doc_indices@,
            tab: self.tab@,
        }
    }
}

/// What the filter found, best first, out of `total` entries.
#[derive(Debug, Clone, PartialEq, Eq)]
pub struct FuzzyMatchState {
    pub matches: Vec<FuzzyMatch>,
    pub total: usize,
}

/// What a [`FuzzyMatchState`] stands for.
#[verifier::ext_equal]
pub struct MatchStateView {
    pub matches: Seq<MatchView>,
    pub total: int,
}

impl View for FuzzyMatchState {
    type V = MatchStateView;

    open spec fn view(&self) -> MatchStateView {
        MatchStateView { matches: views(self.matches@), total: self.total as int }
    }
}

/// The entry that the selection stands on, and its place among the matches.
#[derive(Debug, Clone, PartialEq, Eq)]
pub struct FuzzySelectState {
    pub index: usize,
    pub tab: Arc<TabEntry>,
}

/// What a [`FuzzySelectState`] stands for.
#[verifier::ext_equal]
pub struct SelectionView {
    pub index: int,
    pub tab: TabEntryView,
}

impl View for FuzzySelectState {
    type V = SelectionView;

    open spec fn view(&self) -> SelectionView {
        SelectionView { index: self.index as int, tab: self.tab@ }
    }
}

/// An optional selection, taken by its view.
pub open spec fn selection_view(selection: Option<FuzzySelectState>) -> Option<SelectionView> {
    match selection {
        Some(s) => Some(s@),
        None => None,
    }
}

/// A run of characters that the query matched, or one that it did not.
#[derive(Debug, Clone, PartialEq, Eq)]
pub enum Token {
    Unmatched(String),
    Matched(String),
}

/// What a [`Token`] stands for.
#[verifier::ext_equal]
pub struct TokenView {
    pub matched: bool,
    pub text: Seq<char>,
}

impl View for Token {
    type V = TokenView;

    open spec fn view(&self) -> TokenView {
        match self {
            Token::Unmatched(s) => TokenView { matched: false, text: s@ },
            Token::Matched(s) => TokenView { matched: true, text: s@ },
        }
    }
}

/// What becomes of two tokens that stand side by side.
#[derive(Debug, Clone, PartialEq, Eq)]
pub enum TokenJoin {
    /// Both are of one kind: the one run that they make.
    Same(Token),
    /// They are of different kinds: both, in order.
    Different(Token, Token),
}

impl Token {
    /// Joins this token with the one that follows it.
    pub fn join(self, next: Token) -> (r: TokenJoin)
        ensures
            self@.matched == next@.matched ==> (r matches TokenJoin::Same(t) && t@ == (TokenView {
                matched: self@.matched,
                text: self@.text + next@.text,
            })),
            self@.matched != next@.matched ==> r == TokenJoin::Different(self, next),
    {
        match (self, next) {
            (Token::Unmatched(mut a), Token::Unmatched(b)) => {
                a.append(b.as_str());
                TokenJoin::Same(Token::Unmatched(a))
            },
            (Token::Matched(mut a), Token::Matched(b)) => {
                a.append(b.as_str());
                TokenJoin::Same(Token::Matched(a))
            },
            (a, b) => TokenJoin::Different(a, b),
        }
    }
}

/// A match as it is shown: the padded name and the doc, cut into tokens.
#[derive(Debug, Clone, PartialEq, Eq)]
pub struct FuzzyOutputMatch {
    pub name: Vec<Token>,
    pub doc: Option<Vec<Token>>,
}

/// What a [`FuzzyOutputMatch`] stands for.
#[verifier::ext_equal]
pub struct OutputMatchView {
    pub name: Seq<TokenView>,
    pub doc: Option<Seq<TokenView>>,
}

/// An optional list of tokens, taken by its view.
pub open spec fn tokens_view(tokens: Option<Vec<Token>>) -> Option<Seq<TokenView>> {
    match tokens {
        Some(t) => Some(views(t@)),
        None => None,
    }
}

impl View for FuzzyOutputMatch {
    type V = OutputMatchView;

    open spec fn view(&self) -> OutputMatchView {
        OutputMatchView { name: views(self.name@), doc: tokens_view(self.doc) }
    }
}

/// Everything that is drawn.
#[derive(Debug, Clone, PartialEq, Eq)]
pub struct FuzzyOutputEvent {
    pub query_state: Arc<FuzzyQueryState>,
    pub select_state: Arc<Option<FuzzySelectState>>,
    pub matches: Arc<Vec<FuzzyOutputMatch>>,
    pub total: usize,
}

/// What a [`FuzzyOutputEvent`] stands for.
#[verifier::ext_equal]
pub struct OutputView {
    pub query: QueryView,
    pub selection: Option<SelectionView>,
    pub matches: Seq<OutputMatchView>,
    pub total: int,
}

impl View for FuzzyOutputEvent {
    type V = OutputView;

    open spec fn view(&self) -> OutputView {
        OutputView {
            query: self.query_state@,
            selection: selection_view(*self.select_state),
            matches: views(self.matches@),
            total: self.total as int,
        }
    }
}

/// The tab to go back to when the finder is left by Escape, where there is one.
#[derive(Debug, Clone, PartialEq, Eq)]
pub struct FuzzyEscapeState(pub Option<String>);

/// A tab is told by its name, its doc, the time when it was selected and whether it is sticky:
/// two tabs that differ in any of them are seen as different.
pub proof fn law_entry_is_seen_whole(entry: TabEntry)
    ensures
        entry@.name == entry.name@,
        entry@.doc is Some <==> entry.doc is Some,
        entry.doc matches Some(doc) ==> entry@.doc == Some(doc@),
        entry@.last_selected == entry.last_selected,
        entry@.sticky == entry.sticky,
{
}

/// A match is told by its score, the places that it marks and its tab.
pub proof fn law_match_is_seen_whole(m: FuzzyMatch)
    ensures
        m@.score == m.score,
        m@.name_indices == m.name_indices@,
        m@.doc_indices == m.doc_indices@,
        m@.tab == (*m.tab)@,
{
}

/// A list is seen with all its items, in their places.
pub proof fn law_list_is_seen_whole<T: View>(items: Seq<T>)
    ensures
        views(items).len() == items.len(),
        forall|i: int| 0 <= i < items.len() ==> #[trigger] views(items)[i] == items[i]@,
{
}

/// What the filter found is told by the matches, in their order, and by the number of entries.
pub proof fn law_found_is_seen_whole(found: FuzzyMatchState, i: int)
    ensures
        found@.total == found.total,
        found@.matches.len() == found.matches@.len(),
        0 <= i < found.matches@.len() ==> found@.matches[i] == found.matches@[i]@,
{
}

/// A query is told by its text and the place of the cursor.
pub proof fn law_query_is_seen_whole(query: FuzzyQueryState)
    ensures
        query@.query == query.query@,
        query@.cursor_index == query.cursor_index,
{
}

/// A selection is told by its place and its tab, and is different from none.
pub proof fn law_selection_is_seen_whole(selected: FuzzySelectState)
    ensures
        selected@.index == selected.index,
        selected@.tab == (*selected.tab)@,
        selection_view(Some(selected)) == Some(selected@),
        selection_view(None) is None,
{
}

/// A token is told by its text and its kind.
pub proof fn law_token_is_seen_whole(token: Token)
    ensures
        token matches Token::Matched(text) ==> token@.matched && token@.text == text@,
        token matches Token::Unmatched(text) ==> !token@.matched && token@.text == text@,
{
}

/// What is shown of a match is told by the tokens of its name, and of its doc where it has one.
pub proof fn law_shown_match_is_seen_whole(shown: FuzzyOutputMatch, i: int)
    ensures
        shown@.name.len() == shown.name@.len(),
        0 <= i < shown.name@.len() ==> shown@.name[i] == shown.name@[i]@,
        shown@.doc is Some <==> shown.doc is Some,
        shown.doc matches Some(doc) ==> {
            &&& shown@.doc->0.len() == doc@.len()
            &&& 0 <= i < doc@.len() ==> shown@.doc->0[i] == doc@[i]@
        },
{
}

/// What is drawn is told by the query, the selection, the matches as they are shown and the number
/// of entries.
pub proof fn law_output_is_seen_whole(output: FuzzyOutputEvent, i: int)
    ensures
        output@.query == (*output.query_state)@,
        output@.selection is Some <==> *output.select_state is Some,
        *output.select_state matches Some(selected) ==> output@.selection == Some(selected@),
        output@.matches.len() == output.matches@.len(),
        0 <= i < output.matches@.len() ==> output@.matches[i] == output.matches@[i]@,
        output@.total == output.total,
{
}

} // verus!
