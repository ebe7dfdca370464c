//! Which entries there are, what the query is, and what the two come to.

use crate::config::FuzzyConfig;
use crate::matcher;
use crate::matcher::Matcher;
use crate::order;
use crate::order::Order;
use crate::ranking;
use crate::service::FuzzyFinderService;
use crate::state;
use crate::state::{
    FuzzyMatchState, FuzzyQueryState, FuzzyTabsState, MatchStateView, MatchView, TabEntry,
    TabEntryView,
};
use crate::text;
use std::sync::Arc;
use vstd::prelude::*;

verus! {

/// What the filter holds: the matcher that it searches with, the entries in the order in which
/// they are listed, the query where there is one, and the settings.
pub struct FilterStage {
    pub matcher: Matcher,
    pub entries: Vec<Arc<TabEntry>>,
    pub query: Option<String>,
    pub config: FuzzyConfig,
}

/// What a [`FilterStage`] stands for, beside its matcher.
#[verifier::ext_equal]
pub struct FilterView {
    pub entries: Seq<TabEntryView>,
    pub query: Option<Seq<char>>,
    pub config: FuzzyConfig,
}

impl View for FilterStage {
    type V = FilterView;

    open spec fn view(&self) -> FilterView {
        FilterView {
            entries: state::views(self.entries@),
            query: state::text_view(self.query),
            config: self.config,
        }
    }
}

/// What reaches the filter.
#[derive(Debug, Clone, PartialEq, Eq)]
pub enum FilterEvent {
    Tabs(Option<FuzzyTabsState>),
    Query(FuzzyQueryState),
}

impl FilterView {
    /// Whether the event changes nothing: it brings the query that the filter has already.
    pub open spec fn repeats(self, event: FilterEvent) -> bool {
        event matches FilterEvent::Query(state) && self.query == Some(state.query@)
    }

    /// The query after the event; an empty one is none.
    pub open spec fn query_after(self, event: FilterEvent) -> Option<Seq<char>> {
        match event {
            FilterEvent::Query(state) => if state.query@.len() == 0 {
                None
            } else {
                Some(state.query@)
            },
            FilterEvent::Tabs(_) => self.query,
        }
    }

    /// The entries after the event, before they are put in order.
    pub open spec fn entries_after(self, event: FilterEvent) -> Seq<TabEntryView> {
        match event {
            FilterEvent::Tabs(Some(state)) => state::views(state.tabs@),
            _ => self.entries,
        }
    }

    /// `next` is what the filter holds after an event that is no repeat.
    pub open spec fn steps(self, event: FilterEvent, next: FilterView) -> bool {
        &&& next.query == self.query_after(event)
        &&& next.config == self.config
        &&& match event {
            FilterEvent::Tabs(Some(state)) => order::stable_sort(
                state::views(state.tabs@),
                next.entries,
            ),
            _ => next.entries == self.entries,
        }
    }

    /// `next` is what the filter holds after the event; a repeat changes nothing.
    pub open spec fn follows(self, event: FilterEvent, next: FilterView) -> bool {
        if self.repeats(event) {
            next == self
        } else {
            self.steps(event, next)
        }
    }
}

/// The text from which a new tab takes its name: the query, or a stock name without one.
pub open spec fn new_tab_text(query: Option<Seq<char>>) -> Seq<char> {
    match query {
        Some(q) => q,
        None => "tab"@,
    }
}

/// Whether a new tab is suggested at all: there is a query, or there is no entry.
pub open spec fn suggests_new_tab(entries: Seq<TabEntryView>, query: Option<Seq<char>>) -> bool {
    query is Some || entries.len() == 0
}

/// The entry that offers a new tab called `name`; none where an entry has that name already.
pub open spec fn offered(entries: Seq<TabEntryView>, name: Seq<char>) -> Option<TabEntryView> {
    if exists|i: int| 0 <= i < entries.len() && (#[trigger] entries[i]).name == name {
        None
    } else {
        Some(TabEntryView::entry_new(name))
    }
}

/// `created` is the entry that offers a new tab, where `normalize` gives a tab its name.
pub open spec fn creates<F: Fn(&str) -> String>(
    normalize: F,
    entries: Seq<TabEntryView>,
    query: Option<Seq<char>>,
    created: Option<TabEntryView>,
) -> bool {
    if suggests_new_tab(entries, query) {
        exists|typed: &str, name: String|
            {
                &&& typed@ == new_tab_text(query)
                &&& #[trigger] call_ensures(normalize, (typed,), name)
                &&& created == offered(entries, name@)
            }
    } else {
        created is None
    }
}

/// An optional entry, taken by its view.
pub open spec fn entry_view(entry: Option<TabEntry>) -> Option<TabEntryView> {
    match entry {
        Some(e) => Some(e@),
        None => None,
    }
}

/// The entries, followed by the one that offers a new tab.
pub open spec fn with_created(
    entries: Seq<TabEntryView>,
    created: Option<TabEntryView>,
) -> Seq<TabEntryView> {
    match created {
        Some(entry) => entries.push(entry),
        None => entries,
    }
}

/// `found` is what the filter makes of its entries and its query, given the entry that offers a
/// new tab and the answers of the matcher, one for each candidate.
pub open spec fn filters_with(
    stage: FilterView,
    created: Option<TabEntryView>,
    outcomes: Seq<Option<(i64, Seq<usize>)>>,
    found: MatchStateView,
) -> bool {
    let candidates = with_created(stage.entries, created);
    &&& ranking::sound_outcomes(candidates, stage.query, outcomes)
    &&& ranking::ranks(candidates, stage.query is Some, outcomes, found)
}

/// `found` is what the filter makes of its entries and its query: the entries and the new tab
/// that is offered, those that the matcher finds, best first.
pub open spec fn filters<F: Fn(&str) -> String>(
    normalize: F,
    stage: FilterView,
    found: MatchStateView,
) -> bool {
    exists|created: Option<TabEntryView>, outcomes: Seq<Option<(i64, Seq<usize>)>>|
        {
            &&& if stage.config.create_tab {
                creates(normalize, stage.entries, stage.query, created)
            } else {
                created is None
            }
            &&& #[trigger] filters_with(stage, created, outcomes, found)
        }
}

impl FilterStage {
    /// A filter that has heard of no tab and of no query.
    pub fn new(config: FuzzyConfig) -> (r: FilterStage)
        ensures
            r@ == (FilterView { entries: Seq::empty(), query: None, config }),
    {
        let r = FilterStage { matcher: Matcher::new(), entries: Vec::new(), query: None, config };
        proof {
            assert(state::views(r.entries@) =~= Seq::empty());
        }
        r
    }

    /// Whether the query after the event can be matched against the entries after it.
    pub fn is_searchable(&self, event: &FilterEvent) -> (r: bool)
        ensures
            r == ranking::searchable(self@.entries_after(*event), self@.query_after(*event)),
    {
        let query_len: usize = match event {
            FilterEvent::Query(state) => state.query.as_str().unicode_len(),
            FilterEvent::Tabs(_) => match &self.query {
                Some(query) => query.as_str().unicode_len(),
                None => {
                    return true;
                },
            },
        };
        if let FilterEvent::Query(_) = event {
            if query_len == 0 {
                return true;
            }
        }
        let ghost query = self@.query_after(*event);
        match event {
            FilterEvent::Tabs(Some(state)) => {
                let mut i: usize = 0;
                while i < state.tabs.len()
                    invariant
                        i <= state.tabs@.len(),
                        query == self@.query_after(*event),
                        query matches Some(q) && q.len() == query_len,
                        self@.entries_after(*event) == state::views(state.tabs@),
                        forall|j: int|
                            0 <= j < i && !state::views(state.tabs@)[j].sticky
                                ==> matcher::table_fits(
                                (#[trigger] state::views(state.tabs@)[j]).pattern().len(),
                                query_len as nat,
                            ),
                    decreases state.tabs@.len() - i,
                {
                    if !state.tabs[i].fits_table(query_len) {
                        proof {
                            assert(!matcher::table_fits(
                                state::views(state.tabs@)[i as int].pattern().len(),
                                query_len as nat,
                            ));
                        }
                        return false;
                    }
                    i = i + 1;
                }
                true
            },
            _ => {
                let mut i: usize = 0;
                while i < self.entries.len()
                    invariant
                        i <= self.entries@.len(),
                        query == self@.query_after(*event),
                        query matches Some(q) && q.len() == query_len,
                        self@.entries_after(*event) == state::views(self.entries@),
                        forall|j: int|
                            0 <= j < i && !state::views(self.entries@)[j].sticky
                                ==> matcher::table_fits(
                                (#[trigger] state::views(self.entries@)[j]).pattern().len(),
                                query_len as nat,
                            ),
                    decreases self.entries@.len() - i,
                {
                    if !self.entries[i].fits_table(query_len) {
                        proof {
                            assert(!matcher::table_fits(
                                state::views(self.entries@)[i as int].pattern().len(),
                                query_len as nat,
                            ));
                        }
                        return false;
                    }
                    i = i + 1;
                }
                true
            },
        }
    }

    /// Takes in an event, and tells whether the matches have to be found again.
    pub fn update(&mut self, event: FilterEvent) -> (r: bool)
        ensures
            final(self).matcher == old(self).matcher,
            r == !old(self)@.repeats(event),
            old(self)@.follows(event, final(self)@),
    {
        match event {
            FilterEvent::Tabs(None) => true,
            FilterEvent::Tabs(Some(state)) => {
                let ghost tabs = state.tabs@;
                let mut entries: Vec<Arc<TabEntry>> = Vec::new();
                for item in it: state.tabs
                    invariant
                        it.seq() == tabs,
                        state::views(entries@) == state::views(tabs).take(it.index() as int),
                {
                    let ghost k = it.index() as int;
                    let ghost before = state::views(entries@);
                    entries.push(Arc::new(item));
                    proof {
                        assert(state::views(entries@) =~= before.push(state::views(tabs)[k]));
                        assert(state::views(tabs).take(k + 1) =~= state::views(tabs).take(k).push(
                            state::views(tabs)[k],
                        ));
                    }
                }
                proof {
                    assert(state::views(entries@) =~= state::views(tabs));
                }
                self.entries = order::sort(entries);
                true
            },
            FilterEvent::Query(state) => {
                if let Some(query) = &self.query {
                    if *query == state.query {
                        return false;
                    }
                }
                if state.query.as_str().is_empty() {
                    self.query = None;
                } else {
                    self.query = Some(state.query);
                }
                true
            },
        }
    }
}

impl FuzzyFinderService {
    /// The entry that offers a new tab called `name`, unless an entry has that name already.
    pub fn offer_tab(entries: &[Arc<TabEntry>], name: &String) -> (r: Option<TabEntry>)
        ensures
            entry_view(r) == offered(state::views(entries@), name@),
    {
        let mut i: usize = 0;
        while i < entries.len()
            invariant
                i <= entries@.len(),
                forall|j: int| 0 <= j < i ==> (#[trigger] state::views(entries@)[j]).name != name@,
            decreases entries@.len() - i,
        {
            if entries[i].name == *name {
                proof {
                    assert(state::views(entries@)[i as int].name == name@);
                }
                return None;
            }
            i = i + 1;
        }
        Some(TabEntry::entry_new(name.as_str()))
    }

    /// The entry that offers a new tab, if the user has entered a query, or there are no entries.
    /// There is none if its name is that of an entry. `normalize` gives the name of a tab, from
    /// what was typed.
    pub fn create_tab_entry<F: Fn(&str) -> String>(
        entries: &[Arc<TabEntry>],
        query: &Option<String>,
        normalize: F,
    ) -> (r: Option<TabEntry>)
        requires
            forall|typed: &str| call_requires(normalize, (typed,)),
        ensures
            creates(normalize, state::views(entries@), state::text_view(*query), entry_view(r)),
    {
        if query.is_none() && entries.len() != 0 {
            return None;
        }
        let typed: &str = match query {
            Some(query) => query.as_str(),
            None => "tab",
        };
        let name: String = normalize(typed);
        Self::offer_tab(entries, &name)
    }

    /// Takes in an event, and finds the matches again where it changes them.
    pub fn filter_state<F: Fn(&str) -> String>(
        stage: &mut FilterStage,
        event: FilterEvent,
        normalize: F,
    ) -> (r: Option<FuzzyMatchState>)
        requires
            old(stage)@.repeats(event) || ranking::searchable(
                old(stage)@.entries_after(event),
                old(stage)@.query_after(event),
            ),
            forall|typed: &str| call_requires(normalize, (typed,)),
        ensures
            final(stage).matcher == old(stage).matcher,
            old(stage)@.follows(event, final(stage)@),
            r is None <==> old(stage)@.repeats(event),
            r matches Some(found) ==> filters(normalize, final(stage)@, found@),
    {
        let ghost before = stage@;
        if !stage.update(event) {
            return None;
        }
        proof {
            lemma_searchable_after(before, event, stage@);
        }
        let created = if stage.config.create_tab {
            Self::create_tab_entry(stage.entries.as_slice(), &stage.query, normalize)
        } else {
            None
        };
        let ghost created_view = entry_view(created);
        let candidates = Self::candidates(&stage.entries, created);
        let has_query = stage.query.is_some();
        let outcomes = Self::search(&stage.matcher, &candidates, &stage.query);
        proof {
            assert(ranking::outcome_views(outcomes@).len() == outcomes@.len());
        }
        let ghost answers = ranking::outcome_views(outcomes@);
        let found = Self::rank_matches(&candidates, has_query, outcomes);
        proof {
            assert(filters_with(stage@, created_view, answers, found@));
        }
        Some(found)
    }

    /// The entries, followed by the one that offers a new tab.
    fn candidates(entries: &Vec<Arc<TabEntry>>, created: Option<TabEntry>) -> (r: Vec<
        Arc<TabEntry>,
    >)
        ensures
            state::views(r@) == with_created(state::views(entries@), entry_view(created)),
    {
        let mut r: Vec<Arc<TabEntry>> = Vec::new();
        let mut i: usize = 0;
        while i < entries.len()
            invariant
                i <= entries@.len(),
                r@ =~= entries@.take(i as int),
            decreases entries@.len() - i,
        {
            r.push(entries[i].clone());
            i = i + 1;
        }
        proof {
            assert(r@ =~= entries@);
        }
        if let Some(entry) = created {
            r.push(Arc::new(entry));
            proof {
                assert(state::views(r@) =~= state::views(entries@).push(entry@));
            }
        }
        r
    }
}

proof fn lemma_searchable_after(before: FilterView, event: FilterEvent, after: FilterView)
    requires
        before.steps(event, after),
        ranking::searchable(before.entries_after(event), before.query_after(event)),
    ensures
        ranking::searchable(after.entries, after.query),
{
    if after.query is Some {
        let q = after.query->0;
        if let FilterEvent::Tabs(Some(state)) = event {
            let tabs = state::views(state.tabs@);
            order::law_stable_sort_rearranges(tabs, after.entries);
            assert forall|i: int| 0 <= i < after.entries.len() && !after.entries[i].sticky implies
                matcher::table_fits((#[trigger] after.entries[i]).pattern().len(), q.len()) by {
                assert(after.entries.contains(after.entries[i]));
                let j = choose|j: int| 0 <= j < tabs.len() && tabs[j] == after.entries[i];
                assert(matcher::table_fits(tabs[j].pattern().len(), q.len()));
            }
        }
    }
}

/// Whether the finder shows an entry under a query: it is sticky, or there is no query, or the
/// characters of the query occur in it in order.
pub open spec fn is_shown(entry: TabEntryView, query: Option<Seq<char>>) -> bool {
    ||| entry.sticky
    ||| query is None
    ||| query matches Some(q) && matcher::occurs_in_order(q, entry.pattern())
}

/// Whether an entry is among the matches.
pub open spec fn is_listed(entry: TabEntryView, matches: Seq<MatchView>) -> bool {
    exists|k: int| 0 <= k < matches.len() && (#[trigger] matches[k]).tab == entry
}

/// What is listed is exactly what the query finds: an entry is among the matches if and only if
/// it is a candidate and is shown under the query.
pub proof fn law_listed_is_what_the_query_finds(
    stage: FilterView,
    created: Option<TabEntryView>,
    outcomes: Seq<Option<(i64, Seq<usize>)>>,
    found_state: MatchStateView,
    entry: TabEntryView,
)
    requires
        filters_with(stage, created, outcomes, found_state),
    ensures
        is_listed(entry, found_state.matches) <==> with_created(stage.entries, created).contains(
            entry,
        ) && is_shown(entry, stage.query),
{
    let candidates = with_created(stage.entries, created);
    let has_query = stage.query is Some;
    let all = ranking::found(candidates, has_query, outcomes);
    order::law_stable_sort_rearranges(all, found_state.matches);
    if is_listed(entry, found_state.matches) {
        let k = choose|k: int|
            0 <= k < found_state.matches.len() && (#[trigger] found_state.matches[k]).tab == entry;
        let m = found_state.matches[k];
        assert(found_state.matches.contains(m));
        let j = choose|j: int| 0 <= j < all.len() && all[j] == m;
        ranking::lemma_found_sound(candidates, has_query, outcomes, j);
        let i = choose|i: int|
            0 <= i < candidates.len() && #[trigger] ranking::entry_match(
                candidates[i],
                has_query,
                outcomes[i],
            ) == Some(m);
        assert(ranking::sound_outcome(candidates[i], stage.query, outcomes[i]));
        assert(candidates[i] == entry);
    }
    if candidates.contains(entry) && is_shown(entry, stage.query) {
        let i = choose|i: int| 0 <= i < candidates.len() && candidates[i] == entry;
        assert(ranking::sound_outcome(candidates[i], stage.query, outcomes[i]));
        ranking::lemma_found_complete(candidates, has_query, outcomes, i);
        let m = ranking::entry_match(candidates[i], has_query, outcomes[i])->0;
        assert(found_state.matches.contains(m));
        let k = choose|k: int| 0 <= k < found_state.matches.len() && found_state.matches[k] == m;
        assert(found_state.matches[k].tab == entry);
    }
}

/// There are never more matches than entries to choose from.
pub proof fn law_no_more_matches_than_total(
    stage: FilterView,
    created: Option<TabEntryView>,
    outcomes: Seq<Option<(i64, Seq<usize>)>>,
    found_state: MatchStateView,
)
    requires
        filters_with(stage, created, outcomes, found_state),
    ensures
        found_state.matches.len() <= found_state.total,
{
    let candidates = with_created(stage.entries, created);
    let all = ranking::found(candidates, stage.query is Some, outcomes);
    ranking::lemma_found_len(candidates, stage.query is Some, outcomes);
    order::law_stable_sort_rearranges(all, found_state.matches);
}

/// Without a query, every entry is listed, in the order of the entries: the one selected last
/// comes first.
pub proof fn law_no_query_lists_every_entry(
    stage: FilterView,
    created: Option<TabEntryView>,
    outcomes: Seq<Option<(i64, Seq<usize>)>>,
    found_state: MatchStateView,
)
    requires
        filters_with(stage, created, outcomes, found_state),
        stage.query is None,
    ensures
        found_state.matches.len() == found_state.total,
        found_state.matches.map_values(|m: MatchView| m.tab) == with_created(
            stage.entries,
            created,
        ),
{
    let candidates = with_created(stage.entries, created);
    let all = ranking::found(candidates, false, outcomes);
    ranking::lemma_found_without_query(candidates, outcomes);
    order::law_sorted_stays(all, found_state.matches);
    assert(found_state.matches.map_values(|m: MatchView| m.tab) =~= candidates);
}

/// Matches are listed best first; those with one score stand in the order of the entries, before
/// the new tab that is offered.
pub proof fn law_best_come_first(
    stage: FilterView,
    created: Option<TabEntryView>,
    outcomes: Seq<Option<(i64, Seq<usize>)>>,
    found_state: MatchStateView,
    i: int,
    j: int,
)
    requires
        filters_with(stage, created, outcomes, found_state),
        0 <= i < j < found_state.matches.len(),
    ensures
        found_state.matches[i].score >= found_state.matches[j].score,
        found_state.matches[i].score == found_state.matches[j].score ==> {
            let candidates = with_created(stage.entries, created);
            exists|p: int, q: int|
                {
                    &&& 0 <= p < q < candidates.len()
                    &&& #[trigger] candidates[p] == found_state.matches[i].tab
                    &&& #[trigger] candidates[q] == found_state.matches[j].tab
                }
        },
{
    let candidates = with_created(stage.entries, created);
    let has_query = stage.query is Some;
    let all = ranking::found(candidates, has_query, outcomes);
    let matches = found_state.matches;
    order::law_stable_sort_rearranges(all, matches);
    assert(matches[i].not_after(matches[j]));
    if matches[i].score == matches[j].score {
        order::law_alike_keep_their_order(all, matches, i, j);
        let (a, b) = choose|a: int, b: int|
            0 <= a < b < all.len() && #[trigger] all[a] == matches[i] && #[trigger] all[b]
                == matches[j];
        ranking::lemma_found_in_order(candidates, has_query, outcomes, a, b);
    }
}

/// Whether the answer of the matcher for each of the entries depends on the entry and the query
/// alone, or is not asked for.
pub open spec fn is_settled(entries: Seq<TabEntryView>, query: Option<Seq<char>>) -> bool {
    query matches Some(q) ==> forall|i: int|
        0 <= i < entries.len() && !entries[i].sticky ==> matcher::settled(
            (#[trigger] entries[i]).pattern(),
            q,
        )
}

/// What the filter finds depends on its entries, its query and the new tab alone, wherever the
/// answers of the matcher do: whatever was searched for before, the matches and their order are
/// the same.
pub proof fn law_same_entries_and_query_find_the_same(
    stage: FilterView,
    created: Option<TabEntryView>,
    outcomes_a: Seq<Option<(i64, Seq<usize>)>>,
    outcomes_b: Seq<Option<(i64, Seq<usize>)>>,
    found_a: MatchStateView,
    found_b: MatchStateView,
)
    requires
        filters_with(stage, created, outcomes_a, found_a),
        filters_with(stage, created, outcomes_b, found_b),
        is_settled(with_created(stage.entries, created), stage.query),
    ensures
        found_a == found_b,
{
    let candidates = with_created(stage.entries, created);
    assert(outcomes_a =~= outcomes_b) by {
        assert forall|i: int| 0 <= i < candidates.len() implies outcomes_a[i] == outcomes_b[i] by {
            assert(ranking::sound_outcome(candidates[i], stage.query, outcomes_a[i]));
            assert(ranking::sound_outcome(candidates[i], stage.query, outcomes_b[i]));
        }
    }
    order::law_stable_sort_is_unique(
        ranking::found(candidates, stage.query is Some, outcomes_a),
        found_a.matches,
        found_b.matches,
    );
}

/// The entry that offers a new tab comes after every other match.
pub proof fn law_new_tab_comes_last(
    stage: FilterView,
    created: Option<TabEntryView>,
    outcomes: Seq<Option<(i64, Seq<usize>)>>,
    found_state: MatchStateView,
)
    requires
        filters_with(stage, created, outcomes, found_state),
        created matches Some(entry) && entry.sticky,
    ensures
        found_state.matches.len() > 0,
        found_state.matches.last().tab == created->0,
{
    let candidates = with_created(stage.entries, created);
    let has_query = stage.query is Some;
    let all = ranking::found(candidates, has_query, outcomes);
    assert(candidates.last() == created->0);
    assert(all.last().tab == created->0);
    assert(all.last().score == ranking::UNRANKED);
    assert forall|k: int| 0 <= k < all.len() implies (#[trigger] all[k]).not_after(all.last()) by {
        ranking::lemma_found_sound(candidates, has_query, outcomes, k);
        let i = choose|i: int|
            0 <= i < candidates.len() && #[trigger] ranking::entry_match(
                candidates[i],
                has_query,
                outcomes[i],
            ) == Some(all[k]);
        assert(ranking::sound_outcome(candidates[i], stage.query, outcomes[i]));
    }
    order::law_lowest_stays_last(all, found_state.matches);
}

/// A new tab is never offered under the name of a tab that is there.
pub proof fn law_new_tab_has_a_new_name<F: Fn(&str) -> String>(
    normalize: F,
    entries: Seq<TabEntryView>,
    query: Option<Seq<char>>,
    created: Option<TabEntryView>,
    i: int,
)
    requires
        creates(normalize, entries, query, created),
        created is Some,
        0 <= i < entries.len(),
    ensures
        entries[i].name != created->0.name,
        created->0.sticky,
{
}

/// The query that has just been taken in is not searched for a second time; only the empty one,
/// which is none, is.
pub proof fn law_same_query_is_searched_once(
    before: FilterView,
    state: FuzzyQueryState,
    after: FilterView,
)
    requires
        before.steps(FilterEvent::Query(state), after),
    ensures
        after.repeats(FilterEvent::Query(state)) <==> state.query@.len() > 0,
{
}

/// The filter never holds an empty query: it holds one that has characters, or none.
pub proof fn law_query_is_never_empty(before: FilterView, event: FilterEvent, after: FilterView)
    requires
        before.query matches Some(q) ==> q.len() > 0,
        before.steps(event, after),
    ensures
        after.query matches Some(q) ==> q.len() > 0,
{
}

/// Whether the entries stand in the order in which they are listed.
pub open spec fn in_listing_order(entries: Seq<TabEntryView>) -> bool {
    forall|i: int, j: int|
        0 <= i < j < entries.len() ==> (#[trigger] entries[i]).not_after(#[trigger] entries[j])
}

/// The filter keeps its entries in listing order, whatever reaches it.
pub proof fn law_entries_stay_in_order(before: FilterView, event: FilterEvent, after: FilterView)
    requires
        in_listing_order(before.entries),
        before.steps(event, after),
    ensures
        in_listing_order(after.entries),
{
    if let FilterEvent::Tabs(Some(state)) = event {
        order::law_stable_sort_rearranges(state::views(state.tabs@), after.entries);
    }
}

/// A query that is typed replaces the one before, and an empty one leaves none; the entries and
/// the settings stay. What was typed already changes nothing, and nothing else is a repeat.
pub proof fn law_query_is_replaced(before: FilterView, typed: FuzzyQueryState, after: FilterView)
    requires
        before.query matches Some(q) ==> q.len() > 0,
        before.follows(FilterEvent::Query(typed), after),
    ensures
        typed.query@.len() > 0 ==> after.query == Some(typed.query@),
        typed.query@.len() == 0 ==> after.query is None,
        after.entries == before.entries,
        after.config == before.config,
        before.repeats(FilterEvent::Query(typed)) <==> before.query == Some(typed.query@),
{
}

/// A message without tabs changes nothing and is no repeat, and neither are tabs.
pub proof fn law_tabs_are_never_a_repeat(
    before: FilterView,
    tabs: Option<FuzzyTabsState>,
    after: FilterView,
)
    requires
        before.follows(FilterEvent::Tabs(tabs), after),
    ensures
        !before.repeats(FilterEvent::Tabs(tabs)),
        after.query == before.query,
        after.config == before.config,
        tabs is None ==> after.entries == before.entries,
{
}

/// The tabs that come in replace the entries, each of them once: the one that was selected last
/// comes first, those selected at one time stand in the order of their names, and those with one
/// name in the order in which they came.
pub proof fn law_tabs_are_listed_by_time_and_name(
    before: FilterView,
    tabs: FuzzyTabsState,
    after: FilterView,
)
    requires
        before.follows(FilterEvent::Tabs(Some(tabs)), after),
    ensures
        exists|places: Seq<int>|
            {
                &&& places.len() == tabs.tabs@.len()
                &&& after.entries.len() == tabs.tabs@.len()
                &&& #[trigger] places.no_duplicates()
                &&& forall|i: int|
                    0 <= i < places.len() ==> 0 <= #[trigger] places[i] < tabs.tabs@.len()
                        && after.entries[i] == tabs.tabs@[places[i]]@
                &&& forall|i: int, j: int|
                    0 <= i < j < places.len() ==> {
                        let a = tabs.tabs@[#[trigger] places[i]];
                        let b = tabs.tabs@[#[trigger] places[j]];
                        ||| a.last_selected > b.last_selected
                        ||| a.last_selected == b.last_selected && a.name@ != b.name@
                            && text::not_after(a.name@, b.name@)
                        ||| a.last_selected == b.last_selected && a.name@ == b.name@ && places[i]
                            < places[j]
                    }
            },
{
    let input = state::views(tabs.tabs@);
    order::law_sorting_moves_each_value_once(input, after.entries);
    let places = choose|places: Seq<int>|
        {
            &&& places.len() == input.len()
            &&& after.entries.len() == input.len()
            &&& #[trigger] places.no_duplicates()
            &&& forall|i: int|
                0 <= i < places.len() ==> 0 <= #[trigger] places[i] < input.len()
                    && after.entries[i] == input[places[i]]
            &&& forall|p: int| 0 <= p < input.len() ==> places.contains(p)
            &&& forall|i: int, j: int|
                0 <= i < j < places.len() ==> input[#[trigger] places[i]].not_after(
                    input[#[trigger] places[j]],
                )
            &&& forall|i: int, j: int|
                0 <= i < j < places.len() && input[places[j]].not_after(input[places[i]])
                    ==> #[trigger] places[i] < #[trigger] places[j]
        };
    assert forall|i: int, j: int| 0 <= i < j < places.len() implies {
        let a = tabs.tabs@[#[trigger] places[i]];
        let b = tabs.tabs@[#[trigger] places[j]];
        ||| a.last_selected > b.last_selected
        ||| a.last_selected == b.last_selected && a.name@ != b.name@ && text::not_after(
            a.name@,
            b.name@,
        )
        ||| a.last_selected == b.last_selected && a.name@ == b.name@ && places[i] < places[j]
    } by {
        let a = tabs.tabs@[places[i]];
        let b = tabs.tabs@[places[j]];
        assert(input[places[i]] == a@ && input[places[j]] == b@);
        assert(a@.not_after(b@));
        text::law_order_tells_texts_apart(a.name@, b.name@);
        if a.last_selected == b.last_selected && a.name@ == b.name@ {
            assert(b@.not_after(a@));
        }
    }
    assert(places.no_duplicates());
}

/// A new tab is offered under a name exactly when no entry has that very name: it has that name,
/// no doc, was never selected, and is sticky.
pub proof fn law_only_the_same_name_stands_in_the_way(
    entries: Seq<TabEntryView>,
    name: Seq<char>,
    i: int,
)
    ensures
        0 <= i < entries.len() && entries[i].name == name ==> offered(entries, name) is None,
        (forall|k: int| 0 <= k < entries.len() ==> (#[trigger] entries[k]).name != name) ==> (
        offered(entries, name) matches Some(new) && new.name == name && new.doc is None
            && new.last_selected == 0 && new.sticky),
{
}

/// A new tab is offered where there is a query, or no entry; it is called what the query is
/// normalized to, or what "tab" is without a query, unless an entry is called that already.
pub proof fn law_new_tab_is_named_after_the_query<F: Fn(&str) -> String>(
    normalize: F,
    entries: Seq<TabEntryView>,
    query: Option<Seq<char>>,
    created: Option<TabEntryView>,
    name: Seq<char>,
)
    requires
        creates(normalize, entries, query, created),
        forall|typed: &str, given: String|
            #![trigger call_ensures(normalize, (typed,), given)]
            call_ensures(normalize, (typed,), given) && (query matches Some(q) ==> typed@ == q) && (
            query is None ==> typed@ == "tab"@) ==> given@ == name,
    ensures
        query is None && entries.len() > 0 ==> created is None,
        (query is Some || entries.len() == 0) && (forall|k: int|
            0 <= k < entries.len() ==> (#[trigger] entries[k]).name != name) ==> (
        created matches Some(new) && new.name == name && new.doc is None && new.last_selected == 0
            && new.sticky),
        (exists|k: int| 0 <= k < entries.len() && (#[trigger] entries[k]).name == name)
            ==> created is None,
{
}

/// What the filter finds is a ranking of its entries and of the new tab, by what the matcher says of
/// the query in the name and doc of each entry. There is a new tab only where the settings allow
/// it.
pub proof fn law_filter_ranks_its_entries<F: Fn(&str) -> String>(
    normalize: F,
    stage: FilterView,
    found: MatchStateView,
)
    requires
        filters(normalize, stage, found),
    ensures
        exists|created: Option<TabEntryView>, outcomes: Seq<Option<(i64, Seq<usize>)>>|
            {
                let candidates = match created {
                    Some(new) => stage.entries.push(new),
                    None => stage.entries,
                };
                &&& #[trigger] filters_with(stage, created, outcomes, found)
                &&& stage.config.create_tab ==> creates(
                    normalize,
                    stage.entries,
                    stage.query,
                    created,
                )
                &&& !stage.config.create_tab ==> created is None
                &&& ranking::ranks(candidates, stage.query is Some, outcomes, found)
                &&& outcomes.len() == candidates.len()
                &&& stage.query matches Some(q) ==> forall|i: int|
                    0 <= i < candidates.len() && !candidates[i].sticky ==> {
                        let name_and_doc = candidates[i].name + match candidates[i].doc {
                            Some(doc) => doc,
                            None => Seq::empty(),
                        };
                        &&& (#[trigger] outcomes[i]) is Some <==> matcher::occurs_in_order(
                            q,
                            name_and_doc,
                        )
                        &&& matcher::answers(name_and_doc, q, outcomes[i])
                        &&& matcher::agrees(
                            name_and_doc,
                            q,
                            outcomes[i],
                            matcher::skim_outcome(name_and_doc, q),
                        )
                    }
            },
{
    let (created, outcomes) = choose|
        created: Option<TabEntryView>,
        outcomes: Seq<Option<(i64, Seq<usize>)>>,
    |
        {
            &&& if stage.config.create_tab {
                creates(normalize, stage.entries, stage.query, created)
            } else {
                created is None
            }
            &&& #[trigger] filters_with(stage, created, outcomes, found)
        };
    let candidates = with_created(stage.entries, created);
    if let Some(q) = stage.query {
        assert forall|i: int| 0 <= i < candidates.len() && !candidates[i].sticky implies {
            let name_and_doc = candidates[i].name + match candidates[i].doc {
                Some(doc) => doc,
                None => Seq::empty(),
            };
            &&& (#[trigger] outcomes[i]) is Some <==> matcher::occurs_in_order(q, name_and_doc)
            &&& matcher::answers(name_and_doc, q, outcomes[i])
            &&& matcher::agrees(
                name_and_doc,
                q,
                outcomes[i],
                matcher::skim_outcome(name_and_doc, q),
            )
        } by {
            assert(ranking::sound_outcome(candidates[i], stage.query, outcomes[i]));
            assert(candidates[i].name + Seq::empty() =~= candidates[i].name);
        }
    }
    assert(filters_with(stage, created, outcomes, found));
}

/// Of two entries in which the query is found, the one in which the matcher scores it higher is
/// listed first, and each is listed with that score, wherever the scores depend on the query and
/// the entry alone. It makes no difference whether the query is found in the name or in the doc.
pub proof fn law_better_match_is_listed_first<F: Fn(&str) -> String>(
    normalize: F,
    stage: FilterView,
    found: MatchStateView,
    query: Seq<char>,
    p: int,
    q: int,
)
    requires
        filters(normalize, stage, found),
        stage.query == Some(query),
        0 <= p < stage.entries.len(),
        0 <= q < stage.entries.len(),
        !stage.entries[p].sticky,
        !stage.entries[q].sticky,
        matcher::settled(stage.entries[p].pattern(), query),
        matcher::settled(stage.entries[q].pattern(), query),
        matcher::skim_outcome(stage.entries[p].pattern(), query) matches Some((higher, _))
            && matcher::skim_outcome(stage.entries[q].pattern(), query) matches Some((lower, _))
            && higher > lower,
    ensures
        exists|j: int, k: int|
            {
                &&& 0 <= j < k < found.matches.len()
                &&& (#[trigger] found.matches[j]).tab == stage.entries[p]
                &&& (#[trigger] found.matches[k]).tab == stage.entries[q]
                &&& matcher::skim_outcome(stage.entries[p].pattern(), query) matches Some((s, _))
                    && found.matches[j].score == s
                &&& matcher::skim_outcome(stage.entries[q].pattern(), query) matches Some((s, _))
                    && found.matches[k].score == s
            },
{
    let (created, outcomes) = choose|
        created: Option<TabEntryView>,
        outcomes: Seq<Option<(i64, Seq<usize>)>>,
    |
        {
            &&& if stage.config.create_tab {
                creates(normalize, stage.entries, stage.query, created)
            } else {
                created is None
            }
            &&& #[trigger] filters_with(stage, created, outcomes, found)
        };
    let candidates = with_created(stage.entries, created);
    assert(candidates[p] == stage.entries[p] && candidates[q] == stage.entries[q]);
    assert(ranking::sound_outcome(candidates[p], stage.query, outcomes[p]));
    assert(ranking::sound_outcome(candidates[q], stage.query, outcomes[q]));
    ranking::law_higher_score_is_listed_first(candidates, outcomes, found, p, q);
}

/// The text that the matcher searches is the name, followed by the doc where there is one.
pub proof fn law_name_and_doc_are_searched(entry: TabEntryView)
    ensures
        entry.doc is None ==> entry.pattern() == entry.name,
        entry.doc matches Some(doc) ==> entry.pattern() == entry.name + doc,
{
}

/// A query offers to create the tab that it names, unless there is one of that very name: the new
/// tab is the last match, and it is counted. Without a query it is offered only where there is no
/// entry at all, and never where the settings do not allow it.
pub proof fn law_new_tab_can_be_chosen<F: Fn(&str) -> String>(
    normalize: F,
    stage: FilterView,
    found: MatchStateView,
    name: Seq<char>,
)
    requires
        filters(normalize, stage, found),
        forall|typed: &str, given: String|
            #![trigger call_ensures(normalize, (typed,), given)]
            call_ensures(normalize, (typed,), given) && (stage.query matches Some(q) ==> typed@
                == q) && (stage.query is None ==> typed@ == "tab"@) ==> given@ == name,
    ensures
        stage.config.create_tab && (stage.query is Some || stage.entries.len() == 0) && (forall|
            k: int,
        |
            0 <= k < stage.entries.len() ==> (#[trigger] stage.entries[k]).name != name) ==> {
            &&& found.total == stage.entries.len() + 1
            &&& found.matches.len() > 0
            &&& found.matches.last().tab.name == name
            &&& found.matches.last().tab.doc is None
            &&& found.matches.last().tab.sticky
        },
        !stage.config.create_tab ==> found.total == stage.entries.len(),
        stage.query is None && stage.entries.len() > 0 ==> found.total == stage.entries.len(),
        (exists|k: int| 0 <= k < stage.entries.len() && (#[trigger] stage.entries[k]).name == name)
            ==> found.total == stage.entries.len(),
{
    let (created, outcomes) = choose|
        created: Option<TabEntryView>,
        outcomes: Seq<Option<(i64, Seq<usize>)>>,
    |
        {
            &&& if stage.config.create_tab {
                creates(normalize, stage.entries, stage.query, created)
            } else {
                created is None
            }
            &&& #[trigger] filters_with(stage, created, outcomes, found)
        };
    if stage.config.create_tab {
        law_new_tab_is_named_after_the_query(normalize, stage.entries, stage.query, created, name);
    }
    if created is Some {
        law_new_tab_comes_last(stage, created, outcomes, found);
    }
}

/// A query can be searched for exactly when its table can be laid out for the name and doc of every
/// entry that is not sticky; without a query there is nothing to lay out.
pub proof fn law_searchable_is_searchable_everywhere(
    entries: Seq<TabEntryView>,
    query: Option<Seq<char>>,
)
    ensures
        query is None ==> ranking::searchable(entries, query),
        query matches Some(q) ==> (ranking::searchable(entries, query) <==> forall|i: int|
            0 <= i < entries.len() && !entries[i].sticky ==> matcher::table_fits(
                (#[trigger] entries[i]).name.len() + match entries[i].doc {
                    Some(doc) => doc.len(),
                    None => 0,
                },
                q.len(),
            )),
{
    if let Some(q) = query {
        assert forall|i: int| 0 <= i < entries.len() implies (
        #[trigger] entries[i]).pattern().len() == entries[i].name.len() + match entries[i].doc {
            Some(doc) => doc.len(),
            None => 0,
        } by {}
    }
}

/// The filter is told by its entries, its query and its settings.
pub proof fn law_filter_stage_is_seen_whole(stage: FilterStage, i: int)
    ensures
        stage@.entries.len() == stage.entries@.len(),
        0 <= i < stage.entries@.len() ==> stage@.entries[i] == (*stage.entries@[i])@,
        stage@.query is Some <==> stage.query is Some,
        stage.query matches Some(query) ==> stage@.query == Some(query@),
        stage@.config == stage.config,
{
}

/// What would be searched after an event is what the filter holds after it.
pub proof fn law_search_is_of_what_comes_after(
    before: FilterView,
    event: FilterEvent,
    after: FilterView,
    entry: TabEntryView,
)
    requires
        before.query matches Some(q) ==> q.len() > 0,
        before.follows(event, after),
    ensures
        before.query_after(event) == after.query,
        before.entries_after(event).len() == after.entries.len(),
        before.entries_after(event).contains(entry) <==> after.entries.contains(entry),
{
    if let FilterEvent::Tabs(Some(state)) = event {
        order::law_stable_sort_rearranges(state::views(state.tabs@), after.entries);
    }
}

/// An entry that is offered is told by all that it holds, and is different from none.
pub proof fn law_offer_is_seen_whole(entry: TabEntry)
    ensures
        entry_view(Some(entry)) == Some(entry@),
        entry_view(None) is None,
{
}

} // verus!
