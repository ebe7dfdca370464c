//! What the filter comes to, over all that has reached it.

use crate::config::FuzzyConfig;
use crate::filter;
use crate::filter::{FilterEvent, FilterView};
use crate::order;
use crate::state;
use crate::state::{MatchStateView, TabEntryView};
use vstd::prelude::*;

verus! {

/// `stage` is what a filter with these settings holds once the events have reached it, the first
/// of them first.
pub open spec fn heard(config: FuzzyConfig, events: Seq<FilterEvent>, stage: FilterView) -> bool
    decreases events.len(),
{
    if events.len() == 0 {
        stage == (FilterView { entries: Seq::empty(), query: None, config })
    } else {
        exists|before: FilterView|
            {
                &&& heard(config, events.drop_last(), before)
                &&& #[trigger] before.follows(events.last(), stage)
            }
    }
}

/// The last tabs that the events bring; none where they bring none.
pub open spec fn latest_tabs(events: Seq<FilterEvent>) -> Seq<TabEntryView>
    decreases events.len(),
{
    if events.len() == 0 {
        Seq::empty()
    } else {
        match events.last() {
            FilterEvent::Tabs(Some(tabs)) => state::views(tabs.tabs@),
            _ => latest_tabs(events.drop_last()),
        }
    }
}

/// The last query that the events bring; an empty one is none.
pub open spec fn latest_query(events: Seq<FilterEvent>) -> Option<Seq<char>>
    decreases events.len(),
{
    if events.len() == 0 {
        None
    } else {
        match events.last() {
            FilterEvent::Query(typed) => if typed.query@.len() == 0 {
                None
            } else {
                Some(typed.query@)
            },
            FilterEvent::Tabs(_) => latest_query(events.drop_last()),
        }
    }
}

/// Whether a tab always gets the same name from the same text.
pub open spec fn is_steady<F: Fn(&str) -> String>(normalize: F) -> bool {
    forall|typed_a: &str, typed_b: &str, name_a: String, name_b: String|
        {
            &&& typed_a@ == typed_b@
            &&& #[trigger] call_ensures(normalize, (typed_a,), name_a)
            &&& #[trigger] call_ensures(normalize, (typed_b,), name_b)
        } ==> name_a@ == name_b@
}

/// What the filter holds is the latest tabs, in listing order, and the latest query.
pub proof fn law_filter_holds_the_latest(
    config: FuzzyConfig,
    events: Seq<FilterEvent>,
    stage: FilterView,
)
    requires
        heard(config, events, stage),
    ensures
        order::stable_sort(latest_tabs(events), stage.entries),
        stage.query == latest_query(events),
        stage.query matches Some(q) ==> q.len() > 0,
        stage.config == config,
        filter::in_listing_order(stage.entries),
    decreases events.len(),
{
    if events.len() == 0 {
        let none = Seq::<TabEntryView>::empty();
        assert(order::in_order(none, Seq::empty(), 0));
        assert(none =~= order::gathered(none, Seq::empty()));
    } else {
        let before = choose|before: FilterView|
            {
                &&& heard(config, events.drop_last(), before)
                &&& #[trigger] before.follows(events.last(), stage)
            };
        law_filter_holds_the_latest(config, events.drop_last(), before);
        order::law_stable_sort_rearranges(latest_tabs(events), stage.entries);
    }
}

/// A filter finds one thing: what it holds decides the matches and their order, whatever it was
/// used for before, wherever the answers of the matcher do not depend on that.
pub proof fn law_filter_finds_one_thing<F: Fn(&str) -> String>(
    normalize: F,
    stage: FilterView,
    found_a: MatchStateView,
    found_b: MatchStateView,
)
    requires
        is_steady(normalize),
        filter::is_settled(stage.entries, stage.query),
        filter::filters(normalize, stage, found_a),
        filter::filters(normalize, stage, found_b),
    ensures
        found_a == found_b,
{
    let (created_a, outcomes_a) = choose|
        created: Option<TabEntryView>,
        outcomes: Seq<Option<(i64, Seq<usize>)>>,
    |
        {
            &&& if stage.config.create_tab {
                filter::creates(normalize, stage.entries, stage.query, created)
            } else {
                created is None
            }
            &&& #[trigger] filter::filters_with(stage, created, outcomes, found_a)
        };
    let (created_b, outcomes_b) = choose|
        created: Option<TabEntryView>,
        outcomes: Seq<Option<(i64, Seq<usize>)>>,
    |
        {
            &&& if stage.config.create_tab {
                filter::creates(normalize, stage.entries, stage.query, created)
            } else {
                created is None
            }
            &&& #[trigger] filter::filters_with(stage, created, outcomes, found_b)
        };
    assert(created_a == created_b);
    filter::law_same_entries_and_query_find_the_same(
        stage,
        created_a,
        outcomes_a,
        outcomes_b,
        found_a,
        found_b,
    );
}

/// A message that brings no tabs leaves the tabs and the query as they are, and what is found is
/// what was found before.
pub proof fn law_no_tabs_find_the_same<F: Fn(&str) -> String>(
    normalize: F,
    before: FilterView,
    found_before: MatchStateView,
    after: FilterView,
    found_after: MatchStateView,
)
    requires
        is_steady(normalize),
        filter::is_settled(before.entries, before.query),
        filter::filters(normalize, before, found_before),
        before.follows(FilterEvent::Tabs(None), after),
        filter::filters(normalize, after, found_after),
    ensures
        after == before,
        found_after == found_before,
{
    assert(after =~= before);
    law_filter_finds_one_thing(normalize, before, found_before, found_after);
}

/// The latest tabs and the latest query decide what is found: two filters with the same settings
/// that have heard the same last of both find the same, whatever else has reached them.
pub proof fn law_latest_tabs_and_query_decide<F: Fn(&str) -> String>(
    normalize: F,
    config: FuzzyConfig,
    events_a: Seq<FilterEvent>,
    events_b: Seq<FilterEvent>,
    stage_a: FilterView,
    stage_b: FilterView,
    found_a: MatchStateView,
    found_b: MatchStateView,
)
    requires
        is_steady(normalize),
        heard(config, events_a, stage_a),
        heard(config, events_b, stage_b),
        latest_tabs(events_a) == latest_tabs(events_b),
        latest_query(events_a) == latest_query(events_b),
        filter::is_settled(latest_tabs(events_a), latest_query(events_a)),
        filter::filters(normalize, stage_a, found_a),
        filter::filters(normalize, stage_b, found_b),
    ensures
        stage_a == stage_b,
        found_a == found_b,
{
    let tabs = latest_tabs(events_a);
    law_filter_holds_the_latest(config, events_a, stage_a);
    law_filter_holds_the_latest(config, events_b, stage_b);
    order::law_stable_sort_is_unique(tabs, stage_a.entries, stage_b.entries);
    assert(stage_a =~= stage_b);
    order::law_stable_sort_rearranges(tabs, stage_a.entries);
    assert forall|i: int| 0 <= i < stage_a.entries.len() implies tabs.contains(
        #[trigger] stage_a.entries[i],
    ) by {
        assert(stage_a.entries.contains(stage_a.entries[i]));
    }
    law_filter_finds_one_thing(normalize, stage_a, found_a, found_b);
}

} // verus!
