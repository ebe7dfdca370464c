use fuzzy_finder::config::FuzzyConfig;
use fuzzy_finder::filter::{FilterEvent, FilterStage};
use fuzzy_finder::matcher::MOST_LEFT_OVER;
use fuzzy_finder::ranking::UNRANKED;
use fuzzy_finder::service::FuzzyFinderService;
use fuzzy_finder::state::{
    FuzzyMatch, FuzzyMatchState, FuzzyQueryState, FuzzyTabsState, TabEntry,
};
use fuzzy_matcher::skim::SkimMatcherV2;
use fuzzy_matcher::FuzzyMatcher;
use std::sync::Arc;

fn tab(name: &str, doc: Option<&str>, last_selected: u128) -> TabEntry {
    TabEntry {
        name: name.to_string(),
        doc: doc.map(|d| d.to_string()),
        last_selected,
        sticky: false,
    }
}

fn tabs(tabs: Vec<TabEntry>) -> FilterEvent {
    FilterEvent::Tabs(Some(FuzzyTabsState { tabs }))
}

fn typed(text: &str) -> FilterEvent {
    FilterEvent::Query(FuzzyQueryState { query: text.to_string(), cursor_index: 0 })
}

/// Tab names end in a slash here.
fn with_slash(name: &str) -> String {
    format!("{}/", name)
}

fn step(stage: &mut FilterStage, event: FilterEvent) -> Option<FuzzyMatchState> {
    assert!(stage.is_searchable(&event));
    FuzzyFinderService::filter_state(stage, event, with_slash)
}

fn stage(create_tab: bool) -> FilterStage {
    FilterStage::new(FuzzyConfig { create_tab })
}

fn names(found: &FuzzyMatchState) -> Vec<&str> {
    found.matches.iter().map(|m| m.tab.name.as_str()).collect()
}

#[test]
fn tabs_are_listed_by_last_selected_then_by_name() {
    let mut stage = stage(false);
    let found = step(
        &mut stage,
        tabs(vec![
            tab("old/", None, 1),
            tab("b/", None, 5),
            tab("new/", None, 9),
            tab("a/", None, 5),
            tab("B/", None, 5),
        ]),
    )
    .unwrap();
    assert_eq!(names(&found), vec!["new/", "B/", "a/", "b/", "old/"]);
    assert_eq!(found.total, 5);
    for m in &found.matches {
        assert_eq!(m.score, UNRANKED);
        assert_eq!(m.name_indices, Vec::<usize>::new());
        assert_eq!(m.doc_indices, Vec::<usize>::new());
    }
}

#[test]
fn names_are_compared_by_their_bytes() {
    let mut stage = stage(false);
    let found = step(
        &mut stage,
        tabs(vec![tab("é", None, 0), tab("z", None, 0), tab("zz", None, 0), tab("", None, 0)]),
    )
    .unwrap();
    assert_eq!(names(&found), vec!["", "z", "zz", "é"]);
}

#[test]
fn the_query_keeps_what_holds_its_characters_in_order() {
    let mut stage = stage(false);
    step(
        &mut stage,
        tabs(vec![tab("foo/bar/", None, 3), tab("bar/foo/", None, 2), tab("baz/", None, 1)]),
    );
    let found = step(&mut stage, typed("fb")).unwrap();
    assert_eq!(names(&found), vec!["foo/bar/"]);
    assert_eq!(found.matches[0].name_indices, vec![0, 4]);
    assert!(found.matches[0].score > UNRANKED);
    assert_eq!(found.total, 3);
}

#[test]
fn the_query_ignores_case() {
    let mut stage = stage(false);
    step(&mut stage, tabs(vec![tab("foo/", None, 1)]));
    let found = step(&mut stage, typed("FO")).unwrap();
    assert_eq!(names(&found), vec!["foo/"]);
    assert_eq!(found.matches[0].name_indices, vec![0, 1]);
}

#[test]
fn the_query_reaches_into_the_doc() {
    let mut stage = stage(false);
    step(&mut stage, tabs(vec![tab("ab", Some("xyz"), 1)]));
    let found = step(&mut stage, typed("by")).unwrap();
    assert_eq!(found.matches[0].name_indices, vec![1]);
    assert_eq!(found.matches[0].doc_indices, vec![1]);
}

#[test]
fn a_new_tab_is_offered_last() {
    let mut stage = stage(true);
    step(&mut stage, tabs(vec![tab("foo/", None, 1), tab("other/", None, 2)]));
    let found = step(&mut stage, typed("fo")).unwrap();
    assert_eq!(names(&found), vec!["foo/", "fo/"]);
    assert_eq!(found.total, 3);
    let offered = &found.matches[1];
    assert!(offered.tab.sticky);
    assert_eq!(offered.score, UNRANKED);
    assert_eq!(offered.name_indices, vec![0, 1, 2]);
    assert_eq!(offered.doc_indices, Vec::<usize>::new());
}

#[test]
fn no_new_tab_under_a_name_that_is_taken() {
    let mut stage = stage(true);
    step(&mut stage, tabs(vec![tab("foo/", None, 1)]));
    let found = step(&mut stage, typed("foo")).unwrap();
    assert_eq!(names(&found), vec!["foo/"]);
    assert_eq!(found.total, 1);
}

#[test]
fn a_new_tab_is_offered_to_an_empty_finder() {
    let mut stage = stage(true);
    let found = step(&mut stage, FilterEvent::Tabs(None)).unwrap();
    assert_eq!(names(&found), vec!["tab/"]);
}

#[test]
fn no_new_tab_without_a_query_beside_other_tabs() {
    let mut stage = stage(true);
    let found = step(&mut stage, tabs(vec![tab("foo/", None, 1)])).unwrap();
    assert_eq!(names(&found), vec!["foo/"]);
}

#[test]
fn no_new_tab_where_the_settings_forbid_it() {
    let mut stage = stage(false);
    let found = step(&mut stage, typed("foo")).unwrap();
    assert_eq!(names(&found), Vec::<&str>::new());
    assert_eq!(found.total, 0);
}

#[test]
fn create_tab_entry_names_the_tab_after_the_query() {
    let none: Vec<Arc<TabEntry>> = vec![];
    let some = vec![Arc::new(tab("foo/", None, 1))];
    let create = |entries: &[Arc<TabEntry>], query: Option<&str>| {
        FuzzyFinderService::create_tab_entry(entries, &query.map(|q| q.to_string()), with_slash)
    };
    assert_eq!(create(&none, None), Some(TabEntry::entry_new("tab/")));
    assert_eq!(create(&none, Some("x")), Some(TabEntry::entry_new("x/")));
    assert_eq!(create(&some, None), None);
    assert_eq!(create(&some, Some("foo")), None);
    assert_eq!(create(&some, Some("bar")), Some(TabEntry::entry_new("bar/")));
}

#[test]
fn the_same_query_is_searched_once() {
    let mut stage = stage(false);
    assert!(step(&mut stage, typed("a")).is_some());
    assert_eq!(step(&mut stage, typed("a")), None);
    assert_eq!(stage.query, Some("a".to_string()));
    assert!(step(&mut stage, typed("ab")).is_some());
    assert!(step(&mut stage, typed("")).is_some());
    assert_eq!(stage.query, None);
    assert!(step(&mut stage, typed("")).is_some());
}

#[test]
fn no_tabs_leave_the_entries_as_they_are() {
    let mut stage = stage(false);
    step(&mut stage, tabs(vec![tab("foo/", None, 1)]));
    let found = step(&mut stage, FilterEvent::Tabs(None)).unwrap();
    assert_eq!(names(&found), vec!["foo/"]);
}

#[test]
fn tabs_replace_those_that_were_there() {
    let mut stage = stage(false);
    step(&mut stage, tabs(vec![tab("foo/", None, 1)]));
    let found = step(&mut stage, tabs(vec![tab("bar/", None, 1)])).unwrap();
    assert_eq!(names(&found), vec!["bar/"]);
}

#[test]
fn matches_are_ranked_by_score_and_ties_keep_their_order() {
    let candidates: Vec<Arc<TabEntry>> =
        ["a", "b", "c", "d"].iter().map(|n| Arc::new(tab(n, None, 0))).collect();
    let outcomes = vec![
        Some((5, vec![0])),
        None,
        Some((9, vec![0])),
        Some((5, vec![])),
    ];
    let found = FuzzyFinderService::rank_matches(&candidates, true, outcomes);
    assert_eq!(names(&found), vec!["c", "a", "d"]);
    assert_eq!(found.total, 4);
    let scores: Vec<i64> = found.matches.iter().map(|m| m.score).collect();
    assert_eq!(scores, vec![9, 5, 5]);
}

#[test]
fn indices_are_parted_at_the_bytes_of_the_name() {
    let entry = Arc::new(tab("éa", Some("doc"), 0));
    let found =
        FuzzyFinderService::match_entry(&entry, true, Some((7, vec![0, 2, 3, 5]))).unwrap();
    assert_eq!(
        found,
        FuzzyMatch { score: 7, name_indices: vec![0, 2], doc_indices: vec![0, 2], tab: entry }
    );
}

#[test]
fn an_entry_that_the_matcher_does_not_find_is_no_match() {
    let entry = Arc::new(tab("a", None, 0));
    assert_eq!(FuzzyFinderService::match_entry(&entry, true, None), None);
    assert_eq!(UNRANKED, i64::MIN + 1);
}

#[test]
fn a_sticky_entry_is_found_whatever_the_query() {
    let entry = Arc::new(TabEntry::entry_new("é/"));
    let found = FuzzyFinderService::match_entry(&entry, true, None).unwrap();
    assert_eq!(
        found,
        FuzzyMatch { score: UNRANKED, name_indices: vec![0, 1, 2], doc_indices: vec![], tab: entry }
    );
}

#[test]
fn a_query_of_ordinary_length_can_be_searched_for() {
    let mut stage = stage(true);
    assert!(stage.is_searchable(&typed("")));
    assert!(stage.is_searchable(&typed("foo")));
    step(&mut stage, typed("foo"));
    assert!(stage.is_searchable(&tabs(vec![tab("foo/", Some("a doc"), 1)])));
    assert!(stage.is_searchable(&FilterEvent::Tabs(None)));
}

#[test]
fn a_query_that_needs_too_large_a_table_cannot_be_searched_for() {
    let mut stage = stage(false);
    step(&mut stage, tabs(vec![tab("foo/", None, 1)]));
    let long = "x".repeat(0x400_0000);
    assert!(!stage.is_searchable(&typed(&long)));
    stage.entries.clear();
    assert!(stage.is_searchable(&typed(&long)));
}

#[test]
fn one_matcher_serves_every_search() {
    let names = ["ab-c", "xaaa"];
    let queries = ["ac", "aa"];
    let mut stage = stage(false);
    step(&mut stage, tabs(vec![tab(names[0], None, 2), tab(names[1], None, 1)]));
    let one = SkimMatcherV2::default().ignore_case();
    for query in queries {
        let found = step(&mut stage, typed(query)).unwrap();
        let mut expected: Vec<(&str, i64, Vec<usize>)> = vec![];
        for name in names {
            if let Some((score, indices)) = one.fuzzy_indices(name, query) {
                expected.push((name, score, indices));
            }
        }
        let listed: Vec<(&str, i64, Vec<usize>)> = found
            .matches
            .iter()
            .map(|m| (m.tab.name.as_str(), m.score, m.name_indices.clone()))
            .collect();
        assert_eq!(listed, expected);
    }
}

#[test]
fn an_earlier_search_can_raise_a_score() {
    let score = |queries: &[&str]| {
        let mut stage = stage(false);
        step(&mut stage, tabs(vec![tab("ab-c", None, 2), tab("xaaa", None, 1)]));
        let mut last = None;
        for query in queries {
            last = step(&mut stage, typed(query));
        }
        last.unwrap().matches[0].score
    };
    assert_eq!(score(&["aa"]), 35);
    let raised = score(&["ac", "aa"]);
    assert!(raised > 35);
    assert!(raised <= 35 + MOST_LEFT_OVER * 2);
}

/// Several tabs, some of them with double letters.
fn shop() -> FilterEvent {
    tabs(vec![
        tab("hello/", Some("a world"), 4),
        tab("xaaa/", None, 3),
        tab("ab-c/", Some("a book"), 2),
        tab("Hotel-Lobby/", None, 1),
    ])
}

#[test]
fn earlier_searches_do_not_count_in_a_settled_answer() {
    for query in ["hl", "a", "ab", "he", "hell", "hello", "ll", "olo", "oo", "-", "/a", "HL"] {
        let mut unused = stage(true);
        step(&mut unused, shop());
        let expected = step(&mut unused, typed(query)).unwrap();

        let mut used = stage(true);
        step(&mut used, shop());
        for earlier in ["ac", "aa", "l", "ab-c", "lo", "aaa", "hlb", "e"] {
            step(&mut used, typed(earlier));
        }
        assert_eq!(step(&mut used, typed(query)), Some(expected), "{}", query);
    }
}

#[test]
fn no_tabs_find_what_was_found_before() {
    let mut stage = stage(true);
    step(&mut stage, shop());
    step(&mut stage, typed("lo"));
    let before = step(&mut stage, typed("ho")).unwrap();
    assert_eq!(names(&before), vec!["Hotel-Lobby/", "hello/", "ho/"]);
    assert_eq!(step(&mut stage, FilterEvent::Tabs(None)), Some(before));
}

#[test]
fn the_latest_tabs_and_query_decide_what_is_found() {
    let mut short = stage(true);
    step(&mut short, typed("ab"));
    let expected = step(&mut short, shop()).unwrap();

    let mut long = stage(true);
    step(&mut long, tabs(vec![tab("ab-gone/", None, 9), tab("abc/", None, 8)]));
    step(&mut long, typed("ac"));
    step(&mut long, FilterEvent::Tabs(None));
    step(&mut long, shop());
    step(&mut long, typed(""));
    assert_eq!(step(&mut long, typed("ab")), Some(expected.clone()));
    assert_eq!(long.query, short.query);
    assert_eq!(long.entries, short.entries);
    assert_eq!(expected.total, 5);
}

#[test]
fn matches_with_one_score_are_listed_in_the_order_of_the_tabs() {
    let mut stage = stage(true);
    step(
        &mut stage,
        tabs(vec![tab("b-x/", None, 1), tab("a-x/", None, 1), tab("c-x/", None, 7), tab("x/", None, 0)]),
    );
    let found = step(&mut stage, typed("x")).unwrap();
    assert_eq!(names(&found), vec!["x/", "c-x/", "a-x/", "b-x/"]);
    let scores: Vec<i64> = found.matches.iter().map(|m| m.score).collect();
    assert_eq!(scores, vec![31, 22, 22, 22]);
}

#[test]
fn every_character_of_the_query_has_a_place() {
    let mut stage = stage(false);
    step(&mut stage, tabs(vec![tab("Config/", Some("the dot files"), 1)]));
    let found = step(&mut stage, typed("cfgdf")).unwrap();
    let m = &found.matches[0];
    assert_eq!(m.name_indices.len() + m.doc_indices.len(), 5);
    let text = "Config/the dot files";
    let marked: String = m
        .name_indices
        .iter()
        .copied()
        .chain(m.doc_indices.iter().map(|i| i + "Config/".len()))
        .map(|i| text.chars().nth(i).unwrap().to_ascii_lowercase())
        .collect();
    assert_eq!(marked, "cfgdf");
}

/// The texts of `len` characters out of `letters`.
fn texts(letters: &str, len: usize) -> Vec<String> {
    let mut all = vec![String::new()];
    for _ in 0..len {
        all = all
            .iter()
            .flat_map(|text| letters.chars().map(move |c| format!("{}{}", text, c)))
            .collect();
    }
    all
}

fn occurs_in_order(pattern: &[u8], choice: &[u8]) -> bool {
    let mut left = choice.iter();
    pattern.iter().all(|p| left.any(|c| c.eq_ignore_ascii_case(p)))
}

/// Whether earlier searches may count in the answer.
fn unsettled(choice: &[u8], pattern: &[u8]) -> bool {
    let same = |a: u8, b: u8| a.eq_ignore_ascii_case(&b);
    (1..pattern.len()).any(|i| {
        (1..choice.len()).any(|j| {
            same(pattern[i - 1], pattern[i])
                && same(choice[j - 1], choice[j])
                && same(pattern[i], choice[j])
                && occurs_in_order(&pattern[..=i], &choice[..j])
        })
    })
}

#[test]
fn a_used_matcher_agrees_with_an_unused_one() {
    let mut used = stage(false);
    let mut raised = 0;
    for len in 1..4 {
        for query in texts("aAb-", len) {
            step(&mut used, typed(&query));
            for name in texts("aAb-", 5) {
                let found = step(&mut used, tabs(vec![tab(&name, None, 1)])).unwrap();
                let mut unused = stage(false);
                step(&mut unused, tabs(vec![tab(&name, None, 1)]));
                let expected = step(&mut unused, typed(&query)).unwrap();
                assert_eq!(
                    found.matches.len(),
                    occurs_in_order(query.as_bytes(), name.as_bytes()) as usize
                );
                if !unsettled(name.as_bytes(), query.as_bytes()) {
                    assert_eq!(found, expected);
                }
                assert_eq!(found.matches.len(), expected.matches.len());
                for (m, unused) in found.matches.iter().zip(&expected.matches) {
                    assert!(unused.score <= m.score);
                    assert!(m.score <= unused.score + MOST_LEFT_OVER * len as i64);
                    if unused.score < m.score {
                        raised += 1;
                    }
                }
            }
        }
    }
    assert!(raised > 0);
}
