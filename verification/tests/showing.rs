use fuzzy_finder::config::FuzzyConfig;
use fuzzy_finder::draw::{Color, Command, Style};
use fuzzy_finder::message::{FuzzyEvent, FuzzySelection, FuzzyShutdown};
use fuzzy_finder::output::{OutputMessage, OutputStage};
use fuzzy_finder::select::{SelectMessage, SelectStage, SendAction, SendMessage};
use fuzzy_finder::service::FuzzyFinderService;
use fuzzy_finder::state::{
    FuzzyEscapeState, FuzzyMatch, FuzzyMatchState, FuzzyOutputEvent, FuzzyOutputMatch,
    FuzzyQueryState, FuzzySelectState, TabEntry, Token, TokenJoin,
};
use std::sync::Arc;

fn found(name: &str, doc: Option<&str>, name_indices: Vec<usize>) -> FuzzyMatch {
    FuzzyMatch {
        score: 0,
        name_indices,
        doc_indices: vec![],
        tab: Arc::new(TabEntry {
            name: name.to_string(),
            doc: doc.map(|d| d.to_string()),
            last_selected: 0,
            sticky: false,
        }),
    }
}

fn matches(names: &[&str]) -> FuzzyMatchState {
    FuzzyMatchState {
        matches: names.iter().map(|n| found(n, None, vec![])).collect(),
        total: names.len(),
    }
}

fn unmatched(text: &str) -> Token {
    Token::Unmatched(text.to_string())
}

fn matched(text: &str) -> Token {
    Token::Matched(text.to_string())
}

fn select(stage: &mut SelectStage, event: FuzzyEvent) -> Option<Option<usize>> {
    FuzzyFinderService::select_state(stage, SelectMessage::Event(event))
        .map(|selection| selection.map(|s| s.index))
}

fn take(stage: &mut SelectStage, names: &[&str]) -> Option<usize> {
    FuzzyFinderService::select_state(stage, SelectMessage::Matches(matches(names)))
        .unwrap()
        .map(|s| s.index)
}

fn print(text: &str, bold: bool, underlined: bool, color: Option<Color>) -> Command {
    Command::Print(text.to_string(), Style { bold, underlined, color })
}

#[test]
fn a_text_is_cut_at_its_marks() {
    assert_eq!(
        FuzzyFinderService::parse_text("foobar", &[0, 3, 4]),
        vec![unmatched(""), matched("f"), unmatched("oo"), matched("ba"), unmatched("r")]
    );
    assert_eq!(
        FuzzyFinderService::parse_text("foobar", &[2, 5]),
        vec![unmatched("fo"), matched("o"), unmatched("ba"), matched("r")]
    );
}

#[test]
fn a_text_without_marks_is_one_token() {
    assert_eq!(FuzzyFinderService::parse_text("foo", &[]), vec![unmatched("foo")]);
    assert_eq!(FuzzyFinderService::parse_text("foo", &[3, 9]), vec![unmatched("foo")]);
    assert_eq!(FuzzyFinderService::parse_text("", &[0]), vec![unmatched("")]);
}

#[test]
fn marks_are_offsets_in_bytes() {
    assert_eq!(
        FuzzyFinderService::parse_text("éab", &[2]),
        vec![unmatched("é"), matched("a"), unmatched("b")]
    );
    assert_eq!(FuzzyFinderService::parse_text("éab", &[1]), vec![unmatched("éab")]);
}

#[test]
fn an_index_out_of_order_marks_nothing() {
    assert_eq!(
        FuzzyFinderService::parse_text("abcd", &[2, 0, 3, 3]),
        vec![unmatched("ab"), matched("cd")]
    );
}

#[test]
fn a_match_is_padded_and_cut() {
    let (name, doc) = FuzzyFinderService::parse(
        FuzzyMatch { doc_indices: vec![1], ..found("ab", Some("xyz"), vec![1]) },
        5,
    );
    assert_eq!(name, vec![unmatched("a"), matched("b"), unmatched("   ")]);
    assert_eq!(doc, Some(vec![unmatched("x"), matched("y"), unmatched("z")]));
    let (name, doc) = FuzzyFinderService::parse(found("abcdef", None, vec![]), 5);
    assert_eq!(name, vec![unmatched("abcdef")]);
    assert_eq!(doc, None);
    let (name, _) = FuzzyFinderService::parse(found("é", None, vec![]), 4);
    assert_eq!(name, vec![unmatched("é  ")]);
}

#[test]
fn tokens_of_one_kind_join() {
    assert_eq!(unmatched("a").join(unmatched("b")), TokenJoin::Same(unmatched("ab")));
    assert_eq!(matched("a").join(matched("b")), TokenJoin::Same(matched("ab")));
    assert_eq!(
        unmatched("a").join(matched("b")),
        TokenJoin::Different(unmatched("a"), matched("b"))
    );
    assert_eq!(
        matched("a").join(unmatched("b")),
        TokenJoin::Different(matched("a"), unmatched("b"))
    );
}

#[test]
fn the_selection_moves_over_the_matches() {
    let mut stage = SelectStage::new(10);
    assert_eq!(select(&mut stage, FuzzyEvent::MoveDown), Some(None));
    assert_eq!(take(&mut stage, &["a", "b", "c"]), Some(0));
    assert_eq!(select(&mut stage, FuzzyEvent::MoveDown), Some(Some(1)));
    assert_eq!(select(&mut stage, FuzzyEvent::MoveUp), Some(Some(0)));
    assert_eq!(select(&mut stage, FuzzyEvent::MoveUp), Some(Some(0)));
    assert_eq!(select(&mut stage, FuzzyEvent::MoveLast), Some(Some(2)));
    assert_eq!(select(&mut stage, FuzzyEvent::MoveDown), Some(Some(2)));
    assert_eq!(select(&mut stage, FuzzyEvent::MoveFirst), Some(Some(0)));
    assert_eq!(select(&mut stage, FuzzyEvent::Enter), None);
    assert_eq!(select(&mut stage, FuzzyEvent::Insert('a')), None);
}

#[test]
fn the_selection_names_the_tab() {
    let mut stage = SelectStage::new(10);
    take(&mut stage, &["a", "b"]);
    let selection = FuzzyFinderService::select_state(
        &mut stage,
        SelectMessage::Event(FuzzyEvent::MoveDown),
    );
    assert_eq!(selection.unwrap().unwrap().tab.name, "b");
}

#[test]
fn the_selection_stays_among_fewer_matches() {
    let mut stage = SelectStage::new(10);
    take(&mut stage, &["a", "b", "c"]);
    select(&mut stage, FuzzyEvent::MoveLast);
    assert_eq!(take(&mut stage, &["a", "b"]), Some(1));
    assert_eq!(take(&mut stage, &[]), None);
    assert_eq!(take(&mut stage, &["a", "b"]), Some(0));
}

#[test]
fn the_selection_stays_on_the_screen() {
    let mut stage = SelectStage::new(10);
    take(&mut stage, &["a", "b", "c", "d"]);
    select(&mut stage, FuzzyEvent::MoveLast);
    assert_eq!(select(&mut stage, FuzzyEvent::Resize(80, 4)), Some(Some(1)));
    assert_eq!(select(&mut stage, FuzzyEvent::MoveDown), Some(Some(1)));
    assert_eq!(select(&mut stage, FuzzyEvent::Resize(80, 3)), Some(Some(0)));
}

#[test]
fn a_terminal_without_a_row_for_matches_cannot_be_answered() {
    let stage = SelectStage::new(3);
    let resize = |rows| SelectMessage::Event(FuzzyEvent::Resize(80, rows));
    assert!(stage.is_answerable(&resize(3)));
    assert!(!stage.is_answerable(&resize(2)));
    assert!(stage.is_answerable(&SelectMessage::Matches(matches(&["a"]))));
    let small = SelectStage::new(2);
    assert!(!small.is_answerable(&SelectMessage::Event(FuzzyEvent::MoveUp)));
    assert!(small.is_answerable(&SelectMessage::Event(FuzzyEvent::Enter)));
}

#[test]
fn enter_sends_what_is_selected() {
    let mut selection = None;
    let enter = || SendMessage::Event(FuzzyEvent::Enter);
    assert_eq!(
        FuzzyFinderService::send_selected(&mut selection, enter()),
        SendAction::Shutdown(FuzzyShutdown {})
    );
    let next = FuzzySelectState { index: 0, tab: found("a/", None, vec![]).tab };
    assert_eq!(
        FuzzyFinderService::send_selected(&mut selection, SendMessage::Selection(Some(next))),
        SendAction::Continue
    );
    assert_eq!(
        FuzzyFinderService::send_selected(
            &mut selection,
            SendMessage::Event(FuzzyEvent::MoveDown)
        ),
        SendAction::Continue
    );
    assert_eq!(
        FuzzyFinderService::send_selected(&mut selection, enter()),
        SendAction::Select(FuzzySelection("a/".to_string()))
    );
}

#[test]
fn docs_line_up_and_never_move_left() {
    let mut stage = OutputStage::new();
    assert_eq!(stage.doc_index, 4);
    let message = OutputMessage::Matches(FuzzyMatchState {
        matches: vec![found("a", Some("x"), vec![]), found("abcd", Some("y"), vec![0])],
        total: 7,
    });
    let shown = FuzzyFinderService::output_state(&mut stage, message).unwrap();
    assert_eq!(stage.doc_index, 6);
    assert_eq!(shown.total, 7);
    assert_eq!(
        *shown.matches,
        vec![
            FuzzyOutputMatch {
                name: vec![unmatched("a     ")],
                doc: Some(vec![unmatched("x")])
            },
            FuzzyOutputMatch {
                name: vec![unmatched(""), matched("a"), unmatched("bcd  ")],
                doc: Some(vec![unmatched("y")])
            },
        ]
    );
    FuzzyFinderService::output_state(&mut stage, OutputMessage::Matches(matches(&["a"])));
    assert_eq!(stage.doc_index, 6);
    FuzzyFinderService::output_state(&mut stage, OutputMessage::Matches(matches(&[])));
    assert_eq!(stage.doc_index, 6);
}

#[test]
fn the_display_follows_the_messages() {
    let mut stage = OutputStage::new();
    let query = FuzzyQueryState { query: "ab".to_string(), cursor_index: 1 };
    let shown =
        FuzzyFinderService::output_state(&mut stage, OutputMessage::Query(query.clone())).unwrap();
    assert_eq!(*shown.query_state, query);
    let shown = FuzzyFinderService::output_state(
        &mut stage,
        OutputMessage::Event(FuzzyEvent::Resize(80, 24)),
    );
    assert_eq!(*shown.unwrap().query_state, query);
    assert_eq!(
        FuzzyFinderService::output_state(&mut stage, OutputMessage::Event(FuzzyEvent::MoveUp)),
        None
    );
    let selection = Some(FuzzySelectState { index: 3, tab: found("a", None, vec![]).tab });
    let shown =
        FuzzyFinderService::output_state(&mut stage, OutputMessage::Select(selection)).unwrap();
    assert_eq!((*shown.select_state).as_ref().unwrap().index, 3);
    assert_eq!(*shown.query_state, query);
}

fn display() -> FuzzyOutputEvent {
    FuzzyOutputEvent {
        query_state: Arc::new(FuzzyQueryState { query: "q".to_string(), cursor_index: 1 }),
        select_state: Arc::new(Some(FuzzySelectState {
            index: 1,
            tab: found("b", None, vec![]).tab,
        })),
        matches: Arc::new(vec![
            FuzzyOutputMatch {
                name: vec![unmatched("a"), matched("q")],
                doc: Some(vec![unmatched("d"), matched("q")]),
            },
            FuzzyOutputMatch {
                name: vec![unmatched("b"), matched("q")],
                doc: Some(vec![unmatched("e"), matched("q")]),
            },
            FuzzyOutputMatch { name: vec![unmatched("c")], doc: None },
        ]),
        total: 1203,
    }
}

#[test]
fn the_display_is_drawn_row_by_row() {
    let blue = Some(Color::Blue);
    let expected = vec![
        Command::Hide,
        Command::MoveTo(0, 0),
        print("> ", false, false, None),
        print("q", true, false, None),
        Command::ClearUntilNewLine,
        Command::MoveTo(0, 1),
        print("  ", false, false, None),
        print("3", true, false, None),
        print("/", true, false, None),
        print("1203", true, false, None),
        Command::ClearUntilNewLine,
        Command::MoveTo(0, 2),
        print("  ", false, false, None),
        print("a", true, false, None),
        print("q", true, true, None),
        Command::ClearUntilNewLine,
        print("d", false, false, Some(Color::DarkGrey)),
        print("q", false, true, Some(Color::Grey)),
        Command::ClearUntilNewLine,
        Command::MoveTo(0, 3),
        print("> ", false, false, blue),
        print("b", true, false, blue),
        print("q", true, true, blue),
        Command::ClearUntilNewLine,
        print("e", false, false, blue),
        print("q", false, true, blue),
        Command::ClearUntilNewLine,
        Command::MoveTo(0, 4),
        print("  ", false, false, None),
        print("c", true, false, None),
        Command::ClearUntilNewLine,
        Command::ClearFromCursorDown,
        Command::MoveTo(3, 0),
        Command::Show,
    ];
    assert_eq!(FuzzyFinderService::draw(&display(), 24), expected);
}

#[test]
fn no_more_is_drawn_than_the_terminal_has_rows() {
    let rows = |height: u16| {
        FuzzyFinderService::draw(&display(), height)
            .iter()
            .filter(|c| matches!(c, Command::MoveTo(0, row) if *row >= 2))
            .count()
    };
    assert_eq!(rows(0), 0);
    assert_eq!(rows(2), 0);
    assert_eq!(rows(3), 1);
    assert_eq!(rows(5), 3);
    assert_eq!(rows(6), 3);
}

#[test]
fn a_far_cursor_wraps_as_a_column_does() {
    let output = FuzzyOutputEvent {
        query_state: Arc::new(FuzzyQueryState { query: "q".to_string(), cursor_index: 65535 }),
        ..display()
    };
    let commands = FuzzyFinderService::draw(&output, 3);
    assert_eq!(commands[commands.len() - 2], Command::MoveTo(1, 0));
}

#[test]
fn the_screen_is_cleared_from_its_first_cell() {
    assert_eq!(
        FuzzyFinderService::clear_all(),
        vec![Command::MoveTo(0, 0), Command::ClearAll, Command::MoveTo(0, 0)]
    );
}

#[test]
fn the_marked_row_shows_what_enter_sends() {
    let names = ["a/", "bc/", "d/"];
    let mut stage = SelectStage::new(10);
    let mut output = OutputStage::new();
    FuzzyFinderService::select_state(&mut stage, SelectMessage::Event(FuzzyEvent::Resize(80, 10)));
    stage.index = 1;
    let selection =
        FuzzyFinderService::select_state(&mut stage, SelectMessage::Matches(matches(&names)))
            .unwrap();
    let selected = selection.as_ref().unwrap().tab.clone();
    FuzzyFinderService::output_state(&mut output, OutputMessage::Matches(matches(&names)));
    let shown =
        FuzzyFinderService::output_state(&mut output, OutputMessage::Select(selection)).unwrap();
    let commands = FuzzyFinderService::draw(&shown, 10);
    let marked = commands
        .iter()
        .position(|c| *c == print("> ", false, false, Some(Color::Blue)))
        .unwrap();
    assert_eq!(commands[marked + 1], print("bc/  ", true, false, Some(Color::Blue)));
    assert_eq!(selected.name, "bc/");
}

#[test]
fn a_finder_starts_empty() {
    let finder =
        FuzzyFinderService::spawn(FuzzyEscapeState(None), FuzzyConfig { create_tab: true });
    assert_eq!(finder.query_state, FuzzyQueryState::default());
    assert_eq!(finder.filter_state.entries, vec![]);
    assert_eq!(finder.filter_state.query, None);
    assert_eq!(finder.send_selected, None);
    assert_eq!(finder.output_state, OutputStage::new());
    let selection = SelectStage::new(24);
    assert_eq!(selection.index, 0);
    assert_eq!(selection.matches, vec![]);
    assert_eq!(selection.terminal_height, 24);
}
