//! How the finder is laid out on the terminal.

use crate::select::RESERVED_ROWS;
use crate::service::FuzzyFinderService;
use crate::state;
use crate::state::{FuzzyOutputEvent, FuzzyOutputMatch, OutputMatchView, OutputView, Token, TokenView};
use crate::text;
use vstd::prelude::*;

verus! {

/// The columns that the finder keeps, in the row of the query, for what is not the query.
pub const RESERVED_COLUMNS: usize = 2;

/// The colours that the finder uses.
#[derive(Debug, Clone, Copy, PartialEq, Eq)]
pub enum Color {
    Blue,
    Grey,
    DarkGrey,
}

/// How a text is printed; without a colour, in that of the terminal.
#[derive(Debug, Clone, Copy, PartialEq, Eq)]
pub struct Style {
    pub bold: bool,
    pub underlined: bool,
    pub color: Option<Color>,
}

/// One thing for the terminal to do.
#[derive(Debug, Clone, PartialEq, Eq)]
pub enum Command {
    /// Hide the cursor.
    Hide,
    /// Show the cursor.
    Show,
    /// Move the cursor to this column of this row.
    MoveTo(u16, u16),
    Print(String, Style),
    /// Clear what is right of the cursor in its row.
    ClearUntilNewLine,
    /// Clear what is below the cursor.
    ClearFromCursorDown,
    /// Clear the screen.
    ClearAll,
}

/// What a [`Command`] stands for.
pub enum CommandView {
    Hide,
    Show,
    MoveTo(u16, u16),
    Print(Seq<char>, Style),
    ClearUntilNewLine,
    ClearFromCursorDown,
    ClearAll,
}

impl View for Command {
    type V = CommandView;

    open spec fn view(&self) -> CommandView {
        match self {
            Command::Hide => CommandView::Hide,
            Command::Show => CommandView::Show,
            Command::MoveTo(column, row) => CommandView::MoveTo(*column, *row),
            Command::Print(text, style) => CommandView::Print(text@, *style),
            Command::ClearUntilNewLine => CommandView::ClearUntilNewLine,
            Command::ClearFromCursorDown => CommandView::ClearFromCursorDown,
            Command::ClearAll => CommandView::ClearAll,
        }
    }
}

impl Style {
    /// No colour, and neither bold nor underlined.
    #[verifier::allow_in_spec]
    pub fn plain() -> Style
        returns
            (Style { bold: false, underlined: false, color: None }),
    {
        Style { bold: false, underlined: false, color: None }
    }

    /// Bold, in no colour.
    #[verifier::allow_in_spec]
    pub fn bold() -> Style
        returns
            (Style { bold: true, underlined: false, color: None }),
    {
        Style { bold: true, underlined: false, color: None }
    }

    /// Blue, and neither bold nor underlined.
    #[verifier::allow_in_spec]
    pub fn blue() -> Style
        returns
            (Style { bold: false, underlined: false, color: Some(Color::Blue) }),
    {
        Style { bold: false, underlined: false, color: Some(Color::Blue) }
    }

    /// The style of the unmatched parts of a name.
    pub open spec fn of_name(selected: bool) -> Style {
        if selected {
            Style { bold: true, underlined: false, color: Some(Color::Blue) }
        } else {
            Style::bold()
        }
    }

    /// The style of the unmatched parts of a doc.
    pub open spec fn of_doc(selected: bool) -> Style {
        if selected {
            Style::blue()
        } else {
            Style { bold: false, underlined: false, color: Some(Color::DarkGrey) }
        }
    }

    /// The style of the matched parts of a name.
    pub open spec fn of_matched_name(selected: bool) -> Style {
        Style { underlined: true, ..Style::of_name(selected) }
    }

    /// The style of the matched parts of a doc.
    pub open spec fn of_matched_doc(selected: bool) -> Style {
        if selected {
            Style { underlined: true, ..Style::of_doc(selected) }
        } else {
            Style { bold: false, underlined: true, color: Some(Color::Grey) }
        }
    }
}

/// The tokens printed one after the other, each in the style of its kind, and the rest of the row
/// cleared.
pub open spec fn printed(tokens: Seq<TokenView>, unmatched: Style, matched: Style) -> Seq<
    CommandView,
> {
    tokens.map_values(
        |t: TokenView|
            CommandView::Print(
                t.text,
                if t.matched {
                    matched
                } else {
                    unmatched
                },
            ),
    ).push(CommandView::ClearUntilNewLine)
}

/// The rows of the query and of the counts.
pub open spec fn header(output: OutputView) -> Seq<CommandView> {
    seq![
        CommandView::Hide,
        CommandView::MoveTo(0, 0),
        CommandView::Print("> "@, Style::plain()),
        CommandView::Print(output.query.query, Style::bold()),
        CommandView::ClearUntilNewLine,
        CommandView::MoveTo(0, 1),
        CommandView::Print("  "@, Style::plain()),
        CommandView::Print(text::decimal(output.matches.len()), Style::bold()),
        CommandView::Print("/"@, Style::bold()),
        CommandView::Print(text::decimal(output.total as nat), Style::bold()),
        CommandView::ClearUntilNewLine,
    ]
}

/// The row of match number `i`.
pub open spec fn match_row(shown: OutputMatchView, i: int, selected: bool) -> Seq<CommandView> {
    let start = seq![
        CommandView::MoveTo(0, (i + RESERVED_ROWS) as u16),
        if selected {
            CommandView::Print("> "@, Style::blue())
        } else {
            CommandView::Print("  "@, Style::plain())
        },
    ];
    let name = printed(shown.name, Style::of_name(selected), Style::of_matched_name(selected));
    let doc = match shown.doc {
        Some(doc) => printed(doc, Style::of_doc(selected), Style::of_matched_doc(selected)),
        None => Seq::empty(),
    };
    start + name + doc
}

/// Whether the selection stands on match number `i`.
pub open spec fn selects(output: OutputView, i: int) -> bool {
    output.selection matches Some(selection) && selection.index == i
}

/// The rows of the first `n` matches.
pub open spec fn match_rows(output: OutputView, n: int) -> Seq<CommandView>
    decreases n,
{
    if n <= 0 {
        Seq::empty()
    } else {
        match_rows(output, n - 1) + match_row(output.matches[n - 1], n - 1, selects(output, n - 1))
    }
}

/// How many matches have a row of their own on a terminal of this many rows.
pub open spec fn rows_shown(output: OutputView, terminal_height: int) -> int {
    let room = if terminal_height > RESERVED_ROWS {
        terminal_height - RESERVED_ROWS
    } else {
        0
    };
    if output.matches.len() < room {
        output.matches.len() as int
    } else {
        room
    }
}

/// What is below the matches is cleared, and the cursor is shown in the query.
pub open spec fn footer(output: OutputView) -> Seq<CommandView> {
    seq![
        CommandView::ClearFromCursorDown,
        CommandView::MoveTo((output.query.cursor_index + RESERVED_COLUMNS) as u16, 0),
        CommandView::Show,
    ]
}

/// The whole display.
pub open spec fn drawn(output: OutputView, terminal_height: int) -> Seq<CommandView> {
    header(output) + match_rows(output, rows_shown(output, terminal_height)) + footer(output)
}

impl FuzzyFinderService {
    /// What the terminal has to do to show the finder in this many rows.
    pub fn draw(output: &FuzzyOutputEvent, terminal_height: u16) -> (r: Vec<Command>)
        requires
            output@.query.cursor_index + RESERVED_COLUMNS <= usize::MAX,
        ensures
            state::views(r@) == drawn(output@, terminal_height as int),
    {
        let ghost view = output@;
        let matches = &output.matches;
        let mut out: Vec<Command> = Vec::new();

        out.push(Command::Hide);
        out.push(Command::MoveTo(0, 0));
        out.push(Command::Print("> ".to_owned(), Style::plain()));
        out.push(Command::Print(output.query_state.query.clone(), Style::bold()));
        out.push(Command::ClearUntilNewLine);
        out.push(Command::MoveTo(0, 1));
        out.push(Command::Print("  ".to_owned(), Style::plain()));
        out.push(Command::Print(text::decimal_of(matches.len()), Style::bold()));
        out.push(Command::Print("/".to_owned(), Style::bold()));
        out.push(Command::Print(text::decimal_of(output.total), Style::bold()));
        out.push(Command::ClearUntilNewLine);
        proof {
            assert(state::views(out@) =~= header(view));
        }

        let height: usize = terminal_height as usize;
        let mut row: usize = RESERVED_ROWS;
        let mut i: usize = 0;
        proof {
            assert(header(view) + match_rows(view, 0) =~= header(view));
        }
        while row < height && i < matches.len()
            invariant
                view == output@,
                matches == &output.matches,
                height == terminal_height,
                i <= matches@.len(),
                i <= rows_shown(view, height as int),
                row == i + RESERVED_ROWS,
                state::views(out@) == header(view) + match_rows(view, i as int),
            decreases matches@.len() - i,
        {
            let ghost before = state::views(out@);
            let selected = match &*output.select_state {
                Some(selection) => selection.index == i,
                None => false,
            };
            proof {
                assert(selected == selects(view, i as int));
                assert(view.matches[i as int] == matches@[i as int]@);
            }
            Self::draw_match(&mut out, &matches[i], row as u16, selected);
            proof {
                assert(before + match_row(view.matches[i as int], i as int, selected) =~= header(
                    view,
                ) + match_rows(view, i + 1));
            }
            row = row + 1;
            i = i + 1;
        }

        let ghost before = state::views(out@);
        out.push(Command::ClearFromCursorDown);
        let cursor: usize = output.query_state.cursor_index + RESERVED_COLUMNS;
        out.push(Command::MoveTo(cursor as u16, 0));
        out.push(Command::Show);
        proof {
            assert(state::views(out@) =~= before + footer(view));
        }
        out
    }

    /// Adds what shows a match in a row of the terminal.
    fn draw_match(out: &mut Vec<Command>, shown: &FuzzyOutputMatch, row: u16, selected: bool)
        requires
            row >= RESERVED_ROWS,
        ensures
            state::views(final(out)@) == state::views(old(out)@) + match_row(
                shown@,
                row - RESERVED_ROWS,
                selected,
            ),
    {
        let ghost before = state::views(out@);
        out.push(Command::MoveTo(0, row));
        if selected {
            out.push(Command::Print("> ".to_owned(), Style::blue()));
            Self::print_selected_tab(out, shown.name.as_slice());
            if let Some(doc) = &shown.doc {
                Self::print_selected_doc(out, doc.as_slice());
            }
        } else {
            out.push(Command::Print("  ".to_owned(), Style::plain()));
            Self::print_tab(out, shown.name.as_slice());
            if let Some(doc) = &shown.doc {
                Self::print_doc(out, doc.as_slice());
            }
        }
        proof {
            assert(state::views(out@) =~= before + match_row(
                shown@,
                row - RESERVED_ROWS,
                selected,
            ));
        }
    }

    /// Adds what prints the tokens, each in the style of its kind, and clears the rest of the row.
    fn print_tokens(out: &mut Vec<Command>, tokens: &[Token], unmatched: Style, matched: Style)
        ensures
            state::views(final(out)@) == state::views(old(out)@) + printed(
                state::views(tokens@),
                unmatched,
                matched,
            ),
    {
        let ghost before = state::views(out@);
        let ghost all = printed(state::views(tokens@), unmatched, matched);
        let mut i: usize = 0;
        proof {
            assert(before + all.take(0) =~= before);
        }
        while i < tokens.len()
            invariant
                i <= tokens@.len(),
                all == printed(state::views(tokens@), unmatched, matched),
                state::views(out@) == before + all.take(i as int),
            decreases tokens@.len() - i,
        {
            let ghost here = state::views(out@);
            let command = match &tokens[i] {
                Token::Unmatched(s) => Command::Print(s.clone(), unmatched),
                Token::Matched(s) => Command::Print(s.clone(), matched),
            };
            proof {
                assert(command@ == all[i as int]);
                assert(all.take(i + 1) =~= all.take(i as int).push(all[i as int]));
            }
            out.push(command);
            proof {
                assert(state::views(out@) =~= here.push(all[i as int]));
                assert(here.push(all[i as int]) =~= before + all.take(i + 1));
            }
            i = i + 1;
        }
        let ghost here = state::views(out@);
        out.push(Command::ClearUntilNewLine);
        proof {
            assert(state::views(out@) =~= here.push(CommandView::ClearUntilNewLine));
            assert(here.push(CommandView::ClearUntilNewLine) =~= before + all);
        }
    }

    /// Adds what prints the name of the selected match.
    pub fn print_selected_tab(out: &mut Vec<Command>, tokens: &[Token])
        ensures
            state::views(final(out)@) == state::views(old(out)@) + printed(
                state::views(tokens@),
                Style::of_name(true),
                Style::of_matched_name(true),
            ),
    {
        Self::print_tokens(
            out,
            tokens,
            Style { bold: true, underlined: false, color: Some(Color::Blue) },
            Style { bold: true, underlined: true, color: Some(Color::Blue) },
        );
    }

    /// Adds what prints the doc of the selected match.
    pub fn print_selected_doc(out: &mut Vec<Command>, tokens: &[Token])
        ensures
            state::views(final(out)@) == state::views(old(out)@) + printed(
                state::views(tokens@),
                Style::of_doc(true),
                Style::of_matched_doc(true),
            ),
    {
        Self::print_tokens(
            out,
            tokens,
            Style::blue(),
            Style { bold: false, underlined: true, color: Some(Color::Blue) },
        );
    }

    /// Adds what prints the name of a match.
    pub fn print_tab(out: &mut Vec<Command>, tokens: &[Token])
        ensures
            state::views(final(out)@) == state::views(old(out)@) + printed(
                state::views(tokens@),
                Style::of_name(false),
                Style::of_matched_name(false),
            ),
    {
        Self::print_tokens(
            out,
            tokens,
            Style::bold(),
            Style { bold: true, underlined: true, color: None },
        );
    }

    /// Adds what prints the doc of a match.
    pub fn print_doc(out: &mut Vec<Command>, tokens: &[Token])
        ensures
            state::views(final(out)@) == state::views(old(out)@) + printed(
                state::views(tokens@),
                Style::of_doc(false),
                Style::of_matched_doc(false),
            ),
    {
        Self::print_tokens(
            out,
            tokens,
            Style { bold: false, underlined: false, color: Some(Color::DarkGrey) },
            Style { bold: false, underlined: true, color: Some(Color::Grey) },
        );
    }

    /// What clears the terminal.
    pub fn clear_all() -> (r: Vec<Command>)
        ensures
            state::views(r@) == seq![
                CommandView::MoveTo(0, 0),
                CommandView::ClearAll,
                CommandView::MoveTo(0, 0),
            ],
    {
        let mut r: Vec<Command> = Vec::new();
        r.push(Command::MoveTo(0, 0));
        r.push(Command::ClearAll);
        r.push(Command::MoveTo(0, 0));
        proof {
            assert(state::views(r@) =~= seq![
                CommandView::MoveTo(0, 0),
                CommandView::ClearAll,
                CommandView::MoveTo(0, 0),
            ]);
        }
        r
    }
}

/// Whether every row that the cursor is moved to is one of the terminal.
pub open spec fn on_screen(commands: Seq<CommandView>, terminal_height: int) -> bool {
    forall|i: int|
        0 <= i < commands.len() ==> ((#[trigger] commands[i]) matches CommandView::MoveTo(
            _,
            row,
        ) ==> row < terminal_height)
}

proof fn lemma_match_rows_on_screen(output: OutputView, n: int, terminal_height: int)
    requires
        0 <= n,
        n + RESERVED_ROWS <= terminal_height <= u16::MAX,
    ensures
        on_screen(match_rows(output, n), terminal_height),
    decreases n,
{
    if n > 0 {
        lemma_match_rows_on_screen(output, n - 1, terminal_height);
    }
}

/// Nothing is drawn below the last row of the terminal.
pub proof fn law_draw_stays_on_screen(output: OutputView, terminal_height: int)
    requires
        RESERVED_ROWS <= terminal_height <= u16::MAX,
    ensures
        on_screen(drawn(output, terminal_height), terminal_height),
{
    lemma_match_rows_on_screen(output, rows_shown(output, terminal_height), terminal_height);
}

/// Every token is printed, one after the other and none left out, matched ones in the one style and
/// the others in the other; then the rest of the row is cleared.
pub proof fn law_every_token_is_printed(tokens: Seq<TokenView>, unmatched: Style, matched: Style)
    ensures
        printed(tokens, unmatched, matched).len() == tokens.len() + 1,
        forall|i: int|
            0 <= i < tokens.len() ==> ((#[trigger] printed(tokens, unmatched, matched)[i])
                matches CommandView::Print(text, style) && text == tokens[i].text && (
            tokens[i].matched ==> style == matched) && (!tokens[i].matched ==> style
                == unmatched)),
        printed(tokens, unmatched, matched).last() is ClearUntilNewLine,
{
}

/// A style differs between the matched and the unmatched parts of a name in the line under it alone.
/// Names are bold and docs are not; the selected row is blue, and in the others docs are grey.
pub proof fn law_matched_is_underlined(selected: bool)
    ensures
        Style::of_matched_name(selected).underlined,
        Style::of_matched_doc(selected).underlined,
        !Style::of_name(selected).underlined,
        !Style::of_doc(selected).underlined,
        Style::of_name(selected).bold && Style::of_matched_name(selected).bold,
        !Style::of_doc(selected).bold && !Style::of_matched_doc(selected).bold,
        Style::of_matched_name(selected).color == Style::of_name(selected).color,
        selected <==> Style::of_name(selected).color == Some(Color::Blue),
        selected <==> Style::of_doc(selected).color == Some(Color::Blue),
        selected <==> Style::of_matched_doc(selected).color == Some(Color::Blue),
        !selected ==> Style::of_name(selected).color is None,
        !selected ==> Style::of_doc(selected).color == Some(Color::DarkGrey),
        !selected ==> Style::of_matched_doc(selected).color == Some(Color::Grey),
{
}

/// The row of a match begins in its own line, two below its number, with an arrow where it is
/// selected; then come the tokens of the name and those of the doc, each as it is, the matched ones
/// underlined.
pub proof fn law_match_row_prints_the_tokens(shown: OutputMatchView, i: int, selected: bool)
    requires
        0 <= i,
        i + 2 <= u16::MAX,
    ensures
        ({
            let row = match_row(shown, i, selected);
            let names = shown.name.len() as int;
            &&& row[0] matches CommandView::MoveTo(column, line) && column == 0 && line == i + 2
            &&& row[1] matches CommandView::Print(lead, style) && lead == (if selected {
                "> "@
            } else {
                "  "@
            }) && !style.bold && !style.underlined && style.color == (if selected {
                Some(Color::Blue)
            } else {
                None
            })
            &&& forall|k: int|
                0 <= k < names ==> ((#[trigger] row[2 + k]) matches CommandView::Print(text, style)
                    && text == shown.name[k].text && style.bold && style.underlined
                    == shown.name[k].matched && style.color == (if selected {
                    Some(Color::Blue)
                } else {
                    None
                }))
            &&& row[2 + names] is ClearUntilNewLine
            &&& shown.doc is None ==> row.len() == 3 + names
            &&& shown.doc matches Some(doc) ==> {
                &&& row.len() == 4 + names + doc.len()
                &&& forall|k: int|
                    0 <= k < doc.len() ==> ((#[trigger] row[3 + names + k])
                        matches CommandView::Print(text, style) && text == doc[k].text
                        && !style.bold && style.underlined == doc[k].matched && style.color == (
                    if selected {
                        Some(Color::Blue)
                    } else if doc[k].matched {
                        Some(Color::Grey)
                    } else {
                        Some(Color::DarkGrey)
                    }))
                &&& row.last() is ClearUntilNewLine
            }
        }),
{
}

/// What a command prints.
pub open spec fn text_of(command: CommandView) -> Seq<char> {
    match command {
        CommandView::Print(text, _) => text,
        _ => Seq::empty(),
    }
}

proof fn lemma_printed_text(tokens: Seq<TokenView>, unmatched: Style, matched: Style)
    ensures
        printed(tokens, unmatched, matched).map_values(|c: CommandView| text_of(c)).flatten()
            == tokens.map_values(|t: TokenView| t.text).flatten(),
{
    let texts = tokens.map_values(|t: TokenView| t.text);
    assert(printed(tokens, unmatched, matched).map_values(|c: CommandView| text_of(c))
        =~= texts.push(Seq::empty()));
    texts.lemma_flatten_push(Seq::empty());
    assert(texts.flatten() + Seq::<char>::empty() =~= texts.flatten());
}

/// What the row of a match prints is two columns of lead, the whole name and the whole doc.
pub proof fn law_match_row_reads_as_the_match(shown: OutputMatchView, i: int, selected: bool)
    ensures
        match_row(shown, i, selected).map_values(|c: CommandView| text_of(c)).flatten() == (
        if selected {
            "> "@
        } else {
            "  "@
        }) + shown.name.map_values(|t: TokenView| t.text).flatten() + match shown.doc {
            Some(doc) => doc.map_values(|t: TokenView| t.text).flatten(),
            None => Seq::empty(),
        },
{
    let reads = |c: CommandView| text_of(c);
    let lead = if selected {
        "> "@
    } else {
        "  "@
    };
    let name = printed(shown.name, Style::of_name(selected), Style::of_matched_name(selected));
    let doc = match shown.doc {
        Some(doc) => printed(doc, Style::of_doc(selected), Style::of_matched_doc(selected)),
        None => Seq::empty(),
    };
    let texts = match_row(shown, i, selected).map_values(reads);
    let start = seq![Seq::<char>::empty(), lead];
    assert(texts =~= start + name.map_values(reads) + doc.map_values(reads));
    vstd::seq_lib::lemma_flatten_concat(start + name.map_values(reads), doc.map_values(reads));
    vstd::seq_lib::lemma_flatten_concat(start, name.map_values(reads));
    assert(start =~= seq![Seq::<char>::empty()].push(lead));
    seq![Seq::<char>::empty()].lemma_flatten_push(lead);
    seq![Seq::<char>::empty()].lemma_flatten_one_element();
    assert(start.flatten() =~= lead);
    lemma_printed_text(shown.name, Style::of_name(selected), Style::of_matched_name(selected));
    if let Some(tokens) = shown.doc {
        lemma_printed_text(tokens, Style::of_doc(selected), Style::of_matched_doc(selected));
    } else {
        assert(doc.map_values(reads).flatten() =~= Seq::empty());
    }
}

proof fn lemma_rows_are_joined(output: OutputView, n: int)
    requires
        0 <= n,
    ensures
        match_rows(output, n) == Seq::new(
            n as nat,
            |i: int|
                match_row(
                    output.matches[i],
                    i,
                    output.selection is Some && output.selection->0.index == i,
                ),
        ).flatten(),
    decreases n,
{
    let row = |i: int|
        match_row(
            output.matches[i],
            i,
            output.selection is Some && output.selection->0.index == i,
        );
    let rows = Seq::new(n as nat, row);
    if n == 0 {
        assert(rows.flatten() =~= Seq::empty());
    } else {
        lemma_rows_are_joined(output, n - 1);
        let front = Seq::new((n - 1) as nat, row);
        assert(rows =~= front.push(row(n - 1)));
        front.lemma_flatten_push(row(n - 1));
    }
}

/// As many matches have a row as there are, or as there is room for under the first two rows. The
/// rows come one after the other, in the order of the matches, and the one that is selected is
/// marked as that. Nothing else is drawn between the counts and the end.
pub proof fn law_rows_follow_one_another(output: OutputView, terminal_height: int, n: nat)
    requires
        n <= output.matches.len(),
        n == 0 || n + 2 <= terminal_height,
        n == output.matches.len() || n + 2 >= terminal_height,
    ensures
        drawn(output, terminal_height).len() >= 14,
        drawn(output, terminal_height).subrange(
            11,
            drawn(output, terminal_height).len() - 3,
        ) == Seq::new(
            n,
            |i: int|
                match_row(
                    output.matches[i],
                    i,
                    output.selection is Some && output.selection->0.index == i,
                ),
        ).flatten(),
{
    lemma_rows_are_joined(output, n as int);
    assert(rows_shown(output, terminal_height) == n);
    let commands = drawn(output, terminal_height);
    assert(commands.subrange(11, commands.len() - 3) =~= match_rows(output, n as int));
}

/// The first row shows the query, bold, after an arrow, and the second the number of matches out of
/// the number of entries; both are cleared to their ends.
pub proof fn law_query_and_counts_are_shown(output: OutputView, terminal_height: int)
    requires
        output.total >= 0,
    ensures
        ({
            let commands = drawn(output, terminal_height);
            let first = commands.subrange(0, 5).map_values(|c: CommandView| text_of(c)).flatten();
            let second = commands.subrange(5, 11).map_values(
                |c: CommandView| text_of(c),
            ).flatten();
            &&& commands.len() >= 14
            &&& commands[0] is Hide
            &&& commands[1] == CommandView::MoveTo(0, 0)
            &&& first == "> "@ + output.query.query
            &&& commands[2] matches CommandView::Print(_, style) && !style.bold
                && !style.underlined && style.color is None
            &&& commands[3] matches CommandView::Print(text, style) && text == output.query.query
                && style.bold && !style.underlined && style.color is None
            &&& commands[4] is ClearUntilNewLine
            &&& commands[5] == CommandView::MoveTo(0, 1)
            &&& second == "  "@ + text::decimal(output.matches.len()) + "/"@ + text::decimal(
                output.total as nat,
            )
            &&& commands[6] matches CommandView::Print(_, style) && !style.bold
                && !style.underlined && style.color is None
            &&& forall|i: int|
                7 <= i <= 9 ==> ((#[trigger] commands[i]) matches CommandView::Print(_, style)
                    && style.bold && !style.underlined && style.color is None)
            &&& commands[10] is ClearUntilNewLine
        }),
{
    let commands = drawn(output, terminal_height);
    let reads = |c: CommandView| text_of(c);
    let query = output.query.query;
    let none = Seq::<char>::empty();
    let first = seq![none, none, "> "@, query, none];
    assert(commands.subrange(0, 5).map_values(reads) =~= first);
    assert(first.flatten() =~= "> "@ + query) by {
        lemma_flat_five(none, none, "> "@, query, none);
    }
    let n = text::decimal(output.matches.len());
    let total = text::decimal(output.total as nat);
    let second = seq![none, "  "@, n, "/"@, total].push(none);
    assert(commands.subrange(5, 11).map_values(reads) =~= second);
    seq![none, "  "@, n, "/"@, total].lemma_flatten_push(none);
    lemma_flat_five(none, "  "@, n, "/"@, total);
    assert(second.flatten() =~= "  "@ + n + "/"@ + total);
}

proof fn lemma_flat_five(a: Seq<char>, b: Seq<char>, c: Seq<char>, d: Seq<char>, e: Seq<char>)
    ensures
        seq![a, b, c, d, e].flatten() == a + b + c + d + e,
{
    let one = seq![a];
    one.lemma_flatten_one_element();
    one.lemma_flatten_push(b);
    one.push(b).lemma_flatten_push(c);
    one.push(b).push(c).lemma_flatten_push(d);
    one.push(b).push(c).push(d).lemma_flatten_push(e);
    assert(seq![a, b, c, d, e] =~= one.push(b).push(c).push(d).push(e));
}

/// At the end what is below the matches is cleared, and the cursor is shown in the row of the query,
/// where it stands in the query, past the arrow.
pub proof fn law_cursor_is_shown_in_the_query(output: OutputView, terminal_height: int)
    requires
        0 <= output.query.cursor_index,
        output.query.cursor_index + 2 <= u16::MAX,
    ensures
        ({
            let commands = drawn(output, terminal_height);
            let end = commands.len() as int;
            &&& commands[end - 3] is ClearFromCursorDown
            &&& commands[end - 2] matches CommandView::MoveTo(column, row) && column
                == output.query.cursor_index + 2 && row == 0
            &&& commands[end - 1] is Show
        }),
{
}

/// A command stands for what it does: the place that it moves to, and the text and the style in
/// which it prints.
pub proof fn law_command_is_seen_whole(command: Command)
    ensures
        command matches Command::MoveTo(column, row) ==> command@ == CommandView::MoveTo(
            column,
            row,
        ),
        command matches Command::Print(text, style) ==> command@ == CommandView::Print(
            text@,
            style,
        ),
        command is Hide <==> command@ is Hide,
        command is Show <==> command@ is Show,
        command is ClearUntilNewLine <==> command@ is ClearUntilNewLine,
        command is ClearFromCursorDown <==> command@ is ClearFromCursorDown,
        command is ClearAll <==> command@ is ClearAll,
{
}

} // verus!
