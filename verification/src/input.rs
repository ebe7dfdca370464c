//! What a key means to the finder.

use crate::message::{FuzzyEvent, FuzzySelection, FuzzyShutdown};
use crate::service::FuzzyFinderService;
use crate::state::FuzzyEscapeState;
use vstd::prelude::*;

verus! {

/// A key of the terminal.
#[derive(Debug, Clone, Copy, PartialEq, Eq)]
pub enum Key {
    Backspace,
    Enter,
    Left,
    Right,
    Up,
    Down,
    Home,
    End,
    PageUp,
    PageDown,
    Tab,
    BackTab,
    Delete,
    Insert,
    F(u8),
    Char(char),
    Null,
    Esc,
}

/// The keys held down with a key.
#[derive(Debug, Clone, Copy, PartialEq, Eq)]
pub struct Modifiers {
    pub shift: bool,
    pub control: bool,
    pub alt: bool,
}

/// What the terminal reports.
#[derive(Debug, Clone, Copy, PartialEq, Eq)]
pub enum TerminalEvent {
    Key(Key, Modifiers),
    Mouse,
    /// The terminal now has this many columns and this many rows.
    Resize(u16, u16),
}

/// What is to be done about it.
#[derive(Debug, Clone, PartialEq, Eq)]
pub enum InputAction {
    /// Tell the parts of the finder.
    Send(FuzzyEvent),
    /// End the finder, with this tab chosen.
    Select(FuzzySelection),
    /// End the finder, with no tab chosen.
    Shutdown(FuzzyShutdown),
    Ignore,
}

impl Modifiers {
    /// Control is held down, and nothing else.
    pub open spec fn only_control(self) -> bool {
        self.control && !self.shift && !self.alt
    }
}

impl TerminalEvent {
    /// What the event asks of the parts of the finder.
    pub open spec fn asks(self) -> Option<FuzzyEvent> {
        match self {
            TerminalEvent::Key(key, modifiers) => match key {
                Key::Left => Some(FuzzyEvent::MoveLeft),
                Key::Right => Some(FuzzyEvent::MoveRight),
                Key::Up => Some(FuzzyEvent::MoveUp),
                Key::BackTab => Some(FuzzyEvent::MoveUp),
                Key::Down => Some(FuzzyEvent::MoveDown),
                Key::Tab => Some(FuzzyEvent::MoveDown),
                Key::Backspace => Some(FuzzyEvent::Delete),
                Key::Delete => Some(FuzzyEvent::Delete),
                Key::Enter => Some(FuzzyEvent::Enter),
                Key::PageUp => Some(FuzzyEvent::MoveFirst),
                Key::PageDown => Some(FuzzyEvent::MoveLast),
                Key::Char(c) => if !modifiers.only_control() {
                    Some(FuzzyEvent::Insert(c))
                } else if c == 'k' || c == 'p' {
                    Some(FuzzyEvent::MoveUp)
                } else if c == 'j' || c == 'n' {
                    Some(FuzzyEvent::MoveDown)
                } else {
                    None
                },
                _ => None,
            },
            TerminalEvent::Mouse => None,
            TerminalEvent::Resize(cols, rows) => Some(FuzzyEvent::Resize(cols, rows)),
        }
    }

    /// Whether the event ends the finder at once: Control with c, x or w.
    pub open spec fn quits(self) -> bool {
        self matches TerminalEvent::Key(Key::Char(c), modifiers) && modifiers.only_control() && (c
            == 'c' || c == 'x' || c == 'w')
    }

    /// Whether the event leaves the finder for the tab that it was called from.
    pub open spec fn escapes(self) -> bool {
        self matches TerminalEvent::Key(Key::Esc, _)
    }
}

impl FuzzyFinderService {
    /// What is to be done about an event of the terminal.
    pub fn input(event: TerminalEvent, escape: &FuzzyEscapeState) -> (r: InputAction)
        ensures
            event.escapes() ==> match escape.0 {
                Some(back) => r matches InputAction::Select(FuzzySelection(name)) && name@
                    == back@,
                None => r == InputAction::Shutdown(FuzzyShutdown {  }),
            },
            event.quits() ==> r == InputAction::Shutdown(FuzzyShutdown {  }),
            !event.escapes() && !event.quits() ==> match event.asks() {
                Some(asked) => r == InputAction::Send(asked),
                None => r == InputAction::Ignore,
            },
    {
        match event {
            TerminalEvent::Key(key, modifiers) => match key {
                Key::Left => InputAction::Send(FuzzyEvent::MoveLeft),
                Key::Right => InputAction::Send(FuzzyEvent::MoveRight),
                Key::Up | Key::BackTab => InputAction::Send(FuzzyEvent::MoveUp),
                Key::Down | Key::Tab => InputAction::Send(FuzzyEvent::MoveDown),
                Key::Backspace | Key::Delete => InputAction::Send(FuzzyEvent::Delete),
                Key::Enter => InputAction::Send(FuzzyEvent::Enter),
                Key::Char(c) => {
                    if modifiers.control && !modifiers.shift && !modifiers.alt {
                        match c {
                            'k' | 'p' => InputAction::Send(FuzzyEvent::MoveUp),
                            'j' | 'n' => InputAction::Send(FuzzyEvent::MoveDown),
                            'c' | 'x' | 'w' => InputAction::Shutdown(FuzzyShutdown {  }),
                            _ => InputAction::Ignore,
                        }
                    } else {
                        InputAction::Send(FuzzyEvent::Insert(c))
                    }
                },
                Key::Esc => match &escape.0 {
                    Some(back) => InputAction::Select(FuzzySelection(back.clone())),
                    None => InputAction::Shutdown(FuzzyShutdown {  }),
                },
                Key::PageUp => InputAction::Send(FuzzyEvent::MoveFirst),
                Key::PageDown => InputAction::Send(FuzzyEvent::MoveLast),
                Key::Home | Key::End | Key::Insert | Key::F(_) | Key::Null => InputAction::Ignore,
            },
            TerminalEvent::Mouse => InputAction::Ignore,
            TerminalEvent::Resize(cols, rows) => InputAction::Send(FuzzyEvent::Resize(cols, rows)),
        }
    }
}

/// No event both ends the finder and asks something of its parts.
pub proof fn law_each_event_means_one_thing(event: TerminalEvent)
    ensures
        event.escapes() ==> !event.quits() && event.asks() is None,
        event.quits() ==> event.asks() is None,
{
}

/// The keys that are not characters mean the same whatever is held down with them.
pub proof fn law_keys_mean_what_they_show(held: Modifiers, n: u8)
    ensures
        TerminalEvent::Key(Key::Left, held).asks() == Some(FuzzyEvent::MoveLeft),
        TerminalEvent::Key(Key::Right, held).asks() == Some(FuzzyEvent::MoveRight),
        TerminalEvent::Key(Key::Up, held).asks() == Some(FuzzyEvent::MoveUp),
        TerminalEvent::Key(Key::Down, held).asks() == Some(FuzzyEvent::MoveDown),
        TerminalEvent::Key(Key::BackTab, held).asks() == TerminalEvent::Key(Key::Up, held).asks(),
        TerminalEvent::Key(Key::Tab, held).asks() == TerminalEvent::Key(Key::Down, held).asks(),
        TerminalEvent::Key(Key::Backspace, held).asks() == Some(FuzzyEvent::Delete),
        TerminalEvent::Key(Key::Delete, held).asks() == Some(FuzzyEvent::Delete),
        TerminalEvent::Key(Key::Enter, held).asks() == Some(FuzzyEvent::Enter),
        TerminalEvent::Key(Key::PageUp, held).asks() == Some(FuzzyEvent::MoveFirst),
        TerminalEvent::Key(Key::PageDown, held).asks() == Some(FuzzyEvent::MoveLast),
        TerminalEvent::Key(Key::Home, held).asks() is None,
        TerminalEvent::Key(Key::End, held).asks() is None,
        TerminalEvent::Key(Key::Insert, held).asks() is None,
        TerminalEvent::Key(Key::F(n), held).asks() is None,
        TerminalEvent::Key(Key::Null, held).asks() is None,
{
}

/// A character is typed as it is unless Control alone is held down with it: then k and p move up,
/// j and n move down, c, x and w end the finder, and nothing else means anything.
pub proof fn law_characters_are_typed(c: char, held: Modifiers)
    ensures
        held.shift || held.alt || !held.control ==> {
            &&& TerminalEvent::Key(Key::Char(c), held).asks() == Some(FuzzyEvent::Insert(c))
            &&& !TerminalEvent::Key(Key::Char(c), held).quits()
        },
        held.control && !held.shift && !held.alt ==> {
            &&& c == 'k' || c == 'p' <==> TerminalEvent::Key(Key::Char(c), held).asks() == Some(
                FuzzyEvent::MoveUp,
            )
            &&& c == 'j' || c == 'n' <==> TerminalEvent::Key(Key::Char(c), held).asks() == Some(
                FuzzyEvent::MoveDown,
            )
            &&& c == 'k' || c == 'p' || c == 'j' || c == 'n' <==> TerminalEvent::Key(
                Key::Char(c),
                held,
            ).asks() is Some
            &&& c == 'c' || c == 'x' || c == 'w' <==> TerminalEvent::Key(
                Key::Char(c),
                held,
            ).quits()
        },
{
}

/// Escape and nothing else leaves the finder for the tab that it was called from, and only a
/// character can end it. A new size of the terminal is passed on as it is, and the mouse means
/// nothing.
pub proof fn law_escape_alone_goes_back(key: Key, held: Modifiers, columns: u16, rows: u16)
    ensures
        TerminalEvent::Key(key, held).escapes() <==> key is Esc,
        TerminalEvent::Key(key, held).quits() ==> key is Char,
        TerminalEvent::Resize(columns, rows).asks() == Some(FuzzyEvent::Resize(columns, rows)),
        !TerminalEvent::Resize(columns, rows).escapes(),
        !TerminalEvent::Resize(columns, rows).quits(),
        TerminalEvent::Mouse.asks() is None,
        !TerminalEvent::Mouse.escapes(),
        !TerminalEvent::Mouse.quits(),
{
}

} // verus!
