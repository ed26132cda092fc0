//! One interactive session on a ring: the ring, the line being edited, the
//! input mode, and what the last command reported. A key goes in; the
//! session decides what it means and carries it out.

use crate::chord::{Chord, ChordError};
use crate::input::{reads_as, InputLine};
use crate::keyspace::{is_full, joined, search_outcome};
use vstd::prelude::*;

verus! {

/// What keys mean at the moment.
#[derive(Debug, Clone, Copy, PartialEq, Eq)]
pub enum InputMode {
    /// Keys are commands.
    Normal,
    /// Keys edit the key to look up.
    Searching,
    /// Keys edit the identifier of the node to delete.
    Deleting,
}

/// A key of the keyboard, as far as the session tells keys apart.
#[derive(Debug, Clone, Copy, PartialEq, Eq)]
pub enum Key {
    Char(char),
    Enter,
    Backspace,
    Left,
    Right,
    Esc,
    Other,
}

/// What a key asks for.
#[derive(Debug, Clone, Copy, PartialEq, Eq)]
pub enum Command {
    Nothing,
    Quit,
    SetMode(InputMode),
    AddNode,
    Submit,
    Insert(char),
    Erase,
    MoveLeft,
    MoveRight,
}

/// What the last command that changed or queried the ring has to say.
#[derive(Debug, Clone, Copy, PartialEq, Eq)]
pub enum Report {
    /// No such command yet.
    Nothing,
    /// A node was added under this identifier.
    Added(u16),
    /// No node could be added.
    AddFailed(ChordError),
    /// `key` is in the care of the node `node`.
    Located { key: u16, node: u16 },
    /// `key` lies outside the keyspace.
    OutOfRange { key: u16 },
    /// `key` was looked up on a ring without nodes.
    NoNodes { key: u16 },
    /// The node with this identifier was deleted.
    Deleted(u16),
    /// No node has this identifier.
    Missing(u16),
    /// The submitted line did not read as a number; nothing was looked up or
    /// deleted.
    Unreadable,
}

/// A session, as contracts see it.
#[verifier::ext_equal]
pub struct SessionView {
    pub mode: InputMode,
    pub text: Seq<char>,
    pub cursor: nat,
    pub ring: Set<u16>,
    pub report: Report,
}

/// The ring, the edited line, the mode and the last report of one session.
pub struct Session {
    input: InputLine,
    mode: InputMode,
    chord: Chord,
    report: Report,
}

impl View for Session {
    type V = SessionView;

    closed spec fn view(&self) -> SessionView {
        SessionView {
            mode: self.mode,
            text: self.input@,
            cursor: self.input.cursor(),
            ring: self.chord@,
            report: self.report,
        }
    }
}

/// What `key` asks for in `mode`. In `Normal` mode the letters `s`, `a`, `d`
/// and `q` are commands, whether the key went down or up. In the two editing
/// modes only a key that went down counts.
pub open spec fn command_for(mode: InputMode, key: Key, pressed: bool) -> Command {
    match mode {
        InputMode::Normal => match key {
            Key::Char(c) => if c == 's' {
                Command::SetMode(InputMode::Searching)
            } else if c == 'a' {
                Command::AddNode
            } else if c == 'd' {
                Command::SetMode(InputMode::Deleting)
            } else if c == 'q' {
                Command::Quit
            } else {
                Command::Nothing
            },
            _ => Command::Nothing,
        },
        _ => if !pressed {
            Command::Nothing
        } else {
            match key {
                Key::Enter => Command::Submit,
                Key::Char(c) => Command::Insert(c),
                Key::Backspace => Command::Erase,
                Key::Left => Command::MoveLeft,
                Key::Right => Command::MoveRight,
                Key::Esc => Command::SetMode(InputMode::Normal),
                Key::Other => Command::Nothing,
            }
        },
    }
}

/// What a search for `key` reports on a ring with these members.
pub open spec fn search_report(members: Set<u16>, key: u16) -> Report {
    match search_outcome(members, key) {
        Ok(node) => Report::Located { key, node },
        Err(ChordError::OutOfRange) => Report::OutOfRange { key },
        Err(_) => Report::NoNodes { key },
    }
}

/// The session after a line that reads as the number `key` was submitted for
/// a lookup: the outcome is reported and the line is emptied.
pub open spec fn queried(before: SessionView, key: u16) -> SessionView {
    SessionView {
        text: Seq::empty(),
        cursor: 0,
        report: search_report(before.ring, key),
        ..before
    }
}

/// The session after a line that reads as the number `id` was submitted for
/// a deletion: the node with that identifier is gone if there was one, the
/// outcome is reported and the line is emptied.
pub open spec fn deleted(before: SessionView, id: u16) -> SessionView {
    SessionView {
        text: Seq::empty(),
        cursor: 0,
        ring: before.ring.remove(id),
        report: if before.ring.contains(id) {
            Report::Deleted(id)
        } else {
            Report::Missing(id)
        },
        ..before
    }
}

/// The session after a line that does not read as a number was submitted:
/// the line is turned down. The ring stays as it is, nothing is looked up or
/// deleted, the report says that the line was unreadable, and the line is
/// emptied.
pub open spec fn turned_down(before: SessionView) -> SessionView {
    SessionView { text: Seq::empty(), cursor: 0, report: Report::Unreadable, ..before }
}

/// The session after the edited line was submitted. A line that reads as a
/// number is looked up in `Searching` mode and names the node to delete in
/// `Deleting` mode; a line that does not is turned down.
pub open spec fn submitted(before: SessionView) -> SessionView {
    match before.mode {
        InputMode::Normal => before,
        InputMode::Searching => match reads_as(before.text) {
            Some(key) => queried(before, key),
            None => turned_down(before),
        },
        InputMode::Deleting => match reads_as(before.text) {
            Some(id) => deleted(before, id),
            None => turned_down(before),
        },
    }
}

/// The session after the character before the cursor was erased.
pub open spec fn erased(before: SessionView) -> SessionView {
    if before.cursor == 0 {
        before
    } else {
        SessionView {
            text: before.text.remove(before.cursor - 1),
            cursor: (before.cursor - 1) as nat,
            ..before
        }
    }
}

/// `report` and `after` are what an addition to a ring with the members
/// `before` can leave: a new member under a free identifier, or, on a full
/// ring and only there, a failure that changes nothing.
pub open spec fn added(before: Set<u16>, report: Report, after: Set<u16>) -> bool {
    match report {
        Report::Added(id) => !is_full(before) && joined(before, id, after),
        Report::AddFailed(e) => e == ChordError::RingIsFull && is_full(before) && after == before,
        _ => false,
    }
}

/// What `key` asks for in `mode`.
pub fn decide(mode: InputMode, key: Key, pressed: bool) -> (command: Command)
    ensures
        command == command_for(mode, key, pressed),
{
    match mode {
        InputMode::Normal => match key {
            Key::Char(c) => if c == 's' {
                Command::SetMode(InputMode::Searching)
            } else if c == 'a' {
                Command::AddNode
            } else if c == 'd' {
                Command::SetMode(InputMode::Deleting)
            } else if c == 'q' {
                Command::Quit
            } else {
                Command::Nothing
            },
            _ => Command::Nothing,
        },
        _ => if !pressed {
            Command::Nothing
        } else {
            match key {
                Key::Enter => Command::Submit,
                Key::Char(c) => Command::Insert(c),
                Key::Backspace => Command::Erase,
                Key::Left => Command::MoveLeft,
                Key::Right => Command::MoveRight,
                Key::Esc => Command::SetMode(InputMode::Normal),
                Key::Other => Command::Nothing,
            }
        },
    }
}

impl Session {
    /// A session in `Normal` mode on an empty ring, with an empty line and
    /// nothing to report.
    pub fn new() -> (session: Self)
        ensures
            session@ == (SessionView {
                mode: InputMode::Normal,
                text: Seq::empty(),
                cursor: 0,
                ring: Set::empty(),
                report: Report::Nothing,
            }),
    {
        Session {
            input: InputLine::new(),
            mode: InputMode::Normal,
            chord: Chord::new(),
            report: Report::Nothing,
        }
    }

    /// The input mode.
    pub fn input_mode(&self) -> (mode: InputMode)
        ensures
            mode == self@.mode,
    {
        self.mode
    }

    /// The edited line.
    pub fn input(&self) -> (line: &InputLine)
        ensures
            line@ == self@.text,
            line.cursor() == self@.cursor,
    {
        &self.input
    }

    /// The ring.
    pub fn chord(&self) -> (ring: &Chord)
        ensures
            ring@ == self@.ring,
    {
        &self.chord
    }

    /// The last report.
    pub fn result(&self) -> (report: Report)
        ensures
            report == self@.report,
    {
        self.report
    }

    /// Adds a node as a starting point, without a report. Changes nothing
    /// where the ring is full.
    pub fn add_starting_node(&mut self)
        ensures
            final(self)@.mode == old(self)@.mode,
            final(self)@.text == old(self)@.text,
            final(self)@.cursor == old(self)@.cursor,
            final(self)@.report == old(self)@.report,
            is_full(old(self)@.ring) ==> final(self)@.ring == old(self)@.ring,
            !is_full(old(self)@.ring) ==> exists|id: u16|
                joined(old(self)@.ring, id, final(self)@.ring),
    {
        let outcome = self.chord.add_node();
        proof {
            if let Ok(id) = outcome {
                assert(joined(old(self)@.ring, id, self@.ring));
            }
        }
    }

    /// Looks up the number that the line reads as, reports the outcome and
    /// empties the line. A line that does not read as a number is turned
    /// down: no search is made and the ring is not touched.
    pub fn submit_query(&mut self)
        ensures
            final(self)@ == match reads_as(old(self)@.text) {
                Some(key) => queried(old(self)@, key),
                None => turned_down(old(self)@),
            },
    {
        self.report = match self.input.number() {
            Some(key) => match self.chord.search(key) {
                Ok(node) => Report::Located { key, node: node.id },
                Err(ChordError::OutOfRange) => Report::OutOfRange { key },
                Err(_) => Report::NoNodes { key },
            },
            None => Report::Unreadable,
        };
        self.input.clear();
    }

    /// Deletes the node whose identifier the line reads as, reports the
    /// outcome and empties the line. A line that does not read as a number
    /// is turned down: no deletion is made and the ring is not touched.
    pub fn submit_deletion(&mut self)
        ensures
            final(self)@ == match reads_as(old(self)@.text) {
                Some(id) => deleted(old(self)@, id),
                None => turned_down(old(self)@),
            },
    {
        self.report = match self.input.number() {
            Some(node_id) => match self.chord.delete_node(node_id) {
                Ok(()) => Report::Deleted(node_id),
                Err(_) => Report::Missing(node_id),
            },
            None => Report::Unreadable,
        };
        self.input.clear();
    }

    /// Carries out what `key` asks for in the current mode. Returns whether
    /// the session is over.
    pub fn handle_key(&mut self, key: Key, pressed: bool) -> (quit: bool)
        ensures
            quit == (command_for(old(self)@.mode, key, pressed) is Quit),
            match command_for(old(self)@.mode, key, pressed) {
                Command::Nothing | Command::Quit => final(self)@ == old(self)@,
                Command::SetMode(mode) => final(self)@ == (SessionView { mode, ..old(self)@ }),
                Command::AddNode => {
                    &&& final(self)@.mode == old(self)@.mode
                    &&& final(self)@.text == old(self)@.text
                    &&& final(self)@.cursor == old(self)@.cursor
                    &&& added(old(self)@.ring, final(self)@.report, final(self)@.ring)
                },
                Command::Submit => final(self)@ == submitted(old(self)@),
                Command::Insert(c) => final(self)@ == (SessionView {
                    text: old(self)@.text.insert(old(self)@.cursor as int, c),
                    cursor: old(self)@.cursor + 1,
                    ..old(self)@
                }),
                Command::Erase => final(self)@ == erased(old(self)@),
                Command::MoveLeft => final(self)@ == (SessionView {
                    cursor: if old(self)@.cursor == 0 {
                        0
                    } else {
                        (old(self)@.cursor - 1) as nat
                    },
                    ..old(self)@
                }),
                Command::MoveRight => final(self)@ == (SessionView {
                    cursor: if old(self)@.cursor == old(self)@.text.len() {
                        old(self)@.cursor
                    } else {
                        old(self)@.cursor + 1
                    },
                    ..old(self)@
                }),
            },
    {
        match decide(self.mode, key, pressed) {
            Command::Nothing => false,
            Command::Quit => true,
            Command::SetMode(mode) => {
                self.mode = mode;
                false
            },
            Command::AddNode => {
                self.report = match self.chord.add_node() {
                    Ok(node_id) => Report::Added(node_id),
                    Err(e) => Report::AddFailed(e),
                };
                false
            },
            Command::Submit => {
                match self.mode {
                    InputMode::Normal => {},
                    InputMode::Searching => self.submit_query(),
                    InputMode::Deleting => self.submit_deletion(),
                }
                false
            },
            Command::Insert(c) => {
                self.input.enter_char(c);
                false
            },
            Command::Erase => {
                self.input.delete_char();
                false
            },
            Command::MoveLeft => {
                self.input.move_cursor_left();
                false
            },
            Command::MoveRight => {
                self.input.move_cursor_right();
                false
            },
        }
    }
}

} // verus!
