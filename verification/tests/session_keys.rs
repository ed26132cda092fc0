use chord_ring::chord::{ChordError, MAX_ID};
use chord_ring::session::{decide, Command, InputMode, Key, Report, Session};

fn type_text(session: &mut Session, text: &str) {
    for c in text.chars() {
        assert!(!session.handle_key(Key::Char(c), true));
    }
}

fn text_of(session: &Session) -> String {
    session.input().chars().iter().collect()
}

/// A session in `Normal` mode whose ring has exactly the given members.
fn session_on(members: &[u16]) -> Session {
    let mut session = Session::new();
    for _ in 0..MAX_ID {
        session.handle_key(Key::Char('a'), true);
    }
    session.handle_key(Key::Char('d'), true);
    for id in 0..MAX_ID {
        if !members.contains(&id) {
            type_text(&mut session, &id.to_string());
            session.handle_key(Key::Enter, true);
            assert_eq!(session.result(), Report::Deleted(id));
        }
    }
    session.handle_key(Key::Esc, true);
    assert_eq!(session.chord().get_ring(), members.to_vec());
    session
}

#[test]
fn new_session_is_in_normal_mode_on_an_empty_ring() {
    let session = Session::new();
    assert_eq!(session.input_mode(), InputMode::Normal);
    assert_eq!(session.result(), Report::Nothing);
    assert_eq!(text_of(&session), "");
    assert_eq!(session.input().character_index(), 0);
    assert!(session.chord().get_ring().is_empty());
}

#[test]
fn starting_node_is_added_without_a_report() {
    let mut session = Session::new();
    session.add_starting_node();
    assert_eq!(session.chord().get_ring().len(), 1);
    assert_eq!(session.result(), Report::Nothing);
    assert_eq!(session.input_mode(), InputMode::Normal);
}

#[test]
fn starting_node_on_a_full_ring_changes_nothing() {
    let mut session = session_on(&(0..MAX_ID).collect::<Vec<u16>>());
    let before = session.result();
    session.add_starting_node();
    assert_eq!(session.chord().get_ring().len(), MAX_ID as usize);
    assert_eq!(session.result(), before);
}

#[test]
fn normal_mode_keys_are_commands() {
    assert_eq!(
        decide(InputMode::Normal, Key::Char('s'), true),
        Command::SetMode(InputMode::Searching)
    );
    assert_eq!(
        decide(InputMode::Normal, Key::Char('d'), true),
        Command::SetMode(InputMode::Deleting)
    );
    assert_eq!(decide(InputMode::Normal, Key::Char('a'), true), Command::AddNode);
    assert_eq!(decide(InputMode::Normal, Key::Char('q'), true), Command::Quit);
    assert_eq!(decide(InputMode::Normal, Key::Char('x'), true), Command::Nothing);
    assert_eq!(decide(InputMode::Normal, Key::Char('S'), true), Command::Nothing);
    assert_eq!(decide(InputMode::Normal, Key::Enter, true), Command::Nothing);
    assert_eq!(decide(InputMode::Normal, Key::Esc, true), Command::Nothing);
    assert_eq!(decide(InputMode::Normal, Key::Other, true), Command::Nothing);
}

#[test]
fn normal_mode_takes_a_key_that_went_up_too() {
    assert_eq!(decide(InputMode::Normal, Key::Char('a'), false), Command::AddNode);
    assert_eq!(decide(InputMode::Normal, Key::Char('q'), false), Command::Quit);
}

#[test]
fn editing_modes_take_only_keys_that_went_down() {
    for mode in [InputMode::Searching, InputMode::Deleting] {
        assert_eq!(decide(mode, Key::Enter, true), Command::Submit);
        assert_eq!(decide(mode, Key::Char('q'), true), Command::Insert('q'));
        assert_eq!(decide(mode, Key::Char('5'), true), Command::Insert('5'));
        assert_eq!(decide(mode, Key::Backspace, true), Command::Erase);
        assert_eq!(decide(mode, Key::Left, true), Command::MoveLeft);
        assert_eq!(decide(mode, Key::Right, true), Command::MoveRight);
        assert_eq!(decide(mode, Key::Esc, true), Command::SetMode(InputMode::Normal));
        assert_eq!(decide(mode, Key::Other, true), Command::Nothing);
        for key in [Key::Enter, Key::Char('5'), Key::Backspace, Key::Left, Key::Right, Key::Esc] {
            assert_eq!(decide(mode, key, false), Command::Nothing);
        }
    }
}

#[test]
fn q_quits_only_in_normal_mode() {
    let mut session = Session::new();
    assert!(session.handle_key(Key::Char('q'), true));
    session.handle_key(Key::Char('s'), true);
    assert!(!session.handle_key(Key::Char('q'), true));
    assert_eq!(text_of(&session), "q");
}

#[test]
fn add_key_reports_the_new_node() {
    let mut session = Session::new();
    assert!(!session.handle_key(Key::Char('a'), true));
    let ring = session.chord().get_ring();
    assert_eq!(ring.len(), 1);
    assert_eq!(session.result(), Report::Added(ring[0]));
    assert_eq!(session.input_mode(), InputMode::Normal);
}

#[test]
fn add_key_on_a_full_ring_reports_the_failure() {
    let mut session = session_on(&(0..MAX_ID).collect::<Vec<u16>>());
    session.handle_key(Key::Char('a'), true);
    assert_eq!(session.result(), Report::AddFailed(ChordError::RingIsFull));
    assert_eq!(session.chord().get_ring().len(), MAX_ID as usize);
}

#[test]
fn search_reports_the_responsible_node_and_empties_the_line() {
    let mut session = session_on(&[5, 20, 50]);
    session.handle_key(Key::Char('s'), true);
    assert_eq!(session.input_mode(), InputMode::Searching);
    type_text(&mut session, "60");
    assert_eq!(text_of(&session), "60");
    session.handle_key(Key::Enter, true);
    assert_eq!(session.result(), Report::Located { key: 60, node: 5 });
    assert_eq!(text_of(&session), "");
    assert_eq!(session.input().character_index(), 0);
    assert_eq!(session.input_mode(), InputMode::Searching);
    type_text(&mut session, "6");
    session.handle_key(Key::Enter, true);
    assert_eq!(session.result(), Report::Located { key: 6, node: 20 });
    type_text(&mut session, "5");
    session.handle_key(Key::Enter, true);
    assert_eq!(session.result(), Report::Located { key: 5, node: 5 });
}

#[test]
fn search_for_a_key_outside_the_keyspace_is_reported() {
    let mut session = session_on(&[5, 20, 50]);
    session.handle_key(Key::Char('s'), true);
    type_text(&mut session, "64");
    session.handle_key(Key::Enter, true);
    assert_eq!(session.result(), Report::OutOfRange { key: 64 });
}

#[test]
fn search_on_an_empty_ring_is_reported() {
    let mut session = Session::new();
    session.handle_key(Key::Char('s'), true);
    type_text(&mut session, "3");
    session.handle_key(Key::Enter, true);
    assert_eq!(session.result(), Report::NoNodes { key: 3 });
    type_text(&mut session, "64");
    session.handle_key(Key::Enter, true);
    assert_eq!(session.result(), Report::NoNodes { key: 64 });
}

#[test]
fn search_for_text_that_is_no_number_is_turned_down() {
    let mut session = session_on(&[0, 5, 20, 50]);
    session.handle_key(Key::Char('s'), true);
    for text in ["abc", "", "-1", "70000", "65536", "1 2", "+"] {
        type_text(&mut session, "5");
        session.handle_key(Key::Enter, true);
        assert_eq!(session.result(), Report::Located { key: 5, node: 5 });
        type_text(&mut session, text);
        session.handle_key(Key::Enter, true);
        assert_eq!(session.result(), Report::Unreadable, "{:?}", text);
        assert_eq!(text_of(&session), "");
        assert_eq!(session.input().character_index(), 0);
        assert_eq!(session.input_mode(), InputMode::Searching);
        assert_eq!(session.chord().get_ring(), vec![0, 5, 20, 50]);
    }
}

#[test]
fn search_for_text_that_is_no_number_on_an_empty_ring_is_turned_down() {
    let mut session = Session::new();
    session.handle_key(Key::Char('s'), true);
    type_text(&mut session, "abc");
    session.handle_key(Key::Enter, true);
    assert_eq!(session.result(), Report::Unreadable);
}

#[test]
fn deletion_of_text_that_is_no_number_leaves_node_zero_alone() {
    let mut session = session_on(&[0, 5, 20, 50]);
    session.handle_key(Key::Char('d'), true);
    for text in ["abc", "", "-0", "70000", "0x0", " 0"] {
        type_text(&mut session, text);
        session.handle_key(Key::Enter, true);
        assert_eq!(session.result(), Report::Unreadable, "{:?}", text);
        assert_eq!(session.chord().get_ring(), vec![0, 5, 20, 50]);
        assert_eq!(text_of(&session), "");
        assert_eq!(session.input().character_index(), 0);
        assert_eq!(session.input_mode(), InputMode::Deleting);
    }
    type_text(&mut session, "0");
    session.handle_key(Key::Enter, true);
    assert_eq!(session.result(), Report::Deleted(0));
    assert_eq!(session.chord().get_ring(), vec![5, 20, 50]);
}

#[test]
fn submit_functions_turn_down_an_empty_line() {
    let mut session = session_on(&[0, 5]);
    session.submit_query();
    assert_eq!(session.result(), Report::Unreadable);
    session.submit_deletion();
    assert_eq!(session.result(), Report::Unreadable);
    assert_eq!(session.chord().get_ring(), vec![0, 5]);
}

#[test]
fn delete_reports_the_deleted_and_the_missing_node() {
    let mut session = session_on(&[5, 20, 50]);
    session.handle_key(Key::Char('d'), true);
    assert_eq!(session.input_mode(), InputMode::Deleting);
    type_text(&mut session, "20");
    session.handle_key(Key::Enter, true);
    assert_eq!(session.result(), Report::Deleted(20));
    assert_eq!(session.chord().get_ring(), vec![5, 50]);
    assert_eq!(text_of(&session), "");
    type_text(&mut session, "20");
    session.handle_key(Key::Enter, true);
    assert_eq!(session.result(), Report::Missing(20));
    assert_eq!(session.chord().get_ring(), vec![5, 50]);
    type_text(&mut session, "999");
    session.handle_key(Key::Enter, true);
    assert_eq!(session.result(), Report::Missing(999));
}

#[test]
fn editing_keys_edit_the_line() {
    let mut session = Session::new();
    session.handle_key(Key::Char('s'), true);
    type_text(&mut session, "124");
    session.handle_key(Key::Left, true);
    session.handle_key(Key::Char('3'), true);
    assert_eq!(text_of(&session), "1234");
    session.handle_key(Key::Right, true);
    session.handle_key(Key::Right, true);
    assert_eq!(session.input().character_index(), 4);
    session.handle_key(Key::Backspace, true);
    assert_eq!(text_of(&session), "123");
    session.handle_key(Key::Backspace, false);
    session.handle_key(Key::Char('9'), false);
    session.handle_key(Key::Other, true);
    assert_eq!(text_of(&session), "123");
    assert_eq!(session.result(), Report::Nothing);
}

#[test]
fn esc_returns_to_normal_mode_and_keeps_the_line() {
    let mut session = Session::new();
    session.handle_key(Key::Char('d'), true);
    type_text(&mut session, "12");
    session.handle_key(Key::Esc, true);
    assert_eq!(session.input_mode(), InputMode::Normal);
    assert_eq!(text_of(&session), "12");
    session.handle_key(Key::Char('s'), true);
    assert_eq!(session.input_mode(), InputMode::Searching);
    assert_eq!(text_of(&session), "12");
}
