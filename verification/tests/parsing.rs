use turingc::machine::TuringMachine;
use turingc::parse::ParseError;
use turingc::parse::parse_tape;
use turingc::parse::parse_transitions;

fn toks(words: &[&str]) -> Vec<Vec<u8>> {
    words.iter().map(|w| w.as_bytes().to_vec()).collect()
}

fn machine(src: &str) -> TuringMachine {
    TuringMachine::from_text(&src.as_bytes().to_vec()).unwrap()
}

fn parse_err(src: &str) -> ParseError {
    TuringMachine::from_text(&src.as_bytes().to_vec()).unwrap_err()
}

#[test]
fn tape_marker_sets_cursor_and_is_stripped() {
    let (tape, cursor) = parse_tape(toks(&["a", "*b", "c"])).unwrap();
    assert_eq!(tape, toks(&["a", "b", "c"]));
    assert_eq!(cursor, 1);
}

#[test]
fn tape_first_marker_wins_and_every_marker_is_stripped() {
    let (tape, cursor) = parse_tape(toks(&["*a", "*b"])).unwrap();
    assert_eq!(tape, toks(&["a", "b"]));
    assert_eq!(cursor, 0);
}

#[test]
fn tape_without_marker_is_an_error() {
    assert_eq!(parse_tape(toks(&["a", "b"])).unwrap_err(), ParseError::MissingCursorMarker);
}

#[test]
fn bare_marker_token_becomes_empty_symbol() {
    let (tape, cursor) = parse_tape(toks(&["*"])).unwrap();
    assert_eq!(tape, vec![Vec::<u8>::new()]);
    assert_eq!(cursor, 0);
}

#[test]
fn transitions_keep_first_seen_order() {
    let lines = vec![
        toks(&["s1", "a", "b", "R", "s2"]),
        toks(&["s0", "a", "a", "L", "s1"]),
        toks(&["s1", "b", "*", "*", "s0"]),
    ];
    let table = parse_transitions(lines).unwrap();
    assert_eq!(table.len(), 2);
    assert_eq!(table[0].state, b"s1".to_vec());
    assert_eq!(table[0].rules.len(), 2);
    assert_eq!(table[0].rules[0].symbol, b"a".to_vec());
    assert_eq!(table[0].rules[1].symbol, b"b".to_vec());
    assert_eq!(table[1].state, b"s0".to_vec());
    assert_eq!(table[1].rules.len(), 1);
}

#[test]
fn transitions_last_write_wins_for_repeated_pair() {
    let lines = vec![
        toks(&["s0", "0", "1", "R", "s1"]),
        toks(&["s0", "0", "2", "L", "s2"]),
    ];
    let table = parse_transitions(lines).unwrap();
    assert_eq!(table.len(), 1);
    assert_eq!(table[0].rules.len(), 1);
    assert_eq!(table[0].rules[0].symbol, b"0".to_vec());
    assert_eq!(table[0].rules[0].action.write_symbol, b"2".to_vec());
    assert_eq!(table[0].rules[0].action.direction, b"L".to_vec());
    assert_eq!(table[0].rules[0].action.next_state, b"s2".to_vec());
}

#[test]
fn transition_line_with_fewer_than_five_tokens_is_an_error() {
    let lines = vec![toks(&["s0", "0", "1", "R"])];
    assert_eq!(parse_transitions(lines).unwrap_err(), ParseError::TruncatedTransition);
}

#[test]
fn transition_line_extra_tokens_are_ignored() {
    let lines = vec![toks(&["s0", "0", "1", "R", "s1", "junk"])];
    let table = parse_transitions(lines).unwrap();
    assert_eq!(table[0].rules[0].action.next_state, b"s1".to_vec());
}

#[test]
fn full_description_builds_the_model() {
    let m = machine("a *b c\ns0 extra\nacc\nrej\ns0 b b R s1\ns1 c * L acc\n");
    assert_eq!(m.tape, toks(&["a", "b", "c"]));
    assert_eq!(m.cursor, 1);
    assert_eq!(m.init_state, b"s0".to_vec());
    assert_eq!(m.accept_state, b"acc".to_vec());
    assert_eq!(m.reject_state, b"rej".to_vec());
    assert_eq!(m.transitions.len(), 2);
    assert_eq!(m.transitions[1].state, b"s1".to_vec());
}

#[test]
fn description_without_trailing_newline_parses_too() {
    let m = machine("*0\ns0\nacc\nrej\ns0 0 0 * acc");
    assert_eq!(m.transitions.len(), 1);
}

#[test]
fn empty_input_misses_the_tape() {
    assert_eq!(parse_err(""), ParseError::MissingTape);
}

#[test]
fn missing_init_state_line() {
    assert_eq!(parse_err("*0\n"), ParseError::MissingInitState);
}

#[test]
fn blank_init_state_line() {
    assert_eq!(parse_err("*0\n\nacc\nrej\n"), ParseError::MissingInitState);
}

#[test]
fn missing_accept_state_line() {
    assert_eq!(parse_err("*0\ns0\n"), ParseError::MissingAcceptState);
}

#[test]
fn missing_reject_state_line() {
    assert_eq!(parse_err("*0\ns0\nacc\n"), ParseError::MissingRejectState);
}

#[test]
fn unmarked_tape_line_misses_the_cursor() {
    assert_eq!(parse_err("0 1\ns0\nacc\nrej\n"), ParseError::MissingCursorMarker);
}

#[test]
fn truncated_transition_line_in_full_description() {
    assert_eq!(parse_err("*0\ns0\nacc\nrej\ns0 0 0\n"), ParseError::TruncatedTransition);
}

#[test]
fn blank_line_among_transitions_is_truncated() {
    assert_eq!(parse_err("*0\ns0\nacc\nrej\ns0 0 0 * acc\n\ns0 1 1 R acc\n"), ParseError::TruncatedTransition);
}

#[test]
fn parse_error_messages_name_the_section() {
    assert_eq!(ParseError::MissingTape.message(), "No tape");
    assert_eq!(ParseError::MissingInitState.message(), "No init state");
    assert_eq!(ParseError::MissingAcceptState.message(), "No accept states");
    assert_eq!(ParseError::MissingRejectState.message(), "No reject states");
    assert_eq!(ParseError::MissingCursorMarker.message(), "No cursor marker on the tape line");
    assert_eq!(
        ParseError::TruncatedTransition.message(),
        "Transition line with fewer than 5 tokens"
    );
}

#[test]
fn carriage_returns_are_whitespace() {
    let m = machine("*0 1\r\ns0\r\nacc\r\nrej\r\ns0 0 1 R acc\r\n");
    assert_eq!(m.tape, toks(&["0", "1"]));
    assert_eq!(m.transitions[0].rules[0].action.direction, b"R".to_vec());
}
