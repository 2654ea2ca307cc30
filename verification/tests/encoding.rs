use turingc::machine::TuringMachine;

fn names(words: &[&str]) -> Vec<Vec<u8>> {
    words.iter().map(|w| w.as_bytes().to_vec()).collect()
}

fn machine(src: &str) -> TuringMachine {
    TuringMachine::from_text(&src.as_bytes().to_vec()).unwrap()
}

#[test]
fn states_list_distinguished_states_then_table_keys() {
    let m = machine("*0\ns0\nacc\nrej\ns1 0 0 R s0\ns0 0 0 L s1\n");
    assert_eq!(m.list_states(), names(&["s0", "acc", "rej", "s1"]));
}

#[test]
fn states_list_each_state_once() {
    let m = machine("*0\ns0\ns0\ns0\ns0 0 0 * s0\n");
    assert_eq!(m.list_states(), names(&["s0"]));
}

#[test]
fn states_list_without_transitions_is_the_three_distinguished() {
    let m = machine("*0\ns0\nacc\nrej\n");
    assert_eq!(m.list_states(), names(&["s0", "acc", "rej"]));
}

#[test]
fn symbols_cover_tape_cells_match_keys_and_write_targets() {
    let m = machine("*a b\ns0\nacc\nrej\ns0 c d R acc\n");
    assert_eq!(m.list_symbols(), names(&["a", "b", "c", "d"]));
}

#[test]
fn symbols_skip_the_write_wildcard() {
    let m = machine("*a\ns0\nacc\nrej\ns0 c * R acc\n");
    assert_eq!(m.list_symbols(), names(&["a", "c"]));
}

#[test]
fn symbols_listed_once_in_first_seen_order() {
    let m = machine("*a b a\ns0\nacc\nrej\ns0 b a R acc\ns0 a c L rej\n");
    assert_eq!(m.list_symbols(), names(&["a", "b", "c"]));
}
