use turingc::emit::CompileError;
use turingc::emit::compile;
use turingc::machine::TuringMachine;

fn machine(src: &str) -> TuringMachine {
    TuringMachine::from_text(&src.as_bytes().to_vec()).unwrap()
}

fn compiled(src: &str) -> String {
    compile(&machine(src)).unwrap()
}

#[test]
fn self_loop_to_accept_machine_compiles_exactly() {
    // One state, one symbol, one transition into the accept state: one
    // outer arm holding one inner arm, ending in the accept-output branch.
    let code = compiled("*0\ns0\nacc\nrej\ns0 0 0 * acc\n");
    let expected = "\nsymbol = 0\nmove_right\
                    \nmove_left\
                    \nstate = 0\
                    \nwhile state != 1 && state != 2 {\
                    \nif state == 0 {\nif symbol == 0 {\nsymbol = 0\nstate = 1\n}\n}\n\
                    \n}\
                    \nif state == 1 {\nmsg = 89\noutput ( msg )\n} else {\nmsg = 78\noutput ( msg )\n}\nmsg = 10\noutput ( msg )";
    assert_eq!(code, expected);
}

#[test]
fn one_outer_and_one_inner_arm_for_the_single_transition() {
    let code = compiled("*0\ns0\nacc\nrej\ns0 0 0 * acc\n");
    // One outer dispatcher arm plus the verdict test of the epilogue.
    assert_eq!(code.matches("if state == ").count(), 2);
    assert_eq!(code.matches("if symbol == ").count(), 1);
}

#[test]
fn one_outer_arm_per_state_one_inner_arm_per_symbol() {
    let code = compiled("*0 1\ns0\nacc\nrej\ns0 0 1 R s1\ns0 1 0 R s1\ns1 0 0 L acc\n");
    assert_eq!(code.matches("if state == ").count(), 2 + 1);
    assert_eq!(code.matches("if symbol == ").count(), 3);
}

#[test]
fn empty_transition_table_compiles_to_an_empty_dispatcher() {
    let code = compiled("*0\ns0\nacc\nrej\n");
    let expected = "\nsymbol = 0\nmove_right\
                    \nmove_left\
                    \nstate = 0\
                    \nwhile state != 1 && state != 2 {\
                    \n\
                    \n}\
                    \nif state == 1 {\nmsg = 89\noutput ( msg )\n} else {\nmsg = 78\noutput ( msg )\n}\nmsg = 10\noutput ( msg )";
    assert_eq!(code, expected);
}

#[test]
fn single_cell_tape_with_marked_cell_nets_zero_displacement() {
    // One load (which steps right), one step back left, and no rightward
    // cursor steps: the head ends where it started, on the only cell.
    let code = compiled("*0\ns0\nacc\nrej\n");
    assert!(code.starts_with("\nsymbol = 0\nmove_right\nmove_left\nstate = "));
    let prologue = &code[..code.find("state = ").unwrap()];
    assert_eq!(prologue.matches("move_left").count(), 1);
    assert_eq!(prologue.matches("move_right").count(), 1);
}

#[test]
fn cursor_offset_emits_one_move_right_per_cell() {
    let code = compiled("a *b c\ns0\nacc\nrej\n");
    assert!(code.starts_with(
        "\nsymbol = 0\nmove_right\nsymbol = 1\nmove_right\nsymbol = 2\nmove_right\
         \nmove_left\nmove_left\nmove_left\
         \nmove_right\
         \nstate = "
    ));
}

#[test]
fn two_digit_encodings_are_rendered_in_decimal() {
    let mut src = String::from("*0\ns0\nacc\nrej\ns0 0 * * t8\n");
    for i in 0..9 {
        src.push_str(&format!("t{} 0 * * acc\n", i));
    }
    // States in first-seen order: s0, acc, rej, then t0..t8; t8 encodes as 11.
    let code = compiled(&src);
    assert!(code.contains("if state == 0 {\nif symbol == 0 {\nstate = 11\n}\n}"));
    assert!(code.contains("if state == 11 {\nif symbol == 0 {\nstate = 1\n}\n}"));
}

#[test]
fn wildcard_write_emits_no_symbol_assignment() {
    let code = compiled("*0\ns0\nacc\nrej\ns0 0 * R acc\n");
    assert!(code.contains("if symbol == 0 {\nmove_right\nstate = 1\n}"));
    assert!(!code.contains("symbol = 0\nstate"));
}

#[test]
fn directions_left_right_and_stay() {
    let code = compiled("*0 1\ns0\nacc\nrej\ns0 0 * R s1\ns0 1 * L s1\ns1 0 * * acc\n");
    assert!(code.contains("if symbol == 0 {\nmove_right\nstate = 3\n}"));
    assert!(code.contains("if symbol == 1 {\nmove_left\nstate = 3\n}"));
    assert!(code.contains("if state == 3 {\nif symbol == 0 {\nstate = 1\n}\n}"));
}

#[test]
fn unrecognized_direction_token_stops_generation() {
    let m = machine("*0\ns0\nacc\nrej\ns0 0 0 X rej\n");
    assert_eq!(compile(&m).unwrap_err(), CompileError::InvalidDirection);
}

#[test]
fn transition_into_a_state_without_encoding_stops_generation() {
    let m = machine("*0\ns0\nacc\nrej\ns0 0 0 * zzz\n");
    assert_eq!(compile(&m).unwrap_err(), CompileError::UnknownState);
}

#[test]
fn bad_direction_is_reported_before_the_unknown_state_of_the_same_rule() {
    let m = machine("*0\ns0\nacc\nrej\ns0 0 0 X zzz\n");
    assert_eq!(compile(&m).unwrap_err(), CompileError::InvalidDirection);
}

#[test]
fn compile_error_messages() {
    assert_eq!(CompileError::InvalidDirection.message(), "Invalid direction");
    assert_eq!(
        CompileError::UnknownState.message(),
        "Transition into a state with no encoding"
    );
}

#[test]
fn compiling_the_same_description_twice_yields_the_same_program() {
    let src = "*0 1 0\ns0\nacc\nrej\ns0 0 1 R s1\ns1 1 0 L s0\ns1 0 * * acc\n";
    let first = compile(&machine(src)).unwrap();
    let second = compile(&machine(src)).unwrap();
    assert_eq!(first, second);
}
