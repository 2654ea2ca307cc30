//! Runs generated programs under a small interpreter of the target tape
//! language: an unbounded tape of integer cells with a movable head, a
//! `symbol` register that reads and writes the scanned cell, `state` and
//! `msg` registers, `while`/`if` control flow, and character output.

use std::collections::HashMap;
use turingc::emit::compile;
use turingc::machine::TuringMachine;

enum Stmt {
    SetSymbol(u64),
    SetState(u64),
    SetMsg(u64),
    MoveLeft,
    MoveRight,
    Output,
    While(u64, u64, Vec<Stmt>),
    IfState(u64, Vec<Stmt>, Vec<Stmt>),
    IfSymbol(u64, Vec<Stmt>, Vec<Stmt>),
}

fn num(s: &str) -> u64 {
    s.trim().parse().unwrap()
}

fn parse_block(lines: &[&str], pos: &mut usize) -> Vec<Stmt> {
    let mut stmts = Vec::new();
    while *pos < lines.len() {
        let line = lines[*pos].trim();
        if line == "}" || line == "} else {" {
            break;
        }
        *pos += 1;
        if line.is_empty() {
            continue;
        }
        if line == "move_left" {
            stmts.push(Stmt::MoveLeft);
        } else if line == "move_right" {
            stmts.push(Stmt::MoveRight);
        } else if line == "output ( msg )" {
            stmts.push(Stmt::Output);
        } else if let Some(rest) = line.strip_prefix("symbol = ") {
            stmts.push(Stmt::SetSymbol(num(rest)));
        } else if let Some(rest) = line.strip_prefix("state = ") {
            stmts.push(Stmt::SetState(num(rest)));
        } else if let Some(rest) = line.strip_prefix("msg = ") {
            stmts.push(Stmt::SetMsg(num(rest)));
        } else if let Some(rest) = line.strip_prefix("while state != ") {
            let rest = rest.strip_suffix(" {").unwrap();
            let mut parts = rest.split(" && state != ");
            let a = num(parts.next().unwrap());
            let b = num(parts.next().unwrap());
            let body = parse_block(lines, pos);
            assert_eq!(lines[*pos].trim(), "}");
            *pos += 1;
            stmts.push(Stmt::While(a, b, body));
        } else if line.starts_with("if state == ") || line.starts_with("if symbol == ") {
            let on_state = line.starts_with("if state == ");
            let rest = if on_state {
                line.strip_prefix("if state == ").unwrap()
            } else {
                line.strip_prefix("if symbol == ").unwrap()
            };
            let n = num(rest.strip_suffix(" {").unwrap());
            let then_body = parse_block(lines, pos);
            let mut else_body = Vec::new();
            if lines[*pos].trim() == "} else {" {
                *pos += 1;
                else_body = parse_block(lines, pos);
            }
            assert_eq!(lines[*pos].trim(), "}");
            *pos += 1;
            stmts.push(if on_state {
                Stmt::IfState(n, then_body, else_body)
            } else {
                Stmt::IfSymbol(n, then_body, else_body)
            });
        } else {
            panic!("unrecognized generated line: {:?}", line);
        }
    }
    stmts
}

struct Runtime {
    tape: HashMap<i64, u64>,
    head: i64,
    state: u64,
    msg: u64,
    out: String,
    budget: u64,
}

fn exec(stmts: &[Stmt], rt: &mut Runtime) -> bool {
    for stmt in stmts {
        if rt.budget == 0 {
            return false;
        }
        rt.budget -= 1;
        match stmt {
            Stmt::SetSymbol(n) => {
                rt.tape.insert(rt.head, *n);
            },
            Stmt::SetState(n) => rt.state = *n,
            Stmt::SetMsg(n) => rt.msg = *n,
            Stmt::MoveLeft => rt.head -= 1,
            Stmt::MoveRight => rt.head += 1,
            Stmt::Output => {
                let c = u8::try_from(rt.msg).unwrap() as char;
                rt.out.push(c);
            },
            Stmt::While(a, b, body) => {
                while rt.state != *a && rt.state != *b {
                    if !exec(body, rt) {
                        return false;
                    }
                    if rt.budget == 0 {
                        return false;
                    }
                    rt.budget -= 1;
                }
            },
            Stmt::IfState(n, then_body, else_body) => {
                let taken = if rt.state == *n { then_body } else { else_body };
                if !exec(taken, rt) {
                    return false;
                }
            },
            Stmt::IfSymbol(n, then_body, else_body) => {
                let scanned = *rt.tape.get(&rt.head).unwrap_or(&0);
                let taken = if scanned == *n { then_body } else { else_body };
                if !exec(taken, rt) {
                    return false;
                }
            },
        }
    }
    true
}

/// Runs the generated program; `None` when it does not halt within the
/// step budget.
fn run(code: &str) -> Option<String> {
    let lines: Vec<&str> = code.split('\n').collect();
    let mut pos = 0;
    let program = parse_block(&lines, &mut pos);
    assert_eq!(pos, lines.len(), "unbalanced braces in generated code");
    let mut rt = Runtime {
        tape: HashMap::new(),
        head: 0,
        state: 0,
        msg: 0,
        out: String::new(),
        budget: 100_000,
    };
    if exec(&program, &mut rt) {
        Some(rt.out)
    } else {
        None
    }
}

fn compiled(src: &str) -> String {
    let m = TuringMachine::from_text(&src.as_bytes().to_vec()).unwrap();
    compile(&m).unwrap()
}

#[test]
fn accepting_machine_outputs_y() {
    let code = compiled("*0\ns0\nacc\nrej\ns0 0 0 * acc\n");
    assert_eq!(run(&code), Some(String::from("Y\n")));
}

#[test]
fn rejecting_machine_outputs_n() {
    let code = compiled("*0\ns0\nacc\nrej\ns0 0 0 * rej\n");
    assert_eq!(run(&code), Some(String::from("N\n")));
}

#[test]
fn machine_without_an_arm_for_the_initial_state_never_halts() {
    // The outer dispatcher has no arm matching the initial state, so the
    // loop spins with state and symbol unchanged.
    let code = compiled("*0\ns0\nacc\nrej\ns1 0 0 * acc\n");
    assert_eq!(run(&code), None);
}

#[test]
fn machine_walking_the_tape_accepts() {
    // Scans right over two cells, rewriting them, then accepts on the
    // second cell's new content.
    let code = compiled("*0 1\ns0\nacc\nrej\ns0 0 1 R s1\ns1 1 0 * s2\ns2 0 * * acc\n");
    assert_eq!(run(&code), Some(String::from("Y\n")));
}

#[test]
fn undefined_symbol_under_a_known_state_never_halts() {
    // The state has an arm, but no inner arm matches the scanned symbol:
    // the dispatcher falls through and nothing changes.
    let code = compiled("*1 0\ns0\nacc\nrej\ns0 0 0 R acc\n");
    assert_eq!(run(&code), None);
}
