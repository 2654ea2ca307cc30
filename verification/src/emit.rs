//! The code generator: renders a machine description as a program of the
//! target tape language. The generated text loads the tape cell by cell,
//! repositions the head, runs a loop dispatching on the encoded state and
//! the scanned symbol, and finally prints `Y` or `N` and a newline.

use vstd::prelude::*;
use crate::machine::Rule;
use crate::machine::RuleV;
use crate::machine::StateRules;
use crate::machine::StateRulesV;
use crate::machine::TuringMachine;
use crate::machine::TuringMachineV;
use crate::machine::is_wildcard;
use crate::machine::wildcard;
use crate::encode::index_of;
use crate::encode::pos_of;
use crate::encode::state_list;
use crate::encode::symbol_list;

verus! {

/// What stops code generation: a direction token other than `L`, `R` or
/// the `*` wildcard, or a transition whose next state has no encoding (it
/// is none of the distinguished states and has no outgoing transitions).
#[derive(Clone, Copy, Debug, PartialEq, Eq, Structural)]
pub enum CompileError {
    InvalidDirection,
    UnknownState,
}

impl CompileError {
    /// The diagnostic text of this error.
    pub open spec fn message_spec(self) -> Seq<char> {
        match self {
            CompileError::InvalidDirection => "Invalid direction"@,
            CompileError::UnknownState => "Transition into a state with no encoding"@,
        }
    }

    /// A short diagnostic naming what stopped generation.
    pub fn message(&self) -> (r: String)
        ensures
            r@ == self.message_spec(),
    {
        match self {
            CompileError::InvalidDirection => String::from_str("Invalid direction"),
            CompileError::UnknownState => String::from_str(
                "Transition into a state with no encoding",
            ),
        }
    }
}

/// The character of one decimal digit.
pub open spec fn digit_char(d: int) -> Seq<char> {
    if d == 0 {
        "0"@
    } else if d == 1 {
        "1"@
    } else if d == 2 {
        "2"@
    } else if d == 3 {
        "3"@
    } else if d == 4 {
        "4"@
    } else if d == 5 {
        "5"@
    } else if d == 6 {
        "6"@
    } else if d == 7 {
        "7"@
    } else if d == 8 {
        "8"@
    } else {
        "9"@
    }
}

/// The usual decimal rendering of `n`, most significant digit first, with
/// no leading zeros.
pub open spec fn dec_str(n: nat) -> Seq<char>
    decreases n,
{
    if n < 10 {
        digit_char(n as int)
    } else {
        dec_str(n / 10) + digit_char((n % 10) as int)
    }
}

fn digit_lit(d: usize) -> (r: &'static str)
    requires
        d < 10,
    ensures
        r@ == digit_char(d as int),
{
    if d == 0 {
        "0"
    } else if d == 1 {
        "1"
    } else if d == 2 {
        "2"
    } else if d == 3 {
        "3"
    } else if d == 4 {
        "4"
    } else if d == 5 {
        "5"
    } else if d == 6 {
        "6"
    } else if d == 7 {
        "7"
    } else if d == 8 {
        "8"
    } else {
        "9"
    }
}

/// Append the decimal rendering of `n`.
fn push_num(out: &mut String, n: usize)
    ensures
        final(out)@ == old(out)@ + dec_str(n as nat),
    decreases n,
{
    if n >= 10 {
        push_num(out, n / 10);
        out.append(digit_lit(n % 10));
        proof {
            assert(out@ =~= old(out)@ + dec_str(n as nat));
        }
    } else {
        out.append(digit_lit(n));
    }
}

/// The instruction emitted for one direction token, or the error for an
/// unrecognized token.
pub open spec fn dir_text(d: Seq<u8>) -> Result<Seq<char>, CompileError> {
    if d == seq![76u8] {  // "L"
        Ok("move_left\n"@)
    } else if d == seq![82u8] {  // "R"
        Ok("move_right\n"@)
    } else if d == wildcard() {
        Ok(Seq::<char>::empty())
    } else {
        Err(CompileError::InvalidDirection)
    }
}

/// The opening of one inner arm: the `if` test on the encoded matched
/// symbol and the arm's body — the optional write into the cell, the
/// optional head move, and the assignment of the encoded next state.
pub open spec fn arm_head_text(
    r: RuleV,
    states: Seq<Seq<u8>>,
    symbols: Seq<Seq<u8>>,
) -> Result<Seq<char>, CompileError> {
    if dir_text(r.action.direction) is Err {
        Err(CompileError::InvalidDirection)
    } else if !states.contains(r.action.next_state) {
        Err(CompileError::UnknownState)
    } else {
        Ok(
            "if symbol == "@ + dec_str(pos_of(symbols, r.symbol)) + " {\n"@ + (
            if r.action.write_symbol == wildcard() {
                Seq::<char>::empty()
            } else {
                "symbol = "@ + dec_str(pos_of(symbols, r.action.write_symbol)) + "\n"@
            }) + dir_text(r.action.direction)->Ok_0 + "state = "@ + dec_str(
                pos_of(states, r.action.next_state),
            ) + "\n"@,
        )
    }
}

/// The inner dispatcher text for the rules from index `i` on: an
/// `if`/`else` chain with one arm per rule, in table order.
pub open spec fn symbol_chain_text(
    rules: Seq<RuleV>,
    i: int,
    states: Seq<Seq<u8>>,
    symbols: Seq<Seq<u8>>,
) -> Result<Seq<char>, CompileError>
    decreases rules.len() - i,
{
    if i < 0 || i >= rules.len() {
        Ok(Seq::<char>::empty())
    } else {
        match arm_head_text(rules[i], states, symbols) {
            Err(e) => Err(e),
            Ok(head) => {
                if i == rules.len() - 1 {
                    Ok(head + "}\n"@)
                } else {
                    match symbol_chain_text(rules, i + 1, states, symbols) {
                        Err(e) => Err(e),
                        Ok(rest) => Ok(head + "} else {\n"@ + rest + "}\n"@),
                    }
                }
            },
        }
    }
}

/// The opening of one outer arm: the `if` test on the encoded state, then
/// the whole inner dispatcher for that state.
pub open spec fn state_arm_head_text(
    e: StateRulesV,
    states: Seq<Seq<u8>>,
    symbols: Seq<Seq<u8>>,
) -> Result<Seq<char>, CompileError> {
    match symbol_chain_text(e.rules, 0, states, symbols) {
        Err(err) => Err(err),
        Ok(inner) => Ok("if state == "@ + dec_str(pos_of(states, e.state)) + " {\n"@ + inner),
    }
}

/// The outer dispatcher text for the table entries from index `i` on: an
/// `if`/`else` chain with one arm per state, in table order.
pub open spec fn state_chain_text(
    table: Seq<StateRulesV>,
    i: int,
    states: Seq<Seq<u8>>,
    symbols: Seq<Seq<u8>>,
) -> Result<Seq<char>, CompileError>
    decreases table.len() - i,
{
    if i < 0 || i >= table.len() {
        Ok(Seq::<char>::empty())
    } else {
        match state_arm_head_text(table[i], states, symbols) {
            Err(e) => Err(e),
            Ok(head) => {
                if i == table.len() - 1 {
                    Ok(head + "}\n"@)
                } else {
                    match state_chain_text(table, i + 1, states, symbols) {
                        Err(e) => Err(e),
                        Ok(rest) => Ok(head + "} else {\n"@ + rest + "}\n"@),
                    }
                }
            },
        }
    }
}

/// The tape-loading prologue: for each cell, left to right, set the symbol
/// register to the cell's encoded symbol and step right.
pub open spec fn tape_load_text(tape: Seq<Seq<u8>>, symbols: Seq<Seq<u8>>) -> Seq<char>
    decreases tape.len(),
{
    if tape.len() == 0 {
        Seq::<char>::empty()
    } else {
        tape_load_text(tape.drop_last(), symbols) + "\nsymbol = "@ + dec_str(
            pos_of(symbols, tape.last()),
        ) + "\nmove_right"@
    }
}

/// `s` repeated `n` times.
pub open spec fn repeat_text(n: nat, s: Seq<char>) -> Seq<char>
    decreases n,
{
    if n == 0 {
        Seq::<char>::empty()
    } else {
        repeat_text((n - 1) as nat, s) + s
    }
}

/// The epilogue after the main loop: print `Y` (89) when the machine
/// halted in the accept state, `N` (78) otherwise, then a newline (10).
pub open spec fn halt_text(states: Seq<Seq<u8>>, accept: Seq<u8>) -> Seq<char> {
    "\nif state == "@ + dec_str(pos_of(states, accept))
        + " {\nmsg = 89\noutput ( msg )\n} else {\nmsg = 78\noutput ( msg )\n}\nmsg = 10\noutput ( msg )"@
}

/// The whole generated program for a machine description, or the first
/// error found while generating its dispatcher: the tape-loading prologue,
/// the head repositioning (all the way left, then right to the marked
/// cell), the main loop over the dispatcher, and the verdict epilogue.
pub open spec fn program_text(m: TuringMachineV) -> Result<Seq<char>, CompileError> {
    let states = state_list(m);
    let symbols = symbol_list(m);
    match state_chain_text(m.transitions, 0, states, symbols) {
        Err(e) => Err(e),
        Ok(disp) => Ok(
            tape_load_text(m.tape, symbols) + repeat_text(m.tape.len(), "\nmove_left"@)
                + repeat_text(m.cursor, "\nmove_right"@) + "\nstate = "@ + dec_str(
                pos_of(states, m.init_state),
            ) + "\nwhile state != "@ + dec_str(pos_of(states, m.accept_state)) + " && state != "@
                + dec_str(pos_of(states, m.reject_state)) + " {"@ + "\n"@ + disp + "\n}"@
                + halt_text(states, m.accept_state),
        ),
    }
}

/// One inner dispatcher arm chain, from rule index `from` on. An empty
/// chain is the empty string; an unrecognized direction token or an
/// unencodable next state is the first error, in table order.
pub fn program_transition_fucntion_symbol(
    rules: &Vec<Rule>,
    from: usize,
    symbol_map: &Vec<Vec<u8>>,
    state_map: &Vec<Vec<u8>>,
) -> (r: Result<String, CompileError>)
    ensures
        match r {
            Ok(s) => symbol_chain_text(
                rules.deep_view(),
                from as int,
                state_map.deep_view(),
                symbol_map.deep_view(),
            ) == Ok::<Seq<char>, CompileError>(s@),
            Err(e) => symbol_chain_text(
                rules.deep_view(),
                from as int,
                state_map.deep_view(),
                symbol_map.deep_view(),
            ) == Err::<Seq<char>, CompileError>(e),
        },
    decreases rules@.len() - from,
{
    broadcast use crate::machine::lemma_vec_u8_deep_view;

    let ghost rv = rules.deep_view();
    let ghost sts = state_map.deep_view();
    let ghost sys = symbol_map.deep_view();
    let mut code = String::from_str("");
    proof {
        reveal_strlit("");
        assert(code@ =~= Seq::<char>::empty());
    }
    if from >= rules.len() {
        return Ok(code);
    }
    let rule = &rules[from];
    proof {
        assert(rv[from as int] == rules@[from as int].deep_view());
    }
    let ghost rl = rv[from as int];
    code.append("if symbol == ");
    push_num(&mut code, index_of(symbol_map, &rule.symbol));
    code.append(" {\n");
    if !is_wildcard(&rule.action.write_symbol) {
        code.append("symbol = ");
        push_num(&mut code, index_of(symbol_map, &rule.action.write_symbol));
        code.append("\n");
    }
    let d = &rule.action.direction;
    let ghost dv = rl.action.direction;
    if d.len() == 1 && d[0] == 76 {
        proof {
            assert(dv =~= seq![76u8]);
        }
        code.append("move_left\n");
    } else if d.len() == 1 && d[0] == 82 {
        proof {
            assert(dv =~= seq![82u8]);
        }
        code.append("move_right\n");
    } else if d.len() == 1 && d[0] == 42 {
        proof {
            assert(dv =~= wildcard());
        }
    } else {
        proof {
            if dv == seq![76u8] {
                assert(dv.len() == 1 && dv[0] == 76u8);
            }
            if dv == seq![82u8] {
                assert(dv.len() == 1 && dv[0] == 82u8);
            }
            if dv == wildcard() {
                assert(dv.len() == 1 && dv[0] == 42u8);
            }
            assert(dir_text(dv) is Err);
        }
        return Err(CompileError::InvalidDirection);
    }
    let np = index_of(state_map, &rule.action.next_state);
    proof {
        crate::encode::lemma_pos_of(sts, rl.action.next_state);
    }
    if np == state_map.len() {
        proof {
            assert(!sts.contains(rl.action.next_state));
        }
        return Err(CompileError::UnknownState);
    }
    code.append("state = ");
    push_num(&mut code, np);
    code.append("\n");
    proof {
        assert(code@ =~= arm_head_text(rl, sts, sys)->Ok_0);
    }
    if from + 1 == rules.len() {
        code.append("}\n");
        proof {
            assert(symbol_chain_text(rv, from as int, sts, sys)
                == Ok::<Seq<char>, CompileError>(arm_head_text(rl, sts, sys)->Ok_0 + "}\n"@));
            assert(code@ =~= arm_head_text(rl, sts, sys)->Ok_0 + "}\n"@);
        }
        Ok(code)
    } else {
        code.append("} else {\n");
        match program_transition_fucntion_symbol(rules, from + 1, symbol_map, state_map) {
            Err(e) => Err(e),
            Ok(rest) => {
                code.append(rest.as_str());
                code.append("}\n");
                proof {
                    assert(code@ =~= arm_head_text(rl, sts, sys)->Ok_0 + "} else {\n"@ + rest@
                        + "}\n"@);
                }
                Ok(code)
            },
        }
    }
}

/// One outer dispatcher arm chain, from table index `from` on: each arm
/// tests the encoded state and holds the state's whole inner dispatcher.
pub fn program_transition_function_state(
    table: &Vec<StateRules>,
    from: usize,
    symbol_map: &Vec<Vec<u8>>,
    state_map: &Vec<Vec<u8>>,
) -> (r: Result<String, CompileError>)
    ensures
        match r {
            Ok(s) => state_chain_text(
                table.deep_view(),
                from as int,
                state_map.deep_view(),
                symbol_map.deep_view(),
            ) == Ok::<Seq<char>, CompileError>(s@),
            Err(e) => state_chain_text(
                table.deep_view(),
                from as int,
                state_map.deep_view(),
                symbol_map.deep_view(),
            ) == Err::<Seq<char>, CompileError>(e),
        },
    decreases table@.len() - from,
{
    let ghost tv = table.deep_view();
    let ghost sts = state_map.deep_view();
    let ghost sys = symbol_map.deep_view();
    let mut code = String::from_str("");
    proof {
        reveal_strlit("");
        assert(code@ =~= Seq::<char>::empty());
    }
    if from >= table.len() {
        return Ok(code);
    }
    let entry = &table[from];
    proof {
        assert(tv[from as int] == table@[from as int].deep_view());
    }
    let ghost ev = tv[from as int];
    code.append("if state == ");
    push_num(&mut code, index_of(state_map, &entry.state));
    code.append(" {\n");
    let inner = match program_transition_fucntion_symbol(&entry.rules, 0, symbol_map, state_map) {
        Ok(s) => s,
        Err(e) => {
            return Err(e);
        },
    };
    code.append(inner.as_str());
    proof {
        assert(code@ =~= state_arm_head_text(ev, sts, sys)->Ok_0);
    }
    if from + 1 == table.len() {
        code.append("}\n");
        proof {
            assert(code@ =~= state_arm_head_text(ev, sts, sys)->Ok_0 + "}\n"@);
        }
        Ok(code)
    } else {
        code.append("} else {\n");
        match program_transition_function_state(table, from + 1, symbol_map, state_map) {
            Err(e) => Err(e),
            Ok(rest) => {
                code.append(rest.as_str());
                code.append("}\n");
                proof {
                    assert(code@ =~= state_arm_head_text(ev, sts, sys)->Ok_0 + "} else {\n"@
                        + rest@ + "}\n"@);
                }
                Ok(code)
            },
        }
    }
}

impl TuringMachine {
    /// The whole transition dispatcher: the nested conditional chains that
    /// implement this machine's transition function over the given state
    /// and symbol encodings.
    pub fn program_transition_function(
        &self,
        state_map: &Vec<Vec<u8>>,
        symbol_map: &Vec<Vec<u8>>,
    ) -> (r: Result<String, CompileError>)
        ensures
            match r {
                Ok(s) => state_chain_text(
                    self.deep_view().transitions,
                    0,
                    state_map.deep_view(),
                    symbol_map.deep_view(),
                ) == Ok::<Seq<char>, CompileError>(s@),
                Err(e) => state_chain_text(
                    self.deep_view().transitions,
                    0,
                    state_map.deep_view(),
                    symbol_map.deep_view(),
                ) == Err::<Seq<char>, CompileError>(e),
            },
    {
        program_transition_function_state(&self.transitions, 0, symbol_map, state_map)
    }
}

/// Generate the whole target program for a machine description: derive the
/// encodings, emit the tape and head prologue, the main loop around the
/// dispatcher, and the verdict epilogue. Fails exactly when the dispatcher
/// does: on the first unrecognized direction token or unencodable next
/// state, in table order.
pub fn compile(m: &TuringMachine) -> (r: Result<String, CompileError>)
    ensures
        match r {
            Ok(s) => program_text(m.deep_view()) == Ok::<Seq<char>, CompileError>(s@),
            Err(e) => program_text(m.deep_view()) == Err::<Seq<char>, CompileError>(e),
        },
{
    broadcast use crate::machine::lemma_vec_u8_deep_view;

    let ghost mv = m.deep_view();
    let states = m.list_states();
    let symbols = m.list_symbols();
    let ghost sts = state_list(mv);
    let ghost sys = symbol_list(mv);
    let mut code = String::from_str("");
    proof {
        reveal_strlit("");
        assert(code@ =~= Seq::<char>::empty());
    }
    let n = m.tape.len();
    let mut i: usize = 0;
    while i < n
        invariant
            n == m.tape@.len(),
            mv == m.deep_view(),
            sys == symbol_list(mv),
            symbols.deep_view() == sys,
            0 <= i <= n,
            code@ == tape_load_text(mv.tape.take(i as int), sys),
        decreases n - i,
    {
        code.append("\nsymbol = ");
        push_num(&mut code, index_of(&symbols, &m.tape[i]));
        code.append("\nmove_right");
        proof {
            assert(mv.tape[i as int] == m.tape@[i as int]@);
            assert(mv.tape.take(i + 1).drop_last() =~= mv.tape.take(i as int));
            assert(mv.tape.take(i + 1).last() == mv.tape[i as int]);
            assert(code@ =~= tape_load_text(mv.tape.take(i + 1), sys));
        }
        i += 1;
    }
    proof {
        assert(mv.tape.take(n as int) =~= mv.tape);
    }
    let ghost after_load = code@;
    let mut j: usize = 0;
    while j < n
        invariant
            n == m.tape@.len(),
            mv == m.deep_view(),
            after_load == tape_load_text(mv.tape, symbol_list(mv)),
            0 <= j <= n,
            code@ == after_load + repeat_text(j as nat, "\nmove_left"@),
        decreases n - j,
    {
        code.append("\nmove_left");
        proof {
            assert(code@ =~= after_load + repeat_text((j + 1) as nat, "\nmove_left"@));
        }
        j += 1;
    }
    let ghost after_left = code@;
    let cn = m.cursor;
    let mut k: usize = 0;
    while k < cn
        invariant
            cn == m.cursor,
            after_left == tape_load_text(mv.tape, symbol_list(mv)) + repeat_text(
                mv.tape.len(),
                "\nmove_left"@,
            ),
            0 <= k <= cn,
            code@ == after_left + repeat_text(k as nat, "\nmove_right"@),
        decreases cn - k,
    {
        code.append("\nmove_right");
        proof {
            assert(code@ =~= after_left + repeat_text((k + 1) as nat, "\nmove_right"@));
        }
        k += 1;
    }
    proof {
        assert(mv.tape.len() == n as nat);
        assert(mv.cursor == cn as nat);
    }
    code.append("\nstate = ");
    push_num(&mut code, index_of(&states, &m.init_state));
    code.append("\nwhile state != ");
    push_num(&mut code, index_of(&states, &m.accept_state));
    code.append(" && state != ");
    push_num(&mut code, index_of(&states, &m.reject_state));
    code.append(" {");
    code.append("\n");
    let disp = match m.program_transition_function(&states, &symbols) {
        Ok(s) => s,
        Err(e) => {
            return Err(e);
        },
    };
    code.append(disp.as_str());
    code.append("\n}");
    code.append("\nif state == ");
    push_num(&mut code, index_of(&states, &m.accept_state));
    code.append(
        " {\nmsg = 89\noutput ( msg )\n} else {\nmsg = 78\noutput ( msg )\n}\nmsg = 10\noutput ( msg )",
    );
    proof {
        assert(mv.init_state == m.init_state@);
        assert(mv.accept_state == m.accept_state@);
        assert(mv.reject_state == m.reject_state@);
        assert(code@ =~= program_text(mv)->Ok_0);
    }
    Ok(code)
}

} // verus!
