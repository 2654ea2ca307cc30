//! Laws of the code generator: the generated dispatcher decomposes into
//! exactly one conditional arm per transition-table entry at each of its
//! two levels, and generation is a function of the machine description
//! alone.

use vstd::prelude::*;
use crate::machine::RuleV;
use crate::machine::StateRulesV;
use crate::machine::TuringMachineV;
use crate::encode::state_list;
use crate::encode::symbol_list;
use crate::emit::arm_head_text;
use crate::emit::dir_text;
use crate::emit::program_text;
use crate::emit::state_arm_head_text;
use crate::emit::state_chain_text;
use crate::emit::symbol_chain_text;

verus! {

/// An `if`/`else` chain assembled from the given arm openings: each arm
/// but the last continues with `} else {` and the rest of the chain, and
/// every arm is closed by `}`.
pub open spec fn chain_glue(arms: Seq<Seq<char>>) -> Seq<char>
    decreases arms.len(),
{
    if arms.len() == 0 {
        Seq::<char>::empty()
    } else if arms.len() == 1 {
        arms[0] + "}\n"@
    } else {
        arms[0] + "} else {\n"@ + chain_glue(arms.drop_first()) + "}\n"@
    }
}

/// The outer dispatcher's arm openings: one per table entry, in order.
pub open spec fn outer_arm_texts(
    table: Seq<StateRulesV>,
    states: Seq<Seq<u8>>,
    symbols: Seq<Seq<u8>>,
) -> Seq<Seq<char>> {
    Seq::new(table.len(), |i: int| state_arm_head_text(table[i], states, symbols)->Ok_0)
}

/// An inner dispatcher's arm openings: one per rule of the state, in
/// order.
pub open spec fn inner_arm_texts(
    rules: Seq<RuleV>,
    states: Seq<Seq<u8>>,
    symbols: Seq<Seq<u8>>,
) -> Seq<Seq<char>> {
    Seq::new(rules.len(), |i: int| arm_head_text(rules[i], states, symbols)->Ok_0)
}

proof fn lemma_state_chain_decomp(
    table: Seq<StateRulesV>,
    from: int,
    states: Seq<Seq<u8>>,
    symbols: Seq<Seq<u8>>,
)
    requires
        0 <= from <= table.len(),
        state_chain_text(table, from, states, symbols) is Ok,
    ensures
        state_chain_text(table, from, states, symbols)->Ok_0 == chain_glue(
            outer_arm_texts(table, states, symbols).skip(from),
        ),
        forall|k: int|
            from <= k < table.len() ==> state_arm_head_text(#[trigger] table[k], states, symbols)
                is Ok,
    decreases table.len() - from,
{
    let arms = outer_arm_texts(table, states, symbols);
    if from == table.len() {
        assert(arms.skip(from) =~= Seq::<Seq<char>>::empty());
    } else {
        assert(state_arm_head_text(table[from], states, symbols) is Ok);
        let head = state_arm_head_text(table[from], states, symbols)->Ok_0;
        assert(arms.skip(from)[0] == head);
        if from == table.len() - 1 {
            assert(arms.skip(from) =~= seq![head]);
            assert(chain_glue(arms.skip(from)) == head + "}\n"@);
        } else {
            lemma_state_chain_decomp(table, from + 1, states, symbols);
            assert(arms.skip(from).drop_first() =~= arms.skip(from + 1));
        }
    }
}

proof fn lemma_symbol_chain_decomp(
    rules: Seq<RuleV>,
    from: int,
    states: Seq<Seq<u8>>,
    symbols: Seq<Seq<u8>>,
)
    requires
        0 <= from <= rules.len(),
        symbol_chain_text(rules, from, states, symbols) is Ok,
    ensures
        symbol_chain_text(rules, from, states, symbols)->Ok_0 == chain_glue(
            inner_arm_texts(rules, states, symbols).skip(from),
        ),
        forall|k: int|
            from <= k < rules.len() ==> arm_head_text(#[trigger] rules[k], states, symbols) is Ok,
    decreases rules.len() - from,
{
    let arms = inner_arm_texts(rules, states, symbols);
    if from == rules.len() {
        assert(arms.skip(from) =~= Seq::<Seq<char>>::empty());
    } else {
        assert(arm_head_text(rules[from], states, symbols) is Ok);
        let head = arm_head_text(rules[from], states, symbols)->Ok_0;
        assert(arms.skip(from)[0] == head);
        if from == rules.len() - 1 {
            assert(arms.skip(from) =~= seq![head]);
            assert(chain_glue(arms.skip(from)) == head + "}\n"@);
        } else {
            lemma_symbol_chain_decomp(rules, from + 1, states, symbols);
            assert(arms.skip(from).drop_first() =~= arms.skip(from + 1));
        }
    }
}

/// Law: whenever a machine description compiles, its outer dispatcher is
/// an `if`/`else` chain of exactly one arm per transition-table entry —
/// as many arms as the table has states, since a well-formed table lists
/// each state once — and every arm opens with its `if state == ` test.
pub proof fn lemma_outer_dispatcher_arm_count(m: TuringMachineV)
    requires
        program_text(m) is Ok,
    ensures
        state_chain_text(m.transitions, 0, state_list(m), symbol_list(m)) is Ok,
        state_chain_text(m.transitions, 0, state_list(m), symbol_list(m))->Ok_0 == chain_glue(
            outer_arm_texts(m.transitions, state_list(m), symbol_list(m)),
        ),
        outer_arm_texts(m.transitions, state_list(m), symbol_list(m)).len()
            == m.transitions.len(),
        forall|k: int|
            0 <= k < m.transitions.len() ==> (#[trigger] outer_arm_texts(
                m.transitions,
                state_list(m),
                symbol_list(m),
            )[k]).take("if state == "@.len() as int) == "if state == "@,
{
    let states = state_list(m);
    let symbols = symbol_list(m);
    lemma_state_chain_decomp(m.transitions, 0, states, symbols);
    assert(outer_arm_texts(m.transitions, states, symbols).skip(0) =~= outer_arm_texts(
        m.transitions,
        states,
        symbols,
    ));
    assert forall|k: int| 0 <= k < m.transitions.len() implies (#[trigger] outer_arm_texts(
        m.transitions,
        states,
        symbols,
    )[k]).take("if state == "@.len() as int) == "if state == "@ by {
        assert(state_arm_head_text(m.transitions[k], states, symbols) is Ok);
        let arm = outer_arm_texts(m.transitions, states, symbols)[k];
        assert(arm == state_arm_head_text(m.transitions[k], states, symbols)->Ok_0);
        assert(arm.take("if state == "@.len() as int) =~= "if state == "@);
    }
}

/// Law: whenever a machine description compiles, the inner dispatcher of
/// the state at table index `i` is an `if`/`else` chain of exactly one arm
/// per symbol keyed under that state, each opening with its
/// `if symbol == ` test.
pub proof fn lemma_inner_dispatcher_arm_count(m: TuringMachineV, i: int)
    requires
        program_text(m) is Ok,
        0 <= i < m.transitions.len(),
    ensures
        symbol_chain_text(m.transitions[i].rules, 0, state_list(m), symbol_list(m)) is Ok,
        symbol_chain_text(m.transitions[i].rules, 0, state_list(m), symbol_list(m))->Ok_0
            == chain_glue(inner_arm_texts(m.transitions[i].rules, state_list(m), symbol_list(m))),
        inner_arm_texts(m.transitions[i].rules, state_list(m), symbol_list(m)).len()
            == m.transitions[i].rules.len(),
        forall|k: int|
            0 <= k < m.transitions[i].rules.len() ==> (#[trigger] inner_arm_texts(
                m.transitions[i].rules,
                state_list(m),
                symbol_list(m),
            )[k]).take("if symbol == "@.len() as int) == "if symbol == "@,
{
    let states = state_list(m);
    let symbols = symbol_list(m);
    lemma_state_chain_decomp(m.transitions, 0, states, symbols);
    assert(state_arm_head_text(m.transitions[i], states, symbols) is Ok);
    lemma_symbol_chain_decomp(m.transitions[i].rules, 0, states, symbols);
    assert(inner_arm_texts(m.transitions[i].rules, states, symbols).skip(0) =~= inner_arm_texts(
        m.transitions[i].rules,
        states,
        symbols,
    ));
    assert forall|k: int| 0 <= k < m.transitions[i].rules.len() implies (#[trigger] inner_arm_texts(
        m.transitions[i].rules,
        states,
        symbols,
    )[k]).take("if symbol == "@.len() as int) == "if symbol == "@ by {
        assert(arm_head_text(m.transitions[i].rules[k], states, symbols) is Ok);
        let arm = inner_arm_texts(m.transitions[i].rules, states, symbols)[k];
        assert(arm == arm_head_text(m.transitions[i].rules[k], states, symbols)->Ok_0);
        assert(arm.take("if symbol == "@.len() as int) =~= "if symbol == "@);
    }
}

/// One rule can be rendered: its direction token is `L`, `R` or the `*`
/// wildcard, and its next state is in the encoding list.
pub open spec fn rule_ok(r: RuleV, states: Seq<Seq<u8>>) -> bool {
    &&& (r.action.direction == seq![76u8] || r.action.direction == seq![82u8]
        || r.action.direction == crate::machine::wildcard())
    &&& states.contains(r.action.next_state)
}

proof fn lemma_symbol_chain_ok_iff(
    rules: Seq<RuleV>,
    from: int,
    states: Seq<Seq<u8>>,
    symbols: Seq<Seq<u8>>,
)
    requires
        0 <= from <= rules.len(),
    ensures
        (symbol_chain_text(rules, from, states, symbols) is Ok) <==> (forall|k: int|
            from <= k < rules.len() ==> arm_head_text(#[trigger] rules[k], states, symbols) is Ok),
    decreases rules.len() - from,
{
    if from < rules.len() && from != rules.len() - 1 {
        lemma_symbol_chain_ok_iff(rules, from + 1, states, symbols);
    }
}

proof fn lemma_state_chain_ok_iff(
    table: Seq<StateRulesV>,
    from: int,
    states: Seq<Seq<u8>>,
    symbols: Seq<Seq<u8>>,
)
    requires
        0 <= from <= table.len(),
    ensures
        (state_chain_text(table, from, states, symbols) is Ok) <==> (forall|k: int|
            from <= k < table.len() ==> state_arm_head_text(#[trigger] table[k], states, symbols)
                is Ok),
    decreases table.len() - from,
{
    if from < table.len() && from != table.len() - 1 {
        lemma_state_chain_ok_iff(table, from + 1, states, symbols);
    }
}

/// Law: code generation succeeds exactly when every transition can be
/// rendered — its direction token is `L`, `R` or `*`, and its next state
/// has an encoding (it is a distinguished state or has outgoing
/// transitions of its own).
pub proof fn lemma_compile_succeeds_iff(m: TuringMachineV)
    ensures
        (program_text(m) is Ok) <==> (forall|i: int, k: int|
            0 <= i < m.transitions.len() && 0 <= k < (#[trigger] m.transitions[i]).rules.len()
                ==> rule_ok(#[trigger] m.transitions[i].rules[k], state_list(m))),
{
    let states = state_list(m);
    let symbols = symbol_list(m);
    lemma_state_chain_ok_iff(m.transitions, 0, states, symbols);
    assert forall|i: int|
        0 <= i < m.transitions.len() implies ((state_arm_head_text(
        #[trigger] m.transitions[i],
        states,
        symbols,
    ) is Ok) <==> (forall|k: int|
        0 <= k < m.transitions[i].rules.len() ==> rule_ok(
            #[trigger] m.transitions[i].rules[k],
            states,
        ))) by {
        lemma_symbol_chain_ok_iff(m.transitions[i].rules, 0, states, symbols);
        assert forall|k: int| 0 <= k < m.transitions[i].rules.len() implies ((arm_head_text(
            #[trigger] m.transitions[i].rules[k],
            states,
            symbols,
        ) is Ok) <==> rule_ok(m.transitions[i].rules[k], states)) by {
            let r = m.transitions[i].rules[k];
            assert((dir_text(r.action.direction) is Ok) <==> (r.action.direction == seq![76u8]
                || r.action.direction == seq![82u8] || r.action.direction
                == crate::machine::wildcard()));
        }
    }
    if program_text(m) is Ok {
        assert(state_chain_text(m.transitions, 0, states, symbols) is Ok);
    }
    if state_chain_text(m.transitions, 0, states, symbols) is Ok {
        assert(program_text(m) is Ok);
    }
}

/// Law: code generation is a function of the machine description alone.
/// Equal descriptions yield the very same generated program text (or the
/// same error), so compiling a description twice gives behaviorally
/// equivalent programs.
pub proof fn lemma_compile_deterministic(m1: TuringMachineV, m2: TuringMachineV)
    requires
        m1 == m2,
    ensures
        program_text(m1) == program_text(m2),
{
}

} // verus!
