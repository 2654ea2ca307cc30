//! The structured model of a Turing machine description: the initial tape,
//! the head position, the three distinguished states, and the transition
//! table, together with its well-formedness invariant.

use vstd::prelude::*;

verus! {

/// The action taken by one transition: the symbol written back into the
/// current cell (or the `*` wildcard, meaning "leave the cell unchanged"),
/// the head movement token (`L`, `R`, or the `*` wildcard for "stay"), and
/// the state entered next. Names are byte strings, as read from the input.
#[derive(Debug)]
pub struct Action {
    pub write_symbol: Vec<u8>,
    pub direction: Vec<u8>,
    pub next_state: Vec<u8>,
}

/// Mathematical model of an [`Action`].
#[verifier::ext_equal]
pub struct ActionV {
    pub write_symbol: Seq<u8>,
    pub direction: Seq<u8>,
    pub next_state: Seq<u8>,
}

impl DeepView for Action {
    type V = ActionV;

    open spec fn deep_view(&self) -> ActionV {
        ActionV {
            write_symbol: self.write_symbol@,
            direction: self.direction@,
            next_state: self.next_state@,
        }
    }
}

/// One entry of a state's inner transition map: the symbol matched in the
/// current cell, and the action taken when it matches.
#[derive(Debug)]
pub struct Rule {
    pub symbol: Vec<u8>,
    pub action: Action,
}

/// Mathematical model of a [`Rule`].
#[verifier::ext_equal]
pub struct RuleV {
    pub symbol: Seq<u8>,
    pub action: ActionV,
}

impl DeepView for Rule {
    type V = RuleV;

    open spec fn deep_view(&self) -> RuleV {
        RuleV { symbol: self.symbol@, action: self.action.deep_view() }
    }
}

/// All transitions out of one state: the state name and its inner map from
/// matched symbol to action, kept in first-seen order with distinct symbols.
#[derive(Debug)]
pub struct StateRules {
    pub state: Vec<u8>,
    pub rules: Vec<Rule>,
}

/// Mathematical model of a [`StateRules`].
#[verifier::ext_equal]
pub struct StateRulesV {
    pub state: Seq<u8>,
    pub rules: Seq<RuleV>,
}

impl DeepView for StateRules {
    type V = StateRulesV;

    open spec fn deep_view(&self) -> StateRulesV {
        StateRulesV { state: self.state@, rules: self.rules.deep_view() }
    }
}

/// A complete machine description: the initial tape contents left to right,
/// the index of the initially scanned cell, the three distinguished state
/// names, and the transition table in first-seen order.
#[derive(Debug)]
pub struct TuringMachine {
    pub tape: Vec<Vec<u8>>,
    pub cursor: usize,
    pub init_state: Vec<u8>,
    pub accept_state: Vec<u8>,
    pub reject_state: Vec<u8>,
    pub transitions: Vec<StateRules>,
}

/// Mathematical model of a [`TuringMachine`].
#[verifier::ext_equal]
pub struct TuringMachineV {
    pub tape: Seq<Seq<u8>>,
    pub cursor: nat,
    pub init_state: Seq<u8>,
    pub accept_state: Seq<u8>,
    pub reject_state: Seq<u8>,
    pub transitions: Seq<StateRulesV>,
}

impl DeepView for TuringMachine {
    type V = TuringMachineV;

    open spec fn deep_view(&self) -> TuringMachineV {
        TuringMachineV {
            tape: self.tape.deep_view(),
            cursor: self.cursor as nat,
            init_state: self.init_state@,
            accept_state: self.accept_state@,
            reject_state: self.reject_state@,
            transitions: self.transitions.deep_view(),
        }
    }
}

/// The `*` sigil as a byte string: it marks the initial head cell on the
/// tape line and stands for "no-op" in the write-symbol and direction
/// positions of a transition.
pub open spec fn wildcard() -> Seq<u8> {
    seq![42u8]  // the byte of '*'
}

/// The inner map of one state is well formed when its matched symbols are
/// pairwise distinct.
pub open spec fn rules_wf(rules: Seq<RuleV>) -> bool {
    forall|i: int, j: int| 0 <= i < j < rules.len() ==> rules[i].symbol != rules[j].symbol
}

/// A transition table is well formed when its state names are pairwise
/// distinct and every inner map is well formed.
pub open spec fn table_wf(table: Seq<StateRulesV>) -> bool {
    &&& forall|i: int, j: int| 0 <= i < j < table.len() ==> table[i].state != table[j].state
    &&& forall|i: int| 0 <= i < table.len() ==> rules_wf(#[trigger] table[i].rules)
}

impl TuringMachineV {
    /// A machine description is well formed when the head starts on a real
    /// tape cell and the transition table is well formed.
    pub open spec fn wf(self) -> bool {
        &&& self.cursor < self.tape.len()
        &&& table_wf(self.transitions)
    }
}

/// The deep view of a byte vector is its ordinary view.
pub broadcast proof fn lemma_vec_u8_deep_view(v: Vec<u8>)
    ensures
        #[trigger] v.deep_view() == v@,
{
    assert(v.deep_view() =~= v@);
}

/// Byte-string equality, decided left to right.
pub fn bytes_eq(a: &Vec<u8>, b: &Vec<u8>) -> (r: bool)
    ensures
        r == (a@ == b@),
{
    if a.len() != b.len() {
        assert(a@ != b@) by {
            assert(a@.len() != b@.len());
        }
        return false;
    }
    let n = a.len();
    let mut i: usize = 0;
    while i < n
        invariant
            n == a@.len() == b@.len(),
            0 <= i <= n,
            forall|k: int| 0 <= k < i ==> a@[k] == b@[k],
        decreases n - i,
    {
        if a[i] != b[i] {
            return false;
        }
        i += 1;
    }
    proof {
        assert(a@ =~= b@);
    }
    true
}

/// A fresh copy of a byte string.
pub fn copy_bytes(a: &Vec<u8>) -> (r: Vec<u8>)
    ensures
        r@ == a@,
{
    let mut r: Vec<u8> = Vec::new();
    let n = a.len();
    let mut i: usize = 0;
    while i < n
        invariant
            n == a@.len(),
            0 <= i <= n,
            r@ == a@.take(i as int),
        decreases n - i,
    {
        r.push(a[i]);
        proof {
            assert(r@ =~= a@.take(i + 1));
        }
        i += 1;
    }
    proof {
        assert(a@.take(n as int) =~= a@);
    }
    r
}

/// Does this byte string consist of the single `*` sigil?
pub fn is_wildcard(a: &Vec<u8>) -> (r: bool)
    ensures
        r == (a@ == wildcard()),
{
    let r = a.len() == 1 && a[0] == 42;
    proof {
        if a@.len() == 1 && a@[0] == 42u8 {
            assert(a@ =~= wildcard());
        }
    }
    r
}

} // verus!
