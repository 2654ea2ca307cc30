//! Derivation of the integer encodings: the list of every state name and
//! the list of every symbol name appearing in a machine description, each
//! in deterministic first-seen order; a name's encoding is its index in its
//! list. The symbol list covers the initial tape cells, the matched
//! symbols, and the written symbols, so that every name the generated
//! program mentions has an encoding.

use vstd::prelude::*;
use crate::machine::RuleV;
use crate::machine::StateRulesV;
use crate::machine::TuringMachine;
use crate::machine::TuringMachineV;
use crate::machine::bytes_eq;
use crate::machine::copy_bytes;
use crate::machine::wildcard;

verus! {

/// `acc` with `x` appended, unless `x` is already listed.
pub open spec fn push_unique(acc: Seq<Seq<u8>>, x: Seq<u8>) -> Seq<Seq<u8>> {
    if acc.contains(x) {
        acc
    } else {
        acc.push(x)
    }
}

/// `acc` extended with the state name of every table entry, in table
/// order.
pub open spec fn add_state_keys(acc: Seq<Seq<u8>>, table: Seq<StateRulesV>) -> Seq<Seq<u8>>
    decreases table.len(),
{
    if table.len() == 0 {
        acc
    } else {
        push_unique(add_state_keys(acc, table.drop_last()), table.last().state)
    }
}

/// Every state name of the description, in first-seen order: the initial,
/// accept and reject states, then the transition-table keys.
pub open spec fn state_list(m: TuringMachineV) -> Seq<Seq<u8>> {
    add_state_keys(
        push_unique(
            push_unique(push_unique(Seq::empty(), m.init_state), m.accept_state),
            m.reject_state,
        ),
        m.transitions,
    )
}

/// `acc` extended with each rule's matched symbol and, when it is not the
/// `*` wildcard, its written symbol.
pub open spec fn add_rule_syms(acc: Seq<Seq<u8>>, rules: Seq<RuleV>) -> Seq<Seq<u8>>
    decreases rules.len(),
{
    if rules.len() == 0 {
        acc
    } else {
        let with_key = push_unique(add_rule_syms(acc, rules.drop_last()), rules.last().symbol);
        if rules.last().action.write_symbol == wildcard() {
            with_key
        } else {
            push_unique(with_key, rules.last().action.write_symbol)
        }
    }
}

/// `acc` extended with the symbols of every inner map, in table order.
pub open spec fn add_table_syms(acc: Seq<Seq<u8>>, table: Seq<StateRulesV>) -> Seq<Seq<u8>>
    decreases table.len(),
{
    if table.len() == 0 {
        acc
    } else {
        add_rule_syms(add_table_syms(acc, table.drop_last()), table.last().rules)
    }
}

/// `acc` extended with every tape cell's symbol, left to right.
pub open spec fn add_tape_syms(acc: Seq<Seq<u8>>, tape: Seq<Seq<u8>>) -> Seq<Seq<u8>>
    decreases tape.len(),
{
    if tape.len() == 0 {
        acc
    } else {
        push_unique(add_tape_syms(acc, tape.drop_last()), tape.last())
    }
}

/// Every symbol name of the description, in first-seen order: the initial
/// tape cells, then each rule's matched symbol and non-wildcard written
/// symbol.
pub open spec fn symbol_list(m: TuringMachineV) -> Seq<Seq<u8>> {
    add_table_syms(add_tape_syms(Seq::empty(), m.tape), m.transitions)
}

/// Index of the first occurrence of `x`, or the list's length when `x` is
/// not listed.
pub open spec fn pos_of(list: Seq<Seq<u8>>, x: Seq<u8>) -> nat
    decreases list.len(),
{
    if list.len() == 0 {
        0
    } else if list[0] == x {
        0
    } else {
        1 + pos_of(list.drop_first(), x)
    }
}

/// What `pos_of` finds: the first index holding `x`, in range exactly when
/// `x` is listed.
pub proof fn lemma_pos_of(list: Seq<Seq<u8>>, x: Seq<u8>)
    ensures
        pos_of(list, x) <= list.len(),
        forall|k: int| 0 <= k < pos_of(list, x) ==> list[k] != x,
        pos_of(list, x) < list.len() ==> list[pos_of(list, x) as int] == x,
        (pos_of(list, x) < list.len()) <==> list.contains(x),
    decreases list.len(),
{
    if list.len() > 0 && list[0] != x {
        lemma_pos_of(list.drop_first(), x);
        assert forall|k: int| 0 <= k < pos_of(list, x) implies list[k] != x by {
            if k > 0 {
                assert(list.drop_first()[k - 1] == list[k]);
            }
        }
        if list.drop_first().contains(x) {
            let w = choose|w: int| 0 <= w < list.drop_first().len() && list.drop_first()[w] == x;
            assert(list[w + 1] == x);
        }
        if list.contains(x) {
            let w = choose|w: int| 0 <= w < list.len() && list[w] == x;
            assert(w > 0);
            assert(list.drop_first()[w - 1] == x);
        }
    }
}

/// Is `x` one of the listed names?
fn contains_bytes(list: &Vec<Vec<u8>>, x: &Vec<u8>) -> (r: bool)
    ensures
        r == list.deep_view().contains(x@),
{
    broadcast use crate::machine::lemma_vec_u8_deep_view;

    let ghost d = list.deep_view();
    let n = list.len();
    let mut i: usize = 0;
    while i < n
        invariant
            n == list@.len(),
            d == list.deep_view(),
            0 <= i <= n,
            forall|k: int| 0 <= k < i ==> d[k] != x@,
        decreases n - i,
    {
        if bytes_eq(&list[i], x) {
            proof {
                assert(d[i as int] == list@[i as int]@);
                assert(d[i as int] == x@);
            }
            return true;
        }
        proof {
            assert(d[i as int] == list@[i as int]@);
        }
        i += 1;
    }
    proof {
        assert(d.len() == n);
        if d.contains(x@) {
            let w = choose|w: int| 0 <= w < d.len() && d[w] == x@;
            assert(d[w] != x@);
        }
    }
    false
}

/// Append `x` to the list unless it is already listed.
fn push_unique_exec(acc: &mut Vec<Vec<u8>>, x: &Vec<u8>)
    ensures
        final(acc).deep_view() == push_unique(old(acc).deep_view(), x@),
{
    let ghost d = acc.deep_view();
    if !contains_bytes(acc, x) {
        let cell = copy_bytes(x);
        acc.push(cell);
        proof {
            assert(acc.deep_view() =~~= d.push(x@));
        }
    }
}

/// Index of the first occurrence of `x` in the list, or the list's length
/// when `x` is not listed; a listed name's index is its integer encoding.
pub fn index_of(list: &Vec<Vec<u8>>, x: &Vec<u8>) -> (i: usize)
    ensures
        i == pos_of(list.deep_view(), x@),
{
    broadcast use crate::machine::lemma_vec_u8_deep_view;

    let ghost d = list.deep_view();
    let n = list.len();
    let mut i: usize = 0;
    while i < n && !bytes_eq(&list[i], x)
        invariant
            n == list@.len(),
            d == list.deep_view(),
            0 <= i <= n,
            forall|k: int| 0 <= k < i ==> d[k] != x@,
        decreases n - i,
    {
        proof {
            assert(d[i as int] == list@[i as int]@);
        }
        i += 1;
    }
    proof {
        assert(d.len() == n);
        lemma_pos_of(d, x@);
        if i < n {
            assert(d[i as int] == list@[i as int]@);
            assert(d[i as int] == x@);
            if pos_of(d, x@) < i {
                assert(d[pos_of(d, x@) as int] == x@);
            }
            assert(pos_of(d, x@) == i);
        } else {
            if pos_of(d, x@) < n {
                assert(d[pos_of(d, x@) as int] == x@);
            }
            assert(pos_of(d, x@) == n);
        }
    }
    i
}

impl TuringMachine {
    /// The state encoding list: every state name of the description in
    /// first-seen order, each listed once. A state's encoding is its index
    /// here.
    pub fn list_states(&self) -> (r: Vec<Vec<u8>>)
        ensures
            r.deep_view() == state_list(self.deep_view()),
    {
        broadcast use crate::machine::lemma_vec_u8_deep_view;

        let ghost t = self.deep_view().transitions;
        let mut acc: Vec<Vec<u8>> = Vec::new();
        proof {
            assert(acc.deep_view() =~= Seq::<Seq<u8>>::empty());
        }
        push_unique_exec(&mut acc, &self.init_state);
        push_unique_exec(&mut acc, &self.accept_state);
        push_unique_exec(&mut acc, &self.reject_state);
        let ghost base = acc.deep_view();
        let n = self.transitions.len();
        let mut i: usize = 0;
        while i < n
            invariant
                n == self.transitions@.len(),
                t == self.deep_view().transitions,
                base == push_unique(
                    push_unique(
                        push_unique(Seq::empty(), self.deep_view().init_state),
                        self.deep_view().accept_state,
                    ),
                    self.deep_view().reject_state,
                ),
                0 <= i <= n,
                acc.deep_view() == add_state_keys(base, t.take(i as int)),
            decreases n - i,
        {
            push_unique_exec(&mut acc, &self.transitions[i].state);
            proof {
                assert(t[i as int] == self.transitions@[i as int].deep_view());
                assert(t.take(i + 1).drop_last() =~= t.take(i as int));
                assert(t.take(i + 1).last() == t[i as int]);
            }
            i += 1;
        }
        proof {
            assert(t.take(n as int) =~= t);
        }
        acc
    }

    /// The symbol encoding list: every symbol name of the description in
    /// first-seen order, each listed once — the initial tape cells first,
    /// then each rule's matched and written symbols. A symbol's encoding is
    /// its index here.
    pub fn list_symbols(&self) -> (r: Vec<Vec<u8>>)
        ensures
            r.deep_view() == symbol_list(self.deep_view()),
    {
        broadcast use crate::machine::lemma_vec_u8_deep_view;

        let ghost tp = self.deep_view().tape;
        let ghost t = self.deep_view().transitions;
        let mut acc: Vec<Vec<u8>> = Vec::new();
        proof {
            assert(acc.deep_view() =~= Seq::<Seq<u8>>::empty());
        }
        let tn = self.tape.len();
        let mut i: usize = 0;
        while i < tn
            invariant
                tn == self.tape@.len(),
                tp == self.deep_view().tape,
                0 <= i <= tn,
                acc.deep_view() == add_tape_syms(Seq::empty(), tp.take(i as int)),
            decreases tn - i,
        {
            push_unique_exec(&mut acc, &self.tape[i]);
            proof {
                assert(tp[i as int] == self.tape@[i as int]@);
                assert(tp.take(i + 1).drop_last() =~= tp.take(i as int));
                assert(tp.take(i + 1).last() == tp[i as int]);
            }
            i += 1;
        }
        proof {
            assert(tp.take(tn as int) =~= tp);
        }
        let ghost base = acc.deep_view();
        let n = self.transitions.len();
        let mut j: usize = 0;
        while j < n
            invariant
                n == self.transitions@.len(),
                t == self.deep_view().transitions,
                base == add_tape_syms(Seq::empty(), self.deep_view().tape),
                0 <= j <= n,
                acc.deep_view() == add_table_syms(base, t.take(j as int)),
            decreases n - j,
        {
            let entry = &self.transitions[j];
            let ghost rv = t[j as int].rules;
            proof {
                assert(t[j as int] == self.transitions@[j as int].deep_view());
            }
            let rn = entry.rules.len();
            let ghost mid = acc.deep_view();
            let mut k: usize = 0;
            while k < rn
                invariant
                    rn == entry.rules@.len(),
                    rv == entry.rules.deep_view(),
                    mid == add_table_syms(base, t.take(j as int)),
                    0 <= k <= rn,
                    acc.deep_view() == add_rule_syms(mid, rv.take(k as int)),
                decreases rn - k,
            {
                let rule = &entry.rules[k];
                proof {
                    assert(rv[k as int] == entry.rules@[k as int].deep_view());
                }
                push_unique_exec(&mut acc, &rule.symbol);
                if !(rule.action.write_symbol.len() == 1 && rule.action.write_symbol[0] == 42) {
                    proof {
                        assert(rv[k as int].action.write_symbol != wildcard());
                    }
                    push_unique_exec(&mut acc, &rule.action.write_symbol);
                } else {
                    proof {
                        assert(rule.action.write_symbol@ =~= wildcard());
                    }
                }
                proof {
                    assert(rv.take(k + 1).drop_last() =~= rv.take(k as int));
                    assert(rv.take(k + 1).last() == rv[k as int]);
                }
                k += 1;
            }
            proof {
                assert(rv.take(rn as int) =~= rv);
                assert(t.take(j + 1).drop_last() =~= t.take(j as int));
                assert(t.take(j + 1).last() == t[j as int]);
            }
            j += 1;
        }
        proof {
            assert(t.take(n as int) =~= t);
        }
        acc
    }
}

} // verus!
