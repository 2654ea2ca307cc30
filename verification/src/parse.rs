//! The model builder: splits the raw description into lines and
//! whitespace-delimited tokens, recovers the marked tape cell, and folds the
//! transition lines into the transition table (last write wins for a
//! repeated `(state, symbol)` pair, first-seen order otherwise).

use vstd::prelude::*;
use crate::machine::Action;
use crate::machine::ActionV;
use crate::machine::Rule;
use crate::machine::RuleV;
use crate::machine::StateRules;
use crate::machine::StateRulesV;
use crate::machine::TuringMachine;
use crate::machine::TuringMachineV;
use crate::machine::bytes_eq;
use crate::machine::copy_bytes;
use crate::machine::rules_wf;
use crate::machine::table_wf;

verus! {

/// Everything that can be wrong with a machine description: a missing or
/// blank header line, a tape line without the `*` cursor marker, or a
/// transition line with fewer than five tokens.
#[derive(Clone, Copy, Debug, PartialEq, Eq, Structural)]
pub enum ParseError {
    MissingTape,
    MissingInitState,
    MissingAcceptState,
    MissingRejectState,
    MissingCursorMarker,
    TruncatedTransition,
}

impl ParseError {
    /// The diagnostic text of this error.
    pub open spec fn message_spec(self) -> Seq<char> {
        match self {
            ParseError::MissingTape => "No tape"@,
            ParseError::MissingInitState => "No init state"@,
            ParseError::MissingAcceptState => "No accept states"@,
            ParseError::MissingRejectState => "No reject states"@,
            ParseError::MissingCursorMarker => "No cursor marker on the tape line"@,
            ParseError::TruncatedTransition => "Transition line with fewer than 5 tokens"@,
        }
    }

    /// A short diagnostic naming the offending section of the input.
    pub fn message(&self) -> (r: String)
        ensures
            r@ == self.message_spec(),
    {
        match self {
            ParseError::MissingTape => String::from_str("No tape"),
            ParseError::MissingInitState => String::from_str("No init state"),
            ParseError::MissingAcceptState => String::from_str("No accept states"),
            ParseError::MissingRejectState => String::from_str("No reject states"),
            ParseError::MissingCursorMarker => String::from_str("No cursor marker on the tape line"),
            ParseError::TruncatedTransition => String::from_str(
                "Transition line with fewer than 5 tokens",
            ),
        }
    }
}

/// The ASCII whitespace bytes: space, tab, line feed, vertical tab, form
/// feed, carriage return.
pub open spec fn is_ws(b: u8) -> bool {
    b == 32 || b == 9 || b == 10 || b == 11 || b == 12 || b == 13
}

fn is_ws_byte(b: u8) -> (r: bool)
    ensures
        r == is_ws(b),
{
    b == 32 || b == 9 || b == 10 || b == 11 || b == 12 || b == 13
}

/// Length of the leading run of non-whitespace bytes.
pub open spec fn token_len(s: Seq<u8>) -> nat
    decreases s.len(),
{
    if s.len() == 0 || is_ws(s[0]) {
        0
    } else {
        1 + token_len(s.drop_first())
    }
}

/// `token_len` never measures past the end of the sequence.
proof fn lemma_token_len_le(s: Seq<u8>)
    ensures
        token_len(s) <= s.len(),
    decreases s.len(),
{
    if s.len() != 0 && !is_ws(s[0]) {
        lemma_token_len_le(s.drop_first());
    }
}

/// The whitespace-delimited tokens of `s`, in order.
pub open spec fn split_ws_spec(s: Seq<u8>) -> Seq<Seq<u8>>
    decreases s.len(),
    via split_ws_spec_decreases
{
    if s.len() == 0 {
        Seq::empty()
    } else if is_ws(s[0]) {
        split_ws_spec(s.drop_first())
    } else {
        seq![s.take(token_len(s) as int)] + split_ws_spec(s.skip(token_len(s) as int))
    }
}

#[via_fn]
proof fn split_ws_spec_decreases(s: Seq<u8>) {
    if s.len() != 0 && !is_ws(s[0]) {
        assert(token_len(s) == 1 + token_len(s.drop_first()));
        lemma_token_len_le(s);
    }
}

/// Length of the leading run of bytes other than a line feed.
pub open spec fn line_len(s: Seq<u8>) -> nat
    decreases s.len(),
{
    if s.len() == 0 || s[0] == 10 {
        0
    } else {
        1 + line_len(s.drop_first())
    }
}

/// `line_len` never measures past the end of the sequence.
proof fn lemma_line_len_le(s: Seq<u8>)
    ensures
        line_len(s) <= s.len(),
    decreases s.len(),
{
    if s.len() != 0 && s[0] != 10 {
        lemma_line_len_le(s.drop_first());
    }
}

/// `s` cut at every line feed; the separators are dropped and empty
/// segments are kept.
pub open spec fn split_nl_spec(s: Seq<u8>) -> Seq<Seq<u8>>
    decreases s.len(),
    via split_nl_spec_decreases
{
    let n = line_len(s) as int;
    if n == s.len() {
        seq![s]
    } else {
        seq![s.take(n)] + split_nl_spec(s.skip(n + 1))
    }
}

#[via_fn]
proof fn split_nl_spec_decreases(s: Seq<u8>) {
    lemma_line_len_le(s);
}

/// The lines of `s`: every segment between line feeds, except that a final
/// empty segment (from a trailing line feed, or from empty input) does not
/// count as a line.
pub open spec fn lines_spec(s: Seq<u8>) -> Seq<Seq<u8>> {
    let parts = split_nl_spec(s);
    if parts.len() > 0 && parts.last().len() == 0 {
        parts.drop_last()
    } else {
        parts
    }
}

/// A leading run of `m` non-whitespace bytes ending at whitespace or at the
/// end of `s` is exactly what `token_len` measures.
proof fn lemma_token_len(s: Seq<u8>, m: int)
    requires
        0 <= m <= s.len(),
        forall|k: int| 0 <= k < m ==> !is_ws(s[k]),
        m == s.len() || is_ws(s[m]),
    ensures
        token_len(s) == m,
    decreases m,
{
    if m == 0 {
    } else {
        assert(!is_ws(s[0]));
        lemma_token_len(s.drop_first(), m - 1);
    }
}

/// The analogue of `lemma_token_len` for runs ending at a line feed.
proof fn lemma_line_len(s: Seq<u8>, m: int)
    requires
        0 <= m <= s.len(),
        forall|k: int| 0 <= k < m ==> s[k] != 10,
        m == s.len() || s[m] == 10,
    ensures
        line_len(s) == m,
    decreases m,
{
    if m == 0 {
    } else {
        assert(s[0] != 10);
        lemma_line_len(s.drop_first(), m - 1);
    }
}

/// The bytes of `v` from `from` (inclusive) to `to` (exclusive), as a fresh
/// vector.
fn copy_range(v: &Vec<u8>, from: usize, to: usize) -> (r: Vec<u8>)
    requires
        from <= to <= v@.len(),
    ensures
        r@ == v@.subrange(from as int, to as int),
{
    let mut r: Vec<u8> = Vec::new();
    let mut i: usize = from;
    while i < to
        invariant
            from <= i <= to <= v@.len(),
            r@ == v@.subrange(from as int, i as int),
        decreases to - i,
    {
        r.push(v[i]);
        proof {
            assert(r@ =~= v@.subrange(from as int, i + 1));
        }
        i += 1;
    }
    r
}

fn split_ws_into(line: &Vec<u8>, from: usize, out: &mut Vec<Vec<u8>>)
    requires
        from <= line@.len(),
    ensures
        final(out).deep_view() == old(out).deep_view() + split_ws_spec(line@.skip(from as int)),
    decreases line@.len() - from,
{
    let ghost s = line@.skip(from as int);
    if from == line.len() {
        proof {
            assert(s =~= Seq::<u8>::empty());
            assert(out.deep_view() =~= out.deep_view() + split_ws_spec(s));
        }
    } else if is_ws_byte(line[from]) {
        proof {
            assert(s.drop_first() =~= line@.skip(from as int + 1));
        }
        split_ws_into(line, from + 1, out);
    } else {
        let mut j: usize = from;
        while j < line.len() && !is_ws_byte(line[j])
            invariant
                from <= j <= line@.len(),
                forall|k: int| from <= k < j ==> !is_ws(line@[k]),
            decreases line@.len() - j,
        {
            j += 1;
        }
        proof {
            assert forall|k: int| 0 <= k < j - from implies !is_ws(s[k]) by {
                assert(s[k] == line@[from + k]);
            }
            if (j as int) - (from as int) < s.len() {
                assert(s[j - from] == line@[j as int]);
            }
            lemma_token_len(s, j - from);
        }
        let tok = copy_range(line, from, j);
        proof {
            assert(tok@ =~= s.take(token_len(s) as int));
        }
        let ghost pre = out.deep_view();
        let ghost pre_shallow = out@;
        out.push(tok);
        proof {
            assert(out@ == pre_shallow.push(tok));
            assert(out.deep_view() =~~= pre + seq![tok@]);
        }
        proof {
            assert(s.skip(token_len(s) as int) =~= line@.skip(j as int));
        }
        split_ws_into(line, j, out);
        proof {
            assert(out.deep_view() =~= old(out).deep_view() + split_ws_spec(s));
        }
    }
}

/// The whitespace-delimited tokens of one line.
pub fn split_ws(line: &Vec<u8>) -> (r: Vec<Vec<u8>>)
    ensures
        r.deep_view() == split_ws_spec(line@),
{
    let mut r: Vec<Vec<u8>> = Vec::new();
    split_ws_into(line, 0, &mut r);
    proof {
        assert(line@.skip(0) =~= line@);
        assert(r.deep_view() =~= split_ws_spec(line@));
    }
    r
}

fn split_nl_into(src: &Vec<u8>, from: usize, out: &mut Vec<Vec<u8>>)
    requires
        from <= src@.len(),
    ensures
        final(out).deep_view() == old(out).deep_view() + split_nl_spec(src@.skip(from as int)),
    decreases src@.len() - from,
{
    let ghost s = src@.skip(from as int);
    let mut j: usize = from;
    while j < src.len() && src[j] != 10
        invariant
            from <= j <= src@.len(),
            forall|k: int| from <= k < j ==> src@[k] != 10,
        decreases src@.len() - j,
    {
        j += 1;
    }
    proof {
        assert forall|k: int| 0 <= k < j - from implies s[k] != 10 by {
            assert(s[k] == src@[from + k]);
        }
        if (j as int) - (from as int) < s.len() {
            assert(s[j - from] == src@[j as int]);
        }
        lemma_line_len(s, j - from);
    }
    let seg = copy_range(src, from, j);
    proof {
        assert(seg@ =~= s.take(line_len(s) as int));
    }
    let ghost pre = out.deep_view();
    let ghost pre_shallow = out@;
    out.push(seg);
    proof {
        assert(out@ == pre_shallow.push(seg));
        assert(out.deep_view() =~~= pre + seq![seg@]);
    }
    if j == src.len() {
        proof {
            assert(seg@ =~= s);
            assert(split_nl_spec(s) =~= seq![s]);
            assert(out.deep_view() =~= old(out).deep_view() + split_nl_spec(s));
        }
    } else {
        proof {
            assert(s.skip(line_len(s) as int + 1) =~= src@.skip(j + 1));
        }
        split_nl_into(src, j + 1, out);
        proof {
            assert(out.deep_view() =~= old(out).deep_view() + split_nl_spec(s));
        }
    }
}

/// The lines of a machine description, with any final empty segment
/// dropped, as the `lines` iterator of the standard library would yield
/// them.
pub fn lines(src: &Vec<u8>) -> (r: Vec<Vec<u8>>)
    ensures
        r.deep_view() == lines_spec(src@),
{
    let mut parts: Vec<Vec<u8>> = Vec::new();
    split_nl_into(src, 0, &mut parts);
    proof {
        assert(src@.skip(0) =~= src@);
        assert(parts.deep_view() =~= split_nl_spec(src@));
    }
    if parts.len() > 0 && parts[parts.len() - 1].len() == 0 {
        let ghost before = parts.deep_view();
        parts.pop();
        proof {
            assert(parts.deep_view() =~= before.drop_last());
        }
    }
    parts
}

/// Does this token carry the leading `*` sigil that marks the initial head
/// cell?
pub open spec fn is_marked(t: Seq<u8>) -> bool {
    t.len() > 0 && t[0] == 42
}

/// Index of the first marked token, or the number of tokens when none is
/// marked.
pub open spec fn marker_pos(toks: Seq<Seq<u8>>) -> nat
    decreases toks.len(),
{
    if toks.len() == 0 {
        0
    } else if is_marked(toks[0]) {
        0
    } else {
        1 + marker_pos(toks.drop_first())
    }
}

/// A token with the `*` sigil loses it; any other token is kept whole.
pub open spec fn strip_token(t: Seq<u8>) -> Seq<u8> {
    if is_marked(t) {
        t.drop_first()
    } else {
        t
    }
}

/// The tape recovered from the tape-line tokens: every token with its
/// sigil, if any, stripped.
pub open spec fn tape_of(toks: Seq<Seq<u8>>) -> Seq<Seq<u8>> {
    toks.map_values(|t: Seq<u8>| strip_token(t))
}

/// `marker_pos` is the first index whose token is marked, and runs off the
/// end exactly when no token is marked.
proof fn lemma_marker_pos(toks: Seq<Seq<u8>>, m: int)
    requires
        0 <= m <= toks.len(),
        forall|k: int| 0 <= k < m ==> !is_marked(toks[k]),
        m == toks.len() || is_marked(toks[m]),
    ensures
        marker_pos(toks) == m,
    decreases m,
{
    if m == 0 {
    } else {
        assert(!is_marked(toks[0]));
        lemma_marker_pos(toks.drop_first(), m - 1);
    }
}

/// Recover the tape and the initial head position from the tokens of the
/// tape line. The first token carrying the `*` sigil names the initially
/// scanned cell; the sigil is stripped from every token that carries one.
/// Fails exactly when no token is marked.
pub fn parse_tape(s: Vec<Vec<u8>>) -> (r: Result<(Vec<Vec<u8>>, usize), ParseError>)
    ensures
        match r {
            Ok(p) => {
                &&& marker_pos(s.deep_view()) < s.deep_view().len()
                &&& p.1 == marker_pos(s.deep_view())
                &&& p.0.deep_view() == tape_of(s.deep_view())
            },
            Err(e) => {
                &&& e == ParseError::MissingCursorMarker
                &&& marker_pos(s.deep_view()) == s.deep_view().len()
            },
        },
{
    broadcast use crate::machine::lemma_vec_u8_deep_view;

    let ghost d = s.deep_view();
    let n = s.len();
    let mut cursor: usize = 0;
    while cursor < n && !(s[cursor].len() > 0 && s[cursor][0] == 42)
        invariant
            n == s@.len(),
            d == s.deep_view(),
            0 <= cursor <= n,
            forall|k: int| 0 <= k < cursor ==> !is_marked(#[trigger] d[k]),
        decreases n - cursor,
    {
        proof {
            assert(d[cursor as int] == s@[cursor as int]@);
        }
        cursor += 1;
    }
    proof {
        assert(d.len() == n);
        if cursor < n {
            assert(d[cursor as int] == s@[cursor as int]@);
            assert(is_marked(d[cursor as int]));
        }
        lemma_marker_pos(d, cursor as int);
    }
    if cursor == n {
        return Err(ParseError::MissingCursorMarker);
    }
    let mut tape: Vec<Vec<u8>> = Vec::new();
    let mut i: usize = 0;
    while i < n
        invariant
            n == s@.len(),
            d == s.deep_view(),
            0 <= i <= n,
            tape.deep_view() == tape_of(d.take(i as int)),
        decreases n - i,
    {
        let tok = &s[i];
        let cell = if tok.len() > 0 && tok[0] == 42 {
            copy_range(tok, 1, tok.len())
        } else {
            copy_bytes(tok)
        };
        proof {
            assert(d[i as int] == s@[i as int]@);
            assert(cell@ =~= strip_token(d[i as int]));
        }
        let ghost pre = tape.deep_view();
        tape.push(cell);
        proof {
            assert(tape.deep_view() =~~= pre.push(cell@));
            assert(tape_of(d.take(i + 1)) =~= tape_of(d.take(i as int)).push(strip_token(d[i as int])));
        }
        i += 1;
    }
    proof {
        assert(d.take(n as int) =~= d);
    }
    Ok((tape, cursor))
}

/// Index of the first rule matching `sym`, or the number of rules when no
/// rule matches it.
pub open spec fn rule_pos(rules: Seq<RuleV>, sym: Seq<u8>) -> nat
    decreases rules.len(),
{
    if rules.len() == 0 {
        0
    } else if rules[0].symbol == sym {
        0
    } else {
        1 + rule_pos(rules.drop_first(), sym)
    }
}

/// Index of the first table entry for state `st`, or the number of entries
/// when the table has none.
pub open spec fn state_pos(table: Seq<StateRulesV>, st: Seq<u8>) -> nat
    decreases table.len(),
{
    if table.len() == 0 {
        0
    } else if table[0].state == st {
        0
    } else {
        1 + state_pos(table.drop_first(), st)
    }
}

/// What `rule_pos` finds: the first index with symbol `sym`, every earlier
/// rule matching some other symbol.
proof fn lemma_rule_pos(rules: Seq<RuleV>, sym: Seq<u8>)
    ensures
        rule_pos(rules, sym) <= rules.len(),
        forall|k: int| 0 <= k < rule_pos(rules, sym) ==> rules[k].symbol != sym,
        rule_pos(rules, sym) < rules.len() ==> rules[rule_pos(rules, sym) as int].symbol == sym,
    decreases rules.len(),
{
    if rules.len() > 0 && rules[0].symbol != sym {
        lemma_rule_pos(rules.drop_first(), sym);
        assert forall|k: int| 0 <= k < rule_pos(rules, sym) implies rules[k].symbol != sym by {
            if k > 0 {
                assert(rules.drop_first()[k - 1] == rules[k]);
            }
        }
    }
}

/// What `state_pos` finds: the first index with state `st`, every earlier
/// entry naming some other state.
proof fn lemma_state_pos(table: Seq<StateRulesV>, st: Seq<u8>)
    ensures
        state_pos(table, st) <= table.len(),
        forall|k: int| 0 <= k < state_pos(table, st) ==> table[k].state != st,
        state_pos(table, st) < table.len() ==> table[state_pos(table, st) as int].state == st,
    decreases table.len(),
{
    if table.len() > 0 && table[0].state != st {
        lemma_state_pos(table.drop_first(), st);
        assert forall|k: int| 0 <= k < state_pos(table, st) implies table[k].state != st by {
            if k > 0 {
                assert(table.drop_first()[k - 1] == table[k]);
            }
        }
    }
}

/// One inner map after recording `sym -> act`: the first rule for `sym` is
/// overwritten in place, or a new rule is appended when the symbol is new.
pub open spec fn rules_insert(rules: Seq<RuleV>, sym: Seq<u8>, act: ActionV) -> Seq<RuleV> {
    let i = rule_pos(rules, sym) as int;
    if i < rules.len() {
        rules.update(i, RuleV { symbol: sym, action: act })
    } else {
        rules.push(RuleV { symbol: sym, action: act })
    }
}

/// The table after recording the transition `(st, sym) -> act`: the entry
/// for `st` has `sym -> act` recorded in its inner map, or a fresh entry is
/// appended when the state is new.
pub open spec fn table_insert(
    table: Seq<StateRulesV>,
    st: Seq<u8>,
    sym: Seq<u8>,
    act: ActionV,
) -> Seq<StateRulesV> {
    let i = state_pos(table, st) as int;
    if i < table.len() {
        table.update(
            i,
            StateRulesV { state: table[i].state, rules: rules_insert(table[i].rules, sym, act) },
        )
    } else {
        table.push(StateRulesV { state: st, rules: seq![RuleV { symbol: sym, action: act }] })
    }
}

/// Every transition line has at least the five required tokens.
pub open spec fn lines_ok(lines: Seq<Seq<Seq<u8>>>) -> bool {
    forall|i: int| 0 <= i < lines.len() ==> (#[trigger] lines[i]).len() >= 5
}

/// The transition table built by folding the token lines in order, each
/// line read as `state symbol write_symbol direction next_state`.
pub open spec fn table_of(lines: Seq<Seq<Seq<u8>>>) -> Seq<StateRulesV>
    decreases lines.len(),
{
    if lines.len() == 0 {
        Seq::empty()
    } else {
        let l = lines.last();
        table_insert(
            table_of(lines.drop_last()),
            l[0],
            l[1],
            ActionV { write_symbol: l[2], direction: l[3], next_state: l[4] },
        )
    }
}

/// Recording a rule keeps the inner map's symbols distinct.
proof fn lemma_rules_insert_wf(rules: Seq<RuleV>, sym: Seq<u8>, act: ActionV)
    requires
        rules_wf(rules),
    ensures
        rules_wf(rules_insert(rules, sym, act)),
{
    lemma_rule_pos(rules, sym);
    let i = rule_pos(rules, sym) as int;
    let r = rules_insert(rules, sym, act);
    if i < rules.len() {
        assert forall|p: int, q: int| 0 <= p < q < r.len() implies r[p].symbol != r[q].symbol by {
            assert(r[p].symbol == rules[p].symbol);
            assert(r[q].symbol == rules[q].symbol);
        }
    } else {
        assert forall|p: int, q: int| 0 <= p < q < r.len() implies r[p].symbol != r[q].symbol by {
            if q == rules.len() {
                assert(r[p].symbol == rules[p].symbol);
                assert(rules[p].symbol != sym);
            }
        }
    }
}

/// Recording a transition keeps the table well formed.
proof fn lemma_table_insert_wf(table: Seq<StateRulesV>, st: Seq<u8>, sym: Seq<u8>, act: ActionV)
    requires
        table_wf(table),
    ensures
        table_wf(table_insert(table, st, sym, act)),
{
    lemma_state_pos(table, st);
    let i = state_pos(table, st) as int;
    let r = table_insert(table, st, sym, act);
    if i < table.len() {
        lemma_rules_insert_wf(table[i].rules, sym, act);
        assert forall|p: int, q: int| 0 <= p < q < r.len() implies r[p].state != r[q].state by {
            assert(r[p].state == table[p].state);
            assert(r[q].state == table[q].state);
        }
        assert forall|p: int| 0 <= p < r.len() implies rules_wf(#[trigger] r[p].rules) by {
            if p != i {
                assert(r[p].rules == table[p].rules);
            }
        }
    } else {
        assert forall|p: int, q: int| 0 <= p < q < r.len() implies r[p].state != r[q].state by {
            if q == table.len() {
                assert(r[p].state == table[p].state);
                assert(table[p].state != st);
            }
        }
        assert forall|p: int| 0 <= p < r.len() implies rules_wf(#[trigger] r[p].rules) by {
            if p < table.len() {
                assert(r[p].rules == table[p].rules);
            }
        }
    }
}

/// The folded table is always well formed.
proof fn lemma_table_of_wf(lines: Seq<Seq<Seq<u8>>>)
    ensures
        table_wf(table_of(lines)),
    decreases lines.len(),
{
    if lines.len() == 0 {
    } else {
        lemma_table_of_wf(lines.drop_last());
        let l = lines.last();
        lemma_table_insert_wf(
            table_of(lines.drop_last()),
            l[0],
            l[1],
            ActionV { write_symbol: l[2], direction: l[3], next_state: l[4] },
        );
    }
}

/// Index of the first table entry for `st`, or the table's length.
fn find_state(table: &Vec<StateRules>, st: &Vec<u8>) -> (i: usize)
    ensures
        i == state_pos(table.deep_view(), st@),
{
    let ghost d = table.deep_view();
    let n = table.len();
    let mut i: usize = 0;
    while i < n && !bytes_eq(&table[i].state, st)
        invariant
            n == table@.len(),
            d == table.deep_view(),
            0 <= i <= n,
            forall|k: int| 0 <= k < i ==> (#[trigger] d[k]).state != st@,
        decreases n - i,
    {
        proof {
            assert(d[i as int] == table@[i as int].deep_view());
        }
        i += 1;
    }
    proof {
        assert(d.len() == n);
        if i < n {
            assert(d[i as int] == table@[i as int].deep_view());
        }
        lemma_state_pos(d, st@);
        if i < n {
            assert(d[i as int].state == st@);
            if state_pos(d, st@) < i {
                assert(d[state_pos(d, st@) as int].state == st@);
            }
            assert(state_pos(d, st@) == i);
        } else {
            if state_pos(d, st@) < n {
                assert(d[state_pos(d, st@) as int].state == st@);
            }
            assert(state_pos(d, st@) == n);
        }
    }
    i
}

/// Index of the first rule for `sym`, or the map's length.
fn find_rule(rules: &Vec<Rule>, sym: &Vec<u8>) -> (j: usize)
    ensures
        j == rule_pos(rules.deep_view(), sym@),
{
    let ghost d = rules.deep_view();
    let n = rules.len();
    let mut j: usize = 0;
    while j < n && !bytes_eq(&rules[j].symbol, sym)
        invariant
            n == rules@.len(),
            d == rules.deep_view(),
            0 <= j <= n,
            forall|k: int| 0 <= k < j ==> (#[trigger] d[k]).symbol != sym@,
        decreases n - j,
    {
        proof {
            assert(d[j as int] == rules@[j as int].deep_view());
        }
        j += 1;
    }
    proof {
        assert(d.len() == n);
        if j < n {
            assert(d[j as int] == rules@[j as int].deep_view());
        }
        lemma_rule_pos(d, sym@);
        if j < n {
            assert(d[j as int].symbol == sym@);
            if rule_pos(d, sym@) < j {
                assert(d[rule_pos(d, sym@) as int].symbol == sym@);
            }
            assert(rule_pos(d, sym@) == j);
        } else {
            if rule_pos(d, sym@) < n {
                assert(d[rule_pos(d, sym@) as int].symbol == sym@);
            }
            assert(rule_pos(d, sym@) == n);
        }
    }
    j
}

/// Record `sym -> act` in one inner map, overwriting the first rule for
/// `sym` or appending a new one.
fn rules_insert_exec(rules: &mut Vec<Rule>, sym: &Vec<u8>, act: Action)
    ensures
        final(rules).deep_view() == rules_insert(old(rules).deep_view(), sym@, act.deep_view()),
{
    let ghost d = rules.deep_view();
    let j = find_rule(rules, sym);
    let rule = Rule { symbol: copy_bytes(sym), action: act };
    proof {
        lemma_rule_pos(d, sym@);
    }
    if j < rules.len() {
        let ghost shallow = rules@;
        rules.remove(j);
        let ghost shallow2 = rules@;
        rules.insert(j, rule);
        proof {
            assert(rules@ == shallow2.insert(j as int, rule));
            assert(rules.deep_view() =~~= d.update(j as int, rule.deep_view()));
            assert(rule.deep_view() =~~= RuleV { symbol: sym@, action: act.deep_view() });
            assert(rules.deep_view() == rules_insert(d, sym@, act.deep_view()));
        }
    } else {
        rules.push(rule);
        proof {
            assert(rules.deep_view() =~~= d.push(rule.deep_view()));
            assert(rule.deep_view() =~~= RuleV { symbol: sym@, action: act.deep_view() });
            assert(rules.deep_view() == rules_insert(d, sym@, act.deep_view()));
        }
    }
}

/// Record the transition `(st, sym) -> act` in the table.
fn table_insert_exec(table: &mut Vec<StateRules>, st: &Vec<u8>, sym: &Vec<u8>, act: Action)
    ensures
        final(table).deep_view() == table_insert(
            old(table).deep_view(),
            st@,
            sym@,
            act.deep_view(),
        ),
{
    let ghost d = table.deep_view();
    let ghost actv = act.deep_view();
    let i = find_state(table, st);
    proof {
        lemma_state_pos(d, st@);
    }
    if i < table.len() {
        let mut entry = table.remove(i);
        proof {
            assert(entry.deep_view() == d[i as int]);
        }
        rules_insert_exec(&mut entry.rules, sym, act);
        let ghost shallow = table@;
        table.insert(i, entry);
        proof {
            assert(table@ == shallow.insert(i as int, entry));
            assert(entry.deep_view() =~~= StateRulesV {
                state: d[i as int].state,
                rules: rules_insert(d[i as int].rules, sym@, actv),
            });
            assert(table.deep_view() =~~= d.update(i as int, entry.deep_view()));
            assert(table.deep_view() == table_insert(d, st@, sym@, actv));
        }
    } else {
        let mut rules: Vec<Rule> = Vec::new();
        rules.push(Rule { symbol: copy_bytes(sym), action: act });
        let entry = StateRules { state: copy_bytes(st), rules };
        proof {
            assert(entry.deep_view() =~~= StateRulesV {
                state: st@,
                rules: seq![RuleV { symbol: sym@, action: actv }],
            });
        }
        table.push(entry);
        proof {
            assert(table.deep_view() =~~= d.push(entry.deep_view()));
            assert(table.deep_view() == table_insert(d, st@, sym@, actv));
        }
    }
}

/// Fold whitespace-tokenized transition lines into the transition table.
/// Each line must read `state symbol write_symbol direction next_state`;
/// extra tokens are ignored, and a line with fewer than five tokens is the
/// `TruncatedTransition` error. A repeated `(state, symbol)` pair keeps its
/// first position but takes the later action.
pub fn parse_transitions(s: Vec<Vec<Vec<u8>>>) -> (r: Result<Vec<StateRules>, ParseError>)
    ensures
        match r {
            Ok(t) => {
                &&& lines_ok(s.deep_view())
                &&& t.deep_view() == table_of(s.deep_view())
                &&& table_wf(t.deep_view())
            },
            Err(e) => {
                &&& e == ParseError::TruncatedTransition
                &&& !lines_ok(s.deep_view())
            },
        },
{
    broadcast use crate::machine::lemma_vec_u8_deep_view;

    let ghost d = s.deep_view();
    let n = s.len();
    let mut table: Vec<StateRules> = Vec::new();
    let mut idx: usize = 0;
    while idx < n
        invariant
            n == s@.len(),
            d == s.deep_view(),
            0 <= idx <= n,
            lines_ok(d.take(idx as int)),
            table.deep_view() == table_of(d.take(idx as int)),
        decreases n - idx,
    {
        let line = &s[idx];
        proof {
            assert(d[idx as int] == s@[idx as int].deep_view());
        }
        if line.len() < 5 {
            proof {
                assert(d[idx as int].len() < 5);
            }
            return Err(ParseError::TruncatedTransition);
        }
        let act = Action {
            write_symbol: copy_bytes(&line[2]),
            direction: copy_bytes(&line[3]),
            next_state: copy_bytes(&line[4]),
        };
        proof {
            assert(d[idx as int][2] == line@[2]@);
            assert(d[idx as int][3] == line@[3]@);
            assert(d[idx as int][4] == line@[4]@);
            assert(act.deep_view() =~~= ActionV {
                write_symbol: d[idx as int][2],
                direction: d[idx as int][3],
                next_state: d[idx as int][4],
            });
        }
        table_insert_exec(&mut table, &line[0], &line[1], act);
        proof {
            assert(d[idx as int][0] == line@[0]@);
            assert(d[idx as int][1] == line@[1]@);
            assert(d.take(idx + 1).drop_last() =~= d.take(idx as int));
            assert(d.take(idx + 1).last() == d[idx as int]);
            assert(table.deep_view() == table_of(d.take(idx + 1)));
            assert forall|k: int| 0 <= k < idx + 1 implies (#[trigger] d.take(idx + 1)[k]).len()
                >= 5 by {
                assert(d.take(idx + 1)[k] == d[k]);
                if k < idx {
                    assert(d.take(idx as int)[k] == d[k]);
                }
            }
        }
        idx += 1;
    }
    proof {
        assert(d.take(n as int) =~= d);
        lemma_table_of_wf(d);
    }
    Ok(table)
}

/// The machine description denoted by raw input text, or the first error
/// in it: the four header lines are demanded in order (a missing or blank
/// line is the corresponding `Missing...` error, an unmarked tape line is
/// `MissingCursorMarker`), and the remaining lines are folded into the
/// transition table.
pub open spec fn parse_spec(s: Seq<u8>) -> Result<TuringMachineV, ParseError> {
    let ls = lines_spec(s);
    if ls.len() == 0 {
        Err(ParseError::MissingTape)
    } else {
        let toks = split_ws_spec(ls[0]);
        if marker_pos(toks) == toks.len() {
            Err(ParseError::MissingCursorMarker)
        } else if ls.len() < 2 || split_ws_spec(ls[1]).len() == 0 {
            Err(ParseError::MissingInitState)
        } else if ls.len() < 3 || split_ws_spec(ls[2]).len() == 0 {
            Err(ParseError::MissingAcceptState)
        } else if ls.len() < 4 || split_ws_spec(ls[3]).len() == 0 {
            Err(ParseError::MissingRejectState)
        } else {
            let tlines = ls.skip(4).map_values(|l: Seq<u8>| split_ws_spec(l));
            if !lines_ok(tlines) {
                Err(ParseError::TruncatedTransition)
            } else {
                Ok(
                    TuringMachineV {
                        tape: tape_of(toks),
                        cursor: marker_pos(toks),
                        init_state: split_ws_spec(ls[1])[0],
                        accept_state: split_ws_spec(ls[2])[0],
                        reject_state: split_ws_spec(ls[3])[0],
                        transitions: table_of(tlines),
                    },
                )
            }
        }
    }
}

impl TuringMachine {
    /// Build the machine description from the raw input text, reporting the
    /// first malformed part of it. A successfully built machine is well
    /// formed: the head starts on a real cell and the table holds each
    /// state, and each symbol within a state, at most once.
    pub fn from_text(src: &Vec<u8>) -> (r: Result<TuringMachine, ParseError>)
        ensures
            match r {
                Ok(m) => {
                    &&& parse_spec(src@) == Ok::<TuringMachineV, ParseError>(m.deep_view())
                    &&& m.deep_view().wf()
                },
                Err(e) => parse_spec(src@) == Err::<TuringMachineV, ParseError>(e),
            },
    {
        broadcast use crate::machine::lemma_vec_u8_deep_view;

        let ls = lines(src);
        let ghost lsv = lines_spec(src@);
        if ls.len() == 0 {
            return Err(ParseError::MissingTape);
        }
        proof {
            assert(lsv[0] == ls@[0]@);
        }
        let tape_toks = split_ws(&ls[0]);
        let tape_cursor = match parse_tape(tape_toks) {
            Ok(p) => p,
            Err(e) => {
                return Err(e);
            },
        };
        let tape = tape_cursor.0;
        let cursor = tape_cursor.1;
        if ls.len() < 2 {
            return Err(ParseError::MissingInitState);
        }
        proof {
            assert(lsv[1] == ls@[1]@);
        }
        let mut t1 = split_ws(&ls[1]);
        if t1.len() == 0 {
            return Err(ParseError::MissingInitState);
        }
        let init_state = t1.remove(0);
        proof {
            assert(init_state@ == split_ws_spec(lsv[1])[0]);
        }
        if ls.len() < 3 {
            return Err(ParseError::MissingAcceptState);
        }
        proof {
            assert(lsv[2] == ls@[2]@);
        }
        let mut t2 = split_ws(&ls[2]);
        if t2.len() == 0 {
            return Err(ParseError::MissingAcceptState);
        }
        let accept_state = t2.remove(0);
        proof {
            assert(accept_state@ == split_ws_spec(lsv[2])[0]);
        }
        if ls.len() < 4 {
            return Err(ParseError::MissingRejectState);
        }
        proof {
            assert(lsv[3] == ls@[3]@);
        }
        let mut t3 = split_ws(&ls[3]);
        if t3.len() == 0 {
            return Err(ParseError::MissingRejectState);
        }
        let reject_state = t3.remove(0);
        proof {
            assert(reject_state@ == split_ws_spec(lsv[3])[0]);
        }
        let ghost target = lsv.skip(4).map_values(|l: Seq<u8>| split_ws_spec(l));
        let mut tlines: Vec<Vec<Vec<u8>>> = Vec::new();
        let mut idx: usize = 4;
        while idx < ls.len()
            invariant
                4 <= idx <= ls@.len(),
                lsv == ls.deep_view(),
                target == lsv.skip(4).map_values(|l: Seq<u8>| split_ws_spec(l)),
                tlines.deep_view() == target.take(idx - 4),
            decreases ls@.len() - idx,
        {
            let toks = split_ws(&ls[idx]);
            let ghost pre = tlines.deep_view();
            tlines.push(toks);
            proof {
                assert(lsv[idx as int] == ls@[idx as int]@);
                assert(target[idx - 4] == split_ws_spec(lsv.skip(4)[idx - 4]));
                assert(lsv.skip(4)[idx - 4] == lsv[idx as int]);
                assert(tlines.deep_view() =~~= pre.push(toks.deep_view()));
                assert(tlines.deep_view() =~= target.take(idx - 4 + 1));
            }
            idx += 1;
        }
        proof {
            assert(target.take(ls@.len() - 4) =~= target);
        }
        let table = match parse_transitions(tlines) {
            Ok(t) => t,
            Err(e) => {
                return Err(e);
            },
        };
        let m = TuringMachine {
            tape,
            cursor,
            init_state,
            accept_state,
            reject_state,
            transitions: table,
        };
        proof {
            assert(m.deep_view() =~~= parse_spec(src@)->Ok_0);
            assert(parse_spec(src@) == Ok::<TuringMachineV, ParseError>(m.deep_view()));
            assert(m.deep_view().wf());
        }
        Ok(m)
    }
}

} // verus!
