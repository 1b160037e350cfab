//! Properties of scanning that hold for every rule table and source.

use vstd::prelude::*;
use crate::table::{Rule, RuleTable, StartCondition, first_condition};
use crate::matcher::{Selection, select_rule, match_at_start, regex_compiles};
use crate::model::{
    LexModel, Scanned, model_wf, newlines_in, line_begin_in, after_match, end_of_stream,
    next_token, initial_model, lemma_selection_len, lemma_after_match_wf,
};

verus! {

/// The outcomes of `n` successive requests for a token, starting from `m`.
pub open spec fn scans(table: RuleTable, m: LexModel, n: nat) -> Seq<Scanned>
    decreases n,
{
    if n == 0 {
        Seq::empty()
    } else {
        let (m2, s) = next_token(table, m);
        seq![s] + scans(table, m2, (n - 1) as nat)
    }
}

/// Two scans of the same source with the same table, each begun from a fresh
/// reset, hand out the same tokens, whatever the tokenizers did before.
pub proof fn lemma_fresh_scans_agree(table: RuleTable, m1: LexModel, m2: LexModel, source: Seq<u8>, n: nat)
    requires
        m1 == initial_model(source),
        m2 == initial_model(source),
    ensures
        scans(table, m1, n) == scans(table, m2, n),
{
}

/// Rules before `from` that compile and do not match leave the outcome to the
/// rules from `from` on.
proof fn lemma_skip_prefix(rules: Seq<Rule>, order: Seq<usize>, input: Seq<u8>, from: int, a: int)
    requires
        0 <= from <= a < order.len(),
        forall|k: int|
            from <= k < a ==> regex_compiles(#[trigger] rules[order[k] as int].pattern@)
                && match_at_start(rules[order[k] as int].pattern@, input) is None,
    ensures
        select_rule(rules, order, input, from) == select_rule(rules, order, input, a),
    decreases a - from,
{
    if from < a {
        assert(regex_compiles(rules[order[from] as int].pattern@));
        lemma_skip_prefix(rules, order, input, from + 1, a);
    }
}

/// When rule A is the first listed rule that matches at the cursor, A is
/// chosen, even where a rule B listed after it has a strictly longer match.
pub proof fn lemma_priority_over_length(rules: Seq<Rule>, order: Seq<usize>, input: Seq<u8>, a: int, b: int)
    requires
        0 <= a < b < order.len(),
        forall|k: int|
            0 <= k < a ==> regex_compiles(#[trigger] rules[order[k] as int].pattern@)
                && match_at_start(rules[order[k] as int].pattern@, input) is None,
        regex_compiles(rules[order[a] as int].pattern@),
        match_at_start(rules[order[a] as int].pattern@, input) is Some,
        match_at_start(rules[order[b] as int].pattern@, input) is Some,
        match_at_start(rules[order[b] as int].pattern@, input)->0 > match_at_start(
            rules[order[a] as int].pattern@,
            input,
        )->0,
    ensures
        select_rule(rules, order, input, 0) == (Selection::Matched {
            rule: order[a] as nat,
            len: match_at_start(rules[order[a] as int].pattern@, input)->0,
        }),
{
    lemma_skip_prefix(rules, order, input, 0, a);
}

/// In a request, when rule A is the first rule listed for the current start
/// condition that matches at the cursor, A's match makes the token, even where
/// a rule B listed after it has a strictly longer match: the token is A's
/// text at the cursor, with the kind of A's token type.
pub proof fn lemma_priority_in_request(table: RuleTable, m: LexModel, c: int, a: int, b: int)
    requires
        table.wf(),
        model_wf(m),
        m.cursor <= m.source.len(),
        table.condition_of(crate::model::top_state(m.states)) == Some(c),
        ({
            let order = table.conditions@[c].rules@;
            let rules = table.rules@;
            let input = m.source.subrange(m.cursor as int, m.source.len() as int);
            &&& 0 <= a < b < order.len()
            &&& forall|k: int|
                0 <= k < a ==> regex_compiles(#[trigger] rules[order[k] as int].pattern@)
                    && match_at_start(rules[order[k] as int].pattern@, input) is None
            &&& regex_compiles(rules[order[a] as int].pattern@)
            &&& match_at_start(rules[order[a] as int].pattern@, input) is Some
            &&& match_at_start(rules[order[b] as int].pattern@, input) is Some
            &&& match_at_start(rules[order[b] as int].pattern@, input)->0 > match_at_start(
                rules[order[a] as int].pattern@,
                input,
            )->0
            &&& rules[order[a] as int].action.token_type@.len() > 0
            &&& rules[order[a] as int].action.replacement is None
            &&& table.kind_of(rules[order[a] as int].action.token_type@) is Some
        }),
    ensures
        ({
            let order = table.conditions@[c].rules@;
            let rule = table.rules@[order[a] as int];
            let input = m.source.subrange(m.cursor as int, m.source.len() as int);
            let len = match_at_start(rule.pattern@, input)->0;
            &&& next_token(table, m).1 == Scanned::Token(
                crate::model::TokenModel {
                    kind: table.kind_of(rule.action.token_type@)->0,
                    ..crate::model::match_location(m, len)
                },
            )
            &&& next_token(table, m).0.cursor == if len == 0 {
                m.cursor + 1
            } else {
                m.cursor + len
            }
        }),
{
    let input = m.source.subrange(m.cursor as int, m.source.len() as int);
    lemma_priority_over_length(table.rules@, table.conditions@[c].rules@, input, a, b);
}

/// Only the rules listed for the current start condition are tried: the
/// chosen rule is one of them, and rules not listed can be changed at will
/// without changing the outcome.
pub proof fn lemma_state_isolation(
    rules1: Seq<Rule>,
    rules2: Seq<Rule>,
    order: Seq<usize>,
    input: Seq<u8>,
    from: int,
)
    requires
        0 <= from,
        forall|k: int|
            0 <= k < order.len() ==> (#[trigger] rules1[order[k] as int]).pattern@
                == rules2[order[k] as int].pattern@,
    ensures
        select_rule(rules1, order, input, from) == select_rule(rules2, order, input, from),
        select_rule(rules1, order, input, from) matches Selection::Matched { rule, .. } ==> exists|
            k: int,
        |
            from <= k < order.len() && order[k] == rule,
    decreases order.len() - from,
{
    if from < order.len() {
        assert(rules1[order[from] as int].pattern@ == rules2[order[from] as int].pattern@);
        lemma_state_isolation(rules1, rules2, order, input, from + 1);
    }
}

/// Rules that no start condition lists are never tried nor run: two tables
/// that differ only in such rules give every request the same outcome.
pub proof fn lemma_unlisted_rules_unused(t1: RuleTable, t2: RuleTable, m: LexModel)
    requires
        t1.conditions@ == t2.conditions@,
        t1.kinds@ == t2.kinds@,
        forall|c: int, k: int|
            0 <= c < t1.conditions@.len() && 0 <= k < t1.conditions@[c].rules@.len() ==> t1.rules@[#[trigger] t1.conditions@[c].rules@[k] as int]
                == t2.rules@[t1.conditions@[c].rules@[k] as int],
    ensures
        next_token(t1, m) == next_token(t2, m),
    decreases m.source.len() + 1 - m.cursor,
{
    assert(t1.kind_of(crate::table::eof_type()) == t2.kind_of(crate::table::eof_type()));
    if m.cursor <= m.source.len() {
        let state = crate::model::top_state(m.states);
        assert(t1.condition_of(state) == t2.condition_of(state));
        if let Some(c) = t1.condition_of(state) {
            lemma_condition_in_range(t1.conditions@, state, 0);
            let order = t1.conditions@[c].rules@;
            let input = m.source.subrange(m.cursor as int, m.source.len() as int);
            assert forall|k: int| 0 <= k < order.len() implies (#[trigger] t1.rules@[order[k] as int]).pattern@
                == t2.rules@[order[k] as int].pattern@ by {
                assert(t1.rules@[t1.conditions@[c].rules@[k] as int] == t2.rules@[t1.conditions@[c].rules@[k] as int]);
            }
            lemma_state_isolation(t1.rules@, t2.rules@, order, input, 0);
            lemma_selected_listed(t1.rules@, order, input, 0);
            match select_rule(t1.rules@, order, input, 0) {
                Selection::Matched { rule, len } => {
                    let k = choose|k: int| 0 <= k < order.len() && order[k] == rule;
                    assert(t1.rules@[t1.conditions@[c].rules@[k] as int] == t2.rules@[t1.conditions@[c].rules@[k] as int]);
                    let action = t1.rules@[rule as int].action;
                    assert(t1.kind_of(action.token_type@) == t2.kind_of(action.token_type@));
                    let m1 = after_match(m, len);
                    let m2 = LexModel {
                        states: crate::model::apply_change(m1.states, action.state_change),
                        ..m1
                    };
                    if m.cursor < m2.cursor <= m.source.len() + 1 {
                        lemma_unlisted_rules_unused(t1, t2, m2);
                    }
                },
                _ => {},
            }
        }
    }
}

/// A successful request for a token hands out a token that begins at or after
/// the cursor and ends no earlier than it begins, and moves the cursor
/// forward; once the end of the stream has been passed, the state is left as
/// it is.
pub proof fn lemma_cursor_monotonic(table: RuleTable, m: LexModel)
    requires
        table.wf(),
        model_wf(m),
        next_token(table, m).1 is Token,
    ensures
        m.cursor <= m.source.len() ==> next_token(table, m).1->Token_0.start_offset >= m.cursor
            && next_token(table, m).0.cursor > m.cursor,
        next_token(table, m).1->Token_0.end_offset >= next_token(table, m).1->Token_0.start_offset,
        m.cursor > m.source.len() ==> next_token(table, m).0 == m,
    decreases m.source.len() + 1 - m.cursor,
{
    if m.cursor <= m.source.len() {
        let state = crate::model::top_state(m.states);
        let c = table.condition_of(state)->0;
        let input = m.source.subrange(m.cursor as int, m.source.len() as int);
        let order = table.conditions@[c].rules@;
        lemma_selection_len(table.rules@, order, input, 0);
        match select_rule(table.rules@, order, input, 0) {
            Selection::Matched { rule, len } => {
                lemma_after_match_wf(m, len);
                let action = table.rules@[rule as int].action;
                let m1 = after_match(m, len);
                let m2 = LexModel {
                    states: crate::model::apply_change(m1.states, action.state_change),
                    ..m1
                };
                if action.token_type@.len() == 0 {
                    lemma_cursor_monotonic(table, m2);
                }
            },
            _ => {},
        }
    }
}

/// The position of the cursor agrees with the line feeds before it: its line
/// is one more than their number, its line begins after the last of them, and
/// the column of the last match is the cursor's distance from that beginning.
/// Past the end of the source, the end stands for the cursor.
pub open spec fn positions_agree(m: LexModel) -> bool {
    let c = if m.cursor <= m.source.len() {
        m.cursor
    } else {
        m.source.len()
    };
    &&& m.line == 1 + newlines_in(m.source, 0, c as int)
    &&& m.line_begin == line_begin_in(m.source, 0, c as int, 0)
    &&& m.column == c - m.line_begin
}

/// No rule of the table matches the empty string before the end of `source`
/// (an empty match there steps over a byte without counting it).
pub open spec fn no_empty_match_inside(table: RuleTable, source: Seq<u8>) -> bool {
    forall|i: int, pos: int|
        0 <= i < table.rules@.len() && 0 <= pos < source.len() ==> #[trigger] match_at_start(
            table.rules@[i].pattern@,
            source.subrange(pos, source.len() as int),
        ) != Some(0nat)
}

/// Counting line feeds over two adjacent spans counts them over the whole.
proof fn lemma_span_split(src: Seq<u8>, c: int, hi: int)
    requires
        0 <= c <= hi,
    ensures
        newlines_in(src, 0, c) + newlines_in(src, c, hi) == newlines_in(src, 0, hi),
        line_begin_in(src, c, hi, line_begin_in(src, 0, c, 0)) == line_begin_in(src, 0, hi, 0),
    decreases hi - c,
{
    if hi > c {
        lemma_span_split(src, c, hi - 1);
    }
}

/// A condition found by name is one of the table's.
proof fn lemma_condition_in_range(conds: Seq<StartCondition>, name: Seq<char>, from: int)
    ensures
        first_condition(conds, name, from) matches Some(c) ==> 0 <= c < conds.len(),
    decreases conds.len() - from,
{
    if 0 <= from < conds.len() {
        lemma_condition_in_range(conds, name, from + 1);
    }
}

/// A selected rule is one of the listed rules, and its match is the one
/// reported.
proof fn lemma_selected_listed(rules: Seq<Rule>, order: Seq<usize>, input: Seq<u8>, from: int)
    requires
        0 <= from,
    ensures
        select_rule(rules, order, input, from) matches Selection::Matched { rule, len } ==> (exists|
            k: int,
        |
            0 <= k < order.len() && order[k] == rule) && match_at_start(rules[rule as int].pattern@, input)
            == Some(len),
    decreases order.len() - from,
{
    if from < order.len() {
        lemma_selected_listed(rules, order, input, from + 1);
    }
}

/// From a state whose positions agree with the source, every token handed out
/// starts at line `k + 1`, where `k` is the number of line feeds before it, and
/// at the column that is its distance from the start of that line; the
/// positions still agree afterwards while the cursor is within the source.
pub proof fn lemma_position_accounting(table: RuleTable, m: LexModel)
    requires
        table.wf(),
        model_wf(m),
        positions_agree(m),
        no_empty_match_inside(table, m.source),
    ensures
        next_token(table, m).1 matches Scanned::Token(t) ==> t.start_line == 1 + newlines_in(
            m.source,
            0,
            t.start_offset as int,
        ) && t.start_column == t.start_offset - line_begin_in(m.source, 0, t.start_offset as int, 0),
        positions_agree(next_token(table, m).0),
        model_wf(next_token(table, m).0),
        next_token(table, m).0.source == m.source,
    decreases m.source.len() + 1 - m.cursor,
{
    if m.cursor > m.source.len() {
        return;
    }
    let state = crate::model::top_state(m.states);
    if let Some(c) = table.condition_of(state) {
        let input = m.source.subrange(m.cursor as int, m.source.len() as int);
        let order = table.conditions@[c].rules@;
        lemma_selection_len(table.rules@, order, input, 0);
        match select_rule(table.rules@, order, input, 0) {
            Selection::Matched { rule, len } => {
                lemma_selected_listed(table.rules@, order, input, 0);
                let k = choose|k: int| 0 <= k < order.len() && order[k] == rule;
                lemma_condition_in_range(table.conditions@, state, 0);
                assert(table.conditions@[c].rules@[k] < table.rules@.len());
                if m.cursor < m.source.len() {
                    assert(len != 0);
                }
                lemma_after_match_wf(m, len);
                lemma_span_split(m.source, m.cursor as int, (m.cursor + len) as int);
                let action = table.rules@[rule as int].action;
                let m1 = after_match(m, len);
                let m2 = LexModel {
                    states: crate::model::apply_change(m1.states, action.state_change),
                    ..m1
                };
                if action.token_type@.len() == 0 {
                    lemma_position_accounting(table, m2);
                }
            },
            _ => {},
        }
    }
}

/// Every token of a scan begun from a fresh reset starts at line `k + 1`,
/// where `k` is the number of line feeds before its start offset, and at the
/// column that is the distance from the start of that line.
pub proof fn lemma_scan_positions(table: RuleTable, source: Seq<u8>, n: nat)
    requires
        table.wf(),
        no_empty_match_inside(table, source),
    ensures
        scans(table, initial_model(source), n).len() == n,
        forall|i: int|
            0 <= i < n ==> (#[trigger] scans(table, initial_model(source), n)[i] matches Scanned::Token(
                t,
            ) ==> t.start_line == 1 + newlines_in(source, 0, t.start_offset as int) && t.start_column
                == t.start_offset - line_begin_in(source, 0, t.start_offset as int, 0)),
{
    lemma_positions_from(table, initial_model(source), n);
}

/// The positions of the tokens of `n` requests made from a state whose
/// positions agree with the source.
proof fn lemma_positions_from(table: RuleTable, m: LexModel, n: nat)
    requires
        table.wf(),
        model_wf(m),
        positions_agree(m),
        no_empty_match_inside(table, m.source),
    ensures
        scans(table, m, n).len() == n,
        forall|i: int|
            0 <= i < n ==> (#[trigger] scans(table, m, n)[i] matches Scanned::Token(t)
                ==> t.start_line == 1 + newlines_in(m.source, 0, t.start_offset as int)
                && t.start_column == t.start_offset - line_begin_in(
                m.source,
                0,
                t.start_offset as int,
                0,
            )),
    decreases n,
{
    if n > 0 {
        lemma_position_accounting(table, m);
        let m2 = next_token(table, m).0;
        lemma_positions_from(table, m2, (n - 1) as nat);
        assert(scans(table, m, n) == seq![next_token(table, m).1] + scans(table, m2, (n - 1) as nat));
    }
}

/// Once the cursor has passed the end of the source, each request hands out
/// the end-of-stream token and leaves the state as it is; no token is then
/// left to come, and the cursor is no longer at the end.
pub proof fn lemma_end_of_stream_idempotent(table: RuleTable, m: LexModel, n: nat)
    requires
        m.cursor > m.source.len(),
    ensures
        next_token(table, m) == (m, end_of_stream(table, m)),
        !(m.cursor <= m.source.len()),
        m.cursor != m.source.len(),
        scans(table, m, n).len() == n,
        forall|i: int| 0 <= i < n ==> #[trigger] scans(table, m, n)[i] == end_of_stream(table, m),
    decreases n,
{
    if n > 0 {
        lemma_end_of_stream_idempotent(table, m, (n - 1) as nat);
        assert(scans(table, m, n) == seq![end_of_stream(table, m)] + scans(table, m, (n - 1) as nat));
    }
}

/// A successful request made with the cursor at the end of the source moves
/// the cursor one past the end: the cursor is at the end for one step only.
pub proof fn lemma_end_reached_once(table: RuleTable, m: LexModel)
    requires
        table.wf(),
        model_wf(m),
        m.cursor == m.source.len(),
        next_token(table, m).1 is Token,
    ensures
        next_token(table, m).0.cursor == m.source.len() + 1,
{
    let state = crate::model::top_state(m.states);
    let c = table.condition_of(state)->0;
    let input = m.source.subrange(m.cursor as int, m.source.len() as int);
    let order = table.conditions@[c].rules@;
    lemma_selection_len(table.rules@, order, input, 0);
    match select_rule(table.rules@, order, input, 0) {
        Selection::Matched { rule, len } => {
            let action = table.rules@[rule as int].action;
            let m1 = after_match(m, len);
            let m2 = LexModel {
                states: crate::model::apply_change(m1.states, action.state_change),
                ..m1
            };
            if action.token_type@.len() == 0 {
                lemma_end_of_stream_idempotent(table, m2, 0);
            }
        },
        _ => {},
    }
}

} // verus!
