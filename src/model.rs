use vstd::prelude::*;
use vstd::utf8::encode_utf8;
use crate::table::{RuleTable, StateChange, initial_state, eof_type};
use crate::matcher::{Selection, select_rule};

verus! {

/// The byte value of a line feed.
pub const NEWLINE: u8 = 10;

/// The byte value of `$`, the text of the end-of-stream token.
pub const EOF_BYTE: u8 = 36;

/// The state of a scan, as far as later calls can observe it.
pub struct LexModel {
    pub source: Seq<u8>,
    pub cursor: nat,
    /// The start-condition stack, bottom first.
    pub states: Seq<Seq<char>>,
    /// The 1-based line of the cursor.
    pub line: nat,
    /// The column at which the last match ended.
    pub column: nat,
    /// The offset at which the current line begins.
    pub line_begin: nat,
}

/// A token: its kind, its text, and where it stands in the source.
pub struct TokenModel {
    pub kind: i32,
    pub text: Seq<u8>,
    pub start_offset: nat,
    pub end_offset: nat,
    pub start_line: nat,
    pub end_line: nat,
    pub start_column: nat,
    pub end_column: nat,
}

/// What one request for a token yields.
pub enum Scanned {
    Token(TokenModel),
    /// No rule of the current start condition matches at the cursor.
    UnexpectedToken { character: Seq<u8>, line: nat, column: nat, line_text: Seq<u8> },
    /// A token type with no kind in the table.
    UnknownTokenType { name: Seq<char> },
    /// A start condition that the table does not list.
    UnknownState { name: Seq<char> },
    /// A rule whose pattern does not compile.
    InvalidPattern { rule: nat },
}

/// The state in effect: the top of the stack, or the initial state when the
/// stack is empty.
pub open spec fn top_state(states: Seq<Seq<char>>) -> Seq<char> {
    if states.len() == 0 {
        initial_state()
    } else {
        states.last()
    }
}

/// The stack after a rule's change.
pub open spec fn apply_change(states: Seq<Seq<char>>, change: StateChange) -> Seq<Seq<char>> {
    match change {
        StateChange::Keep => states,
        StateChange::Push(s) => states.push(s@),
        StateChange::Pop => if states.len() == 0 {
            states
        } else {
            states.drop_last()
        },
    }
}

/// The number of line feeds in `src[lo..hi]`.
pub open spec fn newlines_in(src: Seq<u8>, lo: int, hi: int) -> nat
    decreases hi - lo,
{
    if hi <= lo {
        0
    } else {
        newlines_in(src, lo, hi - 1) + if src[hi - 1] == NEWLINE {
            1nat
        } else {
            0nat
        }
    }
}

/// The offset just after the last line feed in `src[lo..hi]`, or `prev` when
/// there is none.
pub open spec fn line_begin_in(src: Seq<u8>, lo: int, hi: int, prev: nat) -> nat
    decreases hi - lo,
{
    if hi <= lo {
        prev
    } else if src[hi - 1] == NEWLINE {
        hi as nat
    } else {
        line_begin_in(src, lo, hi - 1, prev)
    }
}

/// The offset of the first line feed at or after `from`, or the length of
/// `src` when there is none.
pub open spec fn line_end(src: Seq<u8>, from: int) -> nat
    decreases src.len() - from,
{
    if from < 0 || from >= src.len() {
        src.len()
    } else if src[from] == NEWLINE {
        from as nat
    } else {
        line_end(src, from + 1)
    }
}

/// The invariant of a scan state.
pub open spec fn model_wf(m: LexModel) -> bool {
    &&& m.line_begin <= m.cursor
    &&& m.line_begin <= m.source.len()
    &&& m.cursor <= m.source.len() + 1
    &&& 1 <= m.line <= m.cursor + 1
    &&& m.column <= m.source.len()
}

/// The location of a match of `n` bytes at the cursor.
pub open spec fn match_location(m: LexModel, n: nat) -> TokenModel {
    let end = m.cursor + n;
    let line = m.line + newlines_in(m.source, m.cursor as int, end as int);
    let begin = line_begin_in(m.source, m.cursor as int, end as int, m.line_begin);
    TokenModel {
        kind: 0,
        text: m.source.subrange(m.cursor as int, end as int),
        start_offset: m.cursor,
        end_offset: end,
        start_line: m.line,
        end_line: line,
        start_column: (m.cursor - m.line_begin) as nat,
        end_column: (end - begin) as nat,
    }
}

/// The state after a match of `n` bytes at the cursor, before its action
/// runs: an empty match moves the cursor one byte on.
pub open spec fn after_match(m: LexModel, n: nat) -> LexModel {
    let loc = match_location(m, n);
    LexModel {
        cursor: if n == 0 {
            m.cursor + n + 1
        } else {
            m.cursor + n
        },
        line: loc.end_line,
        column: loc.end_column,
        line_begin: line_begin_in(m.source, m.cursor as int, (m.cursor + n) as int, m.line_begin),
        ..m
    }
}

/// The end-of-stream token, or the error for a table without its kind.
pub open spec fn end_of_stream(table: RuleTable, m: LexModel) -> Scanned {
    match table.kind_of(eof_type()) {
        Some(k) => Scanned::Token(
            TokenModel {
                kind: k,
                text: seq![EOF_BYTE],
                start_offset: m.source.len(),
                end_offset: m.source.len(),
                start_line: m.line,
                end_line: m.line,
                start_column: m.column,
                end_column: m.column,
            },
        ),
        None => Scanned::UnknownTokenType { name: eof_type() },
    }
}

/// The number of UTF-8 continuation bytes, at most `max`, from `from` on.
pub open spec fn continuation_run(src: Seq<u8>, from: int, max: nat) -> nat
    decreases max,
{
    if max == 0 || from < 0 || from >= src.len() || !(0x80 <= src[from] < 0xC0) {
        0
    } else {
        1 + continuation_run(src, from + 1, (max - 1) as nat)
    }
}

/// The end of the character that begins at `c`: its lead byte and the
/// continuation bytes (at most three) that follow it.
pub open spec fn char_end(src: Seq<u8>, c: int) -> int {
    c + 1 + continuation_run(src, c + 1, 3)
}

/// The error for a byte at the cursor that no rule matches.
pub open spec fn unexpected(m: LexModel) -> Scanned {
    Scanned::UnexpectedToken {
        character: m.source.subrange(m.cursor as int, char_end(m.source, m.cursor as int)),
        line: m.line,
        column: m.column,
        line_text: m.source.subrange(m.line_begin as int, line_end(m.source, m.line_begin as int) as int),
    }
}

/// The bytes of a rule's token text: the replacement when there is one,
/// else the matched bytes.
pub open spec fn token_text(replacement: Option<String>, matched: Seq<u8>) -> Seq<u8> {
    match replacement {
        Some(s) => encode_utf8(s@),
        None => matched,
    }
}

/// How the first step of a request ends: with an outcome, or with a rule
/// whose handler is still to run.
pub enum Step {
    Finished(Scanned),
    Matched { rule: nat, len: nat },
}

/// The first step of a request: pick the rule that matches at the cursor
/// and record the location of its match; or end the request at the end of
/// the stream or on an error.
pub open spec fn match_step(table: RuleTable, m: LexModel) -> (LexModel, Step) {
    if m.cursor > m.source.len() {
        (m, Step::Finished(end_of_stream(table, m)))
    } else {
        let state = top_state(m.states);
        match table.condition_of(state) {
            None => (m, Step::Finished(Scanned::UnknownState { name: state })),
            Some(c) => {
                let input = m.source.subrange(m.cursor as int, m.source.len() as int);
                match select_rule(table.rules@, table.conditions@[c].rules@, input, 0) {
                    Selection::BadPattern { rule } => (m, Step::Finished(Scanned::InvalidPattern { rule })),
                    Selection::NoMatch => if m.cursor == m.source.len() {
                        let m2 = LexModel { cursor: m.cursor + 1, ..m };
                        (m2, Step::Finished(end_of_stream(table, m2)))
                    } else {
                        (m, Step::Finished(unexpected(m)))
                    },
                    Selection::Matched { rule, len } => (after_match(m, len), Step::Matched { rule, len }),
                }
            },
        }
    }
}

/// The last step of a request, once the handler has named the token type:
/// `None` for the empty name (scan again), else the token with the current
/// text at the location of the match, or the error for a type without kind.
pub open spec fn finish_step(table: RuleTable, token_type: Seq<char>, text: Seq<u8>, loc: TokenModel) -> Option<Scanned> {
    if token_type.len() == 0 {
        None
    } else {
        Some(
            match table.kind_of(token_type) {
                Some(kind) => Scanned::Token(TokenModel { kind, text, ..loc }),
                None => Scanned::UnknownTokenType { name: token_type },
            },
        )
    }
}

/// One request for a token, with each rule's `Action` as its handler: the new
/// state and what is handed out. Matches whose rule has the empty token type
/// are discarded and the scan goes on.
pub open spec fn next_token(table: RuleTable, m: LexModel) -> (LexModel, Scanned)
    decreases m.source.len() + 1 - m.cursor,
{
    match match_step(table, m) {
        (m1, Step::Finished(s)) => (m1, s),
        (m1, Step::Matched { rule, len }) => {
            let action = table.rules@[rule as int].action;
            let m2 = LexModel { states: apply_change(m1.states, action.state_change), ..m1 };
            let loc = match_location(m, len);
            match finish_step(table, action.token_type@, token_text(action.replacement, loc.text), loc) {
                Some(s) => (m2, s),
                None => if m.cursor < m2.cursor <= m.source.len() + 1 {
                    next_token(table, m2)
                } else {
                    (m2, Scanned::UnknownTokenType { name: action.token_type@ })
                },
            }
        },
    }
}

/// The state in which a scan of `source` begins.
pub open spec fn initial_model(source: Seq<u8>) -> LexModel {
    LexModel {
        source,
        cursor: 0,
        states: seq![initial_state()],
        line: 1,
        column: 0,
        line_begin: 0,
    }
}

/// A match never runs past the end of its input.
pub proof fn lemma_selection_len(rules: Seq<crate::table::Rule>, order: Seq<usize>, input: Seq<u8>, from: int)
    ensures
        select_rule(rules, order, input, from) matches Selection::Matched { len, .. } ==> len <= input.len(),
    decreases order.len() - from,
{
    if 0 <= from < order.len() {
        lemma_selection_len(rules, order, input, from + 1);
    }
}

/// Line feeds in a span are at most its length, and the line begins within it
/// or at `prev`.
pub proof fn lemma_span_bounds(src: Seq<u8>, lo: int, hi: int, prev: nat)
    requires
        lo <= hi,
        prev <= lo,
    ensures
        newlines_in(src, lo, hi) <= hi - lo,
        prev <= line_begin_in(src, lo, hi, prev) <= hi,
    decreases hi - lo,
{
    if hi > lo {
        lemma_span_bounds(src, lo, hi - 1, prev);
    }
}

/// A match keeps the state well formed.
pub proof fn lemma_after_match_wf(m: LexModel, n: nat)
    requires
        model_wf(m),
        m.cursor + n <= m.source.len(),
    ensures
        model_wf(after_match(m, n)),
        after_match(m, n).cursor > m.cursor,
{
    lemma_span_bounds(m.source, m.cursor as int, (m.cursor + n) as int, m.line_begin);
}

} // verus!
