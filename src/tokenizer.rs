use vstd::prelude::*;
use vstd::string::StringSliceAdditionalSpecFns;
use vstd::utf8::encode_utf8;
use crate::table::{RuleTable, StateChange, initial_state, eof_type};
use crate::matcher::first_matching_rule;
use crate::model::{
    LexModel, TokenModel, Scanned, model_wf, top_state, apply_change, newlines_in, line_begin_in,
    line_end, match_location, after_match, end_of_stream, unexpected, next_token, Step, match_step,
    finish_step, continuation_run, char_end,
    initial_model, lemma_selection_len, lemma_span_bounds, lemma_after_match_wf, NEWLINE, EOF_BYTE,
};

verus! {

/// A token handed out by the tokenizer.
pub struct Token {
    pub kind: i32,
    /// The matched bytes, or the replacement text of the rule.
    pub value: Vec<u8>,
    pub start_offset: usize,
    pub end_offset: usize,
    /// 1-based.
    pub start_line: usize,
    pub end_line: usize,
    /// 0-based.
    pub start_column: usize,
    pub end_column: usize,
}

impl View for Token {
    type V = TokenModel;

    open spec fn view(&self) -> TokenModel {
        TokenModel {
            kind: self.kind,
            text: self.value@,
            start_offset: self.start_offset as nat,
            end_offset: self.end_offset as nat,
            start_line: self.start_line as nat,
            end_line: self.end_line as nat,
            start_column: self.start_column as nat,
            end_column: self.end_column as nat,
        }
    }
}

/// Why a token could not be produced.
pub enum LexError {
    /// No rule of the current start condition matches at the cursor.
    UnexpectedToken {
        /// The bytes of the character at the cursor.
        character: Vec<u8>,
        line: usize,
        column: usize,
        /// The source line that holds the cursor, without its line feed.
        line_text: Vec<u8>,
    },
    /// A rule returned a token type that has no kind in the table.
    UnknownTokenType { name: String },
    /// The current start condition is not in the table.
    UnknownState { name: String },
    /// The pattern of this rule does not compile.
    InvalidPattern { rule: usize },
}

/// The byte value of a space.
pub const SPACE: u8 = 32;

/// The byte value of `^`.
pub const CARET: u8 = 94;

impl LexError {
    /// For an unexpected character: the text of its line, a line feed, and a
    /// line with `^` under its column. Empty for the other errors.
    pub fn pointer_lines(&self) -> (r: Vec<u8>)
        ensures
            match self {
                LexError::UnexpectedToken { column, line_text, .. } => r@ == line_text@ + seq![NEWLINE]
                    + Seq::new(*column as nat, |i: int| SPACE) + seq![CARET],
                _ => r@.len() == 0,
            },
    {
        match self {
            LexError::UnexpectedToken { column, line_text, .. } => {
                let mut r = copy_bytes(line_text.as_slice());
                r.push(NEWLINE);
                let ghost head = r@;
                let mut i: usize = 0;
                while i < *column
                    invariant
                        i <= *column,
                        r@ == head + Seq::new(i as nat, |k: int| SPACE),
                    decreases *column - i,
                {
                    r.push(SPACE);
                    i = i + 1;
                    assert(r@ =~= head + Seq::new(i as nat, |k: int| SPACE));
                }
                r.push(CARET);
                assert(r@ =~= line_text@ + seq![NEWLINE] + Seq::new(*column as nat, |i: int| SPACE) + seq![CARET]);
                r
            },
            _ => Vec::new(),
        }
    }
}

/// What a call to `get_next_token` yields, as a model.
pub open spec fn scanned(r: Result<Token, LexError>) -> Scanned {
    match r {
        Ok(t) => Scanned::Token(t@),
        Err(LexError::UnexpectedToken { character, line, column, line_text }) => Scanned::UnexpectedToken {
            character: character@,
            line: line as nat,
            column: column as nat,
            line_text: line_text@,
        },
        Err(LexError::UnknownTokenType { name }) => Scanned::UnknownTokenType { name: name@ },
        Err(LexError::UnknownState { name }) => Scanned::UnknownState { name: name@ },
        Err(LexError::InvalidPattern { rule }) => Scanned::InvalidPattern { rule: rule as nat },
    }
}

/// Copies a slice of bytes.
fn copy_bytes(b: &[u8]) -> (r: Vec<u8>)
    ensures
        r@ == b@,
{
    let mut r: Vec<u8> = Vec::new();
    let mut i: usize = 0;
    while i < b.len()
        invariant
            i <= b@.len(),
            r@ == b@.subrange(0, i as int),
        decreases b@.len() - i,
    {
        r.push(b[i]);
        i = i + 1;
        assert(r@ =~= b@.subrange(0, i as int));
    }
    assert(r@ =~= b@);
    r
}

/// A lexer that scans a source buffer with a rule table.
pub struct Tokenizer {
    table: RuleTable,
    source: Vec<u8>,
    cursor: usize,
    states: Vec<String>,
    current_line: usize,
    current_column: usize,
    current_line_begin_offset: usize,
    /// The text of the current match.
    yytext: Vec<u8>,
    /// Strings handed to the tokenizer by actions, kept while it lives.
    yybuffer: Vec<String>,
}

impl View for Tokenizer {
    type V = LexModel;

    closed spec fn view(&self) -> LexModel {
        LexModel {
            source: self.source@,
            cursor: self.cursor as nat,
            states: self.states@.map_values(|s: String| s@),
            line: self.current_line as nat,
            column: self.current_column as nat,
            line_begin: self.current_line_begin_offset as nat,
        }
    }
}

impl Tokenizer {
    /// The rule table the tokenizer scans with.
    pub closed spec fn rule_table(&self) -> RuleTable {
        self.table
    }

    /// The text of the current match.
    pub closed spec fn matched_text(&self) -> Seq<u8> {
        self.yytext@
    }

    /// The texts that actions handed to the tokenizer to keep, oldest first.
    pub closed spec fn kept_texts(&self) -> Seq<Seq<char>> {
        self.yybuffer@.map_values(|s: String| s@)
    }

    /// The invariant of a tokenizer.
    pub open spec fn inv(&self) -> bool {
        &&& self.rule_table().wf()
        &&& model_wf(self@)
        &&& self@.source.len() + 2 <= usize::MAX
    }

    /// Creates a tokenizer over an empty source; `init_string` binds a source.
    pub fn new(table: RuleTable) -> (r: Tokenizer)
        requires
            table.wf(),
        ensures
            r.inv(),
            r.rule_table() == table,
            r.kept_texts() == Seq::<Seq<char>>::empty(),
            r@ == (LexModel {
                source: Seq::empty(),
                cursor: 0,
                states: Seq::empty(),
                line: 1,
                column: 0,
                line_begin: 0,
            }),
    {
        let r = Tokenizer {
            table,
            source: Vec::new(),
            cursor: 0,
            states: Vec::new(),
            current_line: 1,
            current_column: 0,
            current_line_begin_offset: 0,
            yytext: Vec::new(),
            yybuffer: Vec::new(),
        };
        assert(r@.states =~= Seq::<Seq<char>>::empty());
        assert(r.kept_texts() =~= Seq::<Seq<char>>::empty());
        r
    }

    /// Binds a new source and resets the cursor, the positions and the
    /// start-condition stack; the rule table stays.
    pub fn init_string(&mut self, string: &str) -> (r: &mut Tokenizer)
        requires
            old(self).inv(),
            string.spec_bytes().len() + 2 <= usize::MAX,
        ensures
            r.inv(),
            r.rule_table() == old(self).rule_table(),
            r@ == initial_model(string.spec_bytes()),
            r.kept_texts() == old(self).kept_texts(),
            *final(self) == *final(r),
    {
        self.source = copy_bytes(string.as_bytes());
        self.states = Vec::new();
        self.states.push(initial_name());
        self.cursor = 0;
        self.current_line = 1;
        self.current_column = 0;
        self.current_line_begin_offset = 0;
        assert(self@.states =~= seq![initial_state()]);
        self
    }

    /// Replaces the text of the current match, keeping `s` with the texts
    /// the tokenizer holds.
    pub fn set_yytext(&mut self, s: String)
        requires
            old(self).inv(),
        ensures
            final(self).inv(),
            final(self)@ == old(self)@,
            final(self).rule_table() == old(self).rule_table(),
            final(self).matched_text() == encode_utf8(s@),
            final(self).kept_texts() == old(self).kept_texts().push(s@),
    {
        let text = copy_bytes(self.string_ref(s).as_bytes());
        self.yytext = text;
    }

    /// Keeps `s` for the life of the tokenizer and returns a view of it.
    pub fn string_ref(&mut self, s: String) -> (r: &str)
        requires
            old(self).inv(),
        ensures
            r@ == s@,
            final(self).inv(),
            final(self)@ == old(self)@,
            final(self).rule_table() == old(self).rule_table(),
            final(self).matched_text() == old(self).matched_text(),
            final(self).kept_texts() == old(self).kept_texts().push(s@),
    {
        self.yybuffer.push(s);
        assert(self.kept_texts() =~= old(self).kept_texts().push(s@));
        let n = self.yybuffer.len();
        self.yybuffer[n - 1].as_str()
    }
}

/// The name of the initial start condition.
fn initial_name() -> (r: String)
    ensures
        r@ == initial_state(),
{
    proof {
        reveal_strlit("INITIAL");
    }
    "INITIAL".to_owned()
}

/// The name of the end-of-stream token type.
fn eof_name() -> (r: String)
    ensures
        r@ == eof_type(),
{
    proof {
        reveal_strlit("$");
    }
    "$".to_owned()
}

impl Tokenizer {
    /// Whether a token, the end-of-stream token included, is still to come.
    pub fn has_more_tokens(&self) -> (r: bool)
        ensures
            r == (self@.cursor <= self@.source.len()),
    {
        self.cursor <= self.source.len()
    }

    /// Whether the cursor stands exactly at the end of the source.
    pub fn is_eof(&self) -> (r: bool)
        ensures
            r == (self@.cursor == self@.source.len()),
    {
        self.cursor == self.source.len()
    }

    /// The current start condition: the top of the stack, or the initial
    /// state when the stack is empty.
    pub fn get_current_state(&self) -> (r: String)
        ensures
            r@ == top_state(self@.states),
    {
        let n = self.states.len();
        if n == 0 {
            initial_name()
        } else {
            self.states[n - 1].clone()
        }
    }

    /// Enters a start condition by pushing it on the stack.
    pub fn push_state(&mut self, state: &str) -> (r: &mut Tokenizer)
        requires
            old(self).inv(),
        ensures
            r.inv(),
            r.rule_table() == old(self).rule_table(),
            r@ == (LexModel { states: old(self)@.states.push(state@), ..old(self)@ }),
            r.matched_text() == old(self).matched_text(),
            r.kept_texts() == old(self).kept_texts(),
            *final(self) == *final(r),
    {
        self.states.push(state.to_owned());
        assert(self@.states =~= old(self)@.states.push(state@));
        self
    }

    /// Same as `push_state`.
    pub fn begin(&mut self, state: &str) -> (r: &mut Tokenizer)
        requires
            old(self).inv(),
        ensures
            r.inv(),
            r.rule_table() == old(self).rule_table(),
            r@ == (LexModel { states: old(self)@.states.push(state@), ..old(self)@ }),
            r.matched_text() == old(self).matched_text(),
            r.kept_texts() == old(self).kept_texts(),
            *final(self) == *final(r),
    {
        self.push_state(state)
    }

    /// Leaves the current start condition and returns it; an empty stack
    /// stays empty and yields the initial state.
    pub fn pop_state(&mut self) -> (r: String)
        requires
            old(self).inv(),
        ensures
            final(self).inv(),
            final(self).rule_table() == old(self).rule_table(),
            r@ == top_state(old(self)@.states),
            final(self)@ == (LexModel {
                states: apply_change(old(self)@.states, StateChange::Pop),
                ..old(self)@
            }),
            final(self).matched_text() == old(self).matched_text(),
            final(self).kept_texts() == old(self).kept_texts(),
    {
        match self.states.pop() {
            Some(s) => {
                assert(self@.states =~= old(self)@.states.drop_last());
                s
            },
            None => initial_name(),
        }
    }

    /// Records the location of a match of `n` bytes at the cursor, moves the
    /// cursor past it (one byte further for an empty match) and makes the
    /// matched bytes the current text. The token returned carries the
    /// location and the matched bytes.
    fn capture_location(&mut self, n: usize) -> (r: Token)
        requires
            old(self).inv(),
            old(self)@.cursor + n <= old(self)@.source.len(),
        ensures
            final(self).inv(),
            final(self).rule_table() == old(self).rule_table(),
            final(self)@ == after_match(old(self)@, n as nat),
            r@ == (TokenModel { kind: 0, ..match_location(old(self)@, n as nat) }),
            final(self).matched_text() == match_location(old(self)@, n as nat).text,
            final(self).yybuffer == old(self).yybuffer,
    {
        let ghost m = self@;
        let start = self.cursor;
        let start_line = self.current_line;
        let start_column = start - self.current_line_begin_offset;
        let mut text: Vec<u8> = Vec::new();
        let mut j: usize = 0;
        while j < n
            invariant
                m == old(self)@,
                self.table == old(self).table,
                self.source == old(self).source,
                self.states == old(self).states,
                self.yybuffer == old(self).yybuffer,
                self.cursor == start,
                start == m.cursor,
                start + n <= m.source.len(),
                m.source.len() + 2 <= usize::MAX,
                model_wf(m),
                j <= n,
                self.current_line == m.line + newlines_in(m.source, start as int, start + j),
                self.current_line_begin_offset == line_begin_in(
                    m.source,
                    start as int,
                    start + j,
                    m.line_begin,
                ),
                text@ == m.source.subrange(start as int, start + j),
            decreases n - j,
        {
            proof {
                lemma_span_bounds(m.source, start as int, start + j, m.line_begin);
            }
            if self.source[start + j] == NEWLINE {
                self.current_line = self.current_line + 1;
                self.current_line_begin_offset = start + j + 1;
            }
            text.push(self.source[start + j]);
            j = j + 1;
            assert(text@ =~= m.source.subrange(start as int, start + j));
        }
        proof {
            lemma_span_bounds(m.source, start as int, start + n, m.line_begin);
        }
        let end = start + n;
        let end_column = end - self.current_line_begin_offset;
        self.current_column = end_column;
        self.cursor = if n == 0 {
            end + 1
        } else {
            end
        };
        proof {
            lemma_after_match_wf(m, n as nat);
        }
        let r = Token {
            kind: 0,
            value: copy_bytes(text.as_slice()),
            start_offset: start,
            end_offset: end,
            start_line,
            end_line: self.current_line,
            start_column,
            end_column,
        };
        self.yytext = text;
        r
    }

    /// A token of the given type with the current text, at the location of
    /// `loc`.
    fn to_token(&self, token_type: String, loc: Token) -> (r: Result<Token, LexError>)
        ensures
            scanned(r) == (match self.rule_table().kind_of(token_type@) {
                Some(kind) => Scanned::Token(TokenModel { kind, text: self.matched_text(), ..loc@ }),
                None => Scanned::UnknownTokenType { name: token_type@ },
            }),
    {
        match self.table.find_kind(&token_type) {
            Some(kind) => Ok(Token { kind, value: copy_bytes(self.yytext.as_slice()), ..loc }),
            None => Err(LexError::UnknownTokenType { name: token_type }),
        }
    }

    /// The end-of-stream token at the current position.
    fn end_of_stream(&self) -> (r: Result<Token, LexError>)
        ensures
            scanned(r) == end_of_stream(self.rule_table(), self@),
    {
        let name = eof_name();
        match self.table.find_kind(&name) {
            Some(kind) => {
                let value = vec![EOF_BYTE];
                assert(value@ =~= seq![EOF_BYTE]);
                Ok(
                    Token {
                        kind,
                        value,
                        start_offset: self.source.len(),
                        end_offset: self.source.len(),
                        start_line: self.current_line,
                        end_line: self.current_line,
                        start_column: self.current_column,
                        end_column: self.current_column,
                    },
                )
            },
            None => Err(LexError::UnknownTokenType { name }),
        }
    }

    /// The error for a byte at the cursor that no rule matches: the byte, the
    /// current line and column, and the text of the current line.
    fn unexpected_token(&self) -> (r: LexError)
        requires
            self.inv(),
            self@.cursor < self@.source.len(),
        ensures
            scanned(Err(r)) == unexpected(self@),
    {
        let mut char_end: usize = self.cursor + 1;
        while char_end < self.source.len() && char_end - self.cursor < 4 && 0x80 <= self.source[char_end]
            && self.source[char_end] < 0xC0
            invariant
                self.cursor + 1 <= char_end <= self.source@.len(),
                char_end <= self.cursor + 4,
                char_end - (self.cursor + 1) + continuation_run(
                    self.source@,
                    char_end as int,
                    (3 - (char_end - (self.cursor + 1))) as nat,
                ) == continuation_run(self.source@, self.cursor + 1, 3),
            decreases self.cursor + 4 - char_end,
        {
            char_end = char_end + 1;
        }
        let begin = self.current_line_begin_offset;
        let mut end = begin;
        while end < self.source.len() && self.source[end] != NEWLINE
            invariant
                begin <= end <= self.source@.len(),
                line_end(self.source@, begin as int) == line_end(self.source@, end as int),
            decreases self.source@.len() - end,
        {
            end = end + 1;
        }
        LexError::UnexpectedToken {
            character: copy_bytes(&self.source.as_slice()[self.cursor..char_end]),
            line: self.current_line,
            column: self.current_column,
            line_text: copy_bytes(&self.source.as_slice()[begin..end]),
        }
    }
}

/// How the first step of a request ends.
pub enum ScanStep {
    /// A rule matched at the cursor; its handler is to run next, then
    /// `finish_match` with the token type it names and this location.
    Matched { rule: usize, location: Token },
    /// The request is over: the end-of-stream token or an error.
    Finished(Result<Token, LexError>),
}

impl Tokenizer {
    /// The text of the current match, as a handler sees it.
    pub fn yytext(&self) -> (r: &Vec<u8>)
        ensures
            r@ == self.matched_text(),
    {
        &self.yytext
    }

    /// Replaces the text of the current match without keeping `s`: the
    /// token made from it owns a copy.
    fn replace_text(&mut self, s: &String)
        requires
            old(self).inv(),
        ensures
            final(self).inv(),
            final(self)@ == old(self)@,
            final(self).rule_table() == old(self).rule_table(),
            final(self).matched_text() == encode_utf8(s@),
            final(self).yybuffer == old(self).yybuffer,
    {
        self.yytext = copy_bytes(s.as_str().as_bytes());
    }

    /// The first step of a request: tries the rules of the current start
    /// condition in order, and for the first that matches at the cursor
    /// records the location of the match, moves the cursor past it and makes
    /// the matched bytes the current text. Ends the request instead at the end
    /// of the stream or on an error.
    pub fn match_next(&mut self) -> (r: ScanStep)
        requires
            old(self).inv(),
        ensures
            final(self).inv(),
            final(self).rule_table() == old(self).rule_table(),
            final(self).kept_texts() == old(self).kept_texts(),
            match r {
                ScanStep::Finished(res) => match_step(old(self).rule_table(), old(self)@) == (
                final(self)@,
                Step::Finished(scanned(res)),
                ),
                ScanStep::Matched { rule, location } => {
                    let len = (location.end_offset - location.start_offset) as nat;
                    &&& match_step(old(self).rule_table(), old(self)@) == (
                        final(self)@,
                        Step::Matched { rule: rule as nat, len },
                    )
                    &&& location@ == (TokenModel { kind: 0, ..match_location(old(self)@, len) })
                    &&& final(self).matched_text() == location@.text
                    &&& old(self)@.cursor < final(self)@.cursor
                    &&& rule < old(self).rule_table().rules@.len()
                },
            },
    {
        if !self.has_more_tokens() {
            return ScanStep::Finished(self.end_of_stream());
        }
        let state = self.get_current_state();
        let c = match self.table.find_condition(&state) {
            Some(c) => c,
            None => {
                return ScanStep::Finished(Err(LexError::UnknownState { name: state }));
            },
        };
        let ghost m = self@;
        let ghost input = m.source.subrange(m.cursor as int, m.source.len() as int);
        assert(forall|k: int|
            0 <= k < self.table.conditions@[c as int].rules@.len()
                ==> #[trigger] self.table.conditions@[c as int].rules@[k] < self.table.rules@.len());
        let selected = first_matching_rule(
            &self.table.rules,
            &self.table.conditions[c].rules,
            &self.source.as_slice()[self.cursor..self.source.len()],
        );
        proof {
            lemma_selection_len(self.table.rules@, self.table.conditions@[c as int].rules@, input, 0);
        }
        match selected {
            Err(rule) => ScanStep::Finished(Err(LexError::InvalidPattern { rule })),
            Ok(None) => {
                if self.is_eof() {
                    self.cursor = self.cursor + 1;
                    return ScanStep::Finished(self.end_of_stream());
                }
                ScanStep::Finished(Err(self.unexpected_token()))
            },
            Ok(Some((rule, n))) => {
                let location = self.capture_location(n);
                ScanStep::Matched { rule, location }
            },
        }
    }

    /// The last step of a request, once the handler of the matched rule has
    /// run and named a token type: `None` for the empty name, which discards
    /// the match (scan again), else the token with the current text at
    /// `location`, or the error for a type with no kind.
    pub fn finish_match(&self, token_type: String, location: Token) -> (r: Option<Result<Token, LexError>>)
        ensures
            match r {
                None => finish_step(self.rule_table(), token_type@, self.matched_text(), location@) is None,
                Some(res) => finish_step(self.rule_table(), token_type@, self.matched_text(), location@)
                    == Some(scanned(res)),
            },
    {
        if token_type.as_str().is_empty() {
            return None;
        }
        Some(self.to_token(token_type, location))
    }

    /// Scans the next token, with each rule's `Action` as its handler. Rules
    /// are tried in the order that the current start condition lists them and
    /// the first that matches at the cursor wins; a rule with the empty token
    /// type discards its match and the scan goes on. At the end of the source,
    /// and from then on, the end-of-stream token is returned. A replacement
    /// text is copied into the token; the kept texts stay as they are.
    #[verifier::loop_isolation(false)]
    pub fn get_next_token(&mut self) -> (r: Result<Token, LexError>)
        requires
            old(self).inv(),
        ensures
            final(self).inv(),
            final(self).rule_table() == old(self).rule_table(),
            final(self).kept_texts() == old(self).kept_texts(),
            (final(self)@, scanned(r)) == next_token(old(self).rule_table(), old(self)@),
    {
        let ghost goal = next_token(self.table, self@);
        loop
            invariant
                self.inv(),
                self.table == old(self).table,
                self.kept_texts() == old(self).kept_texts(),
                next_token(self.table, self@) == goal,
            decreases self@.source.len() + 1 - self@.cursor,
        {
            let ghost m0 = self@;
            match self.match_next() {
                ScanStep::Finished(r) => {
                    return r;
                },
                ScanStep::Matched { rule, location } => {
                    let token_type = self.table.rules[rule].action.token_type.clone();
                    match &self.table.rules[rule].action.replacement {
                        Some(s) => {
                            let s = s.clone();
                            self.replace_text(&s);
                        },
                        None => {},
                    }
                    let (pushed, pops): (Option<String>, bool) = match &self.table.rules[rule].action.state_change {
                        StateChange::Push(s) => (Some(s.clone()), false),
                        StateChange::Pop => (None, true),
                        StateChange::Keep => (None, false),
                    };
                    match pushed {
                        Some(s) => {
                            self.push_state(s.as_str());
                        },
                        None => {},
                    }
                    if pops {
                        self.pop_state();
                    }
                    match self.finish_match(token_type, location) {
                        Some(r) => {
                            return r;
                        },
                        None => {},
                    }
                },
            }
        }
    }
}

} // verus!
