use syntax_tokenizer::matcher::{first_matching_rule, match_prefix};
use syntax_tokenizer::table::{Action, Rule, RuleTable, StartCondition, StateChange, TokenKind};
use syntax_tokenizer::tokenizer::{LexError, ScanStep, Token, Tokenizer};

fn rule(pattern: &str, token_type: &str, state_change: StateChange, replacement: Option<&str>) -> Rule {
    Rule {
        pattern: pattern.to_string(),
        action: Action {
            token_type: token_type.to_string(),
            state_change,
            replacement: replacement.map(|s| s.to_string()),
        },
    }
}

fn kinds(pairs: &[(&str, i32)]) -> Vec<TokenKind> {
    pairs.iter().map(|(n, k)| TokenKind { name: n.to_string(), kind: *k }).collect()
}

fn condition(name: &str, rules: &[usize]) -> StartCondition {
    StartCondition { name: name.to_string(), rules: rules.to_vec() }
}

const NUMBER: i32 = 4;
const PLUS: i32 = 5;
const STAR: i32 = 6;
const EOF: i32 = 7;

fn calc_table() -> RuleTable {
    RuleTable {
        rules: vec![
            rule(r"^\s+", "", StateChange::Keep, None),
            rule(r"^\d+", "NUMBER", StateChange::Keep, None),
            rule(r"^\+", "+", StateChange::Keep, None),
            rule(r"^\*", "*", StateChange::Keep, None),
        ],
        conditions: vec![condition("INITIAL", &[0, 1, 2, 3])],
        kinds: kinds(&[("NUMBER", NUMBER), ("+", PLUS), ("*", STAR), ("$", EOF)]),
    }
}

fn scan_all(t: &mut Tokenizer) -> Vec<Token> {
    let mut out = Vec::new();
    while t.has_more_tokens() {
        out.push(t.get_next_token().ok().expect("a token"));
    }
    out
}

fn summary(tokens: &[Token]) -> Vec<(i32, Vec<u8>, usize, usize)> {
    tokens.iter().map(|t| (t.kind, t.value.clone(), t.start_offset, t.end_offset)).collect()
}

#[test]
fn calc_expression_tokens() {
    let mut t = Tokenizer::new(calc_table());
    t.init_string("2 + 2 * 2");
    let tokens = scan_all(&mut t);
    assert_eq!(
        summary(&tokens),
        vec![
            (NUMBER, b"2".to_vec(), 0, 1),
            (PLUS, b"+".to_vec(), 2, 3),
            (NUMBER, b"2".to_vec(), 4, 5),
            (STAR, b"*".to_vec(), 6, 7),
            (NUMBER, b"2".to_vec(), 8, 9),
            (EOF, b"$".to_vec(), 9, 9),
        ]
    );
    assert_eq!(tokens[2].start_line, 1);
    assert_eq!(tokens[2].start_column, 4);
    assert_eq!(tokens[2].end_column, 5);
}

#[test]
fn unexpected_character_reports_position() {
    let mut t = Tokenizer::new(calc_table());
    t.init_string("2 @ 2");
    let first = t.get_next_token().ok().expect("a number");
    assert_eq!(first.kind, NUMBER);
    match t.get_next_token() {
        Err(LexError::UnexpectedToken { character, line, column, line_text }) => {
            assert_eq!(character, b"@".to_vec());
            assert_eq!(line, 1);
            assert_eq!(column, 2);
            assert_eq!(line_text, b"2 @ 2".to_vec());
        }
        _ => panic!("expected an unexpected-token error"),
    }
}

#[test]
fn unexpected_character_on_later_line() {
    let mut t = Tokenizer::new(calc_table());
    t.init_string("1\n2 ?\n3");
    assert_eq!(t.get_next_token().ok().expect("1").kind, NUMBER);
    assert_eq!(t.get_next_token().ok().expect("2").kind, NUMBER);
    match t.get_next_token() {
        Err(LexError::UnexpectedToken { character, line, column, line_text }) => {
            assert_eq!(character, b"?".to_vec());
            assert_eq!(line, 2);
            assert_eq!(column, 2);
            assert_eq!(line_text, b"2 ?".to_vec());
        }
        _ => panic!("expected an unexpected-token error"),
    }
}

#[test]
fn empty_source_yields_end_of_stream() {
    let mut t = Tokenizer::new(calc_table());
    t.init_string("");
    assert!(t.has_more_tokens());
    assert!(t.is_eof());
    let tok = t.get_next_token().ok().expect("end of stream");
    assert_eq!(tok.kind, EOF);
    assert_eq!(tok.value, b"$".to_vec());
    assert_eq!((tok.start_offset, tok.end_offset), (0, 0));
    assert!(!t.has_more_tokens());
}

#[test]
fn fresh_scans_are_identical() {
    let mut t = Tokenizer::new(calc_table());
    t.init_string("10 * 3\n+ 4");
    let first = summary(&scan_all(&mut t));
    t.init_string("99");
    let _ = scan_all(&mut t);
    t.init_string("10 * 3\n+ 4");
    let second = summary(&scan_all(&mut t));
    assert_eq!(first, second);
    assert_eq!(first.len(), 6);
}

#[test]
fn earlier_rule_wins_over_longer_match() {
    let table = RuleTable {
        rules: vec![rule("^a", "A", StateChange::Keep, None), rule("^a+", "B", StateChange::Keep, None)],
        conditions: vec![condition("INITIAL", &[0, 1])],
        kinds: kinds(&[("A", 1), ("B", 2), ("$", 0)]),
    };
    let mut t = Tokenizer::new(table);
    t.init_string("aaa");
    let tokens = scan_all(&mut t);
    assert_eq!(
        summary(&tokens),
        vec![(1, b"a".to_vec(), 0, 1), (1, b"a".to_vec(), 1, 2), (1, b"a".to_vec(), 2, 3), (0, b"$".to_vec(), 3, 3)]
    );
}

#[test]
fn listed_order_decides_priority() {
    let table = RuleTable {
        rules: vec![rule("^a", "A", StateChange::Keep, None), rule("^a+", "B", StateChange::Keep, None)],
        conditions: vec![condition("INITIAL", &[1, 0])],
        kinds: kinds(&[("A", 1), ("B", 2), ("$", 0)]),
    };
    let mut t = Tokenizer::new(table);
    t.init_string("aaa");
    let tok = t.get_next_token().ok().expect("a token");
    assert_eq!((tok.kind, tok.value.clone(), tok.end_offset), (2, b"aaa".to_vec(), 3));
}

#[test]
fn cursor_moves_forward_on_empty_matches() {
    let table = RuleTable {
        rules: vec![rule("^x*", "", StateChange::Keep, None), rule("^y", "Y", StateChange::Keep, None)],
        conditions: vec![condition("INITIAL", &[0, 1])],
        kinds: kinds(&[("Y", 1), ("$", 0)]),
    };
    let mut t = Tokenizer::new(table);
    t.init_string("yy");
    let tok = t.get_next_token().ok().expect("end of stream");
    assert_eq!(tok.kind, 0);
    assert!(!t.has_more_tokens());
}

#[test]
fn empty_match_at_end_emits_its_token() {
    let table = RuleTable {
        rules: vec![rule(r"^\d", "D", StateChange::Keep, None), rule("^$", "$", StateChange::Keep, None)],
        conditions: vec![condition("INITIAL", &[0, 1])],
        kinds: kinds(&[("D", 1), ("$", 9)]),
    };
    let mut t = Tokenizer::new(table);
    t.init_string("5");
    let tokens = scan_all(&mut t);
    assert_eq!(summary(&tokens), vec![(1, b"5".to_vec(), 0, 1), (9, b"".to_vec(), 1, 1)]);
}

#[test]
fn offsets_never_go_back() {
    let mut t = Tokenizer::new(calc_table());
    t.init_string(" 12 +  3 *4 ");
    let tokens = scan_all(&mut t);
    let mut last_end = 0;
    for tok in &tokens {
        assert!(tok.start_offset >= last_end);
        assert!(tok.end_offset >= tok.start_offset);
        last_end = tok.end_offset;
    }
    assert_eq!(tokens.len(), 6);
}

#[test]
fn line_and_column_follow_newlines() {
    let mut t = Tokenizer::new(calc_table());
    t.init_string("1\n22\n 3");
    let tokens = scan_all(&mut t);
    let pos: Vec<(usize, usize, usize, usize, usize)> = tokens
        .iter()
        .map(|t| (t.start_offset, t.start_line, t.start_column, t.end_line, t.end_column))
        .collect();
    assert_eq!(pos, vec![(0, 1, 0, 1, 1), (2, 2, 0, 2, 2), (6, 3, 1, 3, 2), (7, 3, 2, 3, 2)]);
}

#[test]
fn token_spanning_lines_ends_on_later_line() {
    let table = RuleTable {
        rules: vec![rule(r"^a\nb", "AB", StateChange::Keep, None)],
        conditions: vec![condition("INITIAL", &[0])],
        kinds: kinds(&[("AB", 1), ("$", 0)]),
    };
    let mut t = Tokenizer::new(table);
    t.init_string("a\nba\nb");
    let first = t.get_next_token().ok().expect("first");
    assert_eq!((first.start_line, first.start_column, first.end_line, first.end_column), (1, 0, 2, 1));
    let second = t.get_next_token().ok().expect("second");
    assert_eq!((second.start_line, second.start_column, second.end_line, second.end_column), (2, 1, 3, 1));
}

#[test]
fn end_of_stream_repeats() {
    let mut t = Tokenizer::new(calc_table());
    t.init_string("7");
    assert!(!t.is_eof());
    assert_eq!(t.get_next_token().ok().expect("7").kind, NUMBER);
    assert!(t.is_eof());
    assert!(t.has_more_tokens());
    assert_eq!(t.get_next_token().ok().expect("end").kind, EOF);
    assert!(!t.is_eof());
    for _ in 0..3 {
        assert!(!t.has_more_tokens());
        let tok = t.get_next_token().ok().expect("end again");
        assert_eq!((tok.kind, tok.start_offset), (EOF, 1));
        assert!(!t.is_eof());
    }
}

fn string_table() -> RuleTable {
    RuleTable {
        rules: vec![
            rule(r"^\s+", "", StateChange::Keep, None),
            rule(r"^\d+", "NUMBER", StateChange::Keep, None),
            rule("^\"", "", StateChange::Push("STRING".to_string()), None),
            rule("^[a-z]+", "WORD", StateChange::Keep, None),
            rule("^\"", "", StateChange::Pop, None),
        ],
        conditions: vec![condition("INITIAL", &[0, 1, 2]), condition("STRING", &[3, 4])],
        kinds: kinds(&[("NUMBER", 1), ("WORD", 2), ("$", 0)]),
    }
}

#[test]
fn start_conditions_switch_rule_sets() {
    let mut t = Tokenizer::new(string_table());
    t.init_string("1 \"ab\" 2");
    let tokens = scan_all(&mut t);
    assert_eq!(
        summary(&tokens),
        vec![(1, b"1".to_vec(), 0, 1), (2, b"ab".to_vec(), 3, 5), (1, b"2".to_vec(), 7, 8), (0, b"$".to_vec(), 8, 8)]
    );
}

#[test]
fn unlisted_rules_are_not_tried() {
    let mut t = Tokenizer::new(string_table());
    t.init_string("abc");
    match t.get_next_token() {
        Err(LexError::UnexpectedToken { character, column, .. }) => {
            assert_eq!(character, b"a".to_vec());
            assert_eq!(column, 0);
        }
        _ => panic!("a word rule of another state matched"),
    }
    t.init_string("\"12\"");
    match t.get_next_token() {
        Err(LexError::UnexpectedToken { character, .. }) => assert_eq!(character, b"1".to_vec()),
        _ => panic!("a number rule of another state matched"),
    }
}

#[test]
fn state_stack_operations() {
    let mut t = Tokenizer::new(calc_table());
    assert_eq!(t.get_current_state(), "INITIAL");
    assert_eq!(t.pop_state(), "INITIAL");
    t.init_string("1");
    t.push_state("A").begin("B");
    assert_eq!(t.get_current_state(), "B");
    assert_eq!(t.pop_state(), "B");
    assert_eq!(t.pop_state(), "A");
    assert_eq!(t.pop_state(), "INITIAL");
    assert_eq!(t.pop_state(), "INITIAL");
    assert_eq!(t.get_current_state(), "INITIAL");
}

#[test]
fn unknown_state_is_reported() {
    let mut t = Tokenizer::new(calc_table());
    t.init_string("1");
    t.push_state("NOWHERE");
    match t.get_next_token() {
        Err(LexError::UnknownState { name }) => assert_eq!(name, "NOWHERE"),
        _ => panic!("expected an unknown-state error"),
    }
}

#[test]
fn replacement_text_is_emitted() {
    let table = RuleTable {
        rules: vec![rule(r"^\d+", "NUMBER", StateChange::Keep, Some("N"))],
        conditions: vec![condition("INITIAL", &[0])],
        kinds: kinds(&[("NUMBER", 1), ("$", 0)]),
    };
    let mut t = Tokenizer::new(table);
    t.init_string("123");
    let tok = t.get_next_token().ok().expect("a number");
    assert_eq!(tok.value, b"N".to_vec());
    assert_eq!((tok.start_offset, tok.end_offset), (0, 3));
}

#[test]
fn string_ref_keeps_text() {
    let mut t = Tokenizer::new(calc_table());
    t.init_string("1");
    assert_eq!(t.string_ref("kept".to_string()), "kept");
    t.set_yytext("other".to_string());
    assert_eq!(t.get_next_token().ok().expect("1").value, b"1".to_vec());
}

#[test]
fn unknown_token_type_is_reported() {
    let table = RuleTable {
        rules: vec![rule(r"^\d+", "DIGITS", StateChange::Keep, None)],
        conditions: vec![condition("INITIAL", &[0])],
        kinds: kinds(&[("$", 0)]),
    };
    let mut t = Tokenizer::new(table);
    t.init_string("12");
    match t.get_next_token() {
        Err(LexError::UnknownTokenType { name }) => assert_eq!(name, "DIGITS"),
        _ => panic!("expected an unknown-token-type error"),
    }
}

#[test]
fn missing_end_of_stream_kind_is_reported() {
    let table = RuleTable { rules: vec![], conditions: vec![condition("INITIAL", &[])], kinds: vec![] };
    let mut t = Tokenizer::new(table);
    t.init_string("");
    match t.get_next_token() {
        Err(LexError::UnknownTokenType { name }) => assert_eq!(name, "$"),
        _ => panic!("expected an unknown-token-type error"),
    }
}

#[test]
fn invalid_pattern_is_reported() {
    let table = RuleTable {
        rules: vec![rule("^(", "X", StateChange::Keep, None)],
        conditions: vec![condition("INITIAL", &[0])],
        kinds: kinds(&[("X", 1), ("$", 0)]),
    };
    let mut t = Tokenizer::new(table);
    t.init_string("(");
    match t.get_next_token() {
        Err(LexError::InvalidPattern { rule }) => assert_eq!(rule, 0),
        _ => panic!("expected an invalid-pattern error"),
    }
}

#[test]
fn well_formedness_check() {
    assert!(calc_table().is_well_formed());
    let mut bad = calc_table();
    bad.conditions[0].rules.push(4);
    assert!(!bad.is_well_formed());
}

#[test]
fn match_prefix_counts_only_matches_at_start() {
    assert_eq!(match_prefix(&r"\d+".to_string(), b"123ab"), Ok(Some(3)));
    assert_eq!(match_prefix(&"b".to_string(), b"ab"), Ok(None));
    assert_eq!(match_prefix(&"x*".to_string(), b"ab"), Ok(Some(0)));
    assert_eq!(match_prefix(&"(".to_string(), b"ab"), Err(()));
}

#[test]
fn first_matching_rule_follows_order() {
    let table = calc_table();
    assert_eq!(first_matching_rule(&table.rules, &vec![0, 1, 2, 3], b"42+"), Ok(Some((1, 2))));
    assert_eq!(first_matching_rule(&table.rules, &vec![2, 3], b"42+"), Ok(None));
    let bad = vec![rule("[", "X", StateChange::Keep, None)];
    assert_eq!(first_matching_rule(&bad, &vec![0], b"x"), Err(0));
}

#[test]
fn unexpected_multibyte_character_is_whole() {
    let mut t = Tokenizer::new(calc_table());
    t.init_string("1 \u{e9}\u{20ac}");
    assert_eq!(t.get_next_token().ok().expect("1").kind, NUMBER);
    match t.get_next_token() {
        Err(e) => {
            assert_eq!(e.pointer_lines(), "1 \u{e9}\u{20ac}\n  ^".as_bytes().to_vec());
            match e {
                LexError::UnexpectedToken { character, column, .. } => {
                    assert_eq!(character, "\u{e9}".as_bytes().to_vec());
                    assert_eq!(column, 2);
                }
                _ => panic!("expected an unexpected-token error"),
            }
        }
        _ => panic!("expected an error"),
    }
}

#[test]
fn pointer_lines_mark_the_column() {
    let mut t = Tokenizer::new(calc_table());
    t.init_string("2 @ 2");
    let _ = t.get_next_token();
    let e = t.get_next_token().err().expect("an error");
    assert_eq!(e.pointer_lines(), b"2 @ 2\n  ^".to_vec());
    assert_eq!(LexError::InvalidPattern { rule: 0 }.pointer_lines(), Vec::<u8>::new());
}

#[test]
fn duplicate_names_are_not_well_formed() {
    let mut t1 = calc_table();
    t1.conditions.push(condition("INITIAL", &[0]));
    assert!(!t1.is_well_formed());
    let mut t2 = calc_table();
    t2.kinds.push(TokenKind { name: "NUMBER".to_string(), kind: 9 });
    assert!(!t2.is_well_formed());
}

fn words_table() -> RuleTable {
    RuleTable {
        rules: vec![
            rule(r"^\s+", "", StateChange::Keep, None),
            rule("^[a-z]+", "", StateChange::Keep, None),
            rule("^'[^']*'", "", StateChange::Keep, None),
            rule("^<", "", StateChange::Keep, None),
        ],
        conditions: vec![condition("INITIAL", &[0, 1, 2, 3]), condition("ANGLE", &[0, 1, 2])],
        kinds: kinds(&[("KEYWORD", 1), ("IDENT", 2), ("STRING", 3), ("$", 0)]),
    }
}

/// Scans with handlers written as code: a word is a keyword or an identifier
/// by its text, a quoted string loses its quotes, and `<` replaces the top of
/// the stack.
fn scan_with_handlers(t: &mut Tokenizer) -> Vec<Result<Token, LexError>> {
    let mut out = Vec::new();
    while t.has_more_tokens() {
        let result = loop {
            match t.match_next() {
                ScanStep::Finished(r) => break r,
                ScanStep::Matched { rule, location } => {
                    let text = t.yytext().clone();
                    let token_type = match rule {
                        1 if text == b"if".to_vec() || text == b"else".to_vec() => "KEYWORD",
                        1 => "IDENT",
                        2 => {
                            let inner = String::from_utf8(text[1..text.len() - 1].to_vec()).unwrap();
                            t.set_yytext(inner);
                            "STRING"
                        }
                        3 => {
                            t.pop_state();
                            t.push_state("ANGLE");
                            ""
                        }
                        _ => "",
                    };
                    if let Some(r) = t.finish_match(token_type.to_string(), location) {
                        break r;
                    }
                }
            }
        };
        let stop = result.is_err();
        out.push(result);
        if stop {
            break;
        }
    }
    out
}

#[test]
fn handlers_choose_types_and_texts() {
    let mut t = Tokenizer::new(words_table());
    t.init_string("if x 'ab' else");
    let tokens: Vec<(i32, Vec<u8>, usize, usize)> = scan_with_handlers(&mut t)
        .into_iter()
        .map(|r| r.ok().expect("a token"))
        .map(|t| (t.kind, t.value, t.start_offset, t.end_offset))
        .collect();
    assert_eq!(
        tokens,
        vec![
            (1, b"if".to_vec(), 0, 2),
            (2, b"x".to_vec(), 3, 4),
            (3, b"ab".to_vec(), 5, 9),
            (1, b"else".to_vec(), 10, 14),
            (0, b"$".to_vec(), 14, 14),
        ]
    );
}

#[test]
fn handler_replaces_top_state() {
    let mut t = Tokenizer::new(words_table());
    t.init_string("a < b <");
    let results = scan_with_handlers(&mut t);
    assert_eq!(t.get_current_state(), "ANGLE");
    assert_eq!(t.pop_state(), "ANGLE");
    assert_eq!(t.get_current_state(), "INITIAL");
    assert_eq!(results.len(), 3);
    match &results[2] {
        Err(LexError::UnexpectedToken { character, column, .. }) => {
            assert_eq!(character, &b"<".to_vec());
            assert_eq!(*column, 6);
        }
        _ => panic!("< is not a rule of ANGLE"),
    }
}

#[test]
fn handler_steps_match_get_next_token() {
    let mut a = Tokenizer::new(calc_table());
    let mut b = Tokenizer::new(calc_table());
    a.init_string(" 12 * 3 ");
    b.init_string(" 12 * 3 ");
    loop {
        let expected = a.get_next_token().ok().expect("a token");
        let got = loop {
            match b.match_next() {
                ScanStep::Finished(r) => break r,
                ScanStep::Matched { rule, location } => {
                    let name = ["", "NUMBER", "+", "*"][rule];
                    if let Some(r) = b.finish_match(name.to_string(), location) {
                        break r;
                    }
                }
            }
        }
        .ok()
        .expect("a token");
        assert_eq!(summary(&[expected]), summary(&[got]));
        if !a.has_more_tokens() {
            break;
        }
    }
    assert!(!b.has_more_tokens());
}
