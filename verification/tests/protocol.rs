//! Tests of the line grammar and the frame decoding.

use ispell::{
    decode_issues, decode_outcomes, filter_issues, get_ispell_error, parse_line, CheckState,
    Error, ErrorType, IspellError, IspellResult,
};

fn issue(word: &str, position: usize, suggestions: &[&str]) -> IspellError {
    IspellError {
        misspelled: word.to_string(),
        position,
        suggestions: suggestions.iter().map(|s| s.to_string()).collect(),
    }
}

fn protocol_variant(r: Result<IspellResult, Error>) -> bool {
    matches!(r, Err(e) if e.variant == ErrorType::Protocol)
}

#[test]
fn parse_line_correct() {
    assert_eq!(parse_line("*").unwrap(), IspellResult::Correct);
}

#[test]
fn parse_line_compound() {
    assert_eq!(parse_line("-").unwrap(), IspellResult::Compound);
}

#[test]
fn parse_line_root() {
    assert_eq!(
        parse_line("+ run").unwrap(),
        IspellResult::RootMatch("run".to_string())
    );
}

#[test]
fn parse_line_root_malformed() {
    assert!(protocol_variant(parse_line("+")));
    assert!(protocol_variant(parse_line("+ a b")));
}

#[test]
fn parse_line_no_match() {
    assert_eq!(
        parse_line("# foobar 5").unwrap(),
        IspellResult::NoMatch(issue("foobar", 4, &[]))
    );
}

#[test]
fn parse_line_near_miss_offset() {
    // The line answering "iff" inside "Testing iff if it works": the
    // process reports offset 9 because of the escape marker, and the
    // decoded issue must report 8, the position in the original line.
    assert_eq!(
        parse_line("& iff 2 9: if, off").unwrap(),
        IspellResult::NearMiss(issue("iff", 8, &["if", "off"]))
    );
}

#[test]
fn parse_line_guessed_affix() {
    assert_eq!(
        parse_line("? word 1 5: sug").unwrap(),
        IspellResult::GuessedAffix(issue("word", 4, &["sug"]))
    );
}

#[test]
fn parse_line_suggestions_trimmed() {
    assert_eq!(
        parse_line("& abc 2 3: one , two").unwrap(),
        IspellResult::NearMiss(issue("abc", 2, &["one", "two"]))
    );
}

#[test]
fn parse_line_missing_tokens() {
    assert!(protocol_variant(parse_line("& ")));
}

#[test]
fn parse_line_unknown_prefix() {
    assert!(protocol_variant(parse_line("x whatever")));
    assert!(protocol_variant(parse_line("")));
}

#[test]
fn parse_line_bad_offset() {
    assert!(protocol_variant(parse_line("# word x")));
    assert!(protocol_variant(parse_line("# word 0")));
}

#[test]
fn get_ispell_error_no_match_line() {
    let e = get_ispell_error("# unknown 5", 3).unwrap();
    assert_eq!(e, issue("unknown", 4, &[]));
}

#[test]
fn get_ispell_error_near_miss_header() {
    let e = get_ispell_error("& unknown 2 5", 4).unwrap();
    assert_eq!(e, issue("unknown", 4, &[]));
}

#[test]
fn get_ispell_error_wrong_token_count() {
    let r = get_ispell_error("& unknown 2 5", 3);
    assert!(matches!(r, Err(e) if e.variant == ErrorType::Protocol));
}

#[test]
fn decode_outcomes_one_per_word() {
    // Five words, answered across two frames: exactly five outcomes,
    // in input word order.
    let frames = vec![
        "*\n& iff 3 9: if, off, oof\n".to_string(),
        "*\n*\n*\n\n".to_string(),
    ];
    let outcomes = decode_outcomes("Testing iff if it works", &frames).unwrap();
    assert_eq!(outcomes.len(), 5);
    assert_eq!(outcomes[0], IspellResult::Correct);
    assert_eq!(
        outcomes[1],
        IspellResult::NearMiss(issue("iff", 8, &["if", "off", "oof"]))
    );
    assert_eq!(outcomes[2], IspellResult::Correct);
    assert_eq!(outcomes[3], IspellResult::Correct);
    assert_eq!(outcomes[4], IspellResult::Correct);
}

#[test]
fn decode_outcomes_skips_blank_lines() {
    let frames = vec!["\n\n*\n\n".to_string()];
    let outcomes = decode_outcomes("hello", &frames).unwrap();
    assert_eq!(outcomes, vec![IspellResult::Correct]);
}

#[test]
fn decode_outcomes_empty_text() {
    let frames: Vec<String> = vec![];
    let outcomes = decode_outcomes("", &frames).unwrap();
    assert!(outcomes.is_empty());
}

#[test]
fn decode_outcomes_incomplete_is_process_error() {
    let frames = vec!["*\n".to_string()];
    let r = decode_outcomes("a b", &frames);
    assert!(matches!(r, Err(e) if e.variant == ErrorType::Process));
}

#[test]
fn decode_outcomes_malformed_is_protocol_error() {
    let frames = vec!["zz\n\n".to_string()];
    let r = decode_outcomes("a", &frames);
    assert!(matches!(r, Err(e) if e.variant == ErrorType::Protocol));
}

#[test]
fn decode_issues_filters_outcomes() {
    // The filtered call returns exactly the flagged words of the
    // detailed call, order preserved.
    let frames = vec![
        "*\n& iff 3 9: if, off, oof\n".to_string(),
        "#\tit 17\n*\n*\n\n".to_string(),
    ];
    let detailed = decode_outcomes("Testing iff if it works", &frames).unwrap();
    let issues = decode_issues("Testing iff if it works", &frames).unwrap();
    assert_eq!(issues.len(), 2);
    assert_eq!(issues[0], issue("iff", 8, &["if", "off", "oof"]));
    assert_eq!(issues[1], issue("it", 16, &[]));
    assert_eq!(filter_issues(detailed), issues);
}

#[test]
fn filter_issues_keeps_order_and_drops_the_rest() {
    let results = vec![
        IspellResult::Correct,
        IspellResult::NearMiss(issue("aa", 1, &["ab"])),
        IspellResult::Compound,
        IspellResult::NoMatch(issue("bb", 4, &[])),
        IspellResult::RootMatch("run".to_string()),
        IspellResult::GuessedAffix(issue("cc", 9, &["cd"])),
    ];
    let issues = filter_issues(results);
    assert_eq!(
        issues,
        vec![
            issue("aa", 1, &["ab"]),
            issue("bb", 4, &[]),
            issue("cc", 9, &["cd"]),
        ]
    );
}

#[test]
fn unknown_word_flagged_until_added() {
    // Before the word is added, the session answers a near miss: one
    // issue. After an accepted add-word command, the session answers
    // `*`: no issues.
    let before = decode_issues("foobar", &vec!["& foobar 2 1: foo, bar\n\n".to_string()]).unwrap();
    assert_eq!(before.len(), 1);
    assert_eq!(before[0].misspelled, "foobar");
    assert!(ispell::add_word_command("foobar").is_ok());
    let after = decode_issues("foobar", &vec!["*\n\n".to_string()]).unwrap();
    assert!(after.is_empty());
}

#[test]
fn feed_frame_error_leaves_accounting_unchanged() {
    // A malformed line aborts the call with a protocol error, and no
    // partially decoded outcome leaks out.
    let mut st = CheckState::begin_check("a b");
    let r = st.feed_frame("*\n& \n");
    assert!(matches!(r, Err(e) if e.variant == ErrorType::Protocol));
    assert!(st.needs_more());
    st.feed_frame("*\n*\n").unwrap();
    assert!(!st.needs_more());
    let outcomes = st.finish();
    assert_eq!(outcomes, vec![IspellResult::Correct, IspellResult::Correct]);
}

#[test]
fn feed_frame_ignores_lines_beyond_the_word_count() {
    let mut st = CheckState::begin_check("one");
    st.feed_frame("*\nzz\n").unwrap();
    assert!(!st.needs_more());
    assert_eq!(st.finish(), vec![IspellResult::Correct]);
}
