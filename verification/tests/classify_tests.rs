use osh_core::job::{ParseError, RedirKind};
use osh_core::parse::classify;
use osh_core::tokenize::tokenize;

fn job_of(line: &[u8]) -> osh_core::job::Job {
    classify(&line.to_vec()).unwrap().unwrap()
}

#[test]
fn tokenize_splits_on_whitespace_runs() {
    let toks = tokenize(&b"  ls   -l  /tmp ".to_vec());
    let expected: Vec<Vec<u8>> = vec![b"ls".to_vec(), b"-l".to_vec(), b"/tmp".to_vec()];
    assert_eq!(toks, expected);
}

#[test]
fn empty_line_yields_no_job() {
    assert!(matches!(classify(&b"".to_vec()), Ok(None)));
    assert!(matches!(classify(&b"   ".to_vec()), Ok(None)));
}

#[test]
fn plain_command_single_stage() {
    let j = job_of(b"ls -l");
    assert_eq!(j.stages.len(), 1);
    assert_eq!(j.stages[0], vec![b"ls".to_vec(), b"-l".to_vec()]);
    assert!(j.redirect.is_none());
    assert!(!j.background);
}

#[test]
fn background_marker_is_stripped_and_sets_flag() {
    let j = job_of(b"sleep 5 &");
    assert_eq!(j.stages.len(), 1);
    assert_eq!(j.stages[0], vec![b"sleep".to_vec(), b"5".to_vec()]);
    assert!(j.background);
}

#[test]
fn ampersand_inside_token_is_an_argument() {
    let j = job_of(b"echo a&b");
    assert_eq!(j.stages[0], vec![b"echo".to_vec(), b"a&b".to_vec()]);
    assert!(!j.background);
}

#[test]
fn bare_ampersand_is_an_empty_command() {
    assert_eq!(classify(&b"&".to_vec()), Err(ParseError::EmptyCommand));
}

#[test]
fn two_stage_pipeline() {
    let j = job_of(b"echo a b c | wc -w");
    assert_eq!(j.stages.len(), 2);
    assert_eq!(
        j.stages[0],
        vec![b"echo".to_vec(), b"a".to_vec(), b"b".to_vec(), b"c".to_vec()]
    );
    assert_eq!(j.stages[1], vec![b"wc".to_vec(), b"-w".to_vec()]);
    assert!(j.redirect.is_none());
    assert!(!j.background);
}

#[test]
fn three_stage_background_pipeline() {
    let j = job_of(b"cat f | sort | uniq &");
    assert_eq!(j.stages.len(), 3);
    assert_eq!(j.stages[0], vec![b"cat".to_vec(), b"f".to_vec()]);
    assert_eq!(j.stages[1], vec![b"sort".to_vec()]);
    assert_eq!(j.stages[2], vec![b"uniq".to_vec()]);
    assert!(j.background);
}

#[test]
fn pipe_byte_inside_token_splits_the_raw_line() {
    // Operator detection needs a standalone `|` token, but the split
    // then runs over every `|` byte of the raw line.
    let j = job_of(b"a | b|c");
    assert_eq!(j.stages.len(), 3);
    assert_eq!(j.stages[0], vec![b"a".to_vec()]);
    assert_eq!(j.stages[1], vec![b"b".to_vec()]);
    assert_eq!(j.stages[2], vec![b"c".to_vec()]);
}

#[test]
fn lone_pipe_is_an_empty_stage() {
    assert_eq!(classify(&b"|".to_vec()), Err(ParseError::EmptyStage));
    assert_eq!(classify(&b"a | ".to_vec()), Err(ParseError::EmptyStage));
    assert_eq!(classify(&b" | b".to_vec()), Err(ParseError::EmptyStage));
}

#[test]
fn output_redirection() {
    let j = job_of(b"printf hi > f.txt");
    assert_eq!(j.stages.len(), 1);
    assert_eq!(j.stages[0], vec![b"printf".to_vec(), b"hi".to_vec()]);
    let r = j.redirect.unwrap();
    assert_eq!(r.kind, RedirKind::Out);
    assert_eq!(r.path, b"f.txt".to_vec());
    assert!(!j.background);
}

#[test]
fn input_redirection() {
    let j = job_of(b"wc -l < f.txt");
    assert_eq!(j.stages[0], vec![b"wc".to_vec(), b"-l".to_vec()]);
    let r = j.redirect.unwrap();
    assert_eq!(r.kind, RedirKind::In);
    assert_eq!(r.path, b"f.txt".to_vec());
}

#[test]
fn first_operator_in_scan_order_wins() {
    let j = job_of(b"cmd > out < in");
    assert_eq!(j.stages[0], vec![b"cmd".to_vec()]);
    let r = j.redirect.unwrap();
    assert_eq!(r.kind, RedirKind::Out);
    assert_eq!(r.path, b"out".to_vec());
}

#[test]
fn redirection_without_target_fails() {
    assert_eq!(classify(&b"cat <".to_vec()), Err(ParseError::MissingRedirectPath));
    assert_eq!(classify(&b"ls >".to_vec()), Err(ParseError::MissingRedirectPath));
}

#[test]
fn redirection_without_command_fails() {
    assert_eq!(classify(&b"> f.txt".to_vec()), Err(ParseError::EmptyCommand));
}

#[test]
fn pipeline_takes_precedence_over_redirection() {
    let j = job_of(b"a > x | b");
    assert_eq!(j.stages.len(), 2);
    assert_eq!(j.stages[0], vec![b"a".to_vec(), b">".to_vec(), b"x".to_vec()]);
    assert_eq!(j.stages[1], vec![b"b".to_vec()]);
    assert!(j.redirect.is_none());
}
