use envlock::envfile::{assemble_lines, parse_env, parse_env_lenient, parse_env_lines};

#[test]
fn parse_valid_env() {
    let input = b"MY_VAR=hello\nDB_URL=postgres://localhost\n";
    let pairs = parse_env_lines(input).unwrap();
    assert_eq!(pairs.len(), 2);
    assert_eq!(pairs[0], ("MY_VAR".into(), "hello".into()));
    assert_eq!(pairs[1], ("DB_URL".into(), "postgres://localhost".into()));
}

#[test]
fn parse_with_comments_and_blanks() {
    let input = b"# comment\n\nMY_VAR=val\n  \nOTHER=2\n";
    let pairs = parse_env_lines(input).unwrap();
    assert_eq!(pairs.len(), 2);
}

#[test]
fn parse_missing_equals_reports_line() {
    let input = b"GOOD=val\nBAD_LINE_NO_EQUALS\n";
    let result = parse_env_lines(input);
    assert!(result.is_err());
    let err = result.unwrap_err().to_string();
    assert!(err.contains("line 2"), "Error should mention line 2: {}", err);
    assert!(err.contains("BAD_LINE_NO_EQUALS"), "Error should quote the bad line: {}", err);
}

#[test]
fn parse_non_utf8_fails() {
    let input = &[0xFF, 0xFE, 0x00];
    let result = parse_env_lines(input);
    assert!(result.is_err());
    assert!(result.unwrap_err().to_string().contains("UTF-8"));
}

#[test]
fn parse_missing_equals_exact_message() {
    let err = parse_env_lines(b"A=1\n\n  # c\n  NOPE  \n").unwrap_err().to_string();
    assert_eq!(err, "Parse error on line 4: 'NOPE' \u{2014} expected KEY=VALUE");
}

#[test]
fn parse_rejected_line_names_line_and_reason() {
    let err = parse_env_lines(b"A=1\n1BAD=2\n").unwrap_err().to_string();
    assert!(err.starts_with("Parse error on line 2: '1BAD=2' \u{2014} "), "{}", err);
}

#[test]
fn parse_crlf_lines() {
    let pairs = parse_env_lines(b"A=1\r\nB=two\r\n").unwrap();
    assert_eq!(pairs, vec![("A".to_string(), "1".to_string()), ("B".to_string(), "two".to_string())]);
}

#[test]
fn parse_empty_content_gives_no_pairs() {
    assert!(parse_env_lines(b"").unwrap().is_empty());
}

#[test]
fn parse_whole_content_keeps_order() {
    let pairs = parse_env(b"B=2\nA=1\n").unwrap();
    assert_eq!(pairs, vec![("B".to_string(), "2".to_string()), ("A".to_string(), "1".to_string())]);
}

#[test]
fn parse_whole_content_reports_error() {
    let err = parse_env(b"A=1\n=oops\n").unwrap_err();
    assert_eq!(err.to_string(), "Failed to parse .env line");
    assert!(err.cause().unwrap().starts_with("Error parsing line: '=oops'"), "{:?}", err);
}

#[test]
fn lenient_parse_skips_bad_items() {
    let pairs = parse_env_lenient(b"A=1\n=oops\nB=2\n");
    assert_eq!(pairs, vec![("A".to_string(), "1".to_string()), ("B".to_string(), "2".to_string())]);
}

#[test]
fn assembled_pairs_take_dotenvy_values_line_by_line() {
    let lines: Vec<String> = vec!["# c".into(), "A=$X".into(), "".into(), "B=2".into()];
    let firsts = vec![
        None,
        Some(Ok(("A".to_string(), "from-env".to_string()))),
        None,
        Some(Ok(("B".to_string(), "2".to_string()))),
    ];
    assert_eq!(
        assemble_lines(&lines, &firsts).unwrap(),
        vec![("A".to_string(), "from-env".to_string()), ("B".to_string(), "2".to_string())]
    );
    let refused = vec![None, Some(Err("bad".to_string())), None, None];
    assert_eq!(
        assemble_lines(&lines, &refused).unwrap_err().to_string(),
        "Parse error on line 2: 'A=$X' \u{2014} bad"
    );
    assert_eq!(
        assemble_lines(&lines, &vec![None, None]).unwrap_err().to_string(),
        "Parse error on line 2: 'A=$X' \u{2014} not a valid KEY=VALUE assignment"
    );
}
