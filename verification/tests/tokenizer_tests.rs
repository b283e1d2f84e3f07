use beanbot::tokenizer::{command_split, escape_string, TokenizeError};

fn verify(input: &str, result: &[&str]) {
    assert_eq!(
        command_split(input).unwrap(),
        result.iter().map(|&x| x.to_owned()).collect::<Vec<_>>(),
    );
}

fn verify_none(input: &str, msg: &str) {
    let err = command_split(input).unwrap_err();
    assert_eq!(err.message(), msg);
}

#[test]
fn test_split() {
    verify("foo$baz", &["foo$baz"]);
    verify("foo baz", &["foo", "baz"]);
    verify("foo\"bar\"baz", &["foobarbaz"]);
    verify("foo \"bar\"baz", &["foo", "barbaz"]);
    verify("'baz\\$b'", &["baz\\$b"]);
    verify("foo #bar", &["foo", "#bar"]);
    verify("foo#bar", &["foo#bar"]);
    verify(r"'\n'", &[r"\n"]);
    verify(r"'\\n'", &[r"\\n"]);
    verify("foo #bar  baz", &["foo", "#bar", "baz"]);
    verify("\\", &[r"\"]);
    verify(r#""def\\\"abc" \"#, &[r#"def\"abc"#, r"\"]);

    verify_none("   foo \nbar", "newline within argument");
    verify_none("foo\\\nbar", "newline within argument");
    verify_none("foo \"b\nar\"", "newline within double quote");
    verify_none("foo '\nba'r", "newline within single quote");
    verify_none("foo\"#bar", "unmatched double quote");
    verify_none(r"'baz\''", "unmatched single quote");
    verify_none("\"\\", "unmatched double quote");
    verify_none(r"'\", "unmatched single quote");
    verify_none("\"", "unmatched double quote");
    verify_none("'", "unmatched single quote");
}

#[test]
fn test_bean_command() {
    verify(
        ">公司\t#trip  '10 CNY' \tali \"food out\"  \t 'the rest'  ",
        &[">公司", "#trip", "10 CNY", "ali", "food out", "the rest"],
    );
    verify(
        r#"  >公司 '10 CNY' ali "food \"out"  'narr the rest'"#,
        &[">公司", "10 CNY", "ali", "food \"out", "narr the rest"],
    );
}

#[test]
fn test_empty_input_gives_no_tokens() {
    verify("", &[]);
    verify("  \t  ", &[]);
}

#[test]
fn test_quoted_empty_token() {
    verify("\"\"", &[""]);
    verify("'' a", &["", "a"]);
}

#[test]
fn test_escape_string_doubles_specials() {
    assert_eq!(escape_string(r"a\b"), r"a\\b");
    assert_eq!(escape_string("say \"hi\""), "say \\\"hi\\\"");
    assert_eq!(escape_string("plain"), "plain");
}

#[test]
fn test_escape_then_tokenize_round_trip() {
    for s in ["", "plain", "a\\b", "say \"hi\"", "mix \" and \\ ok", "公司 钱"] {
        let quoted = format!("\"{}\"", escape_string(s));
        assert_eq!(command_split(&quoted).unwrap(), vec![s.to_owned()]);
    }
}

#[test]
fn test_newline_error_kinds() {
    assert!(matches!(
        command_split("a\nb").unwrap_err(),
        TokenizeError::NewlineInArgument
    ));
    assert!(matches!(
        command_split("\"a\nb\"").unwrap_err(),
        TokenizeError::NewlineInDoubleQuote
    ));
    assert!(matches!(
        command_split("'a\nb'").unwrap_err(),
        TokenizeError::NewlineInSingleQuote
    ));
}
