use tabry::shell_tokenizer::{basename_of, split_with_comppoint, TokenizeError};

fn s(x: &str) -> String {
    x.to_string()
}

fn split(line: &str, point: usize) -> (String, Vec<String>, String) {
    let r = split_with_comppoint(line, point).unwrap();
    (r.command_basename, r.arguments, r.last_argument)
}

#[test]
fn scenario_double_space_and_partial_word() {
    let line = "mycli foo  ba";
    assert_eq!(split(line, line.len()), (s("mycli"), vec![s("foo")], s("ba")));
}

#[test]
fn cursor_after_blank_gives_empty_last() {
    assert_eq!(split("mycli foo ", 10), (s("mycli"), vec![s("foo")], s("")));
}

#[test]
fn text_after_cursor_is_ignored() {
    assert_eq!(split("mycli foo bar baz", 11), (s("mycli"), vec![s("foo")], s("b")));
    assert_eq!(split("mycli foo bar", 6), (s("mycli"), vec![], s("")));
}

#[test]
fn command_basename_drops_directories() {
    assert_eq!(split("/usr/local/bin/mycli a ", 23).0, s("mycli"));
    assert_eq!(basename_of("a/b/c"), "c");
    assert_eq!(basename_of("dir/"), "");
    assert_eq!(basename_of("plain"), "plain");
}

#[test]
fn quotes_keep_blanks() {
    assert_eq!(split("x 'a b' \"c d\" e", 15), (s("x"), vec![s("a b"), s("c d")], s("e")));
    assert_eq!(split("x '' y", 6), (s("x"), vec![s("")], s("y")));
    assert_eq!(split("x a'b c'd ", 10), (s("x"), vec![s("ab cd")], s("")));
}

#[test]
fn escapes_follow_shell_rules() {
    assert_eq!(split("x a\\ b ", 7), (s("x"), vec![s("a b")], s("")));
    assert_eq!(split("x \"a\\\"b\\n\" ", 11), (s("x"), vec![s("a\"b\\n")], s("")));
    assert_eq!(split("x 'a\\b' ", 8), (s("x"), vec![s("a\\b")], s("")));
}

#[test]
fn unterminated_quote_is_the_last_word() {
    assert_eq!(split("x \"ab c", 7), (s("x"), vec![], s("ab c")));
    assert_eq!(split("x 'it", 5), (s("x"), vec![], s("it")));
}

#[test]
fn tokenizer_errors() {
    assert_eq!(split_with_comppoint("abc", 4).err(), Some(TokenizeError::OffsetOutOfRange));
    assert_eq!(split_with_comppoint("x é", 3).err(), Some(TokenizeError::OffsetOutOfRange));
    assert_eq!(split_with_comppoint("x a\\", 4).err(), Some(TokenizeError::DanglingEscape));
    assert_eq!(split_with_comppoint("mycli", 5).err(), Some(TokenizeError::MissingCommand));
    assert_eq!(split_with_comppoint("", 0).err(), Some(TokenizeError::MissingCommand));
}

#[test]
fn multibyte_offsets() {
    assert_eq!(split("x é f", 5), (s("x"), vec![s("é")], s("")));
    assert_eq!(split("x é f", 4), (s("x"), vec![], s("é")));
}

#[test]
fn joined_plain_tokens_split_back() {
    let (_, args, _) = split("cmd aa bb cc ", 13);
    let joined = format!("cmd {} ", args.join(" "));
    let (_, again, _) = split(&joined, joined.len());
    assert_eq!(again, args);
}
