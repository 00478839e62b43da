use dcsh::token::tokenize;
use dcsh::token::CommandToken;

#[test]
fn operators_need_separation_from_words() {
    assert_eq!(
        tokenize("ls&&pwd"),
        vec![CommandToken::Word("ls&&pwd".to_string())]
    );
    assert_eq!(
        tokenize("ls && pwd"),
        vec![
            CommandToken::Word("ls".to_string()),
            CommandToken::And,
            CommandToken::Word("pwd".to_string())
        ]
    );
}

#[test]
fn semicolon_always_splits() {
    assert_eq!(
        tokenize("ls;pwd"),
        vec![
            CommandToken::Word("ls".to_string()),
            CommandToken::Semicolon,
            CommandToken::Word("pwd".to_string())
        ]
    );
}

#[test]
fn stderr_redirect_longest_match() {
    assert_eq!(
        tokenize("cat 2> foo"),
        vec![
            CommandToken::Word("cat".to_string()),
            CommandToken::StderrRedirect,
            CommandToken::Word("foo".to_string())
        ]
    );
    assert_eq!(
        tokenize("cat 2>foo"),
        vec![
            CommandToken::Word("cat".to_string()),
            CommandToken::Word("2>foo".to_string())
        ]
    );
}

#[test]
fn single_character_operators() {
    assert_eq!(
        tokenize("a | b < c > d"),
        vec![
            CommandToken::Word("a".to_string()),
            CommandToken::Pipe,
            CommandToken::Word("b".to_string()),
            CommandToken::InputRedirect,
            CommandToken::Word("c".to_string()),
            CommandToken::OutputRedirect,
            CommandToken::Word("d".to_string())
        ]
    );
}

#[test]
fn quoted_string_keeps_spaces() {
    assert_eq!(
        tokenize("\"a b\" c"),
        vec![
            CommandToken::Str("a b".to_string()),
            CommandToken::Word("c".to_string())
        ]
    );
}

#[test]
fn unclosed_quote_is_a_word() {
    assert_eq!(
        tokenize("\"abc"),
        vec![CommandToken::Word("\"abc".to_string())]
    );
}

#[test]
fn string_followed_by_word_characters_is_a_word() {
    assert_eq!(
        tokenize("\"a\"b"),
        vec![CommandToken::Word("\"a\"b".to_string())]
    );
}

#[test]
fn escaped_quotes_extend_the_string() {
    assert_eq!(
        tokenize("\"a\\\"b\" x"),
        vec![
            CommandToken::Str("a\\\"b".to_string()),
            CommandToken::Word("x".to_string())
        ]
    );
}

#[test]
fn whitespace_only_yields_no_tokens() {
    assert_eq!(tokenize("   \t  "), vec![]);
}
