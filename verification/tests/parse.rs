use dcsh::command::parse_command;
use dcsh::command::Invocation;
use dcsh::command::InvocationChain;
use dcsh::command::SyntaxError;
use dcsh::context::ExecContext;

#[test]
fn test_parse_command() {
    let mut context = ExecContext::new();
    assert_eq!(
        parse_command(&context, "ls"),
        Ok(vec![(Invocation::new("ls"), None)])
    );
    assert_eq!(
        parse_command(&context, "ls -al"),
        Ok(vec![(Invocation::new("ls").arg("-al"), None)])
    );
    assert_eq!(
        parse_command(&context, "ls -al | grep foo"),
        Ok(vec![
            (
                Invocation::new("ls").arg("-al"),
                Some(InvocationChain::Pipe)
            ),
            (Invocation::new("grep").arg("foo"), None)
        ])
    );
    assert_eq!(
        parse_command(&context, "ls -al | grep foo || touch foo"),
        Ok(vec![
            (
                Invocation::new("ls").arg("-al"),
                Some(InvocationChain::Pipe)
            ),
            (
                Invocation::new("grep").arg("foo"),
                Some(InvocationChain::Or)
            ),
            (Invocation::new("touch").arg("foo"), None)
        ])
    );
    assert_eq!(
        parse_command(&context, "ls -al && pwd"),
        Ok(vec![
            (Invocation::new("ls").arg("-al"), Some(InvocationChain::And)),
            (Invocation::new("pwd"), None)
        ])
    );
    assert_eq!(
        parse_command(&context, "ls -al; pwd"),
        Ok(vec![
            (
                Invocation::new("ls").arg("-al"),
                Some(InvocationChain::Semicolon)
            ),
            (Invocation::new("pwd"), None)
        ])
    );
    assert_eq!(
        parse_command(&context, "cat < foo"),
        Ok(vec![(Invocation::new("cat").input_file("foo"), None)])
    );
    assert_eq!(
        parse_command(&context, "cat > foo"),
        Ok(vec![(Invocation::new("cat").output_file("foo"), None)])
    );
    assert_eq!(
        parse_command(&context, "cat 2> foo"),
        Ok(vec![(Invocation::new("cat").stderr_file("foo"), None)])
    );
    context.exec_assignment("eecchhoo".to_string(), "echo".to_string());
    assert_eq!(
        parse_command(&context, "$eecchhoo foo"),
        Ok(vec![(Invocation::new("echo").arg("foo"), None)])
    );
    assert_eq!(
        parse_command(&context, "${eecchhoo} foo"),
        Ok(vec![(Invocation::new("echo").arg("foo"), None)])
    );
}

#[test]
fn trailing_operator_is_an_error() {
    let context = ExecContext::new();
    assert_eq!(
        parse_command(&context, "ls |"),
        Err(SyntaxError::ExpectedString)
    );
    assert_eq!(
        parse_command(&context, "ls &&"),
        Err(SyntaxError::ExpectedString)
    );
    assert_eq!(parse_command(&context, ""), Err(SyntaxError::ExpectedString));
}

#[test]
fn leading_operator_is_an_error() {
    let context = ExecContext::new();
    assert_eq!(
        parse_command(&context, "| ls"),
        Err(SyntaxError::ExpectedString)
    );
}

#[test]
fn redirect_without_target_is_an_error() {
    let context = ExecContext::new();
    assert_eq!(
        parse_command(&context, "cat <"),
        Err(SyntaxError::ExpectedString)
    );
    assert_eq!(
        parse_command(&context, "cat > | grep x"),
        Err(SyntaxError::ExpectedString)
    );
}

#[test]
fn repeated_redirects_overwrite() {
    let context = ExecContext::new();
    assert_eq!(
        parse_command(&context, "cat > a > b"),
        Ok(vec![(Invocation::new("cat").output_file("b"), None)])
    );
}

#[test]
fn quoted_strings_become_words_with_quotes_stripped() {
    let context = ExecContext::new();
    assert_eq!(
        parse_command(&context, "echo \"a b\" c"),
        Ok(vec![(Invocation::new("echo").arg("a b").arg("c"), None)])
    );
    assert_eq!(
        parse_command(&context, "\"ls\" -al"),
        Ok(vec![(Invocation::new("ls").arg("-al"), None)])
    );
}

#[test]
fn escaped_quote_stays_literal_inside_string() {
    let context = ExecContext::new();
    assert_eq!(
        parse_command(&context, "echo \"a\\\"b\""),
        Ok(vec![(Invocation::new("echo").arg("a\\\"b"), None)])
    );
}
