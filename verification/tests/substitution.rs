use dcsh::command::parse_command;
use dcsh::command::Invocation;
use dcsh::context::ExecAction;
use dcsh::context::ExecContext;
use dcsh::context::Statement;

#[test]
fn simple_and_braced_references() {
    let mut context = ExecContext::new();
    context.exec_assignment("eecchhoo".to_string(), "echo".to_string());
    assert_eq!(context.perform_substitution("$eecchhoo foo"), "echo foo");
    assert_eq!(context.perform_substitution("${eecchhoo} foo"), "echo foo");
    assert_eq!(context.perform_substitution("${ eecchhoo } foo"), "echo foo");
}

#[test]
fn unset_variable_substitutes_to_empty() {
    let context = ExecContext::new();
    assert_eq!(context.perform_substitution("$nosuch"), "");
    assert_eq!(context.perform_substitution("a${ nosuch }b"), "ab");
    assert_ne!(context.perform_substitution("$nosuch"), "$nosuch");
}

#[test]
fn dollar_without_name_stays_literal() {
    let context = ExecContext::new();
    assert_eq!(context.perform_substitution("$ x"), "$ x");
    assert_eq!(context.perform_substitution("${not closed"), "${not closed");
    assert_eq!(context.perform_substitution("${a b}"), "${a b}");
}

#[test]
fn substitution_applies_to_whole_token_text() {
    let mut context = ExecContext::new();
    context.exec_assignment("a".to_string(), "1".to_string());
    context.exec_assignment("b".to_string(), "2".to_string());
    assert_eq!(context.perform_substitution("x$a-$b${a}"), "x1-21");
}

#[test]
fn assignment_substitutes_its_expression() {
    let mut context = ExecContext::new();
    context.exec_assignment("x".to_string(), "echo".to_string());
    context.exec_assignment("y".to_string(), "$x hi".to_string());
    assert_eq!(context.perform_substitution("$y"), "echo hi");
}

#[test]
fn rebinding_overwrites() {
    let mut context = ExecContext::new();
    context.exec_assignment("x".to_string(), "one".to_string());
    context.exec_assignment("x".to_string(), "two".to_string());
    assert_eq!(context.perform_substitution("$x"), "two");
}

#[test]
fn execute_processes_statements_in_order() {
    let mut context = ExecContext::new();
    let actions = context.execute(vec![
        Statement::Assignment("x".to_string(), "echo".to_string()),
        Statement::Command("$x hi".to_string()),
    ]);
    assert_eq!(actions.len(), 1);
    match &actions[0] {
        ExecAction::Run(chain) => {
            assert_eq!(chain, &vec![(Invocation::new("echo").arg("hi"), None)]);
        }
        other => panic!("unexpected action: {:?}", other),
    }
}

#[test]
fn execute_reports_syntax_errors() {
    let mut context = ExecContext::new();
    let actions = context.execute(vec![Statement::Command("ls |".to_string())]);
    assert_eq!(actions.len(), 1);
    assert!(matches!(actions[0], ExecAction::Report(_)));
}

#[test]
fn execute_hands_conditionals_back() {
    let mut context = ExecContext::new();
    let actions = context.execute(vec![Statement::If(
        "x".to_string(),
        vec![Statement::Command("ls".to_string())],
        vec![],
    )]);
    assert_eq!(actions.len(), 1);
    assert!(matches!(actions[0], ExecAction::IfStub(_, _, _)));
}
