use dcsh::command::chain_decision;
use dcsh::command::pipes_output;
use dcsh::command::InvocationChain;
use dcsh::command::ProcessStatus;

#[test]
fn and_stops_the_chain_on_failure() {
    assert_eq!(
        chain_decision(&Some(InvocationChain::And), ProcessStatus::Exited(1)),
        Some(ProcessStatus::Exited(1))
    );
    assert_eq!(
        chain_decision(&Some(InvocationChain::And), ProcessStatus::Signaled),
        Some(ProcessStatus::Signaled)
    );
    assert_eq!(
        chain_decision(&Some(InvocationChain::And), ProcessStatus::Exited(0)),
        None
    );
}

#[test]
fn or_stops_the_chain_on_success() {
    assert_eq!(
        chain_decision(&Some(InvocationChain::Or), ProcessStatus::Exited(0)),
        Some(ProcessStatus::Exited(0))
    );
    assert_eq!(
        chain_decision(&Some(InvocationChain::Or), ProcessStatus::Exited(3)),
        None
    );
}

#[test]
fn sequence_always_continues() {
    assert_eq!(
        chain_decision(&Some(InvocationChain::Semicolon), ProcessStatus::Exited(7)),
        None
    );
    assert_eq!(
        chain_decision(&Some(InvocationChain::Semicolon), ProcessStatus::Exited(0)),
        None
    );
}

#[test]
fn terminal_element_returns_its_status() {
    assert_eq!(
        chain_decision(&None, ProcessStatus::Exited(42)),
        Some(ProcessStatus::Exited(42))
    );
    assert_eq!(
        chain_decision(&None, ProcessStatus::Signaled),
        Some(ProcessStatus::Signaled)
    );
}

#[test]
fn only_pipe_elements_pipe_their_output() {
    assert!(pipes_output(&Some(InvocationChain::Pipe)));
    assert!(!pipes_output(&Some(InvocationChain::And)));
    assert!(!pipes_output(&Some(InvocationChain::Or)));
    assert!(!pipes_output(&Some(InvocationChain::Semicolon)));
    assert!(!pipes_output(&None));
}
