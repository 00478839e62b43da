//! An interactive command-line shell core: a tokenizer and invocation-chain
//! parser for command lines, variable substitution, the chain-operator
//! decision logic of the process orchestrator, and the raw-mode line editor's
//! edit buffer and history.
pub mod command;
pub mod context;
pub mod events;
pub mod history;
pub mod prompt;
pub mod text;
pub mod token;
