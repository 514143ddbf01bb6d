//! Shell tab-completion engine: a command-line tokenizer, a state machine that
//! walks a tree of subcommands and flags, and the derivation of completion
//! candidates from the machine's final state.

pub mod config;
pub mod text;
pub mod machine_state;
pub mod machine;
pub mod options_finder;
pub mod output;
pub mod shell_tokenizer;
