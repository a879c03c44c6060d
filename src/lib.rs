//! The core of an interactive command shell: a lexer and parser for command
//! lines, the builtin commands, the history store, tab completion, the line
//! editor's key handling, and the decisions of the pipeline executor. The
//! terminal, the file system and processes stay with the caller, which hands
//! in plain values and carries out what the library decides.

pub mod commands;
pub mod completion;
pub mod context;
pub mod editor;
pub mod error;
pub mod executor;
pub mod external;
pub mod lexer;
pub mod parser;
pub mod redirection;
pub mod text;

pub use commands::{Cd, Commands, Describe, Echo, Exit, External, History, HistoryRequest, Pwd};
pub use completion::AutoCompleter;
pub use context::{HistoryFlush, ShellCtx};
pub use editor::{EditAction, EditKey, Shell};
pub use error::ShellError;
pub use lexer::{run_lexer, Lexer, Token, TokenType, TokenView};
pub use redirection::{eval_redirect, Redirect, Redirection};
