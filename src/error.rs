use vstd::prelude::*;

verus! {

/// Everything that can go wrong while reading, parsing or running a line.
#[derive(Debug, PartialEq, Eq)]
pub enum ShellError {
    /// A command ran and failed; the text is what the user sees.
    Execution(String),
    /// A redirection target could not be written.
    WriteFile(String),
    /// A redirection target could not be created or opened for writing.
    CreateFile(String),
    /// A file could not be opened for reading.
    OpenFile(String),
    /// A quoted span has no closing quote.
    MissingQuote,
    /// The input ended before a line was committed.
    Eol,
    /// An operator lacks the word that must follow it.
    MissingArg,
    /// The line does not follow the operator grammar.
    Parsing,
}

/// The line shown to the user for an error.
pub open spec fn message_of(e: ShellError) -> Seq<char> {
    match e {
        ShellError::Execution(m) => m@,
        ShellError::WriteFile(p) => p@ + ": Failed to write to file"@,
        ShellError::CreateFile(p) => p@ + ": Failed to create file"@,
        ShellError::OpenFile(p) => p@ + ": Failed to open file"@,
        ShellError::MissingQuote => "Missing endquote"@,
        ShellError::Eol => "End of line error"@,
        ShellError::MissingArg => "Missing argument"@,
        ShellError::Parsing => "Failed to parse command"@,
    }
}

impl ShellError {
    /// The line shown to the user for this error.
    pub fn message(&self) -> (r: String)
        ensures
            r@ == message_of(*self),
    {
        match self {
            ShellError::Execution(m) => m.clone(),
            ShellError::WriteFile(p) => p.clone().concat(": Failed to write to file"),
            ShellError::CreateFile(p) => p.clone().concat(": Failed to create file"),
            ShellError::OpenFile(p) => p.clone().concat(": Failed to open file"),
            ShellError::MissingQuote => String::from_str("Missing endquote"),
            ShellError::Eol => String::from_str("End of line error"),
            ShellError::MissingArg => String::from_str("Missing argument"),
            ShellError::Parsing => String::from_str("Failed to parse command"),
        }
    }
}

} // verus!
