use vstd::prelude::*;
use vstd::string::*;

verus! {

/// What can go wrong while a configuration is loaded or a session runs.
#[derive(Debug)]
pub enum WhichCmdError {
    /// No configuration file at the place where one is looked for.
    ConfigNotFound { path: String },
    /// Two siblings share a key; the text is the identity both would get.
    ConflictingKeys(String),
    /// A node carries more than one of children, choices and prompt; the text
    /// is its name.
    MultipleActions(String),
    /// A node has neither a name nor a value to take its name from.
    MissingName,
    /// A node's key is not exactly one character; the text is the key.
    InvalidKey(String),
    /// The terminal could not do what was asked of it.
    Terminal(String),
    /// A selection was needed and none was made.
    NoSelection,
    /// The user gave up.
    Cancelled,
}

/// A `WhichCmdError` with its texts as plain sequences of characters.
pub enum ErrorView {
    ConfigNotFound(Seq<char>),
    ConflictingKeys(Seq<char>),
    MultipleActions(Seq<char>),
    MissingName,
    InvalidKey(Seq<char>),
    Terminal(Seq<char>),
    NoSelection,
    Cancelled,
}

impl View for WhichCmdError {
    type V = ErrorView;

    open spec fn view(&self) -> ErrorView {
        match self {
            WhichCmdError::ConfigNotFound { path } => ErrorView::ConfigNotFound(path@),
            WhichCmdError::ConflictingKeys(id) => ErrorView::ConflictingKeys(id@),
            WhichCmdError::MultipleActions(name) => ErrorView::MultipleActions(name@),
            WhichCmdError::MissingName => ErrorView::MissingName,
            WhichCmdError::InvalidKey(key) => ErrorView::InvalidKey(key@),
            WhichCmdError::Terminal(what) => ErrorView::Terminal(what@),
            WhichCmdError::NoSelection => ErrorView::NoSelection,
            WhichCmdError::Cancelled => ErrorView::Cancelled,
        }
    }
}

/// The sentence that describes an error to the user.
pub open spec fn message_of(error: ErrorView) -> Seq<char> {
    match error {
        ErrorView::ConfigNotFound(path) => "Configuration file not found at "@ + path,
        ErrorView::ConflictingKeys(id) => "Conflicting keys found: "@ + id,
        ErrorView::MultipleActions(name) =>
            "Failed to parse configuration: node must have only one of choices, input, or keys: "@
                + name,
        ErrorView::MissingName => "Failed to parse configuration: name must not be empty"@,
        ErrorView::InvalidKey(key) =>
            "Failed to parse configuration: key must be exactly one character: "@ + key,
        ErrorView::Terminal(what) => "Terminal error: "@ + what,
        ErrorView::NoSelection => "No selection made"@,
        ErrorView::Cancelled => "Operation cancelled by user"@,
    }
}

impl WhichCmdError {
    /// The sentence that describes this error to the user.
    pub fn message(&self) -> (text: String)
        ensures
            text@ == message_of(self@),
    {
        match self {
            WhichCmdError::ConfigNotFound { path } => String::from_str(
                "Configuration file not found at ",
            ).concat(path.as_str()),
            WhichCmdError::ConflictingKeys(id) => String::from_str(
                "Conflicting keys found: ",
            ).concat(id.as_str()),
            WhichCmdError::MultipleActions(name) => String::from_str(
                "Failed to parse configuration: node must have only one of choices, input, or keys: ",
            ).concat(name.as_str()),
            WhichCmdError::MissingName => String::from_str(
                "Failed to parse configuration: name must not be empty",
            ),
            WhichCmdError::InvalidKey(key) => String::from_str(
                "Failed to parse configuration: key must be exactly one character: ",
            ).concat(key.as_str()),
            WhichCmdError::Terminal(what) => String::from_str("Terminal error: ").concat(
                what.as_str(),
            ),
            WhichCmdError::NoSelection => String::from_str("No selection made"),
            WhichCmdError::Cancelled => String::from_str("Operation cancelled by user"),
        }
    }
}

} // verus!
