use vstd::prelude::*;

verus! {

/// The reasons registration or validation can fail.
#[derive(Debug, PartialEq, Eq)]
pub enum ParseError {
    /// An option was declared with neither a long nor a short name, or with a
    /// long name shorter than two characters.
    InvalidDefinition,
    /// An option or command name collides with one already registered in the
    /// same scope.
    DuplicateName,
    /// A flag token does not match any option registered in the active scope.
    UnknownOption(String),
    /// A mandatory-value option was not followed by a consumable bare value.
    MissingArgument(String),
    /// An option marked unique was passed more than once.
    DuplicateOption(String),
    /// A bare value was left pending when a later option or command matched.
    UnexpectedArgument(String),
    /// A command name was recognized a second time.
    UnexpectedCommand(String),
}

/// The mathematical shape of a `ParseError`: payloads as character sequences.
pub enum ErrorView {
    InvalidDefinition,
    DuplicateName,
    UnknownOption(Seq<char>),
    MissingArgument(Seq<char>),
    DuplicateOption(Seq<char>),
    UnexpectedArgument(Seq<char>),
    UnexpectedCommand(Seq<char>),
}

impl View for ParseError {
    type V = ErrorView;

    open spec fn view(&self) -> ErrorView {
        match self {
            ParseError::InvalidDefinition => ErrorView::InvalidDefinition,
            ParseError::DuplicateName => ErrorView::DuplicateName,
            ParseError::UnknownOption(n) => ErrorView::UnknownOption(n@),
            ParseError::MissingArgument(n) => ErrorView::MissingArgument(n@),
            ParseError::DuplicateOption(n) => ErrorView::DuplicateOption(n@),
            ParseError::UnexpectedArgument(n) => ErrorView::UnexpectedArgument(n@),
            ParseError::UnexpectedCommand(n) => ErrorView::UnexpectedCommand(n@),
        }
    }
}

impl ParseError {
    /// A human-readable description, in place of a `Display` impl.
    pub fn message(&self) -> (r: String)
        ensures
            r@ == self.message_spec(),
    {
        match self {
            ParseError::InvalidDefinition => String::from_str(
                "An option needs either a short or a long name",
            ),
            ParseError::DuplicateName => String::from_str(
                "An option or command with the same name was already added",
            ),
            ParseError::UnknownOption(n) => String::from_str("Invalid option : ").concat(
                n.as_str(),
            ),
            ParseError::MissingArgument(n) => String::from_str(
                "Missing argument for option : ",
            ).concat(n.as_str()),
            ParseError::DuplicateOption(n) => String::from_str(
                "The option was given more than once : ",
            ).concat(n.as_str()),
            ParseError::UnexpectedArgument(n) => String::from_str("Unexpected argument : ").concat(
                n.as_str(),
            ),
            ParseError::UnexpectedCommand(n) => String::from_str("Unexpected command : ").concat(
                n.as_str(),
            ),
        }
    }

    /// What `message` returns, for each variant.
    pub open spec fn message_spec(&self) -> Seq<char> {
        match self {
            ParseError::InvalidDefinition => "An option needs either a short or a long name"@,
            ParseError::DuplicateName
                => "An option or command with the same name was already added"@,
            ParseError::UnknownOption(n) => "Invalid option : "@ + n@,
            ParseError::MissingArgument(n) => "Missing argument for option : "@ + n@,
            ParseError::DuplicateOption(n) => "The option was given more than once : "@ + n@,
            ParseError::UnexpectedArgument(n) => "Unexpected argument : "@ + n@,
            ParseError::UnexpectedCommand(n) => "Unexpected command : "@ + n@,
        }
    }
}

} // verus!
