//! What can be wrong with the arguments of the command line tool.
use vstd::prelude::*;

verus! {

/// Why an argument cannot be used. Every value says what is at fault; none
/// carries a message.
#[derive(Debug, PartialEq, Eq)]
pub enum CliError {
    /// The flags of the S-expression output hold this character, which is no
    /// flag.
    UnknownSExpressionFlag(char),
    /// The flags of the tree output hold this character, which is no flag.
    UnknownCstFlag(char),
    /// The XML output was given flags, and takes none.
    XmlFlags,
    /// The name of an output format is followed by flags without a colon
    /// between them.
    FlagsWithoutColon,
    /// This is not the name of an output format.
    UnknownOutputFormat(String),
    /// A range named `error` stands beside other ranges or points.
    ErrorRangeNotAlone,
    /// A range named `error-path` stands beside other ranges or points.
    ErrorPathRangeNotAlone,
    /// This point carries both a dash and an at sign.
    DashWithAt(String),
    /// This text should be a number and is none that fits.
    InvalidNumber(String),
    /// These three texts do not describe an edit: a byte offset or a
    /// position, a number of bytes to delete, and the text to insert.
    InvalidEdit { position: String, deleted_length: String, inserted_text: String },
    /// No path, pattern or snippet was given.
    NoInputs,
    /// A snippet was given to a command that reads files only.
    SnippetsUnsupported,
    /// Ranges were given to limit the output of more than one input.
    RangesWithManyInputs,
    /// Edits were given for more than one input.
    EditsWithManyInputs,
}

pub enum CliErrorModel {
    UnknownSExpressionFlag(char),
    UnknownCstFlag(char),
    XmlFlags,
    FlagsWithoutColon,
    UnknownOutputFormat(Seq<char>),
    ErrorRangeNotAlone,
    ErrorPathRangeNotAlone,
    DashWithAt(Seq<char>),
    InvalidNumber(Seq<char>),
    InvalidEdit { position: Seq<char>, deleted_length: Seq<char>, inserted_text: Seq<char> },
    NoInputs,
    SnippetsUnsupported,
    RangesWithManyInputs,
    EditsWithManyInputs,
}

impl View for CliError {
    type V = CliErrorModel;

    open spec fn view(&self) -> CliErrorModel {
        match self {
            CliError::UnknownSExpressionFlag(c) => CliErrorModel::UnknownSExpressionFlag(*c),
            CliError::UnknownCstFlag(c) => CliErrorModel::UnknownCstFlag(*c),
            CliError::XmlFlags => CliErrorModel::XmlFlags,
            CliError::FlagsWithoutColon => CliErrorModel::FlagsWithoutColon,
            CliError::UnknownOutputFormat(s) => CliErrorModel::UnknownOutputFormat(s@),
            CliError::ErrorRangeNotAlone => CliErrorModel::ErrorRangeNotAlone,
            CliError::ErrorPathRangeNotAlone => CliErrorModel::ErrorPathRangeNotAlone,
            CliError::DashWithAt(s) => CliErrorModel::DashWithAt(s@),
            CliError::InvalidNumber(s) => CliErrorModel::InvalidNumber(s@),
            CliError::InvalidEdit { position, deleted_length, inserted_text } => {
                CliErrorModel::InvalidEdit {
                    position: position@,
                    deleted_length: deleted_length@,
                    inserted_text: inserted_text@,
                }
            },
            CliError::NoInputs => CliErrorModel::NoInputs,
            CliError::SnippetsUnsupported => CliErrorModel::SnippetsUnsupported,
            CliError::RangesWithManyInputs => CliErrorModel::RangesWithManyInputs,
            CliError::EditsWithManyInputs => CliErrorModel::EditsWithManyInputs,
        }
    }
}

} // verus!
