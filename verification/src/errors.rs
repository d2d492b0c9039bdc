//! The failures that the library reports.

use vstd::prelude::*;

verus! {

/// Every way in which an operation of this library can fail.
#[derive(Clone, Copy, Debug, PartialEq, Eq, Structural)]
pub enum Error {
    /// A multiply or variable-size directive names no field, holds a bad
    /// operator, or holds a number that does not parse or is zero.
    InvalidDirective,
    /// The bytes of a source field are not 2, 4, 8 or 16 long.
    UnsupportedSize,
    /// The size arithmetic of a variable field leaves the range of `usize`
    /// or divides by zero.
    ArithmeticFault,
    /// The source field of a variable field was not extracted before it.
    MissingSourceField,
    /// A fixed-size field would end at or past the end of the file.
    StructureTooLarge,
    /// The binary file could not be opened.
    OpenFileError,
    /// No argument was given on the command line.
    NoArguments,
    /// A flag that the operation needs was not given on the command line.
    MissingFlag,
    /// The file that a flag names does not exist.
    FileNotFound,
    /// A flag was given without the value that it needs, or with a bad one.
    InvalidFlagValue,
    /// The flags given select none of the run options.
    UnsupportedFlags,
    /// A field that a table or a hex view asks for was never extracted.
    MissingField,
    /// The bytes of a field do not fit its display format.
    InvalidFieldData,
    /// A text that holds a terminal escape cannot stand in a table.
    UnprintableText,
    /// The text of a C struct is malformed.
    InvalidStruct,
    /// A C type whose size is not known.
    UnsupportedType,
    /// The grammar text could not be parsed.
    GrammarParseError,
}

/// The cause of a failure, in words.
pub open spec fn cause(error: Error) -> Seq<char> {
    match error {
        Error::InvalidDirective => "A directive of the grammar is invalid"@,
        Error::UnsupportedSize => "The source of a variable size field must have 2, 4, 8 or 16 bytes"@,
        Error::ArithmeticFault => "The size of a variable size field cannot be computed"@,
        Error::MissingSourceField => "A source field must appear before its variable size field"@,
        Error::StructureTooLarge => "The structure is larger than the file"@,
        Error::OpenFileError => "Could not open the binary file"@,
        Error::NoArguments => "No arguments were given"@,
        Error::MissingFlag => "A flag that is needed was not given"@,
        Error::FileNotFound => "Could not find the file that a flag names"@,
        Error::InvalidFlagValue => "A flag has no value or an invalid one"@,
        Error::UnsupportedFlags => "Unsupported flag combination"@,
        Error::MissingField => "Could not get the value of a field"@,
        Error::InvalidFieldData => "The bytes of a field do not fit its display format"@,
        Error::UnprintableText => "A text with a terminal escape cannot stand in a table"@,
        Error::InvalidStruct => "Invalid C struct"@,
        Error::UnsupportedType => "A C type is not supported"@,
        Error::GrammarParseError => "Could not parse the grammar file"@,
    }
}

impl Error {
    /// The cause of this failure, in words.
    pub fn message(&self) -> (r: String)
        ensures
            r@ == cause(*self),
    {
        let text: &str = match self {
            Error::InvalidDirective => "A directive of the grammar is invalid",
            Error::UnsupportedSize => "The source of a variable size field must have 2, 4, 8 or 16 bytes",
            Error::ArithmeticFault => "The size of a variable size field cannot be computed",
            Error::MissingSourceField => "A source field must appear before its variable size field",
            Error::StructureTooLarge => "The structure is larger than the file",
            Error::OpenFileError => "Could not open the binary file",
            Error::NoArguments => "No arguments were given",
            Error::MissingFlag => "A flag that is needed was not given",
            Error::FileNotFound => "Could not find the file that a flag names",
            Error::InvalidFlagValue => "A flag has no value or an invalid one",
            Error::UnsupportedFlags => "Unsupported flag combination",
            Error::MissingField => "Could not get the value of a field",
            Error::InvalidFieldData => "The bytes of a field do not fit its display format",
            Error::UnprintableText => "A text with a terminal escape cannot stand in a table",
            Error::InvalidStruct => "Invalid C struct",
            Error::UnsupportedType => "A C type is not supported",
            Error::GrammarParseError => "Could not parse the grammar file",
        };
        text.to_owned()
    }
}

} // verus!
