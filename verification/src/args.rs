//! Reading a line range from the arguments of a command line.

use crate::linespec::{parsed, LineRange, LineSpec, ParseError};
use vstd::prelude::*;

verus! {

/// Why a command line gives no line range.
#[derive(Clone, Copy, Debug, PartialEq, Eq, Structural)]
pub enum ArgsError {
    /// The command line does not hold the program's name and one argument.
    ArgumentCount,
    /// The one argument is not a line range.
    Spec(ParseError),
}

impl ArgsError {
    /// The error in words.
    pub fn message(&self) -> (text: &'static str)
        ensures
            text@ == match *self {
                ArgsError::ArgumentCount => "Invalid number of arguments"@,
                ArgsError::Spec(ParseError::InvalidSpec) => "Invalid line spec"@,
                ArgsError::Spec(ParseError::InvalidStart) => "Line number must start at 1"@,
                ArgsError::Spec(ParseError::InvalidRange) => "End line before start line"@,
            },
    {
        match self {
            ArgsError::ArgumentCount => "Invalid number of arguments",
            ArgsError::Spec(e) => e.message(),
        }
    }
}

/// Reads the line range from a command line: `args[0]` is the program's name,
/// `args[1]` the range in its textual form, and nothing else may follow.
pub fn parse_args(args: &Vec<String>) -> (r: Result<LineSpec, ArgsError>)
    ensures
        match r {
            Ok(line_spec) => args.len() == 2 && parsed(args[1]@) == Ok::<LineRange, ParseError>(
                line_spec@,
            ),
            Err(ArgsError::ArgumentCount) => args.len() != 2,
            Err(ArgsError::Spec(e)) => args.len() == 2 && parsed(args[1]@) == Err::<
                LineRange,
                ParseError,
            >(e),
        },
{
    if args.len() != 2 {
        return Err(ArgsError::ArgumentCount);
    }
    match LineSpec::new(args[1].as_str()) {
        Ok(line_spec) => Ok(line_spec),
        Err(e) => Err(ArgsError::Spec(e)),
    }
}

} // verus!
