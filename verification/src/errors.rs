//! Failure values of the editing engine.

use vstd::prelude::*;
use vstd::string::StringExecFns;

verus! {

/// An anchor search found no qualifying line for the given token.
#[derive(Debug)]
pub struct CannotFindInFile {
    pub token: String,
}

impl CannotFindInFile {
    /// A diagnostic sentence naming the missing token.
    pub fn message(&self) -> (r: String)
        ensures
            r@ == "cannot find the token "@ + self.token@ + " in the file "@,
    {
        let mut out = String::from_str("cannot find the token ");
        out.append(self.token.as_str());
        out.append(" in the file ");
        out
    }
}

/// A requested block length exceeds the available line count.
#[derive(Debug)]
pub struct OutOfBounds {}

impl OutOfBounds {
    /// A diagnostic sentence for the bounds failure.
    pub fn message(&self) -> (r: String)
        ensures
            r@ == "the number of places to move is larger than the length of the vector"@,
    {
        String::from_str("the number of places to move is larger than the length of the vector")
    }
}

/// Any failure an editing operation can surface: a missing anchor, a block
/// that does not fit, or a search key that is no valid pattern.
#[derive(Debug)]
pub enum EditError {
    NotFound(CannotFindInFile),
    OutOfBounds(OutOfBounds),
    BadPattern,
}

} // verus!
