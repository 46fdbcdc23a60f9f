use vstd::prelude::*;

verus! {

broadcast use vstd::string::group_string_axioms;

/// Errors of the scanner and of the entity parsers.
#[derive(Debug)]
pub enum VicError {
    /// A named failure while reading game data.
    MapError(String),
    /// A generic failure while reading save data.
    SaveError,
    /// Any other failure, with a description of what went wrong.
    Other(String),
}

impl VicError {
    pub fn temp() -> (r: Self)
        ensures
            r is SaveError,
    {
        VicError::SaveError
    }

    pub fn named(inp: &str) -> (r: Self)
        ensures
            r matches VicError::MapError(s) && s@ == inp@,
    {
        VicError::MapError(inp.to_owned())
    }

    /// The text an error shows to the user.
    pub fn to_string(&self) -> (r: String)
        ensures
            r@ == "__"@,
    {
        String::from_str("__")
    }

    /// The text an error shows when debugging: the message of a named failure after
    /// `error `, a placeholder for a failure reading a save, and the description of any
    /// other failure.
    pub fn debug_string(&self) -> (r: String)
        ensures
            r@ == match self {
                VicError::MapError(a) => "error "@ + a@,
                VicError::SaveError => "aaaaa"@,
                VicError::Other(a) => a@,
            },
    {
        match self {
            VicError::MapError(a) => {
                let mut s = String::from_str("error ");
                s.append(a.as_str());
                s
            },
            VicError::SaveError => String::from_str("aaaaa"),
            VicError::Other(a) => a.clone(),
        }
    }
}

} // verus!
