use vstd::prelude::*;

verus! {

/// The failure kinds of the engine, as a closed sum type so that callers can
/// branch on the kind while still obtaining a human-readable message.
///
/// `ProfileRead`, `ProfileOpen` and `Write` are produced by the I/O layer
/// around the library when the profile file cannot be read, opened for
/// appending, or written; the engine itself never returns them.
#[derive(Clone, Copy, PartialEq, Eq, Structural, Debug)]
pub enum EnvError {
    /// A submitted value is empty or contains a null character.
    InvalidInput,
    /// The profile file could not be read.
    ProfileRead,
    /// The profile file could not be opened for appending.
    ProfileOpen,
    /// A profile line does not match the `export KEY=value` grammar.
    MalformedLine,
    /// A `$KEY` reference names a variable that is not yet bound.
    UnknownReference,
    /// Appending to the profile file did not complete.
    Write,
}

impl EnvError {
    /// The stable, descriptive message of each failure kind.
    pub open spec fn message_spec(self) -> Seq<char> {
        match self {
            EnvError::InvalidInput => "Invalid input, contains null character or is empty."@,
            EnvError::ProfileRead => "Could not read from the shell profile file."@,
            EnvError::ProfileOpen => "Could not open the shell profile file for appending."@,
            EnvError::MalformedLine => "A profile line does not match the expected export syntax."@,
            EnvError::UnknownReference => "A value refers to a variable that has not been defined yet."@,
            EnvError::Write => "Could not write to the shell profile file. Please write manually."@,
        }
    }

    /// Maps each failure kind to its one stable message.
    pub fn message(&self) -> (r: String)
        ensures
            r@ == self.message_spec(),
    {
        match self {
            EnvError::InvalidInput => "Invalid input, contains null character or is empty.".to_owned(),
            EnvError::ProfileRead => "Could not read from the shell profile file.".to_owned(),
            EnvError::ProfileOpen => "Could not open the shell profile file for appending.".to_owned(),
            EnvError::MalformedLine => "A profile line does not match the expected export syntax.".to_owned(),
            EnvError::UnknownReference => "A value refers to a variable that has not been defined yet.".to_owned(),
            EnvError::Write => "Could not write to the shell profile file. Please write manually.".to_owned(),
        }
    }
}

} // verus!
