use vstd::prelude::*;

verus! {

/// What can go wrong in the simulator. Every error is local to the operation
/// that reports it.
///
/// The operations of this crate report `IndexOutOfRange` and `UnknownPreset`
/// of themselves. The other kinds are for its callers: a run hands on the
/// error that the work on the amplitudes fails with.
#[derive(Clone, Copy, Debug, PartialEq, Eq, Structural)]
pub enum SimError {
    /// An index does not name a slot of the register.
    IndexOutOfRange,
    /// A state with both amplitudes zero cannot be normalized.
    DegenerateState,
    /// A state was to be built from a pair of zero amplitudes.
    InvalidState,
    /// No preset circuit has the requested name.
    UnknownPreset,
    /// A line of text does not encode an instruction. The instructions of
    /// this crate are typed and cannot be malformed; the kind is for callers
    /// that read theirs from text.
    MalformedInstruction,
}

impl SimError {
    /// A short, fixed description of the error.
    pub fn message(&self) -> (text: &'static str)
        ensures
            text@ == self.message_text(),
    {
        match self {
            SimError::IndexOutOfRange => "index out of range",
            SimError::DegenerateState => "cannot normalize a zero state",
            SimError::InvalidState => "both amplitudes are zero",
            SimError::UnknownPreset => "unknown preset",
            SimError::MalformedInstruction => "malformed instruction",
        }
    }

    /// The characters of [`SimError::message`].
    pub open spec fn message_text(&self) -> Seq<char> {
        match self {
            SimError::IndexOutOfRange => "index out of range"@,
            SimError::DegenerateState => "cannot normalize a zero state"@,
            SimError::InvalidState => "both amplitudes are zero"@,
            SimError::UnknownPreset => "unknown preset"@,
            SimError::MalformedInstruction => "malformed instruction"@,
        }
    }
}

} // verus!
