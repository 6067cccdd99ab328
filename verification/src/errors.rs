use vstd::prelude::*;

verus! {

/// Failure taxonomy of the word-bank core, by condition rather than by source:
/// invalid input, a referenced record that does not exist, a mutation that the
/// current state forbids, or an underlying store failure.
#[derive(Clone, Copy, Debug, PartialEq, Eq, Structural)]
pub enum WordBankError {
    Validation,
    NotFound,
    Conflict,
    Store,
}

impl WordBankError {
    /// Stable text for logs and API error bodies.
    pub fn name(&self) -> (r: &'static str)
        ensures
            r@ == self.spec_name(),
    {
        match self {
            WordBankError::Validation => "VALIDATION_ERROR",
            WordBankError::NotFound => "NOT_FOUND_ERROR",
            WordBankError::Conflict => "CONFLICT_ERROR",
            WordBankError::Store => "STORE_ERROR",
        }
    }

    pub open spec fn spec_name(&self) -> Seq<char> {
        match self {
            WordBankError::Validation => "VALIDATION_ERROR"@,
            WordBankError::NotFound => "NOT_FOUND_ERROR"@,
            WordBankError::Conflict => "CONFLICT_ERROR"@,
            WordBankError::Store => "STORE_ERROR"@,
        }
    }
}

} // verus!
