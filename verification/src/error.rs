use vstd::prelude::*;

verus! {

/// Why a note operation was refused. Every failure is terminal for the
/// triggering call and leaves the store exactly as it was found.
#[derive(Clone, Copy, Debug, PartialEq, Eq, Structural)]
pub enum NoteError {
    /// `create_note` found storage already allocated at the derived address.
    AlreadyExists,
    /// The supplied address does not equal the freshly derived one.
    AddressMismatch,
    /// The caller of `update_note` is not the note's author.
    Unauthorized,
    /// The payer's balance cannot cover the allocation cost.
    InsufficientFunds,
    /// No bump value in the valid range yielded a usable derived address.
    DerivationExhausted,
}

} // verus!
