//! What can go wrong in an instruction.

use vstd::prelude::*;

verus! {

/// Why an instruction is refused.
#[derive(Clone, Copy, Debug, PartialEq, Eq, Structural)]
pub enum GiveawayError {
    /// Giveaway has already drawn winners.
    AlreadyDrawn,
    /// The winner count must be above 0 and at most the participant count.
    InvalidWinnerCount,
    /// Draw has already been committed.
    AlreadyCommitted,
    /// Giveaway has been cancelled.
    AlreadyCancelled,
    /// Draw must be committed before it can be revealed.
    NotCommitted,
    /// Cannot reveal before the committed slot has passed.
    RevealTooEarly,
    /// Committed slot's hash has expired.
    SlotHashExpired,
    /// Participant root mismatch.
    InvalidParticipantRoot,
    /// Too many participants (max 100,000).
    TooManyParticipants,
    /// Too many winners (max 10,000).
    TooManyWinners,
    /// Giveaway ID cannot be empty.
    EmptyId,
    /// Only the giveaway authority can perform this action.
    Unauthorized,
    /// Reveal window has expired (must reveal within 450 slots of commit).
    RevealWindowExpired,
    /// Arithmetic overflow.
    Overflow,
    /// Number of winners supplied doesn't match the expected display count.
    WinnerCountMismatch,
    /// Giveaway is not in a state that allows this operation.
    InvalidStateTransition,
    /// Invalid randomness derived from slot hash.
    InvalidRandomness,
    /// Giveaway not found in user account.
    GiveawayNotFound,
    /// Maximum accounts reached (100).
    MaxAccountsReached,
    /// Invalid account index provided.
    InvalidAccountIndex,
    /// Account still has giveaways that haven't been drawn or cancelled.
    AccountHasActiveGiveaways,
    /// Invalid platform fee amount.
    InvalidFee,
    /// Expected a system program transfer instruction immediately before this one.
    MissingFeeTransfer,
    /// Preceding instruction is not owned by the system program.
    InvalidFeeTransferProgram,
    /// Preceding instruction is not a valid transfer.
    InvalidFeeTransferData,
    /// Preceding transfer amount doesn't match the required platform fee.
    InvalidFeeTransferAmount,
    /// Preceding transfer's source doesn't match the giveaway authority.
    InvalidFeeTransferFrom,
    /// Preceding transfer's destination doesn't match the treasury.
    InvalidFeeTransferTo,
}

} // verus!
