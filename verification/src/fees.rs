//! The platform fee, and the check that it was paid.

use crate::bytes;
use crate::constants::{Pubkey, SYSTEM_PROGRAM_ID, TREASURY_PUBKEY};
use crate::error::GiveawayError;
use crate::instructions;
use crate::instructions::RawInstruction;
use vstd::prelude::*;

verus! {

/// Fee per participant, in lamports.
pub const FEE_PER_PARTICIPANT: u64 = 5_000;

/// Smallest platform fee, in lamports.
pub const MIN_PLATFORM_FEE: u64 = 50_000;

/// Largest platform fee, in lamports.
pub const MAX_PLATFORM_FEE: u64 = 500_000_000;

/// The platform fee: 5,000 lamports per participant, clamped between 50,000 and
/// 500,000,000 lamports.
pub open spec fn platform_fee(participants: int) -> int {
    let fee = participants * FEE_PER_PARTICIPANT;
    if fee < MIN_PLATFORM_FEE {
        MIN_PLATFORM_FEE as int
    } else if fee > MAX_PLATFORM_FEE {
        MAX_PLATFORM_FEE as int
    } else {
        fee
    }
}

/// Calculates the platform fee for a giveaway.
pub fn calculate_platform_fee(participant_count: u64) -> (fee: u64)
    ensures
        fee == platform_fee(participant_count as int),
{
    if participant_count > MAX_PLATFORM_FEE / FEE_PER_PARTICIPANT {
        return MAX_PLATFORM_FEE;
    }
    let fee: u64 = participant_count * FEE_PER_PARTICIPANT;
    if fee < MIN_PLATFORM_FEE {
        MIN_PLATFORM_FEE
    } else {
        fee
    }
}

/// The fee never falls when participants are added, and never leaves its bounds.
pub proof fn fee_is_monotonic_and_bounded(fewer: int, more: int)
    requires
        0 <= fewer <= more,
    ensures
        platform_fee(fewer) <= platform_fee(more),
        MIN_PLATFORM_FEE <= platform_fee(fewer) <= MAX_PLATFORM_FEE,
{
}

/// What the check of a fee transfer says of an instruction.
pub open spec fn fee_transfer_outcome(
    instruction: instructions::InstructionView,
    from: Seq<u8>,
    lamports: int,
) -> Result<(), GiveawayError> {
    if instruction.program_id != SYSTEM_PROGRAM_ID@ {
        Err(GiveawayError::InvalidFeeTransferProgram)
    } else if instruction.data.len() != 12 || bytes::le_u32(instruction.data, 0) != 2 {
        Err(GiveawayError::InvalidFeeTransferData)
    } else if bytes::le_u64(instruction.data, 4) != lamports {
        Err(GiveawayError::InvalidFeeTransferAmount)
    } else if instruction.accounts.len() < 2 {
        Err(GiveawayError::InvalidFeeTransferData)
    } else if !instruction.accounts[0].1 || instruction.accounts[0].0 != from {
        Err(GiveawayError::InvalidFeeTransferFrom)
    } else if instruction.accounts[1].0 != TREASURY_PUBKEY@ {
        Err(GiveawayError::InvalidFeeTransferTo)
    } else {
        Ok(())
    }
}

/// What the check of the platform fee says of the instructions of a transaction: the one
/// right before the current one has to be the transfer.
pub open spec fn preceding_transfer_outcome(
    data: Seq<u8>,
    from: Seq<u8>,
    lamports: int,
) -> Result<(), GiveawayError> {
    if data.len() < 2 || instructions::current_index(data) == 0
        || !instructions::holds_instruction(data, instructions::current_index(data) - 1) {
        Err(GiveawayError::MissingFeeTransfer)
    } else {
        fee_transfer_outcome(
            instructions::instruction(data, instructions::current_index(data) - 1),
            from,
            lamports,
        )
    }
}

/// Checks that an instruction is a transfer of `expected_lamports` by the system program
/// from `expected_from`, who signed it, to the treasury.
pub fn check_fee_transfer(
    instruction: &RawInstruction,
    expected_from: &Pubkey,
    expected_lamports: u64,
) -> (outcome: Result<(), GiveawayError>)
    ensures
        outcome == fee_transfer_outcome(
            instruction@,
            expected_from@,
            expected_lamports as int,
        ),
{
    if !bytes::same_hash(&instruction.program_id, &SYSTEM_PROGRAM_ID) {
        return Err(GiveawayError::InvalidFeeTransferProgram);
    }
    if instruction.data.len() != 12 {
        return Err(GiveawayError::InvalidFeeTransferData);
    }
    let tag: u32 = bytes::read_u32(instruction.data.as_slice(), 0);
    if tag != 2 {
        return Err(GiveawayError::InvalidFeeTransferData);
    }
    let lamports: u64 = bytes::read_u64(instruction.data.as_slice(), 4);
    if lamports != expected_lamports {
        return Err(GiveawayError::InvalidFeeTransferAmount);
    }
    if instruction.accounts.len() < 2 {
        return Err(GiveawayError::InvalidFeeTransferData);
    }
    let (from_pubkey, from_is_signer) = instruction.accounts[0];
    if !from_is_signer {
        return Err(GiveawayError::InvalidFeeTransferFrom);
    }
    if !bytes::same_hash(&from_pubkey, expected_from) {
        return Err(GiveawayError::InvalidFeeTransferFrom);
    }
    let (to_pubkey, _) = instruction.accounts[1];
    if !bytes::same_hash(&to_pubkey, &TREASURY_PUBKEY) {
        return Err(GiveawayError::InvalidFeeTransferTo);
    }
    Ok(())
}

/// Verifies that a platform fee transfer occurred in the preceding instruction, given the
/// data of the instructions sysvar.
pub fn verify_fee_transfer(
    instructions_data: &[u8],
    expected_from: &Pubkey,
    expected_lamports: u64,
) -> (outcome: Result<(), GiveawayError>)
    ensures
        outcome == preceding_transfer_outcome(
            instructions_data@,
            expected_from@,
            expected_lamports as int,
        ),
{
    let current_index: u16 = match instructions::read_current_instruction_index(
        instructions_data,
    ) {
        Ok(index) => index,
        Err(error) => {
            return Err(error);
        },
    };
    if current_index == 0 {
        return Err(GiveawayError::MissingFeeTransfer);
    }
    match instructions::read_instruction_at(instructions_data, current_index - 1) {
        Ok(instruction) => check_fee_transfer(&instruction, expected_from, expected_lamports),
        Err(error) => Err(error),
    }
}

/// A payment passes the check exactly where the preceding instruction of the transaction
/// is a transfer by the system program of the expected amount, signed by the expected
/// source, to the treasury.
pub proof fn only_the_exact_transfer_passes(data: Seq<u8>, from: Seq<u8>, lamports: int)
    ensures
        preceding_transfer_outcome(data, from, lamports) is Ok <==> {
            let index = instructions::current_index(data) - 1;
            let transfer = instructions::instruction(data, index);
            &&& data.len() >= 2
            &&& index >= 0
            &&& instructions::holds_instruction(data, index)
            &&& transfer.program_id == SYSTEM_PROGRAM_ID@
            &&& transfer.data.len() == 12
            &&& bytes::le_u32(transfer.data, 0) == 2
            &&& bytes::le_u64(transfer.data, 4) == lamports
            &&& transfer.accounts.len() >= 2
            &&& transfer.accounts[0] == (from, true)
            &&& transfer.accounts[1].0 == TREASURY_PUBKEY@
        },
{
}

/// The fee for every number of participants: the smallest up to ten, 5,000 lamports for
/// each of them up to a hundred thousand, and the largest from there on.
pub proof fn fees_are_charged_by_participant(participants: u64)
    ensures
        participants <= 10 ==> platform_fee(participants as int) == 50_000,
        10 <= participants <= 100_000 ==> platform_fee(participants as int) == 5_000
            * participants,
        participants >= 100_000 ==> platform_fee(participants as int) == 500_000_000,
{
}

/// Why an instruction is not the transfer: it goes to another program; it is no transfer,
/// or one that names fewer than two accounts; its amount is another; the first account did
/// not sign or is not the expected source; or the second one is not the treasury. Of
/// several reasons the first one in this order is given, but that too few accounts come
/// behind a wrong amount.
pub proof fn refused_transfers_say_why(
    instruction: instructions::InstructionView,
    from: Seq<u8>,
    lamports: int,
)
    ensures
        ({
            let outcome = fee_transfer_outcome(instruction, from, lamports);
            let data = instruction.data;
            let by_system = instruction.program_id == SYSTEM_PROGRAM_ID@;
            let is_transfer = data.len() == 12 && data[0] == 2 && data[1] == 0 && data[2] == 0
                && data[3] == 0;
            let amount = bytes::le_u64(data, 4) == lamports;
            let two = instruction.accounts.len() >= 2;
            let source = instruction.accounts[0] == (from, true);
            let target = instruction.accounts[1].0 == TREASURY_PUBKEY@;
            &&& outcome is Ok <==> by_system && is_transfer && amount && two && source && target
            &&& outcome == Err::<(), GiveawayError>(GiveawayError::InvalidFeeTransferProgram)
                <==> !by_system
            &&& outcome == Err::<(), GiveawayError>(GiveawayError::InvalidFeeTransferData)
                <==> by_system && (!is_transfer || (amount && !two))
            &&& outcome == Err::<(), GiveawayError>(GiveawayError::InvalidFeeTransferAmount)
                <==> by_system && is_transfer && !amount
            &&& outcome == Err::<(), GiveawayError>(GiveawayError::InvalidFeeTransferFrom)
                <==> by_system && is_transfer && amount && two && !source
            &&& outcome == Err::<(), GiveawayError>(GiveawayError::InvalidFeeTransferTo)
                <==> by_system && is_transfer && amount && two && source && !target
        }),
{
}

/// The instruction that has to be the transfer is the one right before the current one,
/// whose index the last two bytes hold; where there is none, the transfer is missing.
pub proof fn the_preceding_instruction_pays(data: Seq<u8>, from: Seq<u8>, lamports: int, current: int)
    requires
        data.len() >= 2 ==> current == data[data.len() - 2] + 0x100 * data[data.len() - 1],
    ensures
        data.len() >= 2 && current >= 1 && instructions::holds_instruction(data, current - 1)
            ==> preceding_transfer_outcome(data, from, lamports) == fee_transfer_outcome(
            instructions::instruction(data, current - 1),
            from,
            lamports,
        ),
        preceding_transfer_outcome(data, from, lamports) == Err::<(), GiveawayError>(
            GiveawayError::MissingFeeTransfer,
        ) <==> !(data.len() >= 2 && current >= 1 && instructions::holds_instruction(
            data,
            current - 1,
        )),
{
}

} // verus!
