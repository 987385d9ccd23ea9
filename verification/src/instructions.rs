//! The instructions of a transaction as the instructions sysvar lays them out: the number
//! of instructions (two bytes), the offset of each (two bytes each), the instructions, and
//! in the last two bytes the index of the current one.
//!
//! An instruction is the number of its accounts (two bytes), for each account a byte of
//! flags and its address, the address of the program, the length of the data (two bytes)
//! and the data.

use crate::bytes;
use crate::constants::Pubkey;
use crate::error::GiveawayError;
use vstd::prelude::*;

verus! {

/// An instruction: the program it goes to, its accounts with whether each one signed, and
/// its data.
pub struct RawInstruction {
    pub program_id: Pubkey,
    pub accounts: Vec<(Pubkey, bool)>,
    pub data: Vec<u8>,
}

/// What an instruction holds.
#[verifier::ext_equal]
pub struct InstructionView {
    pub program_id: Seq<u8>,
    pub accounts: Seq<(Seq<u8>, bool)>,
    pub data: Seq<u8>,
}

impl View for RawInstruction {
    type V = InstructionView;

    open spec fn view(&self) -> InstructionView {
        InstructionView {
            program_id: self.program_id@,
            accounts: self.accounts@.map_values(|entry: (Pubkey, bool)| (entry.0@, entry.1)),
            data: self.data@,
        }
    }
}

/// The index of the current instruction.
pub open spec fn current_index(data: Seq<u8>) -> int {
    bytes::le_u16(data, data.len() - 2)
}

/// Where instruction `index` starts.
pub open spec fn instruction_offset(data: Seq<u8>, index: int) -> int {
    bytes::le_u16(data, 2 + 2 * index)
}

/// Where the program address of the instruction that starts at `at` stands: behind the
/// accounts.
pub open spec fn program_offset(data: Seq<u8>, at: int) -> int {
    at + 2 + 33 * bytes::le_u16(data, at)
}

/// The length of the data of the instruction that starts at `at`.
pub open spec fn payload_len(data: Seq<u8>, at: int) -> int {
    bytes::le_u16(data, program_offset(data, at) + 32)
}

/// The data holds instruction `index` to its end.
pub open spec fn holds_instruction(data: Seq<u8>, index: int) -> bool {
    let at = instruction_offset(data, index);
    &&& data.len() >= 2
    &&& index < bytes::le_u16(data, 0)
    &&& 2 + 2 * index + 2 <= data.len()
    &&& at + 2 <= data.len()
    &&& program_offset(data, at) + 34 <= data.len()
    &&& program_offset(data, at) + 34 + payload_len(data, at) <= data.len()
}

/// Account `k` of the instruction that starts at `at`: its address, and whether the
/// lowest bit of its flags says that it signed.
pub open spec fn account_at(data: Seq<u8>, at: int, k: int) -> (Seq<u8>, bool) {
    (bytes::hash_at(data, at + 2 + 33 * k + 1), data[at + 2 + 33 * k] & 1 != 0)
}

/// Instruction `index`.
pub open spec fn instruction(data: Seq<u8>, index: int) -> InstructionView {
    let at = instruction_offset(data, index);
    let program = program_offset(data, at);
    InstructionView {
        program_id: bytes::hash_at(data, program),
        accounts: Seq::new(
            bytes::le_u16(data, at) as nat,
            |k: int| account_at(data, at, k),
        ),
        data: data.subrange(program + 34, program + 34 + payload_len(data, at)),
    }
}

/// Reads the index of the current instruction.
pub fn read_current_instruction_index(data: &[u8]) -> (index: Result<u16, GiveawayError>)
    ensures
        match index {
            Ok(value) => data@.len() >= 2 && value == current_index(data@),
            Err(error) => data@.len() < 2 && error == GiveawayError::MissingFeeTransfer,
        },
{
    if data.len() < 2 {
        return Err(GiveawayError::MissingFeeTransfer);
    }
    Ok(bytes::read_u16(data, data.len() - 2))
}

/// Reads a specific instruction.
pub fn read_instruction_at(data: &[u8], target_index: u16) -> (read: Result<
    RawInstruction,
    GiveawayError,
>)
    ensures
        match read {
            Ok(raw) => holds_instruction(data@, target_index as int) && raw@ == instruction(
                data@,
                target_index as int,
            ),
            Err(error) => !holds_instruction(data@, target_index as int) && error
                == GiveawayError::MissingFeeTransfer,
        },
{
    if data.len() < 2 {
        return Err(GiveawayError::MissingFeeTransfer);
    }
    let num_instructions: u16 = bytes::read_u16(data, 0);
    if target_index >= num_instructions {
        return Err(GiveawayError::MissingFeeTransfer);
    }
    let offset_pos: usize = 2 + (target_index as usize) * 2;
    if offset_pos + 2 > data.len() {
        return Err(GiveawayError::MissingFeeTransfer);
    }
    let at: usize = bytes::read_u16(data, offset_pos) as usize;
    if at + 2 > data.len() {
        return Err(GiveawayError::MissingFeeTransfer);
    }
    let num_accounts: u16 = bytes::read_u16(data, at);
    let mut cursor: usize = at + 2;
    let mut accounts: Vec<(Pubkey, bool)> = Vec::with_capacity(num_accounts as usize);
    let mut k: u16 = 0;
    while k < num_accounts
        invariant
            k <= num_accounts,
            at == instruction_offset(data@, target_index as int),
            at <= u16::MAX,
            num_accounts == bytes::le_u16(data@, at as int),
            cursor == at + 2 + 33 * k,
            cursor <= data.len(),
            accounts@.len() == k,
            forall|i: int|
                0 <= i < k ==> ((#[trigger] accounts@[i]).0@, accounts@[i].1) == account_at(
                    data@,
                    at as int,
                    i,
                ),
        decreases num_accounts - k,
    {
        if cursor + 1 + 32 > data.len() {
            return Err(GiveawayError::MissingFeeTransfer);
        }
        let flags: u8 = data[cursor];
        let pubkey: Pubkey = bytes::read_hash(data, cursor + 1);
        accounts.push((pubkey, flags & 1 != 0));
        cursor = cursor + 33;
        k = k + 1;
    }
    if cursor + 32 > data.len() {
        return Err(GiveawayError::MissingFeeTransfer);
    }
    let program_id: Pubkey = bytes::read_hash(data, cursor);
    cursor = cursor + 32;
    if cursor + 2 > data.len() {
        return Err(GiveawayError::MissingFeeTransfer);
    }
    let data_len: usize = bytes::read_u16(data, cursor) as usize;
    cursor = cursor + 2;
    if cursor + data_len > data.len() {
        return Err(GiveawayError::MissingFeeTransfer);
    }
    let payload: Vec<u8> = bytes::copy_range(data, cursor, cursor + data_len);
    let raw: RawInstruction = RawInstruction { program_id, accounts, data: payload };
    assert(raw@.accounts =~= instruction(data@, target_index as int).accounts);
    assert(raw@ =~= instruction(data@, target_index as int));
    Ok(raw)
}

} // verus!
