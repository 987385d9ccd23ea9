//! Reading instructions gives back the instructions that a transaction was written with.

use crate::bytes;
use crate::constants::{SYSTEM_PROGRAM_ID, TREASURY_PUBKEY};
use crate::fees;
use crate::instructions;
use crate::instructions::RawInstruction;
use vstd::prelude::*;

verus! {

/// An instruction as it is written: the program, the accounts as flags and address, and
/// the data.
pub struct WrittenInstruction {
    pub program_id: Seq<u8>,
    pub accounts: Seq<(u8, Seq<u8>)>,
    pub data: Seq<u8>,
}

impl WrittenInstruction {
    /// Addresses have 32 bytes, and the lengths can be written in two bytes.
    pub open spec fn wf(self) -> bool {
        &&& self.program_id.len() == 32
        &&& self.accounts.len() <= u16::MAX
        &&& forall|k: int|
            0 <= k < self.accounts.len() ==> (#[trigger] self.accounts[k]).1.len() == 32
        &&& self.data.len() <= u16::MAX
    }

    /// What a reader is to see: of the flags, whether the account signed.
    pub open spec fn as_read(self) -> instructions::InstructionView {
        instructions::InstructionView {
            program_id: self.program_id,
            accounts: self.accounts.map_values(
                |entry: (u8, Seq<u8>)| (entry.1, entry.0 & 1 != 0),
            ),
            data: self.data,
        }
    }
}

/// The two bytes of `value`, least significant byte first.
pub open spec fn u16_bytes(value: int) -> Seq<u8> {
    seq![(value % 0x100) as u8, (value / 0x100) as u8]
}

/// The accounts one after the other, each with its flags in front.
pub open spec fn encoded_accounts(accounts: Seq<(u8, Seq<u8>)>) -> Seq<u8>
    decreases accounts.len(),
{
    if accounts.len() == 0 {
        Seq::empty()
    } else {
        encoded_accounts(accounts.drop_last()) + seq![accounts.last().0] + accounts.last().1
    }
}

/// An instruction in bytes.
pub open spec fn encoded_instruction(instruction: WrittenInstruction) -> Seq<u8> {
    u16_bytes(instruction.accounts.len() as int) + encoded_accounts(instruction.accounts)
        + instruction.program_id + u16_bytes(instruction.data.len() as int) + instruction.data
}

/// The instructions one after the other.
pub open spec fn encoded_instructions(list: Seq<WrittenInstruction>) -> Seq<u8>
    decreases list.len(),
{
    if list.len() == 0 {
        Seq::empty()
    } else {
        encoded_instructions(list.drop_last()) + encoded_instruction(list.last())
    }
}

/// Where instruction `i` starts: behind the count, the table and the instructions before
/// it.
pub open spec fn start_of(list: Seq<WrittenInstruction>, i: int) -> int {
    2 + 2 * list.len() as int + encoded_instructions(list.take(i)).len()
}

/// The table of the starts of the instructions.
pub open spec fn encoded_table(list: Seq<WrittenInstruction>) -> Seq<u8> {
    Seq::new(2 * list.len(), |b: int| u16_bytes(start_of(list, b / 2))[b % 2])
}

/// The instructions of a transaction in bytes, with the index of the current one.
pub open spec fn encoded_transaction(list: Seq<WrittenInstruction>, current: int) -> Seq<u8> {
    u16_bytes(list.len() as int) + encoded_table(list) + encoded_instructions(list) + u16_bytes(
        current,
    )
}

/// Reading the two bytes of an integer gives the integer back, wherever they stand.
proof fn lemma_u16_read_back(s: Seq<u8>, at: int, value: int)
    requires
        0 <= at,
        at + 2 <= s.len(),
        0 <= value <= u16::MAX,
        s[at] == u16_bytes(value)[0],
        s[at + 1] == u16_bytes(value)[1],
    ensures
        bytes::le_u16(s, at) == value,
{
}

/// Where account `k` stands among the encoded accounts.
proof fn lemma_encoded_account(accounts: Seq<(u8, Seq<u8>)>, k: int)
    requires
        forall|i: int| 0 <= i < accounts.len() ==> (#[trigger] accounts[i]).1.len() == 32,
    ensures
        encoded_accounts(accounts).len() == 33 * accounts.len(),
        0 <= k < accounts.len() ==> {
            &&& encoded_accounts(accounts)[33 * k] == accounts[k].0
            &&& encoded_accounts(accounts).subrange(33 * k + 1, 33 * k + 33) == accounts[k].1
        },
    decreases accounts.len(),
{
    if accounts.len() > 0 {
        let fewer = accounts.drop_last();
        assert forall|i: int| 0 <= i < fewer.len() implies (#[trigger] fewer[i]).1.len() == 32 by {
            assert(fewer[i] == accounts[i]);
        }
        lemma_encoded_account(fewer, k);
        let all = encoded_accounts(accounts);
        let before = encoded_accounts(fewer);
        assert(accounts[accounts.len() - 1].1.len() == 32);
        if k == accounts.len() - 1 {
            assert(all.subrange(33 * k + 1, 33 * k + 33) =~= accounts[k].1);
        } else if 0 <= k < accounts.len() {
            assert(all.subrange(33 * k + 1, 33 * k + 33) =~= before.subrange(
                33 * k + 1,
                33 * k + 33,
            ));
        }
    }
}

/// Where instruction `i` stands among the encoded instructions.
proof fn lemma_encoded_instruction(list: Seq<WrittenInstruction>, i: int)
    requires
        0 <= i < list.len(),
    ensures
        ({
            let from = encoded_instructions(list.take(i)).len() as int;
            let to = from + encoded_instruction(list[i]).len();
            &&& to <= encoded_instructions(list).len()
            &&& encoded_instructions(list).subrange(from, to) == encoded_instruction(list[i])
        }),
    decreases list.len(),
{
    let from = encoded_instructions(list.take(i)).len() as int;
    let to = from + encoded_instruction(list[i]).len();
    let all = encoded_instructions(list);
    let fewer = list.drop_last();
    if i == list.len() - 1 {
        assert(list.take(i) =~= fewer);
        assert(all.subrange(from, to) =~= encoded_instruction(list[i]));
    } else {
        lemma_encoded_instruction(fewer, i);
        assert(fewer.take(i) =~= list.take(i));
        assert(all.subrange(from, to) =~= encoded_instructions(fewer).subrange(from, to));
    }
}

/// An instruction that stands in the data at `at` is read as it was written.
proof fn lemma_instruction_read_back(
    data: Seq<u8>,
    index: int,
    at: int,
    instruction: WrittenInstruction,
)
    requires
        instruction.wf(),
        0 <= at,
        at + encoded_instruction(instruction).len() <= data.len(),
        data.subrange(at, at + encoded_instruction(instruction).len()) == encoded_instruction(
            instruction,
        ),
        0 <= index < bytes::le_u16(data, 0),
        2 + 2 * index + 2 <= data.len(),
        instructions::instruction_offset(data, index) == at,
    ensures
        instructions::holds_instruction(data, index),
        instructions::instruction(data, index) == instruction.as_read(),
{
    let body = encoded_instruction(instruction);
    let part = data.subrange(at, at + body.len());
    let count = instruction.accounts.len() as int;
    let accounts = encoded_accounts(instruction.accounts);
    lemma_encoded_account(instruction.accounts, 0);
    assert(accounts.len() == 33 * count);
    assert(body.len() == 2 + 33 * count + 32 + 2 + instruction.data.len());
    assert forall|j: int| 0 <= j < body.len() implies data[at + j] == #[trigger] body[j] by {
        assert(part[j] == data[at + j]);
    }
    assert(data[at] == body[0]);
    assert(data[at + 1] == body[1]);
    lemma_u16_read_back(data, at, count);
    let program = instructions::program_offset(data, at);
    assert(program == at + 2 + 33 * count);
    assert(data[program + 32] == body[2 + 33 * count + 32]);
    assert(data[program + 33] == body[2 + 33 * count + 33]);
    lemma_u16_read_back(data, program + 32, instruction.data.len() as int);
    let read = instructions::instruction(data, index);
    let expected = instruction.as_read();
    assert(read.program_id =~= expected.program_id) by {
        assert forall|j: int| 0 <= j < 32 implies read.program_id[j] == expected.program_id[j] by {
            assert(data[program + j] == body[2 + 33 * count + j]);
        }
    }
    assert(read.data =~= expected.data) by {
        assert forall|j: int| 0 <= j < instruction.data.len() implies read.data[j]
            == expected.data[j] by {
            assert(data[program + 34 + j] == body[2 + 33 * count + 34 + j]);
        }
    }
    assert(read.accounts =~= expected.accounts) by {
        assert forall|k: int| 0 <= k < count implies read.accounts[k] == expected.accounts[k] by {
            lemma_encoded_account(instruction.accounts, k);
            assert(data[at + 2 + 33 * k] == body[2 + 33 * k]);
            assert(body[2 + 33 * k] == accounts[33 * k]);
            let key = bytes::hash_at(data, at + 2 + 33 * k + 1);
            assert(key =~= instruction.accounts[k].1) by {
                assert(instruction.accounts[k].1.len() == 32);
                assert forall|j: int| 0 <= j < 32 implies key[j] == instruction.accounts[k].1[j] by {
                    assert(data[at + 2 + 33 * k + 1 + j] == body[2 + 33 * k + 1 + j]);
                    assert(body[2 + 33 * k + 1 + j] == accounts[33 * k + 1 + j]);
                    assert(accounts.subrange(33 * k + 1, 33 * k + 33)[j] == accounts[33 * k + 1
                        + j]);
                }
            }
        }
    }
}

/// From the bytes of a transaction the index of the current instruction and each of its
/// instructions are read as they were written, as long as every number can be written in
/// two bytes.
pub proof fn reading_gives_back_what_was_written(
    list: Seq<WrittenInstruction>,
    current: int,
    index: int,
)
    requires
        list.len() <= u16::MAX,
        0 <= current <= u16::MAX,
        forall|i: int| 0 <= i < list.len() ==> (#[trigger] list[i]).wf(),
        0 <= index < list.len(),
        start_of(list, index) <= u16::MAX,
    ensures
        instructions::current_index(encoded_transaction(list, current)) == current,
        instructions::holds_instruction(encoded_transaction(list, current), index),
        instructions::instruction(encoded_transaction(list, current), index)
            == list[index].as_read(),
{
    let data = encoded_transaction(list, current);
    let count = list.len() as int;
    let bodies = encoded_instructions(list);
    assert(data.len() == 2 + 2 * count + bodies.len() + 2);
    assert(data[0] == u16_bytes(count)[0]);
    assert(data[1] == u16_bytes(count)[1]);
    lemma_u16_read_back(data, 0, count);
    assert(data[data.len() - 2] == u16_bytes(current)[0]);
    assert(data[data.len() - 1] == u16_bytes(current)[1]);
    lemma_u16_read_back(data, data.len() - 2, current);
    let at = start_of(list, index);
    assert(data[2 + 2 * index] == encoded_table(list)[2 * index]);
    assert(data[2 + 2 * index + 1] == encoded_table(list)[2 * index + 1]);
    assert((2 * index) / 2 == index && (2 * index + 1) / 2 == index);
    lemma_u16_read_back(data, 2 + 2 * index, at);
    lemma_encoded_instruction(list, index);
    let body = encoded_instruction(list[index]);
    let from = at - 2 - 2 * count;
    assert(data.subrange(at, at + body.len()) =~= bodies.subrange(from, from + body.len()));
    assert(list[index].wf());
    lemma_instruction_read_back(data, index, at, list[index]);
}

/// The data of a transfer by the system program: its tag in four bytes, then the amount.
pub open spec fn transfer_data(lamports: u64) -> Seq<u8> {
    seq![2u8, 0u8, 0u8, 0u8] + bytes::u64_bytes(lamports)
}

/// Whoever pays the treasury in the instruction right before, and signs it, passes the
/// check of the platform fee.
pub proof fn paying_the_treasury_passes(
    list: Seq<WrittenInstruction>,
    current: int,
    from: Seq<u8>,
    lamports: u64,
)
    requires
        list.len() <= u16::MAX,
        forall|i: int| 0 <= i < list.len() ==> (#[trigger] list[i]).wf(),
        1 <= current <= list.len(),
        start_of(list, current - 1) <= u16::MAX,
        ({
            let transfer = list[current - 1];
            &&& transfer.program_id == SYSTEM_PROGRAM_ID@
            &&& transfer.accounts.len() >= 2
            &&& transfer.accounts[0].0 & 1 != 0
            &&& transfer.accounts[0].1 == from
            &&& transfer.accounts[1].1 == TREASURY_PUBKEY@
            &&& transfer.data == transfer_data(lamports)
        }),
    ensures
        fees::preceding_transfer_outcome(
            encoded_transaction(list, current),
            from,
            lamports as int,
        ) is Ok,
{
    reading_gives_back_what_was_written(list, current, current - 1);
    let data = transfer_data(lamports);
    assert(data.subrange(4, 12) =~= bytes::u64_bytes(lamports));
    bytes::lemma_u64_bytes_read_back(data, 4, lamports);
}

/// Where the instruction `index` stands: its start is entry `index` of the table behind
/// the count; there stand the number of its accounts, for each of them a byte of flags and
/// 32 bytes of address, then the program, the length of the data, and the data. Data that
/// holds all of this is read so, byte for byte; an account signed where its flags are odd.
pub proof fn instructions_are_read_from_their_place(
    data: Seq<u8>,
    index: u16,
    at: int,
    accounts: int,
    program: int,
    length: int,
)
    requires
        data.len() >= 4 + 2 * index,
        index < data[0] + 0x100 * data[1],
        at == data[2 + 2 * index] + 0x100 * data[3 + 2 * index],
        at + 2 <= data.len(),
        accounts == data[at] + 0x100 * data[at + 1],
        program == at + 2 + 33 * accounts,
        program + 34 <= data.len(),
        length == data[program + 32] + 0x100 * data[program + 33],
        program + 34 + length <= data.len(),
    ensures
        ({
            let read = instructions::instruction(data, index as int);
            &&& instructions::holds_instruction(data, index as int)
            &&& read.program_id.len() == 32
            &&& forall|k: int| 0 <= k < 32 ==> #[trigger] read.program_id[k] == data[program + k]
            &&& read.accounts.len() == accounts
            &&& forall|n: int|
                0 <= n < accounts ==> (#[trigger] read.accounts[n]).0 == data.subrange(
                    at + 3 + 33 * n,
                    at + 35 + 33 * n,
                ) && (read.accounts[n].1 <==> data[at + 2 + 33 * n] % 2 == 1)
            &&& read.data.len() == length
            &&& forall|k: int| 0 <= k < length ==> #[trigger] read.data[k] == data[program + 34 + k]
        }),
{
    let read = instructions::instruction(data, index as int);
    assert forall|n: int| 0 <= n < accounts implies (#[trigger] read.accounts[n]).0
        == data.subrange(at + 3 + 33 * n, at + 35 + 33 * n) && (read.accounts[n].1 <==> data[at + 2
        + 33 * n] % 2 == 1) by {
        let flags = data[at + 2 + 33 * n];
        assert((flags & 1 != 0) == (flags % 2 == 1)) by (bit_vector);
        assert(read.accounts[n].0 =~= data.subrange(at + 3 + 33 * n, at + 35 + 33 * n));
    }
}

/// Data that is read as holding an instruction does hold its entry in the table, and all
/// of it up to its last byte.
pub proof fn only_whole_instructions_are_read(data: Seq<u8>, index: u16)
    requires
        instructions::holds_instruction(data, index as int),
    ensures
        ({
            let at = data[2 + 2 * index] + 0x100 * data[3 + 2 * index];
            let program = at + 2 + 33 * (data[at] + 0x100 * data[at + 1]);
            let length = data[program + 32] + 0x100 * data[program + 33];
            &&& data.len() >= 4 + 2 * index
            &&& index < data[0] + 0x100 * data[1]
            &&& at + 2 <= data.len()
            &&& program + 34 <= data.len()
            &&& program + 34 + length <= data.len()
        }),
{
}

/// The index of the current instruction stands in the last two bytes.
pub proof fn the_last_bytes_hold_the_current_index(data: Seq<u8>)
    requires
        data.len() >= 2,
    ensures
        instructions::current_index(data) == data[data.len() - 2] + 0x100 * data[data.len() - 1],
{
}

/// The view of an instruction shows every field of it.
pub proof fn instruction_views_show_every_field(raw: RawInstruction)
    ensures
        raw@.program_id == raw.program_id@,
        raw@.accounts.len() == raw.accounts@.len(),
        forall|k: int|
            0 <= k < raw.accounts@.len() ==> #[trigger] raw@.accounts[k] == (
                raw.accounts@[k].0@,
                raw.accounts@[k].1,
            ),
        raw@.data == raw.data@,
{
}

} // verus!
