//! The instructions, from the creation of an account to its closing.

use anchor_lang::solana_program::pubkey::Pubkey as Address;
use anchor_lang::solana_program::system_instruction;
use anchor_lang::solana_program::system_program;
use anchor_lang::solana_program::sysvar::instructions::{
    construct_instructions_data, store_current_index, BorrowedAccountMeta, BorrowedInstruction,
};
use anchor_lang::solana_program::sysvar::slot_hashes;
use provable_fairness_system::{
    cancel_giveaway, check_commit, check_committed, check_fee_transfer, check_reveal,
    close_user_account, commit_draw, create_and_commit_giveaway, create_giveaway,
    create_giveaway_core, create_user_account, derive_randomness,
    get_all_giveaways, get_giveaway, initialize_user, read_current_instruction_index,
    read_instruction_at, reveal_draw, reveal_draw_within, select_winner_indices,
    verify_fee_transfer, GiveawayData, GiveawayError, RawInstruction, UserGiveaways, UserState,
    Winner, GIVEAWAY_DATA_SIZE, INSTRUCTIONS_SYSVAR_ID, KEEPER_PUBKEY, SLOT_HASHES_ID,
    SYSTEM_PROGRAM_ID, TREASURY_PUBKEY, USER_ACCOUNT_INIT_SPACE,
};
use std::str::FromStr;

const AUTHORITY: [u8; 32] = [77; 32];
const ROOT: [u8; 32] = [9; 32];

fn account() -> UserGiveaways {
    UserGiveaways { authority: AUTHORITY, account_index: 1, giveaways: vec![], giveaway_count: 0 }
}

/// The sysvar data of a transaction that pays `lamports` from `from` to `to` in the
/// instruction before the current one.
fn payment(from: [u8; 32], to: [u8; 32], lamports: u64) -> Vec<u8> {
    let transfer = system_instruction::transfer(
        &Address::new_from_array(from),
        &Address::new_from_array(to),
        lamports,
    );
    let program = Address::new_from_array([5; 32]);
    let accounts = transfer
        .accounts
        .iter()
        .map(|meta| BorrowedAccountMeta {
            pubkey: &meta.pubkey,
            is_signer: meta.is_signer,
            is_writable: meta.is_writable,
        })
        .collect();
    let mut data = construct_instructions_data(&[
        BorrowedInstruction { program_id: &transfer.program_id, accounts, data: &transfer.data },
        BorrowedInstruction { program_id: &program, accounts: vec![], data: &[1, 2, 3] },
    ]);
    store_current_index(&mut data, 1);
    data
}

fn paid(lamports: u64) -> Vec<u8> {
    payment(AUTHORITY, TREASURY_PUBKEY, lamports)
}

fn create(account: &mut UserGiveaways, participants: u64, winners: u64) -> Result<u64, GiveawayError> {
    create_giveaway(account, &AUTHORITY, &paid(5_000_000), 1, "id", ROOT, participants, winners, 5_000_000)
}

fn slot_hashes_with(slot: u64, hash: [u8; 32]) -> Vec<u8> {
    let mut data = 1u64.to_le_bytes().to_vec();
    data.extend_from_slice(&slot.to_le_bytes());
    data.extend_from_slice(&hash);
    data
}

fn winners(count: usize) -> Vec<Winner> {
    (0..count).map(|k| Winner { wallet: [k as u8; 32], username: format!("winner {}", k) }).collect()
}

fn committed_account() -> UserGiveaways {
    let mut account = account();
    assert_eq!(create(&mut account, 1_000, 8), Ok(0));
    assert_eq!(commit_draw(&mut account, 1, 0, 10_000), Ok(()));
    account
}

fn same(a: &GiveawayData, b: &GiveawayData) -> bool {
    format!("{:?}", a) == format!("{:?}", b)
}

#[test]
fn addresses_match_their_text() {
    let address = |text: &str| Address::from_str(text).unwrap().to_bytes();
    assert_eq!(TREASURY_PUBKEY, address("AoUY8D1M3X7fbgHy4XpgXqhpVSnLKgwfjnrC1ByAFXHU"));
    assert_eq!(KEEPER_PUBKEY, address("HLxD5xGPBGv5X7nhK2agHvsP7Yu7tGmnPLmLdS8PcAqy"));
    assert_eq!(SLOT_HASHES_ID, slot_hashes::id().to_bytes());
    assert_eq!(SLOT_HASHES_ID, address("SysvarS1otHashes111111111111111111111111111"));
    assert_eq!(INSTRUCTIONS_SYSVAR_ID, address("Sysvar1nstructions1111111111111111111111111"));
    assert_eq!(SYSTEM_PROGRAM_ID, system_program::ID.to_bytes());
}

#[test]
fn sizes() {
    assert_eq!(GIVEAWAY_DATA_SIZE, 97);
    assert_eq!(USER_ACCOUNT_INIT_SPACE, 545);
}

#[test]
fn users_open_accounts_up_to_the_limit() {
    let mut user = UserState { authority: [0; 32], total_accounts: 17 };
    assert_eq!(initialize_user(&mut user, &AUTHORITY), Ok(()));
    assert_eq!(user.authority, AUTHORITY);
    assert_eq!(user.total_accounts, 0);
    for index in 1..=100 {
        let mut fresh = UserGiveaways {
            authority: [0; 32],
            account_index: 0,
            giveaways: vec![],
            giveaway_count: 5,
        };
        assert_eq!(create_user_account(&mut user, &mut fresh, &AUTHORITY), Ok(()));
        assert_eq!(fresh.authority, AUTHORITY);
        assert_eq!(fresh.account_index, index);
        assert_eq!(fresh.giveaways.len(), 0);
        assert_eq!(fresh.giveaway_count, 0);
        assert_eq!(user.total_accounts, index);
    }
    let mut fresh = account();
    assert_eq!(
        create_user_account(&mut user, &mut fresh, &AUTHORITY),
        Err(GiveawayError::MaxAccountsReached)
    );
    assert_eq!(user.total_accounts, 100);
    assert_eq!(fresh.account_index, 1);
}

#[test]
fn giveaways_are_created() {
    let mut account = account();
    assert_eq!(create(&mut account, 1_000, 8), Ok(0));
    assert_eq!(create(&mut account, 1_000, 1_000), Ok(1));
    assert_eq!(account.giveaway_count, 2);
    assert_eq!(account.giveaways.len(), 2);
    let created = get_giveaway(&account, 1, 0).unwrap();
    assert_eq!(created.participant_root, ROOT);
    assert_eq!(created.participant_count, 1_000);
    assert_eq!(created.winner_count, 8);
    assert_eq!(created.state, 0);
    assert_eq!(created.commit_slot, 0);
    assert_eq!(created.reveal_slot, 0);
    assert_eq!(created.winner_root, [0; 32]);
}

#[test]
fn bad_requests_are_refused_and_change_nothing() {
    let mut account = account();
    let fee = |count: u64| provable_fairness_system::calculate_platform_fee(count);
    let mut attempt = |index: u64, id: &str, participants: u64, winners: u64, lamports: u64| {
        let outcome = create_giveaway(
            &mut account, &AUTHORITY, &paid(lamports), index, id, ROOT, participants, winners, lamports,
        );
        assert_eq!(account.giveaways.len(), 0);
        assert_eq!(account.giveaway_count, 0);
        outcome
    };
    assert_eq!(attempt(2, "id", 10, 1, fee(10)), Err(GiveawayError::InvalidAccountIndex));
    assert_eq!(attempt(1, "id", 10, 0, fee(10)), Err(GiveawayError::InvalidWinnerCount));
    assert_eq!(attempt(1, "id", 10, 11, fee(10)), Err(GiveawayError::InvalidWinnerCount));
    assert_eq!(attempt(1, "id", 100_001, 1, fee(100_001)), Err(GiveawayError::TooManyParticipants));
    assert_eq!(attempt(1, "id", 100_000, 10_001, fee(100_000)), Err(GiveawayError::TooManyWinners));
    assert_eq!(attempt(1, "", 10, 1, fee(10)), Err(GiveawayError::EmptyId));
    assert_eq!(attempt(1, "id", 1_000, 1, fee(1_000) - 1), Err(GiveawayError::InvalidFee));
}

#[test]
fn the_limits_themselves_are_accepted() {
    let mut account = account();
    assert_eq!(
        create_giveaway(
            &mut account, &AUTHORITY, &paid(500_000_000), 1, "x", ROOT, 100_000, 10_000, 500_000_000,
        ),
        Ok(0)
    );
}

#[test]
fn fee_transfers_are_verified() {
    let check = |data: &[u8]| verify_fee_transfer(data, &AUTHORITY, 50_000);
    assert_eq!(check(&paid(50_000)), Ok(()));
    assert_eq!(check(&paid(49_999)), Err(GiveawayError::InvalidFeeTransferAmount));
    assert_eq!(
        check(&payment([1; 32], TREASURY_PUBKEY, 50_000)),
        Err(GiveawayError::InvalidFeeTransferFrom)
    );
    assert_eq!(
        check(&payment(AUTHORITY, AUTHORITY, 50_000)),
        Err(GiveawayError::InvalidFeeTransferTo)
    );
    assert_eq!(check(&[]), Err(GiveawayError::MissingFeeTransfer));
    assert_eq!(check(&[0]), Err(GiveawayError::MissingFeeTransfer));
    // Nothing precedes the first instruction.
    let mut first = paid(50_000);
    store_current_index(&mut first, 0);
    assert_eq!(check(&first), Err(GiveawayError::MissingFeeTransfer));
    // The instruction before the current one is not there.
    let mut beyond = paid(50_000);
    store_current_index(&mut beyond, 3);
    assert_eq!(check(&beyond), Err(GiveawayError::MissingFeeTransfer));
    // The instruction before the current one goes to another program.
    let mut other = paid(50_000);
    store_current_index(&mut other, 2);
    assert_eq!(check(&other), Err(GiveawayError::InvalidFeeTransferProgram));
}

#[test]
fn transfers_are_checked_part_by_part() {
    let transfer = || RawInstruction {
        program_id: SYSTEM_PROGRAM_ID,
        accounts: vec![(AUTHORITY, true), (TREASURY_PUBKEY, false)],
        data: vec![2, 0, 0, 0, 0x50, 0xc3, 0, 0, 0, 0, 0, 0],
    };
    let check = |instruction: &RawInstruction| check_fee_transfer(instruction, &AUTHORITY, 50_000);
    assert_eq!(check(&transfer()), Ok(()));
    let mut changed = transfer();
    changed.program_id[31] = 1;
    assert_eq!(check(&changed), Err(GiveawayError::InvalidFeeTransferProgram));
    let mut changed = transfer();
    changed.data.push(0);
    assert_eq!(check(&changed), Err(GiveawayError::InvalidFeeTransferData));
    let mut changed = transfer();
    changed.data[0] = 3;
    assert_eq!(check(&changed), Err(GiveawayError::InvalidFeeTransferData));
    let mut changed = transfer();
    changed.data[11] = 1;
    assert_eq!(check(&changed), Err(GiveawayError::InvalidFeeTransferAmount));
    let mut changed = transfer();
    changed.accounts.pop();
    assert_eq!(check(&changed), Err(GiveawayError::InvalidFeeTransferData));
    let mut changed = transfer();
    changed.accounts[0].1 = false;
    assert_eq!(check(&changed), Err(GiveawayError::InvalidFeeTransferFrom));
    let mut changed = transfer();
    changed.accounts[1].0 = AUTHORITY;
    assert_eq!(check(&changed), Err(GiveawayError::InvalidFeeTransferTo));
}

#[test]
fn instructions_are_read_back() {
    let data = paid(50_000);
    assert_eq!(read_current_instruction_index(&data), Ok(1));
    assert_eq!(read_current_instruction_index(&[7]), Err(GiveawayError::MissingFeeTransfer));
    let transfer = read_instruction_at(&data, 0).ok().unwrap();
    assert_eq!(transfer.program_id, SYSTEM_PROGRAM_ID);
    assert_eq!(transfer.accounts, vec![(AUTHORITY, true), (TREASURY_PUBKEY, false)]);
    assert_eq!(transfer.data, vec![2, 0, 0, 0, 0x50, 0xc3, 0, 0, 0, 0, 0, 0]);
    let current = read_instruction_at(&data, 1).ok().unwrap();
    assert_eq!(current.program_id, [5; 32]);
    assert_eq!(current.accounts, vec![]);
    assert_eq!(current.data, vec![1, 2, 3]);
    assert_eq!(read_instruction_at(&data, 2).err(), Some(GiveawayError::MissingFeeTransfer));
    // Without the index at the end the last instruction is still whole; cut further, not.
    assert!(read_instruction_at(&data[..data.len() - 2], 1).is_ok());
    for cut in 3..45 {
        assert_eq!(
            read_instruction_at(&data[..data.len() - cut], 1).err(),
            Some(GiveawayError::MissingFeeTransfer)
        );
    }
    assert_eq!(read_instruction_at(&[1, 0], 0).err(), Some(GiveawayError::MissingFeeTransfer));
    assert_eq!(read_instruction_at(&[1, 0, 9, 0], 0).err(), Some(GiveawayError::MissingFeeTransfer));
}

#[test]
fn draws_are_committed_once() {
    let mut account = committed_account();
    let committed = get_giveaway(&account, 1, 0).unwrap();
    assert_eq!(committed.state, 1);
    assert_eq!(committed.commit_slot, 10_000);
    assert_eq!(committed.reveal_slot, 10_150);
    assert_eq!(committed.participant_root, ROOT);
    assert_eq!(commit_draw(&mut account, 1, 0, 20_000), Err(GiveawayError::InvalidStateTransition));
    assert!(same(&account.giveaways[0], &committed));
    assert_eq!(commit_draw(&mut account, 1, 1, 20_000), Err(GiveawayError::GiveawayNotFound));
    assert_eq!(commit_draw(&mut account, 2, 0, 20_000), Err(GiveawayError::InvalidAccountIndex));
}

#[test]
fn creating_and_committing_in_one_or_two_steps_is_the_same() {
    let two_steps = committed_account();
    let mut one_step = account();
    assert_eq!(
        create_and_commit_giveaway(
            &mut one_step, &AUTHORITY, &paid(5_000_000), 10_000, 1, "id", ROOT, 1_000, 8, 5_000_000,
        ),
        Ok(0)
    );
    assert!(same(&one_step.giveaways[0], &two_steps.giveaways[0]));
    assert_eq!(one_step.giveaway_count, two_steps.giveaway_count);
    assert_eq!(
        create_and_commit_giveaway(
            &mut one_step, &AUTHORITY, &[], 10_000, 1, "id", ROOT, 1_000, 8, 5_000_000,
        ),
        Err(GiveawayError::MissingFeeTransfer)
    );
}

#[test]
fn draws_are_revealed() {
    let mut account = committed_account();
    let randomness = derive_randomness(&[3; 32], &ROOT);
    let data = slot_hashes_with(10_000, [3; 32]);
    let event = reveal_draw(&mut account, 1, 0, 10_151, &data, randomness, winners(6), [4; 32])
        .ok()
        .unwrap();
    assert_eq!(event.giveaway_index, 0);
    assert_eq!(event.randomness, randomness);
    assert_eq!(event.winner_root, [4; 32]);
    assert_eq!(event.winners.len(), 6);
    assert_eq!(event.winners[5].username, "winner 5");
    assert_eq!(event.winner_indices, vec![439, 337, 841, 259, 14, 154]);
    // The displayed winners are the first of all winners.
    let all = select_winner_indices(&randomness, 1_000, 8);
    assert_eq!(all, vec![439, 337, 841, 259, 14, 154, 709, 168]);
    let revealed = get_giveaway(&account, 1, 0).unwrap();
    assert_eq!(revealed.state, 2);
    assert_eq!(revealed.winner_root, [4; 32]);
    assert_eq!(revealed.commit_slot, 10_000);
}

#[test]
fn bad_reveals_are_refused_and_change_nothing() {
    let randomness = derive_randomness(&[3; 32], &ROOT);
    let data = slot_hashes_with(10_000, [3; 32]);
    let attempt = |account: &mut UserGiveaways, account_index: u64, index: u64, slot: u64, data: &[u8], randomness: [u8; 32], supplied: usize| {
        let before = format!("{:?}", account);
        let outcome = reveal_draw(
            account, account_index, index, slot, data, randomness, winners(supplied), [4; 32],
        );
        assert_eq!(format!("{:?}", account), before);
        outcome.err()
    };
    let mut account = committed_account();
    assert_eq!(attempt(&mut account, 2, 0, 10_151, &data, randomness, 6), Some(GiveawayError::InvalidAccountIndex));
    assert_eq!(attempt(&mut account, 1, 1, 10_151, &data, randomness, 6), Some(GiveawayError::GiveawayNotFound));
    assert_eq!(attempt(&mut account, 1, 0, 10_150, &data, randomness, 6), Some(GiveawayError::RevealTooEarly));
    assert_eq!(attempt(&mut account, 1, 0, 10_451, &data, randomness, 6), Some(GiveawayError::RevealWindowExpired));
    assert_eq!(attempt(&mut account, 1, 0, 10_151, &[], randomness, 6), Some(GiveawayError::SlotHashExpired));
    assert_eq!(attempt(&mut account, 1, 0, 10_151, &data, [0; 32], 6), Some(GiveawayError::InvalidRandomness));
    assert_eq!(attempt(&mut account, 1, 0, 10_151, &data, randomness, 8), Some(GiveawayError::WinnerCountMismatch));
    let mut created = self::account();
    assert_eq!(create(&mut created, 1_000, 8), Ok(0));
    assert_eq!(attempt(&mut created, 1, 0, 10_151, &data, randomness, 6), Some(GiveawayError::NotCommitted));
    // The last slot of the window is in time.
    assert!(reveal_draw(&mut account, 1, 0, 10_450, &data, randomness, winners(6), [4; 32]).is_ok());
    assert_eq!(attempt(&mut account, 1, 0, 10_450, &data, randomness, 6), Some(GiveawayError::AlreadyDrawn));
}

#[test]
fn reveals_are_checked_against_the_expected_randomness() {
    let account = committed_account();
    let draw = get_giveaway(&account, 1, 0).unwrap();
    let check = |expected: Option<[u8; 32]>, randomness: [u8; 32], supplied: usize| {
        check_reveal(&draw, 10_200, expected, &randomness, supplied)
    };
    assert_eq!(check(Some([8; 32]), [8; 32], 6), Ok(()));
    assert_eq!(check(Some([8; 32]), [7; 32], 6), Err(GiveawayError::InvalidRandomness));
    assert_eq!(check(None, [8; 32], 6), Err(GiveawayError::SlotHashExpired));
    assert_eq!(check(Some([8; 32]), [8; 32], 5), Err(GiveawayError::WinnerCountMismatch));
}

#[test]
fn reveals_with_a_limit() {
    let randomness = derive_randomness(&[3; 32], &ROOT);
    let data = slot_hashes_with(10_000, [3; 32]);
    let mut account = committed_account();
    let before = format!("{:?}", account);
    assert!(reveal_draw_within(&mut account, 1, 0, 10_151, &data, randomness, winners(6), [4; 32], 0).is_none());
    assert_eq!(format!("{:?}", account), before);
    let refused = reveal_draw_within(&mut account, 1, 0, 10_151, &[], randomness, winners(6), [4; 32], 0);
    assert_eq!(refused.unwrap().err(), Some(GiveawayError::SlotHashExpired));
    assert_eq!(format!("{:?}", account), before);
    let revealed =
        reveal_draw_within(&mut account, 1, 0, 10_151, &data, randomness, winners(6), [4; 32], u64::MAX);
    assert_eq!(revealed.unwrap().ok().unwrap().winner_indices, vec![439, 337, 841, 259, 14, 154]);
    assert_eq!(account.giveaways[0].state, 2);
}

#[test]
fn giveaways_are_cancelled_before_they_are_drawn() {
    let mut account = committed_account();
    assert_eq!(create(&mut account, 1_000, 8), Ok(1));
    assert_eq!(cancel_giveaway(&mut account, 1, 0), Ok(()));
    assert_eq!(cancel_giveaway(&mut account, 1, 1), Ok(()));
    assert_eq!(account.giveaways[0].state, 3);
    assert_eq!(account.giveaways[1].state, 3);
    // A cancelled giveaway stays cancelled.
    assert_eq!(cancel_giveaway(&mut account, 1, 0), Ok(()));
    assert_eq!(account.giveaways[0].state, 3);
    assert_eq!(commit_draw(&mut account, 1, 1, 5), Err(GiveawayError::InvalidStateTransition));
    assert_eq!(cancel_giveaway(&mut account, 1, 2), Err(GiveawayError::GiveawayNotFound));
    assert_eq!(cancel_giveaway(&mut account, 9, 0), Err(GiveawayError::InvalidAccountIndex));
}

#[test]
fn drawn_giveaways_are_final() {
    let mut account = committed_account();
    let randomness = derive_randomness(&[3; 32], &ROOT);
    let data = slot_hashes_with(10_000, [3; 32]);
    assert!(reveal_draw(&mut account, 1, 0, 10_151, &data, randomness, winners(6), [4; 32]).is_ok());
    let drawn = get_giveaway(&account, 1, 0).unwrap();
    assert_eq!(cancel_giveaway(&mut account, 1, 0), Err(GiveawayError::AlreadyDrawn));
    assert_eq!(commit_draw(&mut account, 1, 0, 10_152), Err(GiveawayError::InvalidStateTransition));
    assert!(reveal_draw(&mut account, 1, 0, 10_152, &data, randomness, winners(6), [5; 32]).is_err());
    assert_eq!(create(&mut account, 1_000, 8), Ok(1));
    assert!(same(&account.giveaways[0], &drawn));
}

#[test]
fn accounts_are_closed_once_all_giveaways_are_over() {
    let mut account = committed_account();
    assert_eq!(close_user_account(&account, 1), Err(GiveawayError::AccountHasActiveGiveaways));
    assert_eq!(close_user_account(&account, 2), Err(GiveawayError::InvalidAccountIndex));
    let randomness = derive_randomness(&[3; 32], &ROOT);
    let data = slot_hashes_with(10_000, [3; 32]);
    assert!(reveal_draw(&mut account, 1, 0, 10_151, &data, randomness, winners(6), [4; 32]).is_ok());
    assert_eq!(close_user_account(&account, 1), Ok(()));
    assert_eq!(create(&mut account, 1_000, 8), Ok(1));
    assert_eq!(close_user_account(&account, 1), Err(GiveawayError::AccountHasActiveGiveaways));
    assert_eq!(cancel_giveaway(&mut account, 1, 1), Ok(()));
    assert_eq!(close_user_account(&account, 1), Ok(()));
    assert_eq!(close_user_account(&self::account(), 1), Ok(()));
}

#[test]
fn giveaways_are_listed() {
    let mut account = committed_account();
    assert_eq!(create(&mut account, 1_000, 2), Ok(1));
    let all = get_all_giveaways(&account, 1).ok().unwrap();
    assert_eq!(all.len(), 2);
    assert_eq!(all[0].state, 1);
    assert_eq!(all[1].winner_count, 2);
    assert_eq!(get_all_giveaways(&account, 7).err(), Some(GiveawayError::InvalidAccountIndex));
    assert_eq!(get_giveaway(&account, 7, 0).err(), Some(GiveawayError::InvalidAccountIndex));
    assert_eq!(get_giveaway(&account, 1, 2).err(), Some(GiveawayError::GiveawayNotFound));
}

#[test]
fn creation_keeps_the_counts_and_the_giveaways_before() {
    let mut account = committed_account();
    let first = account.giveaways[0];
    let outcome = create_giveaway_core(
        &mut account, &AUTHORITY, &paid(50_000), 1, "id", [6; 32], 10, 10, 50_000, 3, 7, 8,
    );
    assert_eq!(outcome, Ok(1));
    assert_eq!(account.giveaway_count, 2);
    assert_eq!(account.giveaways.len(), 2);
    assert!(same(&account.giveaways[0], &first));
    let added = account.giveaways[1];
    assert_eq!(added.participant_root, [6; 32]);
    assert_eq!((added.state, added.commit_slot, added.reveal_slot), (3, 7, 8));
    let refused = create_giveaway_core(
        &mut account, &AUTHORITY, &paid(50_000), 1, "id", [6; 32], 10, 11, 50_000, 0, 0, 0,
    );
    assert_eq!(refused, Err(GiveawayError::InvalidWinnerCount));
    assert_eq!(account.giveaway_count, 2);
    assert_eq!(account.giveaways.len(), 2);
}

#[test]
fn draws_are_checked_without_the_slot() {
    let mut account = account();
    assert_eq!(create(&mut account, 1_000, 8), Ok(0));
    assert_eq!(check_commit(&account, 1, 0).ok().unwrap().winner_count, 8);
    assert_eq!(check_commit(&account, 2, 0).err(), Some(GiveawayError::InvalidAccountIndex));
    assert_eq!(check_commit(&account, 1, 1).err(), Some(GiveawayError::GiveawayNotFound));
    assert_eq!(check_committed(&account.giveaways[0]), Err(GiveawayError::NotCommitted));
    assert_eq!(commit_draw(&mut account, 1, 0, 10), Ok(()));
    assert_eq!(check_commit(&account, 1, 0).err(), Some(GiveawayError::InvalidStateTransition));
    assert_eq!(check_committed(&account.giveaways[0]), Ok(()));
    let mut drawn = account.giveaways[0];
    drawn.state = 2;
    assert_eq!(check_committed(&drawn), Err(GiveawayError::AlreadyDrawn));
    drawn.state = 3;
    assert_eq!(check_committed(&drawn), Err(GiveawayError::NotCommitted));
}
