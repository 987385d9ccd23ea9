//! The instructions of the program: what each of them checks, and what it does to the
//! accounts.
//!
//! The caller hands in what only the chain knows: the current slot, and the data of the
//! sysvars.

use crate::bytes;
use crate::constants::{
    Pubkey, MAX_ACCOUNTS_PER_USER, MAX_PARTICIPANTS, MAX_REVEAL_WINDOW, MAX_WINNERS,
    NO_WINNER_ROOT, REVEAL_DELAY_SLOTS,
};
use crate::error::GiveawayError;
use crate::fees;
use crate::giveaway;
use crate::giveaway::{
    AccountView, GiveawayData, UserGiveaways, UserState, Winner, WinnersRevealed, STATE_CANCELLED,
    STATE_COMMITTED, STATE_CREATED, STATE_DRAWN,
};
use crate::laws;
use crate::laws::AccountStep;
use crate::randomness;
use crate::selection;
use crate::slot_hashes;
use vstd::prelude::*;

verus! {

// ---------------------------------------------------------------------------------
// Users and accounts
// ---------------------------------------------------------------------------------
/// Initializes a new user state.
pub fn initialize_user(user_state: &mut UserState, authority: &Pubkey) -> (outcome: Result<
    (),
    GiveawayError,
>)
    ensures
        outcome == Ok::<(), GiveawayError>(()),
        *final(user_state) == (UserState { authority: *authority, total_accounts: 0 }),
{
    user_state.authority = *authority;
    user_state.total_accounts = 0;
    Ok(())
}

/// Creates a new, empty account of a user, with the next account index.
pub fn create_user_account(
    user_state: &mut UserState,
    user_account: &mut UserGiveaways,
    authority: &Pubkey,
) -> (outcome: Result<(), GiveawayError>)
    ensures
        match outcome {
            Ok(_) => {
                &&& old(user_state).total_accounts < MAX_ACCOUNTS_PER_USER
                &&& *final(user_state) == (UserState {
                    authority: old(user_state).authority,
                    total_accounts: (old(user_state).total_accounts + 1) as u64,
                })
                &&& final(user_account)@ == (AccountView {
                    authority: *authority,
                    account_index: (old(user_state).total_accounts + 1) as u64,
                    giveaways: Seq::empty(),
                    giveaway_count: 0,
                })
                &&& final(user_account)@.wf()
                &&& final(user_state).wf()
            },
            Err(error) => {
                &&& old(user_state).total_accounts >= MAX_ACCOUNTS_PER_USER
                &&& error == GiveawayError::MaxAccountsReached
                &&& *final(user_state) == *old(user_state)
                &&& *final(user_account) == *old(user_account)
            },
        },
{
    if user_state.total_accounts >= MAX_ACCOUNTS_PER_USER as u64 {
        return Err(GiveawayError::MaxAccountsReached);
    }
    user_account.authority = *authority;
    user_account.account_index = user_state.total_accounts + 1;
    user_account.giveaways = Vec::new();
    user_account.giveaway_count = 0;
    user_state.total_accounts = user_state.total_accounts + 1;
    Ok(())
}

// ---------------------------------------------------------------------------------
// Creating giveaways
// ---------------------------------------------------------------------------------
/// What a request for a new giveaway says.
pub struct GiveawayRequest {
    pub account_index: u64,
    pub id: Seq<char>,
    pub participant_root: [u8; 32],
    pub participant_count: u64,
    pub winner_count: u64,
    pub platform_fee: u64,
}

/// Whether a giveaway is created, or why not.
pub open spec fn create_outcome(
    account: AccountView,
    authority: Pubkey,
    instructions_data: Seq<u8>,
    request: GiveawayRequest,
) -> Result<(), GiveawayError> {
    if account.account_index != request.account_index {
        Err(GiveawayError::InvalidAccountIndex)
    } else if request.winner_count == 0 || request.winner_count > request.participant_count {
        Err(GiveawayError::InvalidWinnerCount)
    } else if request.participant_count > MAX_PARTICIPANTS {
        Err(GiveawayError::TooManyParticipants)
    } else if request.winner_count > MAX_WINNERS {
        Err(GiveawayError::TooManyWinners)
    } else if request.id.len() == 0 {
        Err(GiveawayError::EmptyId)
    } else if request.platform_fee != fees::platform_fee(request.participant_count as int) {
        Err(GiveawayError::InvalidFee)
    } else {
        fees::preceding_transfer_outcome(
            instructions_data,
            authority@,
            request.platform_fee as int,
        )
    }
}

/// A giveaway right after its creation.
pub open spec fn new_giveaway(
    request: GiveawayRequest,
    state: u8,
    commit_slot: u64,
    reveal_slot: u64,
) -> GiveawayData {
    GiveawayData {
        participant_root: request.participant_root,
        participant_count: request.participant_count,
        winner_count: request.winner_count,
        state,
        commit_slot,
        reveal_slot,
        winner_root: NO_WINNER_ROOT,
    }
}

/// `account` with one more giveaway.
pub open spec fn with_giveaway(account: AccountView, giveaway: GiveawayData) -> AccountView {
    AccountView {
        giveaways: account.giveaways.push(giveaway),
        giveaway_count: (account.giveaway_count + 1) as u64,
        ..account
    }
}

/// A request for a new giveaway.
pub open spec fn request_of(
    account_index: u64,
    id: Seq<char>,
    participant_root: [u8; 32],
    participant_count: u64,
    winner_count: u64,
    platform_fee: u64,
) -> GiveawayRequest {
    GiveawayRequest {
        account_index,
        id,
        participant_root,
        participant_count,
        winner_count,
        platform_fee,
    }
}

/// Where the checks pass, the giveaway is added and its index returned; otherwise their
/// error is returned and the account stays as it was.
pub open spec fn creation_result(
    before: AccountView,
    after: AccountView,
    authority: Pubkey,
    instructions_data: Seq<u8>,
    request: GiveawayRequest,
    state: u8,
    commit_slot: u64,
    reveal_slot: u64,
    outcome: Result<u64, GiveawayError>,
) -> bool {
    match create_outcome(before, authority, instructions_data, request) {
        Ok(_) => {
            &&& outcome matches Ok(index) && index == before.giveaways.len()
            &&& after == with_giveaway(
                before,
                new_giveaway(request, state, commit_slot, reveal_slot),
            )
        },
        Err(error) => {
            &&& outcome == Err::<u64, GiveawayError>(error)
            &&& after == before
        },
    }
}

/// Checks a request and adds the giveaway in the given state. Whatever the state and the
/// slots, the counts of the account hold afterwards if they did before, and the giveaways
/// that were there keep their indices and contents.
pub fn create_giveaway_core(
    user_account: &mut UserGiveaways,
    authority: &Pubkey,
    instructions_data: &[u8],
    account_index: u64,
    id: &str,
    participant_root: [u8; 32],
    participant_count: u64,
    winner_count: u64,
    platform_fee: u64,
    state: u8,
    commit_slot: u64,
    reveal_slot: u64,
) -> (outcome: Result<u64, GiveawayError>)
    requires
        create_outcome(
            old(user_account)@,
            *authority,
            instructions_data@,
            request_of(
                account_index,
                id@,
                participant_root,
                participant_count,
                winner_count,
                platform_fee,
            ),
        ) is Ok ==> old(user_account).giveaway_count < u64::MAX,
    ensures
        creation_result(
            old(user_account)@,
            final(user_account)@,
            *authority,
            instructions_data@,
            request_of(
                account_index,
                id@,
                participant_root,
                participant_count,
                winner_count,
                platform_fee,
            ),
            state,
            commit_slot,
            reveal_slot,
            outcome,
        ),
        old(user_account)@.counts_hold() ==> final(user_account)@.counts_hold(),
        final(user_account)@.giveaways.len() >= old(user_account)@.giveaways.len(),
        final(user_account)@.giveaways.take(old(user_account)@.giveaways.len() as int)
            == old(user_account)@.giveaways,
{
    if user_account.account_index != account_index {
        return Err(GiveawayError::InvalidAccountIndex);
    }
    if winner_count == 0 {
        return Err(GiveawayError::InvalidWinnerCount);
    }
    if winner_count > participant_count {
        return Err(GiveawayError::InvalidWinnerCount);
    }
    if participant_count > MAX_PARTICIPANTS {
        return Err(GiveawayError::TooManyParticipants);
    }
    if winner_count > MAX_WINNERS {
        return Err(GiveawayError::TooManyWinners);
    }
    if id.is_empty() {
        return Err(GiveawayError::EmptyId);
    }
    let expected_fee: u64 = fees::calculate_platform_fee(participant_count);
    if platform_fee != expected_fee {
        return Err(GiveawayError::InvalidFee);
    }
    if platform_fee > 0 {
        match fees::verify_fee_transfer(instructions_data, authority, platform_fee) {
            Ok(_) => {},
            Err(error) => {
                return Err(error);
            },
        }
    }
    let giveaway_data: GiveawayData = GiveawayData {
        participant_root,
        participant_count,
        winner_count,
        state,
        commit_slot,
        reveal_slot,
        winner_root: NO_WINNER_ROOT,
    };
    user_account.giveaways.push(giveaway_data);
    user_account.giveaway_count = user_account.giveaway_count + 1;
    Ok((user_account.giveaways.len() - 1) as u64)
}

/// Creates a new giveaway whose draw is not committed yet, and returns its index.
pub fn create_giveaway(
    user_account: &mut UserGiveaways,
    authority: &Pubkey,
    instructions_data: &[u8],
    account_index: u64,
    id: &str,
    participant_root: [u8; 32],
    participant_count: u64,
    winner_count: u64,
    platform_fee: u64,
) -> (outcome: Result<u64, GiveawayError>)
    requires
        create_outcome(
            old(user_account)@,
            *authority,
            instructions_data@,
            request_of(
                account_index,
                id@,
                participant_root,
                participant_count,
                winner_count,
                platform_fee,
            ),
        ) is Ok ==> old(user_account).giveaway_count < u64::MAX,
    ensures
        creation_result(
            old(user_account)@,
            final(user_account)@,
            *authority,
            instructions_data@,
            request_of(
                account_index,
                id@,
                participant_root,
                participant_count,
                winner_count,
                platform_fee,
            ),
            STATE_CREATED,
            0,
            0,
            outcome,
        ),
        final(user_account)@ == laws::after(
            old(user_account)@,
            AccountStep::Create {
                authority: *authority,
                instructions_data: instructions_data@,
                request: request_of(
                    account_index,
                    id@,
                    participant_root,
                    participant_count,
                    winner_count,
                    platform_fee,
                ),
            },
        ),
        old(user_account)@.wf() ==> final(user_account)@.wf(),
{
    create_giveaway_core(
        user_account,
        authority,
        instructions_data,
        account_index,
        id,
        participant_root,
        participant_count,
        winner_count,
        platform_fee,
        STATE_CREATED,
        0,
        0,
    )
}

/// Creates a giveaway and commits its draw at the current slot, and returns its index.
pub fn create_and_commit_giveaway(
    user_account: &mut UserGiveaways,
    authority: &Pubkey,
    instructions_data: &[u8],
    current_slot: u64,
    account_index: u64,
    id: &str,
    participant_root: [u8; 32],
    participant_count: u64,
    winner_count: u64,
    platform_fee: u64,
) -> (outcome: Result<u64, GiveawayError>)
    requires
        current_slot + REVEAL_DELAY_SLOTS <= u64::MAX,
        create_outcome(
            old(user_account)@,
            *authority,
            instructions_data@,
            request_of(
                account_index,
                id@,
                participant_root,
                participant_count,
                winner_count,
                platform_fee,
            ),
        ) is Ok ==> old(user_account).giveaway_count < u64::MAX,
    ensures
        creation_result(
            old(user_account)@,
            final(user_account)@,
            *authority,
            instructions_data@,
            request_of(
                account_index,
                id@,
                participant_root,
                participant_count,
                winner_count,
                platform_fee,
            ),
            STATE_COMMITTED,
            current_slot,
            (current_slot + REVEAL_DELAY_SLOTS) as u64,
            outcome,
        ),
        final(user_account)@ == laws::after(
            old(user_account)@,
            AccountStep::CreateAndCommit {
                authority: *authority,
                instructions_data: instructions_data@,
                request: request_of(
                    account_index,
                    id@,
                    participant_root,
                    participant_count,
                    winner_count,
                    platform_fee,
                ),
                current_slot,
            },
        ),
        old(user_account)@.wf() ==> final(user_account)@.wf(),
{
    create_giveaway_core(
        user_account,
        authority,
        instructions_data,
        account_index,
        id,
        participant_root,
        participant_count,
        winner_count,
        platform_fee,
        STATE_COMMITTED,
        current_slot,
        current_slot + REVEAL_DELAY_SLOTS,
    )
}

// ---------------------------------------------------------------------------------
// Reading giveaways
// ---------------------------------------------------------------------------------
/// The giveaway that the indices name, or why there is none.
pub open spec fn locate(
    account: AccountView,
    account_index: u64,
    giveaway_index: u64,
) -> Result<GiveawayData, GiveawayError> {
    if account.account_index != account_index {
        Err(GiveawayError::InvalidAccountIndex)
    } else if giveaway_index >= account.giveaways.len() {
        Err(GiveawayError::GiveawayNotFound)
    } else {
        Ok(account.giveaways[giveaway_index as int])
    }
}

/// `account` with another giveaway in place of the one at `giveaway_index`.
pub open spec fn with_replaced(
    account: AccountView,
    giveaway_index: u64,
    giveaway: GiveawayData,
) -> AccountView {
    AccountView {
        giveaways: account.giveaways.update(giveaway_index as int, giveaway),
        ..account
    }
}

/// Puts a giveaway in the place of the one at `giveaway_index`.
fn store_giveaway(
    user_account: &mut UserGiveaways,
    giveaway_index: u64,
    giveaway_data: GiveawayData,
)
    requires
        giveaway_index < old(user_account)@.giveaways.len(),
    ensures
        final(user_account)@ == with_replaced(old(user_account)@, giveaway_index, giveaway_data),
{
    assert(giveaway_index < user_account.giveaways.len());
    user_account.giveaways[giveaway_index as usize] = giveaway_data;
}

/// Gets a specific giveaway from a user account.
pub fn get_giveaway(
    user_account: &UserGiveaways,
    account_index: u64,
    giveaway_index: u64,
) -> (outcome: Result<GiveawayData, GiveawayError>)
    ensures
        outcome == locate(user_account@, account_index, giveaway_index),
{
    if user_account.account_index != account_index {
        return Err(GiveawayError::InvalidAccountIndex);
    }
    if giveaway_index >= user_account.giveaways.len() as u64 {
        return Err(GiveawayError::GiveawayNotFound);
    }
    Ok(user_account.giveaways[giveaway_index as usize])
}

/// Gets all giveaways from a user account.
pub fn get_all_giveaways(user_account: &UserGiveaways, account_index: u64) -> (outcome: Result<
    Vec<GiveawayData>,
    GiveawayError,
>)
    ensures
        match outcome {
            Ok(giveaways) => {
                &&& user_account.account_index == account_index
                &&& giveaways@ == user_account@.giveaways
            },
            Err(error) => {
                &&& user_account.account_index != account_index
                &&& error == GiveawayError::InvalidAccountIndex
            },
        },
{
    if user_account.account_index != account_index {
        return Err(GiveawayError::InvalidAccountIndex);
    }
    let mut giveaways: Vec<GiveawayData> = Vec::new();
    let mut k: usize = 0;
    while k < user_account.giveaways.len()
        invariant
            k <= user_account.giveaways.len(),
            giveaways@ == user_account.giveaways@.take(k as int),
        decreases user_account.giveaways.len() - k,
    {
        giveaways.push(user_account.giveaways[k]);
        k = k + 1;
        assert(giveaways@ =~= user_account.giveaways@.take(k as int));
    }
    assert(giveaways@ =~= user_account.giveaways@);
    Ok(giveaways)
}

// ---------------------------------------------------------------------------------
// Committing and cancelling draws
// ---------------------------------------------------------------------------------
/// Whether a draw is committed, or why not.
pub open spec fn commit_outcome(
    account: AccountView,
    account_index: u64,
    giveaway_index: u64,
) -> Result<(), GiveawayError> {
    match locate(account, account_index, giveaway_index) {
        Err(error) => Err(error),
        Ok(found) => if found.state != STATE_CREATED {
            Err(GiveawayError::InvalidStateTransition)
        } else {
            Ok(())
        },
    }
}

/// Finds a giveaway whose draw can be committed. Whether it can does not depend on the
/// current slot.
pub fn check_commit(
    user_account: &UserGiveaways,
    account_index: u64,
    giveaway_index: u64,
) -> (outcome: Result<GiveawayData, GiveawayError>)
    ensures
        match commit_outcome(user_account@, account_index, giveaway_index) {
            Ok(_) => outcome == locate(user_account@, account_index, giveaway_index),
            Err(error) => outcome == Err::<GiveawayData, GiveawayError>(error),
        },
{
    match get_giveaway(user_account, account_index, giveaway_index) {
        Ok(found) => if found.state != STATE_CREATED {
            Err(GiveawayError::InvalidStateTransition)
        } else {
            Ok(found)
        },
        Err(error) => Err(error),
    }
}

/// `giveaway` with its draw committed at `slot`.
pub open spec fn committed(giveaway: GiveawayData, slot: u64) -> GiveawayData {
    GiveawayData {
        state: STATE_COMMITTED,
        commit_slot: slot,
        reveal_slot: (slot + REVEAL_DELAY_SLOTS) as u64,
        ..giveaway
    }
}

/// Commits a draw (created to committed): records the current slot, and the slot after
/// which the draw can be revealed.
pub fn commit_draw(
    user_account: &mut UserGiveaways,
    account_index: u64,
    giveaway_index: u64,
    current_slot: u64,
) -> (outcome: Result<(), GiveawayError>)
    requires
        commit_outcome(old(user_account)@, account_index, giveaway_index) is Ok ==> current_slot
            + REVEAL_DELAY_SLOTS <= u64::MAX,
    ensures
        outcome == commit_outcome(old(user_account)@, account_index, giveaway_index),
        outcome is Ok ==> final(user_account)@ == with_replaced(
            old(user_account)@,
            giveaway_index,
            committed(old(user_account)@.giveaways[giveaway_index as int], current_slot),
        ),
        outcome is Err ==> final(user_account)@ == old(user_account)@,
        final(user_account)@ == laws::after(
            old(user_account)@,
            AccountStep::Commit { account_index, giveaway_index, current_slot },
        ),
        old(user_account)@.wf() ==> final(user_account)@.wf(),
{
    let mut giveaway_data: GiveawayData = match check_commit(
        user_account,
        account_index,
        giveaway_index,
    ) {
        Ok(found) => found,
        Err(error) => {
            return Err(error);
        },
    };
    giveaway_data.commit_slot = current_slot;
    giveaway_data.reveal_slot = current_slot + REVEAL_DELAY_SLOTS;
    giveaway_data.state = STATE_COMMITTED;
    store_giveaway(user_account, giveaway_index, giveaway_data);
    Ok(())
}

/// Whether a giveaway is cancelled, or why not.
pub open spec fn cancel_outcome(
    account: AccountView,
    account_index: u64,
    giveaway_index: u64,
) -> Result<(), GiveawayError> {
    match locate(account, account_index, giveaway_index) {
        Err(error) => Err(error),
        Ok(found) => if found.state == STATE_DRAWN {
            Err(GiveawayError::AlreadyDrawn)
        } else {
            Ok(())
        },
    }
}

/// `giveaway` cancelled.
pub open spec fn cancelled(giveaway: GiveawayData) -> GiveawayData {
    GiveawayData { state: STATE_CANCELLED, ..giveaway }
}

/// Cancels a giveaway whose winners are not drawn. One that is cancelled stays so.
pub fn cancel_giveaway(
    user_account: &mut UserGiveaways,
    account_index: u64,
    giveaway_index: u64,
) -> (outcome: Result<(), GiveawayError>)
    ensures
        outcome == cancel_outcome(old(user_account)@, account_index, giveaway_index),
        outcome is Ok ==> final(user_account)@ == with_replaced(
            old(user_account)@,
            giveaway_index,
            cancelled(old(user_account)@.giveaways[giveaway_index as int]),
        ),
        outcome is Err ==> final(user_account)@ == old(user_account)@,
        final(user_account)@ == laws::after(
            old(user_account)@,
            AccountStep::Cancel { account_index, giveaway_index },
        ),
        old(user_account)@.wf() ==> final(user_account)@.wf(),
{
    let mut giveaway_data: GiveawayData = match get_giveaway(
        user_account,
        account_index,
        giveaway_index,
    ) {
        Ok(found) => found,
        Err(error) => {
            return Err(error);
        },
    };
    if giveaway_data.state == STATE_DRAWN {
        return Err(GiveawayError::AlreadyDrawn);
    }
    giveaway_data.state = STATE_CANCELLED;
    store_giveaway(user_account, giveaway_index, giveaway_data);
    Ok(())
}

// ---------------------------------------------------------------------------------
// Closing accounts
// ---------------------------------------------------------------------------------
/// Whether an account can be closed, or why not: each of its giveaways has to be over.
pub open spec fn close_outcome(account: AccountView, account_index: u64) -> Result<
    (),
    GiveawayError,
> {
    if account.account_index != account_index {
        Err(GiveawayError::InvalidAccountIndex)
    } else if exists|i: int|
        0 <= i < account.giveaways.len() && !(#[trigger] account.giveaways[i]).is_over() {
        Err(GiveawayError::AccountHasActiveGiveaways)
    } else {
        Ok(())
    }
}

/// Checks that a user account can be closed.
pub fn close_user_account(user_account: &UserGiveaways, account_index: u64) -> (outcome: Result<
    (),
    GiveawayError,
>)
    ensures
        outcome == close_outcome(user_account@, account_index),
{
    if user_account.account_index != account_index {
        return Err(GiveawayError::InvalidAccountIndex);
    }
    let mut k: usize = 0;
    while k < user_account.giveaways.len()
        invariant
            k <= user_account.giveaways.len(),
            user_account.account_index == account_index,
            forall|i: int| 0 <= i < k ==> (#[trigger] user_account@.giveaways[i]).is_over(),
        decreases user_account.giveaways.len() - k,
    {
        let state: u8 = user_account.giveaways[k].state;
        if !(state == STATE_DRAWN || state == STATE_CANCELLED) {
            assert(!user_account@.giveaways[k as int].is_over());
            return Err(GiveawayError::AccountHasActiveGiveaways);
        }
        k = k + 1;
    }
    Ok(())
}

// ---------------------------------------------------------------------------------
// Revealing draws
// ---------------------------------------------------------------------------------
/// The randomness that a draw has to be revealed with: derived from the hash of the slot
/// at which it was committed, if that is still there.
pub open spec fn expected_randomness(giveaway: GiveawayData, slot_hashes_data: Seq<u8>) -> Option<
    Seq<u8>,
> {
    match slot_hashes::slot_hash_of(slot_hashes_data, giveaway.commit_slot as int) {
        Some(slot_hash) => Some(
            randomness::derived_randomness(slot_hash, giveaway.participant_root@),
        ),
        None => None,
    }
}

/// Whether a draw waits for its reveal, or why not.
pub open spec fn committed_outcome(giveaway: GiveawayData) -> Result<(), GiveawayError> {
    if giveaway.state == STATE_DRAWN {
        Err(GiveawayError::AlreadyDrawn)
    } else if giveaway.state != STATE_COMMITTED {
        Err(GiveawayError::NotCommitted)
    } else {
        Ok(())
    }
}

/// Whether a draw is revealed, or why not, given the randomness that it has to be revealed
/// with.
pub open spec fn reveal_outcome(
    giveaway: GiveawayData,
    current_slot: u64,
    expected: Option<Seq<u8>>,
    randomness: Seq<u8>,
    supplied_winners: int,
) -> Result<(), GiveawayError> {
    if committed_outcome(giveaway) is Err {
        committed_outcome(giveaway)
    } else if current_slot <= giveaway.reveal_slot {
        Err(GiveawayError::RevealTooEarly)
    } else if current_slot - giveaway.commit_slot > MAX_REVEAL_WINDOW {
        Err(GiveawayError::RevealWindowExpired)
    } else if expected is None {
        Err(GiveawayError::SlotHashExpired)
    } else if expected != Some(randomness) {
        Err(GiveawayError::InvalidRandomness)
    } else if supplied_winners != giveaway::shown_winners(giveaway.winner_count as int) {
        Err(GiveawayError::WinnerCountMismatch)
    } else {
        Ok(())
    }
}

/// Whether the draw that the indices name is revealed, or why not.
pub open spec fn draw_outcome(
    account: AccountView,
    account_index: u64,
    giveaway_index: u64,
    current_slot: u64,
    slot_hashes_data: Seq<u8>,
    randomness: Seq<u8>,
    supplied_winners: int,
) -> Result<(), GiveawayError> {
    match locate(account, account_index, giveaway_index) {
        Err(error) => Err(error),
        Ok(found) => reveal_outcome(
            found,
            current_slot,
            expected_randomness(found, slot_hashes_data),
            randomness,
            supplied_winners,
        ),
    }
}

/// The slots of a draw that is due are in order: it was not committed after the current
/// slot.
pub open spec fn slots_in_order(giveaway: GiveawayData, current_slot: u64) -> bool {
    giveaway.state == STATE_COMMITTED && current_slot > giveaway.reveal_slot ==> giveaway.commit_slot
        <= current_slot
}

/// `giveaway` with its winners drawn.
pub open spec fn drawn(giveaway: GiveawayData, winner_root: [u8; 32]) -> GiveawayData {
    GiveawayData { state: STATE_DRAWN, winner_root, ..giveaway }
}

/// The winner indices that the reveal of a giveaway displays.
pub open spec fn displayed_indices(giveaway: GiveawayData, randomness: Seq<u8>) -> Seq<u64> {
    selection::selected(
        randomness,
        giveaway.participant_count as int,
        giveaway::shown_winners(giveaway.winner_count as int),
    )
}

/// The number of draws that the displayed winners take.
pub open spec fn displayed_draws(giveaway: GiveawayData) -> nat {
    selection::selection_size(
        giveaway.participant_count as int,
        giveaway::shown_winners(giveaway.winner_count as int),
    ) as nat
}

/// Checks that a draw waits for its reveal. Whether it does, does not depend on the current
/// slot.
pub fn check_committed(giveaway: &GiveawayData) -> (outcome: Result<(), GiveawayError>)
    ensures
        outcome == committed_outcome(*giveaway),
{
    if giveaway.state == STATE_DRAWN {
        return Err(GiveawayError::AlreadyDrawn);
    }
    if giveaway.state != STATE_COMMITTED {
        return Err(GiveawayError::NotCommitted);
    }
    Ok(())
}

/// Checks the reveal of a draw against the randomness that it has to be revealed with
/// (`None` where the hash of its slot is gone).
pub fn check_reveal(
    giveaway: &GiveawayData,
    current_slot: u64,
    expected: Option<[u8; 32]>,
    randomness: &[u8; 32],
    supplied_winners: usize,
) -> (outcome: Result<(), GiveawayError>)
    requires
        slots_in_order(*giveaway, current_slot),
    ensures
        outcome == reveal_outcome(
            *giveaway,
            current_slot,
            match expected {
                Some(value) => Some(value@),
                None => None,
            },
            randomness@,
            supplied_winners as int,
        ),
{
    match check_committed(giveaway) {
        Ok(_) => {},
        Err(error) => {
            return Err(error);
        },
    }
    if current_slot <= giveaway.reveal_slot {
        return Err(GiveawayError::RevealTooEarly);
    }
    if current_slot - giveaway.commit_slot > MAX_REVEAL_WINDOW {
        return Err(GiveawayError::RevealWindowExpired);
    }
    match expected {
        None => {
            return Err(GiveawayError::SlotHashExpired);
        },
        Some(value) => {
            if !bytes::same_hash(randomness, &value) {
                return Err(GiveawayError::InvalidRandomness);
            }
        },
    }
    if supplied_winners != giveaway::display_count(giveaway.winner_count) {
        return Err(GiveawayError::WinnerCountMismatch);
    }
    Ok(())
}

/// Finds a draw and checks its reveal: the giveaway, where the reveal is in order.
fn check_draw(
    user_account: &UserGiveaways,
    account_index: u64,
    giveaway_index: u64,
    current_slot: u64,
    slot_hashes_data: &[u8],
    randomness: &[u8; 32],
    supplied_winners: usize,
) -> (outcome: Result<GiveawayData, GiveawayError>)
    requires
        locate(user_account@, account_index, giveaway_index) matches Ok(found) ==> slots_in_order(
            found,
            current_slot,
        ),
    ensures
        match draw_outcome(
            user_account@,
            account_index,
            giveaway_index,
            current_slot,
            slot_hashes_data@,
            randomness@,
            supplied_winners as int,
        ) {
            Ok(_) => outcome == locate(user_account@, account_index, giveaway_index),
            Err(error) => outcome == Err::<GiveawayData, GiveawayError>(error),
        },
{
    let giveaway_data: GiveawayData = match get_giveaway(
        user_account,
        account_index,
        giveaway_index,
    ) {
        Ok(found) => found,
        Err(error) => {
            return Err(error);
        },
    };
    let expected: Option<[u8; 32]> = match slot_hashes::find_slot_hash(
        slot_hashes_data,
        giveaway_data.commit_slot,
    ) {
        Some(target_hash) => Some(
            randomness::derive_randomness(&target_hash, &giveaway_data.participant_root),
        ),
        None => None,
    };
    match check_reveal(&giveaway_data, current_slot, expected, randomness, supplied_winners) {
        Ok(_) => Ok(giveaway_data),
        Err(error) => Err(error),
    }
}

/// Reveals the winners of a draw (committed to drawn), and returns the event.
///
/// The randomness is the one that the hash of the commit slot and the participant root
/// determine, so anyone can run the selection again; the winner root is stored and never
/// changes afterwards.
///
/// The selection is defined where each of its draws ends; [`reveal_draw_within`] tests
/// that.
pub fn reveal_draw(
    user_account: &mut UserGiveaways,
    account_index: u64,
    giveaway_index: u64,
    current_slot: u64,
    slot_hashes_data: &[u8],
    randomness: [u8; 32],
    winners: Vec<Winner>,
    winner_root: [u8; 32],
) -> (outcome: Result<WinnersRevealed, GiveawayError>)
    requires
        locate(old(user_account)@, account_index, giveaway_index) matches Ok(found)
            ==> slots_in_order(found, current_slot),
        draw_outcome(
            old(user_account)@,
            account_index,
            giveaway_index,
            current_slot,
            slot_hashes_data@,
            randomness@,
            winners@.len() as int,
        ) is Ok ==> selection::draws_settle(
            randomness@,
            old(user_account)@.giveaways[giveaway_index as int].participant_count as int,
            displayed_draws(old(user_account)@.giveaways[giveaway_index as int]),
        ),
    ensures
        match draw_outcome(
            old(user_account)@,
            account_index,
            giveaway_index,
            current_slot,
            slot_hashes_data@,
            randomness@,
            winners@.len() as int,
        ) {
            Ok(_) => {
                let found = old(user_account)@.giveaways[giveaway_index as int];
                &&& outcome matches Ok(event)
                &&& event.giveaway_index == giveaway_index
                &&& event.randomness == randomness
                &&& event.winners == winners
                &&& event.winner_root == winner_root
                &&& event.winner_indices@ == displayed_indices(found, randomness@)
                &&& final(user_account)@ == with_replaced(
                    old(user_account)@,
                    giveaway_index,
                    drawn(found, winner_root),
                )
            },
            Err(error) => {
                &&& outcome == Err::<WinnersRevealed, GiveawayError>(error)
                &&& final(user_account)@ == old(user_account)@
            },
        },
        final(user_account)@ == laws::after(
            old(user_account)@,
            AccountStep::Reveal {
                account_index,
                giveaway_index,
                current_slot,
                slot_hashes_data: slot_hashes_data@,
                randomness: randomness@,
                supplied_winners: winners@.len() as int,
                winner_root,
            },
        ),
        old(user_account)@.wf() ==> final(user_account)@.wf(),
{
    let mut giveaway_data: GiveawayData = match check_draw(
        user_account,
        account_index,
        giveaway_index,
        current_slot,
        slot_hashes_data,
        &randomness,
        winners.len(),
    ) {
        Ok(found) => found,
        Err(error) => {
            return Err(error);
        },
    };
    let display_count: usize = giveaway::display_count(giveaway_data.winner_count);
    let winner_indices: Vec<u64> = selection::select_winner_indices(
        &randomness,
        giveaway_data.participant_count,
        display_count as u64,
    );
    giveaway_data.state = STATE_DRAWN;
    giveaway_data.winner_root = winner_root;
    store_giveaway(user_account, giveaway_index, giveaway_data);
    Ok(WinnersRevealed { giveaway_index, randomness, winners, winner_root, winner_indices })
}

/// Reveals the winners of a draw like [`reveal_draw`], where every draw of the selection
/// takes one of the first `max_attempts` hashes; otherwise `None`, and the account stays
/// as it was.
pub fn reveal_draw_within(
    user_account: &mut UserGiveaways,
    account_index: u64,
    giveaway_index: u64,
    current_slot: u64,
    slot_hashes_data: &[u8],
    randomness: [u8; 32],
    winners: Vec<Winner>,
    winner_root: [u8; 32],
    max_attempts: u64,
) -> (revealed: Option<Result<WinnersRevealed, GiveawayError>>)
    requires
        locate(old(user_account)@, account_index, giveaway_index) matches Ok(found)
            ==> slots_in_order(found, current_slot),
    ensures
        match draw_outcome(
            old(user_account)@,
            account_index,
            giveaway_index,
            current_slot,
            slot_hashes_data@,
            randomness@,
            winners@.len() as int,
        ) {
            Ok(_) => {
                let found = old(user_account)@.giveaways[giveaway_index as int];
                if selection::draws_settle_within(
                    randomness@,
                    found.participant_count as int,
                    displayed_draws(found),
                    max_attempts as nat,
                ) {
                    &&& revealed matches Some(Ok(event))
                    &&& event.giveaway_index == giveaway_index
                    &&& event.randomness == randomness
                    &&& event.winners == winners
                    &&& event.winner_root == winner_root
                    &&& event.winner_indices@ == displayed_indices(found, randomness@)
                    &&& final(user_account)@ == with_replaced(
                        old(user_account)@,
                        giveaway_index,
                        drawn(found, winner_root),
                    )
                } else {
                    &&& revealed is None
                    &&& final(user_account)@ == old(user_account)@
                }
            },
            Err(error) => {
                &&& revealed == Some(Err::<WinnersRevealed, GiveawayError>(error))
                &&& final(user_account)@ == old(user_account)@
            },
        },
        revealed is Some ==> final(user_account)@ == laws::after(
            old(user_account)@,
            AccountStep::Reveal {
                account_index,
                giveaway_index,
                current_slot,
                slot_hashes_data: slot_hashes_data@,
                randomness: randomness@,
                supplied_winners: winners@.len() as int,
                winner_root,
            },
        ),
        old(user_account)@.wf() ==> final(user_account)@.wf(),
{
    let giveaway_data: GiveawayData = match check_draw(
        user_account,
        account_index,
        giveaway_index,
        current_slot,
        slot_hashes_data,
        &randomness,
        winners.len(),
    ) {
        Ok(found) => found,
        Err(error) => {
            return Some(Err(error));
        },
    };
    let display_count: usize = giveaway::display_count(giveaway_data.winner_count);
    if !selection::selection_settles_within(
        &randomness,
        giveaway_data.participant_count,
        display_count as u64,
        max_attempts,
    ) {
        return None;
    }
    proof {
        selection::lemma_settled_within_settles(
            randomness@,
            giveaway_data.participant_count as int,
            displayed_draws(giveaway_data),
            max_attempts as nat,
        );
    }
    Some(
        reveal_draw(
            user_account,
            account_index,
            giveaway_index,
            current_slot,
            slot_hashes_data,
            randomness,
            winners,
            winner_root,
        ),
    )
}

} // verus!
