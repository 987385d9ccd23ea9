//! What holds of an account whatever instructions are sent to it, in any order.

use crate::bytes;
use crate::constants::{
    Pubkey, MAX_ACCOUNTS_PER_USER, MAX_DISPLAYED_WINNERS, MAX_PARTICIPANTS, MAX_REVEAL_WINDOW,
    MAX_WINNERS, REVEAL_DELAY_SLOTS, SYSTEM_PROGRAM_ID, TREASURY_PUBKEY,
};
use crate::error::GiveawayError;
use crate::fees;
use crate::giveaway;
use crate::giveaway::{
    AccountView, GiveawayData, STATE_CANCELLED, STATE_COMMITTED, STATE_CREATED, STATE_DRAWN,
};
use crate::instructions;
use crate::keccak;
use crate::program;
use crate::program::GiveawayRequest;
use crate::randomness;
use crate::selection;
use crate::selection_laws;
use crate::slot_hashes;
use vstd::prelude::*;

verus! {

/// An instruction to an account, with all that it depends on.
pub enum AccountStep {
    Create { authority: Pubkey, instructions_data: Seq<u8>, request: GiveawayRequest },
    CreateAndCommit {
        authority: Pubkey,
        instructions_data: Seq<u8>,
        request: GiveawayRequest,
        current_slot: u64,
    },
    Commit { account_index: u64, giveaway_index: u64, current_slot: u64 },
    Reveal {
        account_index: u64,
        giveaway_index: u64,
        current_slot: u64,
        slot_hashes_data: Seq<u8>,
        randomness: Seq<u8>,
        supplied_winners: int,
        winner_root: [u8; 32],
    },
    Cancel { account_index: u64, giveaway_index: u64 },
}

/// The account after an instruction. One that is refused, or whose slot has no slot left
/// for the reveal behind it, leaves the account as it was.
pub open spec fn after(account: AccountView, step: AccountStep) -> AccountView {
    match step {
        AccountStep::Create { authority, instructions_data, request } => {
            if program::create_outcome(account, authority, instructions_data, request) is Ok {
                program::with_giveaway(
                    account,
                    program::new_giveaway(request, STATE_CREATED, 0, 0),
                )
            } else {
                account
            }
        },
        AccountStep::CreateAndCommit { authority, instructions_data, request, current_slot } => {
            if current_slot + REVEAL_DELAY_SLOTS <= u64::MAX && program::create_outcome(
                account,
                authority,
                instructions_data,
                request,
            ) is Ok {
                program::with_giveaway(
                    account,
                    program::new_giveaway(
                        request,
                        STATE_COMMITTED,
                        current_slot,
                        (current_slot + REVEAL_DELAY_SLOTS) as u64,
                    ),
                )
            } else {
                account
            }
        },
        AccountStep::Commit { account_index, giveaway_index, current_slot } => {
            if current_slot + REVEAL_DELAY_SLOTS <= u64::MAX && program::commit_outcome(
                account,
                account_index,
                giveaway_index,
            ) is Ok {
                program::with_replaced(
                    account,
                    giveaway_index,
                    program::committed(account.giveaways[giveaway_index as int], current_slot),
                )
            } else {
                account
            }
        },
        AccountStep::Reveal {
            account_index,
            giveaway_index,
            current_slot,
            slot_hashes_data,
            randomness,
            supplied_winners,
            winner_root,
        } => {
            if program::draw_outcome(
                account,
                account_index,
                giveaway_index,
                current_slot,
                slot_hashes_data,
                randomness,
                supplied_winners,
            ) is Ok {
                program::with_replaced(
                    account,
                    giveaway_index,
                    program::drawn(account.giveaways[giveaway_index as int], winner_root),
                )
            } else {
                account
            }
        },
        AccountStep::Cancel { account_index, giveaway_index } => {
            if program::cancel_outcome(account, account_index, giveaway_index) is Ok {
                program::with_replaced(
                    account,
                    giveaway_index,
                    program::cancelled(account.giveaways[giveaway_index as int]),
                )
            } else {
                account
            }
        },
    }
}

/// The account after a history of instructions.
pub open spec fn after_all(account: AccountView, steps: Seq<AccountStep>) -> AccountView
    decreases steps.len(),
{
    if steps.len() == 0 {
        account
    } else {
        after(after_all(account, steps.drop_last()), steps.last())
    }
}

/// `later` may follow `earlier` in the life of one giveaway: what was committed to stays,
/// the state moves only from created to committed to drawn, or to cancelled before that,
/// and the slots of a draw stay once it is committed.
pub open spec fn may_follow(earlier: GiveawayData, later: GiveawayData) -> bool {
    &&& later.participant_root == earlier.participant_root
    &&& later.participant_count == earlier.participant_count
    &&& later.winner_count == earlier.winner_count
    &&& earlier.state == STATE_DRAWN ==> later == earlier
    &&& earlier.state == STATE_CANCELLED ==> later == earlier
    &&& earlier.state == STATE_COMMITTED ==> {
        &&& later.state == STATE_COMMITTED || later.state == STATE_DRAWN || later.state
            == STATE_CANCELLED
        &&& later.commit_slot == earlier.commit_slot
        &&& later.reveal_slot == earlier.reveal_slot
    }
    &&& later.state == STATE_CREATED ==> earlier == later
}

/// The giveaways of `earlier` are still there in `later`, at the same indices, and each
/// may follow; the account belongs to the same authority under the same index.
pub open spec fn account_may_follow(earlier: AccountView, later: AccountView) -> bool {
    &&& later.authority == earlier.authority
    &&& later.account_index == earlier.account_index
    &&& later.giveaways.len() >= earlier.giveaways.len()
    &&& forall|i: int|
        0 <= i < earlier.giveaways.len() ==> may_follow(
            #[trigger] earlier.giveaways[i],
            later.giveaways[i],
        )
}

/// Every instruction keeps an account well formed, as long as the number of its giveaways
/// can be counted.
pub proof fn step_keeps_account_well_formed(account: AccountView, step: AccountStep)
    requires
        account.wf(),
        account.giveaway_count < u64::MAX,
    ensures
        after(account, step).wf(),
{
    let next = after(account, step);
    assert forall|i: int| 0 <= i < next.giveaways.len() implies (
    #[trigger] next.giveaways[i]).wf() by {
        if i < account.giveaways.len() {
            assert(account.giveaways[i].wf());
        }
    }
}

/// No instruction takes back what a giveaway was created, committed or drawn with.
pub proof fn step_moves_account_forward(account: AccountView, step: AccountStep)
    requires
        account.wf(),
    ensures
        account_may_follow(account, after(account, step)),
{
    let next = after(account, step);
    assert forall|i: int| 0 <= i < account.giveaways.len() implies may_follow(
        #[trigger] account.giveaways[i],
        next.giveaways[i],
    ) by {
        assert(account.giveaways[i].wf());
    }
}

/// The number of giveaways grows by at most one with each instruction.
proof fn lemma_count_grows_slowly(account: AccountView, steps: Seq<AccountStep>)
    requires
        account.wf(),
        account.giveaway_count + steps.len() <= u64::MAX,
    ensures
        after_all(account, steps).wf(),
        after_all(account, steps).giveaway_count <= account.giveaway_count + steps.len(),
    decreases steps.len(),
{
    if steps.len() > 0 {
        lemma_count_grows_slowly(account, steps.drop_last());
        step_keeps_account_well_formed(after_all(account, steps.drop_last()), steps.last());
    }
}

/// Every history of instructions keeps an account well formed and only moves it forward.
/// In particular the results of a draw are final: once the winners of a giveaway are
/// drawn, no later instruction changes anything of it, its winner root included.
pub proof fn histories_only_move_forward(account: AccountView, steps: Seq<AccountStep>)
    requires
        account.wf(),
        account.giveaway_count + steps.len() <= u64::MAX,
    ensures
        after_all(account, steps).wf(),
        account_may_follow(account, after_all(account, steps)),
        forall|i: int|
            0 <= i < account.giveaways.len() && (#[trigger] account.giveaways[i]).state
                == STATE_DRAWN ==> after_all(account, steps).giveaways[i] == account.giveaways[i],
    decreases steps.len(),
{
    lemma_count_grows_slowly(account, steps);
    if steps.len() > 0 {
        let before = after_all(account, steps.drop_last());
        let last = after_all(account, steps);
        histories_only_move_forward(account, steps.drop_last());
        step_moves_account_forward(before, steps.last());
        assert forall|i: int| 0 <= i < account.giveaways.len() implies may_follow(
            #[trigger] account.giveaways[i],
            last.giveaways[i],
        ) by {
            assert(account.giveaways[i].wf());
            assert(before.giveaways[i].wf());
            assert(may_follow(account.giveaways[i], before.giveaways[i]));
            assert(may_follow(before.giveaways[i], last.giveaways[i]));
        }
    }
}

/// Creating a giveaway and committing its draw at a slot does the same as creating and
/// committing it in one instruction at that slot.
pub proof fn create_then_commit_is_create_and_commit(
    account: AccountView,
    authority: Pubkey,
    instructions_data: Seq<u8>,
    request: GiveawayRequest,
    current_slot: u64,
)
    requires
        program::create_outcome(account, authority, instructions_data, request) is Ok,
        account.giveaways.len() <= u64::MAX,
        current_slot + REVEAL_DELAY_SLOTS <= u64::MAX,
    ensures
        after(
            after(account, AccountStep::Create { authority, instructions_data, request }),
            AccountStep::Commit {
                account_index: request.account_index,
                giveaway_index: account.giveaways.len() as u64,
                current_slot,
            },
        ) == after(
            account,
            AccountStep::CreateAndCommit { authority, instructions_data, request, current_slot },
        ),
{
    let created = after(account, AccountStep::Create { authority, instructions_data, request });
    let index = account.giveaways.len() as u64;
    let two_steps = after(
        created,
        AccountStep::Commit { account_index: request.account_index, giveaway_index: index, current_slot },
    );
    let one_step = after(
        account,
        AccountStep::CreateAndCommit { authority, instructions_data, request, current_slot },
    );
    assert(two_steps.giveaways =~= one_step.giveaways);
}

/// A giveaway is created only where its platform fee was paid to the treasury by the
/// authority in the instruction right before, and never for less than the smallest fee.
pub proof fn giveaways_are_paid_for(
    account: AccountView,
    authority: Pubkey,
    instructions_data: Seq<u8>,
    request: GiveawayRequest,
)
    requires
        program::create_outcome(account, authority, instructions_data, request) is Ok,
    ensures
        request.platform_fee == fees::platform_fee(request.participant_count as int),
        request.platform_fee >= fees::MIN_PLATFORM_FEE,
        fees::preceding_transfer_outcome(
            instructions_data,
            authority@,
            request.platform_fee as int,
        ) is Ok,
{
}

/// A draw is revealed only more than the delay after it was committed, and within the
/// window in which the hash of its slot is there.
pub proof fn reveals_keep_the_delay_and_the_window(
    account: AccountView,
    account_index: u64,
    giveaway_index: u64,
    current_slot: u64,
    slot_hashes_data: Seq<u8>,
    randomness: Seq<u8>,
    supplied_winners: int,
)
    requires
        account.wf(),
        program::draw_outcome(
            account,
            account_index,
            giveaway_index,
            current_slot,
            slot_hashes_data,
            randomness,
            supplied_winners,
        ) is Ok,
    ensures
        ({
            let commit_slot = account.giveaways[giveaway_index as int].commit_slot;
            commit_slot + REVEAL_DELAY_SLOTS < current_slot <= commit_slot + MAX_REVEAL_WINDOW
        }),
{
    assert(account.giveaways[giveaway_index as int].wf());
}

/// The randomness of a revealed draw is determined: it is the hash of the slot at which
/// the draw was committed, hashed together with the participant root. So no two reveals of
/// a draw against the same slot hashes can use different randomness.
pub proof fn revealed_randomness_is_determined(
    account: AccountView,
    account_index: u64,
    giveaway_index: u64,
    current_slot: u64,
    slot_hashes_data: Seq<u8>,
    randomness: Seq<u8>,
    supplied_winners: int,
)
    requires
        program::draw_outcome(
            account,
            account_index,
            giveaway_index,
            current_slot,
            slot_hashes_data,
            randomness,
            supplied_winners,
        ) is Ok,
    ensures
        ({
            let found = account.giveaways[giveaway_index as int];
            slot_hashes::slot_hash_of(slot_hashes_data, found.commit_slot as int) matches Some(
                slot_hash,
            ) && randomness == randomness::derived_randomness(slot_hash, found.participant_root@)
        }),
{
}

/// A reveal displays one winner index for each winner that is supplied with it; the
/// indices are distinct participants, and they are the first of all winners that the same
/// randomness selects for the giveaway.
pub proof fn displayed_winners_are_the_first_winners(giveaway: GiveawayData, randomness: Seq<u8>)
    requires
        giveaway.wf(),
    ensures
        ({
            let shown = giveaway::shown_winners(giveaway.winner_count as int);
            let indices = program::displayed_indices(giveaway, randomness);
            &&& indices.len() == shown
            &&& selection::distinct_participants(indices, giveaway.participant_count as int)
            &&& indices == selection::selected(
                randomness,
                giveaway.participant_count as int,
                giveaway.winner_count as int,
            ).take(shown)
        }),
{
    let participants = giveaway.participant_count as int;
    let winners = giveaway.winner_count as int;
    let shown = giveaway::shown_winners(winners);
    selection_laws::selected_winners_are_distinct_participants(randomness, participants, shown);
    selection_laws::fewer_winners_are_the_first_ones(randomness, participants, shown, winners);
}

/// A draw that is due in a well-formed account has its slots in order, so its reveal is
/// always defined.
pub proof fn well_formed_draws_have_slots_in_order(
    account: AccountView,
    account_index: u64,
    giveaway_index: u64,
    current_slot: u64,
)
    requires
        account.wf(),
    ensures
        program::locate(account, account_index, giveaway_index) matches Ok(found)
            ==> program::slots_in_order(found, current_slot),
{
    if program::locate(account, account_index, giveaway_index) is Ok {
        assert(account.giveaways[giveaway_index as int].wf());
    }
}

/// An account can be closed exactly where each of its giveaways is drawn or cancelled, and
/// then no instruction changes a giveaway of it any more.
pub proof fn closable_accounts_are_settled(account: AccountView, step: AccountStep)
    requires
        account.wf(),
    ensures
        program::close_outcome(account, account.account_index) is Ok <==> forall|i: int|
            0 <= i < account.giveaways.len() ==> (#[trigger] account.giveaways[i]).is_over(),
        program::close_outcome(account, account.account_index) is Ok ==> forall|i: int|
            0 <= i < account.giveaways.len() ==> after(account, step).giveaways[i]
                == #[trigger] account.giveaways[i],
{
    step_moves_account_forward(account, step);
    if program::close_outcome(account, account.account_index) is Ok {
        assert forall|i: int| 0 <= i < account.giveaways.len() implies after(
            account,
            step,
        ).giveaways[i] == #[trigger] account.giveaways[i] by {
            assert(account.giveaways[i].is_over());
            assert(may_follow(account.giveaways[i], after(account, step).giveaways[i]));
        }
    }
}

// ---------------------------------------------------------------------------------
// When each instruction succeeds, why it is refused, and what it leaves behind
// ---------------------------------------------------------------------------------
/// A giveaway is created exactly where the account is the one named, one winner or more
/// and no more than participants are asked for, participants and winners are within the
/// limits, the id is not empty, the fee is the one for the participants, and the
/// instruction right before pays it: a transfer of just that amount by the system program,
/// signed by the authority, to the treasury.
pub proof fn giveaways_within_the_limits_are_created(
    account: AccountView,
    authority: Pubkey,
    instructions_data: Seq<u8>,
    request: GiveawayRequest,
)
    ensures
        program::create_outcome(account, authority, instructions_data, request) is Ok <==> {
            let last = instructions_data.len() - 1;
            let index = instructions_data[last - 1] + 0x100 * instructions_data[last] - 1;
            let transfer = instructions::instruction(instructions_data, index);
            &&& account.account_index == request.account_index
            &&& 1 <= request.winner_count <= request.participant_count <= 100_000
            &&& request.winner_count <= 10_000
            &&& request.id.len() >= 1
            &&& request.platform_fee == (if request.participant_count <= 10 {
                50_000
            } else {
                5_000 * request.participant_count
            })
            &&& last >= 1
            &&& index >= 0
            &&& instructions::holds_instruction(instructions_data, index)
            &&& transfer.program_id == SYSTEM_PROGRAM_ID@
            &&& transfer.data.len() == 12
            &&& transfer.data[0] == 2 && transfer.data[1] == 0 && transfer.data[2] == 0
                && transfer.data[3] == 0
            &&& bytes::le_u64(transfer.data, 4) == request.platform_fee
            &&& transfer.accounts.len() >= 2
            &&& transfer.accounts[0] == (authority@, true)
            &&& transfer.accounts[1].0 == TREASURY_PUBKEY@
        },
{
}

/// Why a request for a giveaway is refused. Of several reasons the first one in this order
/// is given: another account, a winner count that is zero or larger than the participant
/// count, too many participants, too many winners, an empty id, another fee, and what is
/// wrong with the payment.
pub proof fn refused_requests_say_why(
    account: AccountView,
    authority: Pubkey,
    instructions_data: Seq<u8>,
    request: GiveawayRequest,
)
    ensures
        ({
            let outcome = program::create_outcome(account, authority, instructions_data, request);
            let payment = fees::preceding_transfer_outcome(
                instructions_data,
                authority@,
                request.platform_fee as int,
            );
            let winners = request.winner_count;
            let participants = request.participant_count;
            let here = account.account_index == request.account_index;
            let fits = here && 1 <= winners <= participants <= 100_000 && winners <= 10_000;
            let fee = if participants <= 10 {
                50_000
            } else {
                5_000 * participants
            };
            &&& outcome == Err::<(), GiveawayError>(GiveawayError::InvalidAccountIndex) <==> !here
            &&& outcome == Err::<(), GiveawayError>(GiveawayError::InvalidWinnerCount) <==> here
                && (winners < 1 || winners > participants)
            &&& outcome == Err::<(), GiveawayError>(GiveawayError::TooManyParticipants) <==> here
                && 1 <= winners <= participants && participants > 100_000
            &&& outcome == Err::<(), GiveawayError>(GiveawayError::TooManyWinners) <==> here && 1
                <= winners <= participants <= 100_000 && winners > 10_000
            &&& outcome == Err::<(), GiveawayError>(GiveawayError::EmptyId) <==> fits
                && request.id.len() == 0
            &&& outcome == Err::<(), GiveawayError>(GiveawayError::InvalidFee) <==> fits
                && request.id.len() > 0 && request.platform_fee != fee
            &&& fits && request.id.len() > 0 && request.platform_fee == fee ==> outcome == payment
        }),
{
}

/// What the creation of a giveaway does: it returns the index behind the giveaways that are
/// there, which all stay as they are, and adds there what was asked for, in the given state
/// and without a winner root. A refusal changes nothing.
pub proof fn creations_add_what_was_asked_for(
    before: AccountView,
    later: AccountView,
    authority: Pubkey,
    instructions_data: Seq<u8>,
    request: GiveawayRequest,
    state: u8,
    commit_slot: u64,
    reveal_slot: u64,
    outcome: Result<u64, GiveawayError>,
)
    requires
        program::creation_result(
            before,
            later,
            authority,
            instructions_data,
            request,
            state,
            commit_slot,
            reveal_slot,
            outcome,
        ),
        before.giveaway_count < u64::MAX,
    ensures
        later.authority == before.authority,
        later.account_index == before.account_index,
        match program::create_outcome(before, authority, instructions_data, request) {
            Ok(_) => {
                let added = later.giveaways[before.giveaways.len() as int];
                &&& outcome matches Ok(index)
                &&& index == before.giveaways.len()
                &&& later.giveaways.len() == before.giveaways.len() + 1
                &&& later.giveaway_count == before.giveaway_count + 1
                &&& forall|i: int|
                    0 <= i < before.giveaways.len() ==> later.giveaways[i]
                        == #[trigger] before.giveaways[i]
                &&& added.participant_root == request.participant_root
                &&& added.participant_count == request.participant_count
                &&& added.winner_count == request.winner_count
                &&& added.state == state
                &&& added.commit_slot == commit_slot
                &&& added.reveal_slot == reveal_slot
                &&& forall|k: int| 0 <= k < 32 ==> #[trigger] added.winner_root[k] == 0
            },
            Err(error) => {
                &&& outcome == Err::<u64, GiveawayError>(error)
                &&& later.giveaways == before.giveaways
                &&& later.giveaway_count == before.giveaway_count
            },
        },
{
}

/// The fields of a request are the arguments of the instruction.
pub proof fn requests_hold_the_arguments(
    account_index: u64,
    id: Seq<char>,
    participant_root: [u8; 32],
    participant_count: u64,
    winner_count: u64,
    platform_fee: u64,
)
    ensures
        ({
            let request = program::request_of(
                account_index,
                id,
                participant_root,
                participant_count,
                winner_count,
                platform_fee,
            );
            &&& request.account_index == account_index
            &&& request.id == id
            &&& request.participant_root == participant_root
            &&& request.participant_count == participant_count
            &&& request.winner_count == winner_count
            &&& request.platform_fee == platform_fee
        }),
{
}

/// A new giveaway waits for its commit, with no slots; one that is committed at once has
/// the current slot for its commit, and its reveal 150 slots later. Either way the account
/// has one giveaway more, and the others stay as they are; a refusal changes nothing.
pub proof fn new_giveaways_are_added_behind_the_others(
    account: AccountView,
    authority: Pubkey,
    instructions_data: Seq<u8>,
    request: GiveawayRequest,
    current_slot: u64,
)
    requires
        account.giveaway_count < u64::MAX,
        current_slot + 150 <= u64::MAX,
    ensures
        ({
            let accepted = program::create_outcome(account, authority, instructions_data, request)
                is Ok;
            let count = account.giveaways.len() as int;
            let created = after(
                account,
                AccountStep::Create { authority, instructions_data, request },
            );
            let both = after(
                account,
                AccountStep::CreateAndCommit { authority, instructions_data, request, current_slot },
            );
            &&& !accepted ==> created == account && both == account
            &&& accepted ==> {
                &&& created.giveaways.len() == count + 1
                &&& both.giveaways.len() == count + 1
                &&& forall|i: int|
                    0 <= i < count ==> created.giveaways[i] == #[trigger] account.giveaways[i]
                        && both.giveaways[i] == account.giveaways[i]
                &&& created.giveaway_count == account.giveaway_count + 1
                &&& both.giveaway_count == account.giveaway_count + 1
                &&& created.authority == account.authority && both.authority == account.authority
                &&& created.account_index == account.account_index && both.account_index
                    == account.account_index
                &&& created.giveaways[count].participant_root == request.participant_root
                &&& created.giveaways[count].participant_count == request.participant_count
                &&& created.giveaways[count].winner_count == request.winner_count
                &&& created.giveaways[count].state == 0
                &&& created.giveaways[count].commit_slot == 0
                &&& created.giveaways[count].reveal_slot == 0
                &&& forall|k: int|
                    0 <= k < 32 ==> #[trigger] created.giveaways[count].winner_root[k] == 0
                &&& both.giveaways[count].participant_root == request.participant_root
                &&& both.giveaways[count].participant_count == request.participant_count
                &&& both.giveaways[count].winner_count == request.winner_count
                &&& both.giveaways[count].state == 1
                &&& both.giveaways[count].commit_slot == current_slot
                &&& both.giveaways[count].reveal_slot == current_slot + 150
                &&& both.giveaways[count].winner_root == created.giveaways[count].winner_root
            }
        }),
{
}

/// Two indices name a giveaway exactly where the first is that of the account and the
/// second is below the number of its giveaways; another account is the first reason why
/// they name none.
pub proof fn indices_name_the_giveaways_of_the_account(
    account: AccountView,
    account_index: u64,
    giveaway_index: u64,
)
    ensures
        ({
            let outcome = program::locate(account, account_index, giveaway_index);
            &&& outcome is Ok <==> account.account_index == account_index && giveaway_index
                < account.giveaways.len()
            &&& outcome matches Ok(found) ==> found == account.giveaways[giveaway_index as int]
            &&& outcome == Err::<GiveawayData, GiveawayError>(GiveawayError::InvalidAccountIndex)
                <==> account.account_index != account_index
            &&& outcome == Err::<GiveawayData, GiveawayError>(GiveawayError::GiveawayNotFound)
                <==> account.account_index == account_index && giveaway_index
                >= account.giveaways.len()
        }),
{
}

/// Every giveaway that waits for its commit can be committed, whatever other giveaways the
/// account holds, and no other can: a giveaway in another state is refused. Its slots are
/// then the current one and the one 150 later; all else stays, the other giveaways too.
pub proof fn every_created_giveaway_can_be_committed(
    account: AccountView,
    account_index: u64,
    giveaway_index: u64,
    current_slot: u64,
)
    requires
        current_slot + 150 <= u64::MAX,
    ensures
        ({
            let outcome = program::commit_outcome(account, account_index, giveaway_index);
            let here = account.account_index == account_index;
            let there = giveaway_index < account.giveaways.len();
            let found = account.giveaways[giveaway_index as int];
            let next = after(
                account,
                AccountStep::Commit { account_index, giveaway_index, current_slot },
            );
            let changed = next.giveaways[giveaway_index as int];
            &&& outcome is Ok <==> here && there && found.state == 0
            &&& outcome == Err::<(), GiveawayError>(GiveawayError::InvalidAccountIndex) <==> !here
            &&& outcome == Err::<(), GiveawayError>(GiveawayError::GiveawayNotFound) <==> here
                && !there
            &&& outcome == Err::<(), GiveawayError>(GiveawayError::InvalidStateTransition)
                <==> here && there && found.state != 0
            &&& !(here && there && found.state == 0) ==> next == account
            &&& here && there && found.state == 0 ==> {
                &&& changed.state == 1
                &&& changed.commit_slot == current_slot
                &&& changed.reveal_slot == current_slot + 150
                &&& changed.participant_root == found.participant_root
                &&& changed.participant_count == found.participant_count
                &&& changed.winner_count == found.winner_count
                &&& changed.winner_root == found.winner_root
                &&& next.giveaways.len() == account.giveaways.len()
                &&& forall|i: int|
                    0 <= i < account.giveaways.len() && i != giveaway_index ==> next.giveaways[i]
                        == #[trigger] account.giveaways[i]
                &&& next.authority == account.authority
                &&& next.account_index == account.account_index
                &&& next.giveaway_count == account.giveaway_count
            }
        }),
{
}

/// Every giveaway whose winners are not drawn can be cancelled, and no other. Its state
/// alone changes.
pub proof fn every_giveaway_not_drawn_can_be_cancelled(
    account: AccountView,
    account_index: u64,
    giveaway_index: u64,
)
    ensures
        ({
            let outcome = program::cancel_outcome(account, account_index, giveaway_index);
            let here = account.account_index == account_index;
            let there = giveaway_index < account.giveaways.len();
            let found = account.giveaways[giveaway_index as int];
            let next = after(account, AccountStep::Cancel { account_index, giveaway_index });
            let changed = next.giveaways[giveaway_index as int];
            &&& outcome is Ok <==> here && there && found.state != 2
            &&& outcome == Err::<(), GiveawayError>(GiveawayError::InvalidAccountIndex) <==> !here
            &&& outcome == Err::<(), GiveawayError>(GiveawayError::GiveawayNotFound) <==> here
                && !there
            &&& outcome == Err::<(), GiveawayError>(GiveawayError::AlreadyDrawn) <==> here && there
                && found.state == 2
            &&& !(here && there && found.state != 2) ==> next == account
            &&& here && there && found.state != 2 ==> {
                &&& changed.state == 3
                &&& changed.commit_slot == found.commit_slot
                &&& changed.reveal_slot == found.reveal_slot
                &&& changed.participant_root == found.participant_root
                &&& changed.participant_count == found.participant_count
                &&& changed.winner_count == found.winner_count
                &&& changed.winner_root == found.winner_root
                &&& next.giveaways.len() == account.giveaways.len()
                &&& forall|i: int|
                    0 <= i < account.giveaways.len() && i != giveaway_index ==> next.giveaways[i]
                        == #[trigger] account.giveaways[i]
                &&& next.authority == account.authority
                &&& next.account_index == account.account_index
                &&& next.giveaway_count == account.giveaway_count
            }
        }),
{
}

/// An account can be closed exactly where it is the one named and each of its giveaways is
/// drawn or cancelled; another account is the first reason why it can not.
pub proof fn accounts_without_active_giveaways_can_be_closed(
    account: AccountView,
    account_index: u64,
)
    ensures
        ({
            let outcome = program::close_outcome(account, account_index);
            let here = account.account_index == account_index;
            let all_over = forall|i: int|
                0 <= i < account.giveaways.len() ==> (#[trigger] account.giveaways[i]).state == 2
                    || account.giveaways[i].state == 3;
            &&& outcome is Ok <==> here && all_over
            &&& outcome == Err::<(), GiveawayError>(GiveawayError::InvalidAccountIndex) <==> !here
            &&& outcome == Err::<(), GiveawayError>(GiveawayError::AccountHasActiveGiveaways)
                <==> here && !all_over
        }),
{
    let all_over = forall|i: int|
        0 <= i < account.giveaways.len() ==> (#[trigger] account.giveaways[i]).state == 2
            || account.giveaways[i].state == 3;
    if all_over {
        assert forall|i: int| 0 <= i < account.giveaways.len() implies (
        #[trigger] account.giveaways[i]).is_over() by {}
    } else {
        let i = choose|i: int|
            0 <= i < account.giveaways.len() && !((#[trigger] account.giveaways[i]).state == 2
                || account.giveaways[i].state == 3);
        assert(!account.giveaways[i].is_over());
    }
}

/// A giveaway waits for its reveal exactly where it is committed; one that is drawn is told
/// from the others.
pub proof fn only_committed_giveaways_wait_for_a_reveal(giveaway: GiveawayData, current_slot: u64)
    ensures
        program::committed_outcome(giveaway) is Ok <==> giveaway.state == 1,
        program::committed_outcome(giveaway) == Err::<(), GiveawayError>(
            GiveawayError::AlreadyDrawn,
        ) <==> giveaway.state == 2,
        program::committed_outcome(giveaway) == Err::<(), GiveawayError>(
            GiveawayError::NotCommitted,
        ) <==> giveaway.state != 1 && giveaway.state != 2,
        program::slots_in_order(giveaway, current_slot) <==> (giveaway.state != 1 || current_slot
            <= giveaway.reveal_slot || giveaway.commit_slot <= current_slot),
{
}

/// A reveal is in order exactly where the giveaway is committed, the current slot is behind
/// its reveal slot and at most 450 behind its commit slot, the randomness is the expected
/// one, and one winner is supplied for each that is displayed: as many as the giveaway has,
/// but at most six. Of several reasons for a refusal the first one in this order is given.
pub proof fn reveals_in_order_are_accepted(
    giveaway: GiveawayData,
    current_slot: u64,
    expected: Option<Seq<u8>>,
    randomness: Seq<u8>,
    supplied_winners: int,
)
    ensures
        ({
            let outcome = program::reveal_outcome(
                giveaway,
                current_slot,
                expected,
                randomness,
                supplied_winners,
            );
            let waits = giveaway.state == 1;
            let due = waits && giveaway.reveal_slot < current_slot;
            let in_window = due && current_slot <= giveaway.commit_slot + 450;
            let known = in_window && expected is Some;
            let right = known && expected == Some(randomness);
            let complete = supplied_winners == (if giveaway.winner_count <= 6 {
                giveaway.winner_count as int
            } else {
                6
            });
            &&& outcome is Ok <==> right && complete
            &&& outcome == Err::<(), GiveawayError>(GiveawayError::AlreadyDrawn)
                <==> giveaway.state == 2
            &&& outcome == Err::<(), GiveawayError>(GiveawayError::NotCommitted) <==> !waits
                && giveaway.state != 2
            &&& outcome == Err::<(), GiveawayError>(GiveawayError::RevealTooEarly) <==> waits
                && !due
            &&& outcome == Err::<(), GiveawayError>(GiveawayError::RevealWindowExpired) <==> due
                && !in_window
            &&& outcome == Err::<(), GiveawayError>(GiveawayError::SlotHashExpired) <==> in_window
                && !known
            &&& outcome == Err::<(), GiveawayError>(GiveawayError::InvalidRandomness) <==> known
                && !right
            &&& outcome == Err::<(), GiveawayError>(GiveawayError::WinnerCountMismatch) <==> right
                && !complete
        }),
{
}

/// A draw is revealed exactly where the indices name a committed giveaway, the current slot
/// is behind its reveal slot and at most 450 behind its commit slot, the slot hashes hold
/// its commit slot, the randomness is the hash of that slot hash followed by the
/// participant root, and one winner is supplied for each that is displayed: as many as the
/// giveaway has, but at most six. Indices that name no giveaway are refused first; for the
/// other reasons see [`reveals_in_order_are_accepted`].
pub proof fn draws_in_order_are_revealed(
    account: AccountView,
    account_index: u64,
    giveaway_index: u64,
    current_slot: u64,
    slot_hashes_data: Seq<u8>,
    randomness: Seq<u8>,
    supplied_winners: int,
)
    ensures
        ({
            let outcome = program::draw_outcome(
                account,
                account_index,
                giveaway_index,
                current_slot,
                slot_hashes_data,
                randomness,
                supplied_winners,
            );
            let here = account.account_index == account_index;
            let there = giveaway_index < account.giveaways.len();
            let found = account.giveaways[giveaway_index as int];
            let stored = slot_hashes::slot_hash_of(slot_hashes_data, found.commit_slot as int);
            let expected = match stored {
                Some(slot_hash) => Some(
                    keccak::keccak256(slot_hash + found.participant_root@)@,
                ),
                None => None,
            };
            &&& outcome is Ok <==> {
                &&& here && there
                &&& found.state == 1
                &&& found.reveal_slot < current_slot <= found.commit_slot + 450
                &&& stored is Some
                &&& randomness == keccak::keccak256(stored->0 + found.participant_root@)@
                &&& supplied_winners == (if found.winner_count <= 6 {
                    found.winner_count as int
                } else {
                    6
                })
            }
            &&& outcome == Err::<(), GiveawayError>(GiveawayError::InvalidAccountIndex) <==> !here
            &&& outcome == Err::<(), GiveawayError>(GiveawayError::GiveawayNotFound) <==> here
                && !there
            &&& here && there ==> outcome == program::reveal_outcome(
                found,
                current_slot,
                expected,
                randomness,
                supplied_winners,
            )
        }),
{
}

/// What a reveal does: the giveaway is drawn and has the winner root; all else of it stays,
/// and so do the other giveaways. A refusal changes nothing.
pub proof fn reveals_store_the_winner_root(
    account: AccountView,
    account_index: u64,
    giveaway_index: u64,
    current_slot: u64,
    slot_hashes_data: Seq<u8>,
    randomness: Seq<u8>,
    supplied_winners: int,
    winner_root: [u8; 32],
)
    ensures
        ({
            let accepted = program::draw_outcome(
                account,
                account_index,
                giveaway_index,
                current_slot,
                slot_hashes_data,
                randomness,
                supplied_winners,
            ) is Ok;
            let found = account.giveaways[giveaway_index as int];
            let next = after(
                account,
                AccountStep::Reveal {
                    account_index,
                    giveaway_index,
                    current_slot,
                    slot_hashes_data,
                    randomness,
                    supplied_winners,
                    winner_root,
                },
            );
            let changed = next.giveaways[giveaway_index as int];
            &&& !accepted ==> next == account
            &&& accepted ==> {
                &&& changed.state == 2
                &&& changed.winner_root == winner_root
                &&& changed.commit_slot == found.commit_slot
                &&& changed.reveal_slot == found.reveal_slot
                &&& changed.participant_root == found.participant_root
                &&& changed.participant_count == found.participant_count
                &&& changed.winner_count == found.winner_count
                &&& next.giveaways.len() == account.giveaways.len()
                &&& forall|i: int|
                    0 <= i < account.giveaways.len() && i != giveaway_index ==> next.giveaways[i]
                        == #[trigger] account.giveaways[i]
                &&& next.authority == account.authority
                &&& next.account_index == account.account_index
                &&& next.giveaway_count == account.giveaway_count
            }
        }),
{
}

/// The winners that a reveal displays are those that its randomness selects among the
/// participants, as many as the giveaway has, but at most six. In a well-formed account
/// they are as many as the winners that were supplied.
pub proof fn reveals_display_as_many_winners_as_supplied(
    account: AccountView,
    account_index: u64,
    giveaway_index: u64,
    current_slot: u64,
    slot_hashes_data: Seq<u8>,
    randomness: Seq<u8>,
    supplied_winners: int,
)
    requires
        program::draw_outcome(
            account,
            account_index,
            giveaway_index,
            current_slot,
            slot_hashes_data,
            randomness,
            supplied_winners,
        ) is Ok,
    ensures
        ({
            let found = account.giveaways[giveaway_index as int];
            let indices = program::displayed_indices(found, randomness);
            &&& indices == selection::selected(
                randomness,
                found.participant_count as int,
                supplied_winners,
            )
            &&& program::displayed_draws(found) == indices.len()
            &&& indices.len() <= supplied_winners <= 6
            &&& account.wf() ==> indices.len() == supplied_winners
        }),
{
    let found = account.giveaways[giveaway_index as int];
    selection_laws::selected_winners_are_distinct_participants(
        randomness,
        found.participant_count as int,
        supplied_winners,
    );
    if account.wf() {
        assert(found.wf());
    }
}

/// What a history of instructions can not change: whose the account is, and of each
/// giveaway the participants and winners it was created for, the slots once it is
/// committed, and everything once it is drawn or cancelled.
pub proof fn histories_keep_what_was_promised(account: AccountView, steps: Seq<AccountStep>, i: int)
    requires
        account.wf(),
        account.giveaway_count + steps.len() <= u64::MAX,
        0 <= i < account.giveaways.len(),
    ensures
        ({
            let later = after_all(account, steps);
            let first = account.giveaways[i];
            let last = later.giveaways[i];
            &&& later.authority == account.authority
            &&& later.account_index == account.account_index
            &&& later.giveaways.len() >= account.giveaways.len()
            &&& last.participant_root == first.participant_root
            &&& last.participant_count == first.participant_count
            &&& last.winner_count == first.winner_count
            &&& first.state == 1 ==> last.commit_slot == first.commit_slot && last.reveal_slot
                == first.reveal_slot && last.state != 0
            &&& first.state == 2 || first.state == 3 ==> last == first
            &&& last.state == 0 ==> last == first
        }),
{
    histories_only_move_forward(account, steps);
    assert(account.giveaways[i].wf());
    assert(may_follow(account.giveaways[i], after_all(account, steps).giveaways[i]));
}

/// A history is its instructions one after the other.
pub proof fn histories_take_one_instruction_after_the_other(
    account: AccountView,
    earlier: Seq<AccountStep>,
    later: Seq<AccountStep>,
    step: AccountStep,
)
    ensures
        after_all(account, Seq::empty()) == account,
        after_all(account, seq![step]) == after(account, step),
        after_all(account, earlier + later) == after_all(after_all(account, earlier), later),
    decreases later.len(),
{
    assert(seq![step].drop_last() =~= Seq::empty());
    assert(after_all(account, Seq::empty()) == account);
    if later.len() == 0 {
        assert(earlier + later =~= earlier);
    } else {
        assert((earlier + later).drop_last() =~= earlier + later.drop_last());
        histories_take_one_instruction_after_the_other(account, earlier, later.drop_last(), step);
    }
}

/// The limits of the protocol and the fees of the platform.
pub proof fn the_limits_are_the_published_ones()
    ensures
        REVEAL_DELAY_SLOTS == 150,
        MAX_REVEAL_WINDOW == 450,
        MAX_PARTICIPANTS == 100_000,
        MAX_WINNERS == 10_000,
        MAX_ACCOUNTS_PER_USER == 100,
        MAX_DISPLAYED_WINNERS == 6,
        STATE_CREATED == 0,
        STATE_COMMITTED == 1,
        STATE_DRAWN == 2,
        STATE_CANCELLED == 3,
        fees::FEE_PER_PARTICIPANT == 5_000,
        fees::MIN_PLATFORM_FEE == 50_000,
        fees::MAX_PLATFORM_FEE == 500_000_000,
        forall|k: int| 0 <= k < 32 ==> #[trigger] SYSTEM_PROGRAM_ID[k] == 0,
{
}

} // verus!
