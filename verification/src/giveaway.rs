//! Accounts and giveaways.

use crate::constants::{
    Pubkey, MAX_ACCOUNTS_PER_USER, MAX_DISPLAYED_WINNERS, MAX_PARTICIPANTS, MAX_WINNERS,
    NO_WINNER_ROOT, REVEAL_DELAY_SLOTS,
};
use vstd::prelude::*;

verus! {

/// The giveaway exists; its draw is not committed yet.
pub const STATE_CREATED: u8 = 0;

/// The draw is committed and waits for its reveal.
pub const STATE_COMMITTED: u8 = 1;

/// The winners are drawn.
pub const STATE_DRAWN: u8 = 2;

/// The giveaway is cancelled.
pub const STATE_CANCELLED: u8 = 3;

/// A user's account count.
#[derive(Clone, Copy, Debug)]
pub struct UserState {
    pub authority: Pubkey,
    pub total_accounts: u64,
}

/// A single giveaway.
#[derive(Clone, Copy, Debug)]
pub struct GiveawayData {
    pub participant_root: [u8; 32],
    pub participant_count: u64,
    pub winner_count: u64,
    pub state: u8,
    pub commit_slot: u64,
    pub reveal_slot: u64,
    pub winner_root: [u8; 32],
}

/// All giveaways of a user account.
#[derive(Debug)]
pub struct UserGiveaways {
    pub authority: Pubkey,
    pub account_index: u64,
    pub giveaways: Vec<GiveawayData>,
    pub giveaway_count: u64,
}

/// A winner that a reveal displays.
#[derive(Clone, Debug)]
pub struct Winner {
    pub wallet: Pubkey,
    pub username: String,
}

/// The event of a reveal.
#[derive(Debug)]
pub struct WinnersRevealed {
    pub giveaway_index: u64,
    pub randomness: [u8; 32],
    pub winners: Vec<Winner>,
    pub winner_root: [u8; 32],
    pub winner_indices: Vec<u64>,
}

/// What a user account holds.
#[verifier::ext_equal]
pub struct AccountView {
    pub authority: Pubkey,
    pub account_index: u64,
    pub giveaways: Seq<GiveawayData>,
    pub giveaway_count: u64,
}

impl View for UserGiveaways {
    type V = AccountView;

    open spec fn view(&self) -> AccountView {
        AccountView {
            authority: self.authority,
            account_index: self.account_index,
            giveaways: self.giveaways@,
            giveaway_count: self.giveaway_count,
        }
    }
}

impl GiveawayData {
    /// What holds of every giveaway that the instructions have made: its counts are within
    /// the limits, a committed or drawn one has its reveal slot the delay after its commit
    /// slot, and a winner root is there only once the winners are drawn.
    pub open spec fn wf(self) -> bool {
        &&& self.counts_in_limits()
        &&& self.state <= STATE_CANCELLED
        &&& self.state == STATE_CREATED ==> self.commit_slot == 0 && self.reveal_slot == 0
        &&& self.state == STATE_COMMITTED || self.state == STATE_DRAWN ==> self.reveal_slot
            == self.commit_slot + REVEAL_DELAY_SLOTS
        &&& self.state != STATE_DRAWN ==> self.winner_root == NO_WINNER_ROOT
    }

    /// The counts of the giveaway are within the limits.
    pub open spec fn counts_in_limits(self) -> bool {
        &&& 0 < self.winner_count <= self.participant_count <= MAX_PARTICIPANTS
        &&& self.winner_count <= MAX_WINNERS
    }

    /// The giveaway is over: drawn or cancelled.
    pub open spec fn is_over(self) -> bool {
        self.state == STATE_DRAWN || self.state == STATE_CANCELLED
    }
}

impl AccountView {
    /// The count is the number of giveaways, and the counts of each are within the limits.
    pub open spec fn counts_hold(self) -> bool {
        &&& self.giveaway_count == self.giveaways.len()
        &&& forall|i: int|
            0 <= i < self.giveaways.len() ==> (#[trigger] self.giveaways[i]).counts_in_limits()
    }

    /// What holds of every account that the instructions have made: it is one of the
    /// accounts of its user, the count is the number of its giveaways, and each of these is
    /// well formed.
    pub open spec fn wf(self) -> bool {
        &&& 1 <= self.account_index <= MAX_ACCOUNTS_PER_USER
        &&& self.giveaway_count == self.giveaways.len()
        &&& forall|i: int| 0 <= i < self.giveaways.len() ==> (#[trigger] self.giveaways[i]).wf()
    }
}

impl UserState {
    /// A user has no more accounts than the limit.
    pub open spec fn wf(self) -> bool {
        self.total_accounts <= MAX_ACCOUNTS_PER_USER
    }
}

/// The number of winners that a reveal displays.
pub open spec fn shown_winners(winner_count: int) -> int {
    if winner_count < MAX_DISPLAYED_WINNERS {
        winner_count
    } else {
        MAX_DISPLAYED_WINNERS as int
    }
}

/// Converts a winner count to a display count, capped at `MAX_DISPLAYED_WINNERS`.
pub fn display_count(winner_count: u64) -> (shown: usize)
    ensures
        shown == shown_winners(winner_count as int),
{
    if winner_count < MAX_DISPLAYED_WINNERS as u64 {
        winner_count as usize
    } else {
        MAX_DISPLAYED_WINNERS
    }
}

/// The number of winners displayed is the winner count where that is six or less, and six
/// otherwise.
pub proof fn no_more_than_six_winners_are_shown(winner_count: u64)
    ensures
        winner_count <= 6 ==> shown_winners(winner_count as int) == winner_count,
        winner_count > 6 ==> shown_winners(winner_count as int) == 6,
{
}

/// The limits of well-formed giveaways, and what each of their states goes with.
pub proof fn well_formed_giveaways_keep_the_limits(giveaway: GiveawayData)
    ensures
        giveaway.counts_in_limits() <==> 1 <= giveaway.winner_count <= giveaway.participant_count
            <= 100_000 && giveaway.winner_count <= 10_000,
        giveaway.is_over() <==> giveaway.state == 2 || giveaway.state == 3,
        giveaway.wf() <==> {
            &&& 1 <= giveaway.winner_count <= giveaway.participant_count <= 100_000
            &&& giveaway.winner_count <= 10_000
            &&& {
                ||| giveaway.state == 0 && giveaway.commit_slot == 0 && giveaway.reveal_slot == 0
                ||| giveaway.state == 1 && giveaway.reveal_slot == giveaway.commit_slot + 150
                ||| giveaway.state == 2 && giveaway.reveal_slot == giveaway.commit_slot + 150
                ||| giveaway.state == 3
            }
            &&& giveaway.state == 2 || forall|k: int|
                0 <= k < 32 ==> #[trigger] giveaway.winner_root[k] == 0
        },
{
    if forall|k: int| 0 <= k < 32 ==> #[trigger] giveaway.winner_root[k] == 0 {
        assert(giveaway.winner_root =~= NO_WINNER_ROOT);
    }
}

/// A well-formed account is one of at most a hundred of its user, counts its giveaways,
/// and holds well-formed ones.
pub proof fn well_formed_accounts_count_their_giveaways(account: AccountView, user: UserState)
    ensures
        account.wf() <==> {
            &&& 1 <= account.account_index <= 100
            &&& account.giveaway_count == account.giveaways.len()
            &&& forall|i: int|
                0 <= i < account.giveaways.len() ==> (#[trigger] account.giveaways[i]).wf()
        },
        account.counts_hold() <==> {
            &&& account.giveaway_count == account.giveaways.len()
            &&& forall|i: int|
                0 <= i < account.giveaways.len() ==> (
                #[trigger] account.giveaways[i]).counts_in_limits()
        },
        user.wf() <==> user.total_accounts <= 100,
{
}

/// The view of an account shows every field of it.
pub proof fn account_views_show_every_field(account: UserGiveaways)
    ensures
        account@.authority == account.authority,
        account@.account_index == account.account_index,
        account@.giveaways == account.giveaways@,
        account@.giveaway_count == account.giveaway_count,
{
}

} // verus!
