//! Provably fair winner selection: the verified core of a commit-reveal giveaway program.
//!
//! 1. **Commit**: an organizer commits to a participant list by its Merkle root, and to a
//!    draw by the current slot of the chain.
//! 2. **Wait**: during a delay the hash of that slot becomes known to everyone.
//! 3. **Reveal**: the slot hash and the participant root give the randomness that selects
//!    the winners by a deterministic Fisher-Yates shuffle, which anyone can run again.
//!
//! The modules:
//!
//! * [`program`]: the instructions, and [`laws`]: what holds whatever instructions come.
//! * [`giveaway`] and [`error`]: accounts, giveaways, and why an instruction is refused.
//! * [`fees`], [`instructions`] and [`instruction_laws`]: the platform fee, and the check that
//!   it was paid by another instruction of the transaction.
//! * [`selection`] and [`selection_laws`]: selecting winners, and what holds of it.
//! * [`randomness`], [`slot_hashes`] and [`merkle`]: where randomness and roots come from.
//! * [`bytes`], [`keccak`] and [`constants`]: what the others build on.

pub mod bytes;
pub mod constants;
pub mod error;
pub mod fees;
pub mod giveaway;
pub mod instruction_laws;
pub mod instructions;
pub mod keccak;
pub mod laws;
pub mod merkle;
pub mod program;
pub mod randomness;
pub mod selection;
pub mod selection_laws;
pub mod slot_hashes;

pub use constants::{
    Pubkey, GIVEAWAY_DATA_SIZE, INSTRUCTIONS_SYSVAR_ID, KEEPER_PUBKEY, MAX_ACCOUNTS_PER_USER,
    MAX_DISPLAYED_WINNERS, MAX_PARTICIPANTS, MAX_REVEAL_WINDOW, MAX_WINNERS, REVEAL_DELAY_SLOTS,
    SLOT_HASHES_ID, SYSTEM_PROGRAM_ID, TREASURY_PUBKEY, USER_ACCOUNT_INIT_SPACE,
};
pub use error::GiveawayError;
pub use fees::{calculate_platform_fee, check_fee_transfer, verify_fee_transfer};
pub use giveaway::{
    display_count, GiveawayData, UserGiveaways, UserState, Winner, WinnersRevealed,
};
pub use instructions::{read_current_instruction_index, read_instruction_at, RawInstruction};
pub use merkle::compute_merkle_root;
pub use program::{
    cancel_giveaway, check_commit, check_committed, check_reveal, close_user_account, commit_draw,
    create_and_commit_giveaway, create_giveaway, create_giveaway_core, create_user_account,
    get_all_giveaways, get_giveaway, initialize_user, reveal_draw, reveal_draw_within,
};
pub use randomness::derive_randomness;
pub use selection::{
    accepted_offset, select_winner_indices, select_winner_indices_within,
    selection_settles_within, verify_winner_indices, virtual_get, winners_from_offsets,
};
pub use slot_hashes::find_slot_hash;
