//! Limits of the giveaway protocol and the addresses it is tied to.

use vstd::prelude::*;

verus! {

/// Number of slots to wait between commit and reveal (about 60 seconds).
pub const REVEAL_DELAY_SLOTS: u64 = 150;

/// Maximum participants allowed in a single giveaway.
pub const MAX_PARTICIPANTS: u64 = 100_000;

/// Maximum winners allowed in a single giveaway.
pub const MAX_WINNERS: u64 = 10_000;

/// Maximum slots after commit that reveal is still valid. Later than that the slot
/// hash may no longer be available.
pub const MAX_REVEAL_WINDOW: u64 = 450;

/// Maximum accounts per user.
pub const MAX_ACCOUNTS_PER_USER: usize = 100;

/// Size in bytes of a single giveaway entry in the account data: participant root 32,
/// participant count 8, winner count 8, state 1, commit slot 8, reveal slot 8, winner
/// root 32.
pub const GIVEAWAY_DATA_SIZE: usize = 97;

/// Initial space in bytes of a user account: discriminator 8, authority 32, account
/// index 8, length prefix 4, giveaway count 8, and room for five giveaways.
pub const USER_ACCOUNT_INIT_SPACE: usize = 60 + (5 * GIVEAWAY_DATA_SIZE);

/// Maximum number of winners to display in the reveal event.
pub const MAX_DISPLAYED_WINNERS: usize = 6;

/// The winner root of a giveaway whose winners are not drawn yet: 32 zero bytes.
pub const NO_WINNER_ROOT: [u8; 32] = [
    0, 0, 0, 0, 0, 0, 0, 0, 0, 0, 0, 0, 0, 0, 0, 0, 0, 0, 0, 0, 0, 0, 0, 0, 0, 0, 0, 0, 0, 0, 0, 0,
];

/// An account address.
pub type Pubkey = [u8; 32];

/// Address of the system program, which makes transfers: 32 zero bytes.
pub const SYSTEM_PROGRAM_ID: Pubkey = [
    0, 0, 0, 0, 0, 0, 0, 0, 0, 0, 0, 0, 0, 0, 0, 0, 0, 0, 0, 0, 0, 0, 0, 0, 0, 0, 0, 0, 0, 0, 0, 0,
];

/// Slot hashes sysvar address, `SysvarS1otHashes111111111111111111111111111`.
pub const SLOT_HASHES_ID: Pubkey = [
    6, 167, 213, 23, 25, 47, 10, 175, 198, 242, 101, 227, 251, 119, 204, 122, 218, 130, 197, 41, 208,
    190, 59, 19, 110, 45, 0, 85, 32, 0, 0, 0,
];

/// Instructions sysvar address, `Sysvar1nstructions1111111111111111111111111`.
pub const INSTRUCTIONS_SYSVAR_ID: Pubkey = [
    6, 167, 213, 23, 24, 123, 209, 102, 53, 218, 212, 4, 85, 253, 194, 192, 193, 36, 198, 143, 33, 86,
    117, 165, 219, 186, 203, 95, 8, 0, 0, 0,
];

/// The treasury address that receives platform fees,
/// `AoUY8D1M3X7fbgHy4XpgXqhpVSnLKgwfjnrC1ByAFXHU`. Replace with your own treasury.
pub const TREASURY_PUBKEY: Pubkey = [
    145, 161, 9, 10, 119, 43, 177, 4, 21, 131, 101, 111, 148, 66, 132, 99, 250, 30, 60, 198, 181, 191,
    38, 167, 166, 28, 143, 82, 75, 181, 20, 51,
];

/// The keeper address authorized to reveal draws,
/// `HLxD5xGPBGv5X7nhK2agHvsP7Yu7tGmnPLmLdS8PcAqy`. Replace with your own keeper.
pub const KEEPER_PUBKEY: Pubkey = [
    242, 215, 115, 83, 176, 115, 225, 59, 26, 112, 107, 73, 158, 13, 78, 170, 165, 84, 180, 213, 151,
    115, 163, 81, 105, 199, 137, 141, 153, 33, 216, 212,
];

} // verus!
