//! Randomness of a draw.

use crate::bytes;
use crate::keccak;
use vstd::prelude::*;

verus! {

/// Keccak-256 of the slot hash followed by the participant root.
pub open spec fn derived_randomness(slot_hash: Seq<u8>, participant_root: Seq<u8>) -> Seq<u8> {
    keccak::keccak256(slot_hash + participant_root)@
}

/// Derives the randomness of a draw from a slot hash and the participant root:
/// unpredictable because of the first, tied to the participants by the second.
pub fn derive_randomness(target_hash: &[u8; 32], participant_root: &[u8; 32]) -> (randomness: [u8;
    32])
    ensures
        randomness@ == derived_randomness(target_hash@, participant_root@),
{
    let combined: [u8; 64] = bytes::join_hashes(target_hash, participant_root);
    keccak::keccak_hash(&combined)
}

/// The randomness is bound to the slot hash and to the participant root: two draws that
/// derive the same randomness agree in both, unless the 64 bytes under them are a
/// collision of the hash function.
pub proof fn randomness_binds_slot_and_participants(
    slot_hash_a: [u8; 32],
    root_a: [u8; 32],
    slot_hash_b: [u8; 32],
    root_b: [u8; 32],
)
    requires
        derived_randomness(slot_hash_a@, root_a@) == derived_randomness(slot_hash_b@, root_b@),
    ensures
        (slot_hash_a@ == slot_hash_b@ && root_a@ == root_b@) || keccak::is_collision(
            slot_hash_a@ + root_a@,
            slot_hash_b@ + root_b@,
        ),
{
    let a = slot_hash_a@ + root_a@;
    let b = slot_hash_b@ + root_b@;
    assert(keccak::keccak256(a) =~= keccak::keccak256(b)) by {
        assert forall|i: int| 0 <= i < 32 implies keccak::keccak256(a)[i] == keccak::keccak256(
            b,
        )[i] by {
            assert(keccak::keccak256(a)@[i] == keccak::keccak256(b)@[i]);
        }
    }
    if a == b {
        assert(slot_hash_a@ =~= a.take(32));
        assert(slot_hash_b@ =~= b.take(32));
        assert(root_a@ =~= a.skip(32));
        assert(root_b@ =~= b.skip(32));
    }
}

/// The randomness is the hash of 64 bytes: those of the slot hash first, those of the
/// participant root behind them.
pub proof fn randomness_hashes_the_slot_before_the_participants(
    slot_hash: [u8; 32],
    participant_root: [u8; 32],
    joined: Seq<u8>,
)
    requires
        joined.len() == 64,
        forall|k: int| 0 <= k < 32 ==> #[trigger] joined[k] == slot_hash[k],
        forall|k: int| 32 <= k < 64 ==> #[trigger] joined[k] == participant_root[k - 32],
    ensures
        derived_randomness(slot_hash@, participant_root@) == keccak::keccak256(joined)@,
{
    assert(joined =~= slot_hash@ + participant_root@);
}

} // verus!
