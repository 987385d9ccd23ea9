//! Unit tests of the utilities.

use anchor_lang::solana_program::hash;
use anchor_lang::solana_program::sysvar::slot_hashes::SlotHashes;
use provable_fairness_system::{
    calculate_platform_fee, compute_merkle_root, derive_randomness, display_count, find_slot_hash,
    select_winner_indices, verify_winner_indices, MAX_WINNERS,
};

#[test]
fn shared_test_display_count() {
    assert_eq!(display_count(0), 0);
    assert_eq!(display_count(1), 1);
    assert_eq!(display_count(5), 5);
    assert_eq!(display_count(6), 6);
    assert_eq!(display_count(10), 6);
    assert_eq!(display_count(100), 6);
}

#[test]
fn shared_test_find_slot_hash() {
    let mut slot_hashes = SlotHashes::default();
    let target_slot = 100;
    let target_hash = hash::Hash::new_unique();

    slot_hashes.add(target_slot, target_hash);

    let data = bincode::serialize(&slot_hashes).unwrap();
    let found = find_slot_hash(&data, target_slot);

    assert!(found.is_some());
    assert_eq!(found.unwrap(), target_hash.to_bytes());
}

#[test]
fn shared_test_find_slot_hash_expired() {
    let slot_hashes = SlotHashes::default();
    let data = bincode::serialize(&slot_hashes).unwrap();
    let found = find_slot_hash(&data, 100);

    assert!(found.is_none());
}

#[test]
fn shared_test_derive_randomness() {
    let slot_hash = [1u8; 32];
    let participant_root = [2u8; 32];

    let randomness = derive_randomness(&slot_hash, &participant_root);
    let randomness2 = derive_randomness(&slot_hash, &participant_root);

    // Deterministic
    assert_eq!(randomness, randomness2);

    // Different inputs = different outputs
    let different_slot = [3u8; 32];
    let randomness3 = derive_randomness(&different_slot, &participant_root);
    assert_ne!(randomness, randomness3);

    let different_root = [4u8; 32];
    let randomness4 = derive_randomness(&slot_hash, &different_root);
    assert_ne!(randomness, randomness4);
}

#[test]
fn shared_test_select_winner_indices() {
    let randomness = [5u8; 32];
    let participant_count = 100;
    let winner_count = 10;

    let winners = select_winner_indices(&randomness, participant_count, winner_count);

    // Correct count
    assert_eq!(winners.len(), winner_count as usize);

    // All unique
    let mut sorted = winners.clone();
    sorted.sort();
    sorted.dedup();
    assert_eq!(sorted.len(), winners.len());

    // All in range
    for &idx in &winners {
        assert!(idx < participant_count);
    }

    // Deterministic
    let winners2 = select_winner_indices(&randomness, participant_count, winner_count);
    assert_eq!(winners, winners2);

    // Different randomness = different results
    let different_randomness = [6u8; 32];
    let winners3 =
        select_winner_indices(&different_randomness, participant_count, winner_count);
    assert_ne!(winners, winners3);
}

#[test]
fn shared_test_select_winner_indices_edge_cases() {
    let randomness = [7u8; 32];

    // Winner count > participant count
    let winners = select_winner_indices(&randomness, 5, 10);
    assert_eq!(winners.len(), 5);

    // Winner count = 0
    let winners = select_winner_indices(&randomness, 5, 0);
    assert_eq!(winners.len(), 0);

    // Winner count > MAX_WINNERS
    let winners = select_winner_indices(&randomness, 100_000, 20_000);
    assert_eq!(winners.len(), MAX_WINNERS as usize);
}

#[test]
fn shared_test_calculate_platform_fee() {
    assert_eq!(calculate_platform_fee(1), 50_000);
    assert_eq!(calculate_platform_fee(100), 500_000);
    assert_eq!(calculate_platform_fee(100_000), 500_000_000);
    assert_eq!(calculate_platform_fee(200_000), 500_000_000);
}

#[test]
fn test_verify_winner_indices() {
    let indices = vec![0, 2, 5];

    assert!(verify_winner_indices(&indices, 10, 3));
    assert!(!verify_winner_indices(&indices, 5, 3)); // Index 5 out of range
    assert!(!verify_winner_indices(&indices, 10, 2)); // Wrong count

    let duplicate = vec![0, 0, 2];
    assert!(!verify_winner_indices(&duplicate, 10, 3));
}

#[test]
fn test_compute_merkle_root() {
    let leaf1 = [1u8; 32];
    let leaf2 = [2u8; 32];
    let leaf3 = [3u8; 32];

    let leaves = vec![leaf1, leaf2, leaf3];
    let root = compute_merkle_root(&leaves);

    // Deterministic
    let root2 = compute_merkle_root(&leaves);
    assert_eq!(root, root2);

    // Different leaves = different root
    let different_leaves = vec![leaf1, leaf2, leaf3, [4u8; 32]];
    let root3 = compute_merkle_root(&different_leaves);
    assert_ne!(root, root3);

    // Empty leaves returns zero
    let root4 = compute_merkle_root(&[]);
    assert_eq!(root4, [0u8; 32]);
}
