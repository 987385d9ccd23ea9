//! Exact values and edge cases of selection, randomness, Merkle roots and slot hashes.

use provable_fairness_system::bytes::{copy_range, join_hashes, read_hash, read_u16, read_u32, read_u64, same_hash};
use provable_fairness_system::merkle::node_preimages;
use provable_fairness_system::{
    accepted_offset, calculate_platform_fee, compute_merkle_root, derive_randomness, display_count,
    find_slot_hash, select_winner_indices, select_winner_indices_within, selection_settles_within,
    verify_winner_indices, virtual_get, winners_from_offsets,
};

#[test]
fn little_endian_reads() {
    let data = [1u8, 2, 3, 4, 5, 6, 7, 8, 255];
    assert_eq!(read_u16(&data, 0), 0x0201);
    assert_eq!(read_u16(&data, 7), 0xff08);
    assert_eq!(read_u32(&data, 1), 0x0504_0302);
    assert_eq!(read_u64(&data, 0), 0x0807_0605_0403_0201);
    assert_eq!(read_u64(&data, 1), 0xff08_0706_0504_0302);
    assert_eq!(read_u64(&[255u8; 8], 0), u64::MAX);
    assert_eq!(copy_range(&data, 2, 5), vec![3, 4, 5]);
}

#[test]
fn hashes_are_read_joined_and_told_apart() {
    let mut data = vec![0u8; 40];
    for k in 0..40 {
        data[k] = k as u8;
    }
    let hash = read_hash(&data, 5);
    assert_eq!(hash[0], 5);
    assert_eq!(hash[31], 36);
    let joined = join_hashes(&hash, &[9u8; 32]);
    assert_eq!(&joined[..32], &hash[..]);
    assert_eq!(&joined[32..], &[9u8; 32][..]);
    assert!(same_hash(&hash, &hash));
    let mut other = hash;
    other[31] ^= 1;
    assert!(!same_hash(&hash, &other));
}

#[test]
fn randomness_is_keccak_of_slot_hash_and_root() {
    assert_eq!(
        derive_randomness(&[1u8; 32], &[2u8; 32]),
        [
            52, 109, 140, 150, 162, 69, 66, 19, 252, 192, 218, 255, 60, 150, 173, 3, 152, 20, 129,
            129, 185, 250, 100, 136, 247, 174, 44, 10, 245, 178, 10, 160
        ]
    );
    assert_ne!(
        derive_randomness(&[1u8; 32], &[2u8; 32]),
        derive_randomness(&[2u8; 32], &[1u8; 32])
    );
}

#[test]
fn winners_are_exact() {
    assert_eq!(
        select_winner_indices(&[5u8; 32], 100, 10),
        vec![16, 19, 13, 7, 86, 61, 17, 52, 71, 23]
    );
    assert_eq!(
        select_winner_indices(&[15u8; 32], 10, 10),
        vec![0, 5, 1, 6, 4, 2, 3, 9, 7, 8]
    );
    assert_eq!(select_winner_indices(&[5u8; 32], 0, 10), Vec::<u64>::new());
}

#[test]
fn selection_passes_verification() {
    for seed in 0..20u8 {
        let winners = select_winner_indices(&[seed; 32], 30, 12);
        assert!(verify_winner_indices(&winners, 30, 12));
    }
    assert!(verify_winner_indices(&[], 0, 0));
    assert!(!verify_winner_indices(&[0], 0, 1));
}

#[test]
fn fewer_winners_are_the_first_of_more() {
    let all = select_winner_indices(&[21u8; 32], 500, 40);
    for few in 0..40 {
        assert_eq!(select_winner_indices(&[21u8; 32], 500, few), all[..few as usize].to_vec());
    }
}

#[test]
fn everyone_wins_once_where_there_are_enough_prizes() {
    let mut winners = select_winner_indices(&[22u8; 32], 25, 1_000);
    winners.sort();
    assert_eq!(winners, (0..25).collect::<Vec<u64>>());
}

#[test]
fn selection_with_a_limit() {
    let unlimited = select_winner_indices(&[5u8; 32], 100, 10);
    assert_eq!(select_winner_indices_within(&[5u8; 32], 100, 10, u64::MAX), Some(unlimited));
    assert_eq!(select_winner_indices_within(&[5u8; 32], 100, 10, 0), None);
    assert_eq!(select_winner_indices_within(&[5u8; 32], 100, 0, 0), Some(vec![]));
    assert!(selection_settles_within(&[5u8; 32], 100, 10, 1));
    assert!(!selection_settles_within(&[5u8; 32], 100, 10, 0));
}

#[test]
fn words_are_rejected_above_the_largest_multiple() {
    assert_eq!(accepted_offset(10, 3), Some(1));
    assert_eq!(accepted_offset(0, 1), Some(0));
    // 2^64 - 1 is a multiple of 3, of 5 and of 1.
    assert_eq!(accepted_offset(u64::MAX, 3), None);
    assert_eq!(accepted_offset(u64::MAX - 1, 3), Some(2));
    assert_eq!(accepted_offset(u64::MAX, 1), None);
    // 2^64 - 1 is 1 above a multiple of 2.
    assert_eq!(accepted_offset(u64::MAX - 1, 2), None);
    assert_eq!(accepted_offset(u64::MAX - 2, 2), Some(1));
    // Half of the words are taken, each for its own offset.
    assert_eq!(accepted_offset(1u64 << 63, (1u64 << 63) + 1), Some(1u64 << 63));
    assert_eq!(accepted_offset((1u64 << 63) + 1, (1u64 << 63) + 1), None);
}

#[test]
fn rejection_goes_on_with_the_next_hash() {
    // With this many participants almost half of all words are rejected.
    let participants = (1u64 << 63) + 1;
    let mut rejected = false;
    for seed in 0..20u8 {
        let winners = select_winner_indices(&[seed; 32], participants, 3);
        assert!(verify_winner_indices(&winners, participants, 3));
        if !selection_settles_within(&[seed; 32], participants, 3, 1) {
            rejected = true;
            assert_eq!(select_winner_indices_within(&[seed; 32], participants, 3, 1), None);
        }
        assert_eq!(
            select_winner_indices_within(&[seed; 32], participants, 3, 1_000),
            Some(winners)
        );
    }
    assert!(rejected);
}

#[test]
fn the_shuffle_follows_its_offsets() {
    assert_eq!(winners_from_offsets(5, &[]), Vec::<u64>::new());
    assert_eq!(winners_from_offsets(5, &[0, 0, 0, 0, 0]), vec![0, 1, 2, 3, 4]);
    assert_eq!(winners_from_offsets(5, &[4, 3, 0]), vec![4, 0, 2]);
    assert_eq!(winners_from_offsets(3, &[2, 0, 0]), vec![2, 1, 0]);
    assert_eq!(winners_from_offsets(4, &[1, 1, 1, 0]), vec![1, 2, 3, 0]);
}

#[test]
fn offsets_and_winners_correspond_one_to_one() {
    let mut seen = std::collections::HashSet::new();
    for a in 0..4 {
        for b in 0..3 {
            for c in 0..2 {
                let winners = winners_from_offsets(4, &[a, b, c]);
                assert!(verify_winner_indices(&winners, 4, 3));
                assert!(seen.insert(winners));
            }
        }
    }
    // As many as there are lists of three distinct participants out of four.
    assert_eq!(seen.len(), 24);
}

#[test]
fn the_last_override_of_a_position_counts() {
    assert_eq!(virtual_get(&[], 7), 7);
    assert_eq!(virtual_get(&[(7, 1), (3, 9)], 7), 1);
    assert_eq!(virtual_get(&[(7, 1), (7, 2)], 7), 2);
    assert_eq!(virtual_get(&[(3, 9)], 9), 9);
}

#[test]
fn merkle_roots_are_exact() {
    let a = [1u8; 32];
    let b = [2u8; 32];
    let c = [3u8; 32];
    assert_eq!(compute_merkle_root(&[a]), a);
    // The root of two leaves hashes the pair, as the randomness does.
    assert_eq!(compute_merkle_root(&[a, b]), derive_randomness(&a, &b));
    assert_eq!(
        compute_merkle_root(&[a, b, c]),
        [
            241, 123, 67, 207, 237, 136, 36, 59, 223, 109, 195, 92, 30, 145, 126, 231, 70, 1, 23,
            52, 107, 219, 216, 124, 25, 77, 179, 152, 192, 11, 105, 115
        ]
    );
    assert_eq!(
        compute_merkle_root(&[a, b, c]),
        derive_randomness(&derive_randomness(&a, &b), &derive_randomness(&c, &c))
    );
}

#[test]
fn merkle_roots_tell_lists_of_one_length_apart() {
    let leaves = [[1u8; 32], [2u8; 32], [3u8; 32], [4u8; 32], [5u8; 32]];
    let root = compute_merkle_root(&leaves);
    for k in 0..5 {
        let mut other = leaves;
        other[k][0] ^= 1;
        assert_ne!(compute_merkle_root(&other), root);
    }
    let mut swapped = leaves;
    swapped[0] = leaves[1];
    swapped[1] = leaves[0];
    assert_ne!(compute_merkle_root(&swapped), root);
}

#[test]
fn a_lone_last_leaf_counts_twice() {
    let odd = [[1u8; 32], [2u8; 32], [3u8; 32]];
    let even = [[1u8; 32], [2u8; 32], [3u8; 32], [3u8; 32]];
    assert_eq!(compute_merkle_root(&odd), compute_merkle_root(&even));
}

#[test]
fn node_preimages_pair_the_level() {
    let level = [[1u8; 32], [2u8; 32], [3u8; 32]];
    let pairs = node_preimages(&level);
    assert_eq!(pairs.len(), 2);
    assert_eq!(pairs[0], join_hashes(&level[0], &level[1]));
    assert_eq!(pairs[1], join_hashes(&level[2], &level[2]));
    assert_eq!(node_preimages(&[]).len(), 0);
}

fn slot_hashes_data(count: u64, entries: &[(u64, [u8; 32])]) -> Vec<u8> {
    let mut data = count.to_le_bytes().to_vec();
    for (slot, hash) in entries {
        data.extend_from_slice(&slot.to_le_bytes());
        data.extend_from_slice(hash);
    }
    data
}

#[test]
fn slot_hashes_are_looked_up() {
    let entries = [(300, [3u8; 32]), (200, [2u8; 32]), (200, [9u8; 32]), (100, [1u8; 32])];
    let data = slot_hashes_data(4, &entries);
    assert_eq!(find_slot_hash(&data, 300), Some([3u8; 32]));
    // The first entry of a slot counts.
    assert_eq!(find_slot_hash(&data, 200), Some([2u8; 32]));
    assert_eq!(find_slot_hash(&data, 100), Some([1u8; 32]));
    assert_eq!(find_slot_hash(&data, 150), None);
}

#[test]
fn slot_hashes_end_with_the_count_or_the_data() {
    let entries = [(300, [3u8; 32]), (200, [2u8; 32])];
    // Entries behind the count are not looked at.
    let data = slot_hashes_data(1, &entries);
    assert_eq!(find_slot_hash(&data, 300), Some([3u8; 32]));
    assert_eq!(find_slot_hash(&data, 200), None);
    // A count beyond the data does no harm.
    let data = slot_hashes_data(u64::MAX, &entries);
    assert_eq!(find_slot_hash(&data, 200), Some([2u8; 32]));
    assert_eq!(find_slot_hash(&data, 1), None);
    // An entry that is cut off is not there.
    let data = slot_hashes_data(2, &entries);
    assert_eq!(find_slot_hash(&data[..data.len() - 1], 200), None);
    assert_eq!(find_slot_hash(&data[..7], 300), None);
    assert_eq!(find_slot_hash(&[], 0), None);
}

#[test]
fn fees_are_exact() {
    assert_eq!(calculate_platform_fee(0), 50_000);
    assert_eq!(calculate_platform_fee(10), 50_000);
    assert_eq!(calculate_platform_fee(11), 55_000);
    assert_eq!(calculate_platform_fee(99_999), 499_995_000);
    assert_eq!(calculate_platform_fee(100_001), 500_000_000);
    assert_eq!(calculate_platform_fee(u64::MAX), 500_000_000);
}

#[test]
fn display_counts_are_capped() {
    assert_eq!(display_count(7), 6);
    assert_eq!(display_count(u64::MAX), 6);
}
