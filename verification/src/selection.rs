//! Winner selection: random offsets by rejection sampling over a chain of hashes, and a
//! Fisher-Yates shuffle driven by them.

use crate::bytes;
use crate::constants::MAX_WINNERS;
use crate::keccak;
use std::collections::HashSet;
use vstd::prelude::*;

verus! {

// ---------------------------------------------------------------------------------
// Random offsets
// ---------------------------------------------------------------------------------
/// The largest multiple of `remaining` that a `u64` can hold. A random word is taken
/// only below it, so that every offset below `remaining` is equally likely.
pub open spec fn max_valid(remaining: int) -> int {
    u64::MAX - (u64::MAX as int) % remaining
}

/// `seed` hashed `n` times.
pub open spec fn hash_chain(seed: Seq<u8>, n: nat) -> Seq<u8>
    decreases n,
{
    if n == 0 {
        seed
    } else {
        keccak::keccak256(hash_chain(seed, (n - 1) as nat))@
    }
}

/// Whether the first word of `seed` is taken as a random number below `remaining`.
pub open spec fn accepts(seed: Seq<u8>, remaining: int) -> bool {
    bytes::le_u64(seed, 0) < max_valid(remaining)
}

/// The `n`-th hash of `seed` is the first one that is taken.
pub open spec fn settles_at(seed: Seq<u8>, remaining: int, n: nat) -> bool {
    &&& n >= 1
    &&& accepts(hash_chain(seed, n), remaining)
    &&& forall|k: nat| 1 <= k < n ==> !accepts(#[trigger] hash_chain(seed, k), remaining)
}

/// Some hash in the chain of `seed` is taken.
pub open spec fn settles(seed: Seq<u8>, remaining: int) -> bool {
    exists|n: nat| settles_at(seed, remaining, n)
}

/// One of the first `limit` hashes in the chain of `seed` is taken.
pub open spec fn settles_within(seed: Seq<u8>, remaining: int, limit: nat) -> bool {
    exists|n: nat| n <= limit && settles_at(seed, remaining, n)
}

/// The number of hashes up to the first one that is taken.
pub open spec fn attempts(seed: Seq<u8>, remaining: int) -> nat {
    choose|n: nat| settles_at(seed, remaining, n)
}

/// The first hash in the chain of `seed` that is taken.
pub open spec fn next_seed(seed: Seq<u8>, remaining: int) -> Seq<u8> {
    hash_chain(seed, attempts(seed, remaining))
}

/// The seed after `draws` draws out of `participants`; draw `i` is among the
/// `participants - i` that are left.
pub open spec fn seed_after(randomness: Seq<u8>, participants: int, draws: nat) -> Seq<u8>
    decreases draws,
{
    if draws == 0 {
        randomness
    } else {
        next_seed(
            seed_after(randomness, participants, (draws - 1) as nat),
            participants - (draws - 1),
        )
    }
}

/// The offset that draw `i` gives.
pub open spec fn draw_offset(randomness: Seq<u8>, participants: int, i: nat) -> u64 {
    (bytes::le_u64(seed_after(randomness, participants, i + 1), 0) % (participants - i)) as u64
}

/// The offsets of the first `draws` draws.
pub open spec fn draw_offsets(randomness: Seq<u8>, participants: int, draws: nat) -> Seq<u64> {
    Seq::new(draws, |i: int| draw_offset(randomness, participants, i as nat))
}

/// Draw `i` comes to an end: some hash in its chain is taken.
pub open spec fn draw_settles(randomness: Seq<u8>, participants: int, i: nat) -> bool {
    settles(seed_after(randomness, participants, i), participants - i)
}

/// Each of the first `draws` draws comes to an end.
pub open spec fn draws_settle(randomness: Seq<u8>, participants: int, draws: nat) -> bool {
    forall|i: nat| i < draws ==> #[trigger] draw_settles(randomness, participants, i)
}

/// Draw `i` comes to an end after at most `limit` hashes.
pub open spec fn draw_settles_within(
    randomness: Seq<u8>,
    participants: int,
    i: nat,
    limit: nat,
) -> bool {
    settles_within(seed_after(randomness, participants, i), participants - i, limit)
}

/// Each of the first `draws` draws comes to an end after at most `limit` hashes.
pub open spec fn draws_settle_within(
    randomness: Seq<u8>,
    participants: int,
    draws: nat,
    limit: nat,
) -> bool {
    forall|i: nat|
        i < draws ==> #[trigger] draw_settles_within(randomness, participants, i, limit)
}

/// The first hash that is taken is the only first one.
pub proof fn lemma_attempts(seed: Seq<u8>, remaining: int, n: nat)
    requires
        settles_at(seed, remaining, n),
    ensures
        attempts(seed, remaining) == n,
{
    let m = attempts(seed, remaining);
    assert(settles_at(seed, remaining, m));
    if m < n {
        assert(!accepts(hash_chain(seed, m), remaining));
    } else if n < m {
        assert(!accepts(hash_chain(seed, n), remaining));
    }
}

/// Turns a random word into an offset below `remaining`, or rejects it: only words below
/// the largest multiple of `remaining` are taken, which avoids modulo bias.
pub fn accepted_offset(word: u64, remaining: u64) -> (offset: Option<u64>)
    requires
        remaining > 0,
    ensures
        offset == (if word < max_valid(remaining as int) {
            Some((word as int % remaining as int) as u64)
        } else {
            None
        }),
{
    let max_valid: u64 = u64::MAX - (u64::MAX % remaining);
    if word < max_valid {
        Some(word % remaining)
    } else {
        None
    }
}

/// One draw: hashes `seed` until a word is taken, and returns that hash with the offset.
fn next_draw(seed: &[u8; 32], remaining: u64) -> (draw: ([u8; 32], u64))
    requires
        remaining > 0,
        settles(seed@, remaining as int),
    ensures
        draw.0@ == next_seed(seed@, remaining as int),
        draw.1 == bytes::le_u64(draw.0@, 0) % remaining as int,
{
    let ghost total = attempts(seed@, remaining as int);
    let ghost mut tries: nat = 0;
    let mut current: [u8; 32] = *seed;
    loop
        invariant
            remaining > 0,
            settles_at(seed@, remaining as int, total),
            total == attempts(seed@, remaining as int),
            tries < total,
            current@ == hash_chain(seed@, tries),
        decreases total - tries,
    {
        current = keccak::keccak_hash(&current);
        proof {
            tries = tries + 1;
            assert(current@ == hash_chain(seed@, tries));
            assert(tries < total ==> !accepts(hash_chain(seed@, tries), remaining as int));
        }
        let word: u64 = bytes::read_u64(&current, 0);
        match accepted_offset(word, remaining) {
            Some(offset) => {
                return (current, offset);
            },
            None => {},
        }
    }
}

/// One draw that gives up after `limit` hashes: the hash that is taken, if one of the
/// first `limit` is.
fn next_seed_within(seed: &[u8; 32], remaining: u64, limit: u64) -> (taken: Option<[u8; 32]>)
    requires
        remaining > 0,
    ensures
        taken is Some <==> settles_within(seed@, remaining as int, limit as nat),
        taken matches Some(hash) ==> hash@ == next_seed(seed@, remaining as int),
{
    let mut tries: u64 = 0;
    let mut current: [u8; 32] = *seed;
    while tries < limit
        invariant
            remaining > 0,
            tries <= limit,
            current@ == hash_chain(seed@, tries as nat),
            forall|k: nat|
                1 <= k <= tries ==> !accepts(#[trigger] hash_chain(seed@, k), remaining as int),
        decreases limit - tries,
    {
        current = keccak::keccak_hash(&current);
        tries = tries + 1;
        assert(current@ == hash_chain(seed@, tries as nat));
        let word: u64 = bytes::read_u64(&current, 0);
        match accepted_offset(word, remaining) {
            Some(_) => {
                proof {
                    assert(settles_at(seed@, remaining as int, tries as nat));
                    lemma_attempts(seed@, remaining as int, tries as nat);
                }
                return Some(current);
            },
            None => {},
        }
    }
    None
}

// ---------------------------------------------------------------------------------
// The shuffle
// ---------------------------------------------------------------------------------
/// The participants in their original order.
pub open spec fn identity(participants: nat) -> Seq<u64> {
    Seq::new(participants, |k: int| k as u64)
}

/// `order` with the elements at `i` and `j` exchanged.
pub open spec fn swapped(order: Seq<u64>, i: int, j: int) -> Seq<u64> {
    order.update(i, order[j]).update(j, order[i])
}

/// Fisher-Yates: starting from the original order, step `i` exchanges the element at
/// position `i` with the one at position `i + offsets[i]`.
pub open spec fn shuffled(participants: nat, offsets: Seq<u64>) -> Seq<u64>
    decreases offsets.len(),
{
    if offsets.len() == 0 {
        identity(participants)
    } else {
        let i = offsets.len() - 1;
        swapped(shuffled(participants, offsets.drop_last()), i, i + offsets.last())
    }
}

/// Offset `i` leads to one of the positions from `i` on.
pub open spec fn offsets_in_range(participants: nat, offsets: Seq<u64>) -> bool {
    &&& offsets.len() <= participants
    &&& forall|i: int| 0 <= i < offsets.len() ==> #[trigger] offsets[i] < participants - i
}

/// Every index is below `participants` and none occurs twice.
pub open spec fn distinct_participants(indices: Seq<u64>, participants: int) -> bool {
    &&& forall|i: int| 0 <= i < indices.len() ==> #[trigger] indices[i] < participants
    &&& indices.no_duplicates()
}

/// The number of winners that are selected: at most one per participant, and at most
/// `MAX_WINNERS`.
pub open spec fn selection_size(participants: int, winners: int) -> int {
    let capped = if winners < participants {
        winners
    } else {
        participants
    };
    if capped < MAX_WINNERS {
        capped
    } else {
        MAX_WINNERS as int
    }
}

/// The winner indices: the first ones of the shuffled order.
pub open spec fn selected(randomness: Seq<u8>, participants: int, winners: int) -> Seq<u64> {
    let size = selection_size(participants, winners);
    shuffled(
        participants as nat,
        draw_offsets(randomness, participants, size as nat),
    ).take(size)
}

/// The value at position `i` of the original order after the writes in `overrides`, the
/// latest of which is the last.
pub open spec fn virtual_value(overrides: Seq<(u64, u64)>, i: u64) -> u64
    decreases overrides.len(),
{
    if overrides.len() == 0 {
        i
    } else if overrides.last().0 == i {
        overrides.last().1
    } else {
        virtual_value(overrides.drop_last(), i)
    }
}

/// The value at position `i`: that of the last write to it, or `i` itself where there is
/// none.
pub fn virtual_get(overrides: &[(u64, u64)], i: u64) -> (value: u64)
    ensures
        value == virtual_value(overrides@, i),
{
    let mut k: usize = overrides.len();
    assert(overrides@.take(k as int) =~= overrides@);
    while k > 0
        invariant
            k <= overrides.len(),
            virtual_value(overrides@, i) == virtual_value(overrides@.take(k as int), i),
        decreases k,
    {
        k = k - 1;
        let (position, value) = overrides[k];
        assert(overrides@.take(k + 1).drop_last() =~= overrides@.take(k as int));
        assert(overrides@.take(k + 1).last() == overrides@[k as int]);
        if position == i {
            return value;
        }
    }
    i
}

/// The order after some steps is a permutation of the participants.
pub proof fn lemma_shuffled_is_permutation(participants: nat, offsets: Seq<u64>)
    requires
        participants <= u64::MAX,
        offsets_in_range(participants, offsets),
    ensures
        shuffled(participants, offsets).len() == participants,
        distinct_participants(shuffled(participants, offsets), participants as int),
        forall|v: u64|
            v < participants ==> #[trigger] shuffled(participants, offsets).contains(v),
    decreases offsets.len(),
{
    let order = shuffled(participants, offsets);
    if offsets.len() == 0 {
        assert forall|v: u64| v < participants implies #[trigger] order.contains(v) by {
            assert(order[v as int] == v);
        }
    } else {
        let before = shuffled(participants, offsets.drop_last());
        let i = offsets.len() - 1;
        let j = i + offsets.last();
        assert(offsets_in_range(participants, offsets.drop_last())) by {
            assert forall|k: int| 0 <= k < offsets.drop_last().len() implies #[trigger]
            offsets.drop_last()[k] < participants - k by {
                assert(offsets[k] < participants - k);
            }
        }
        lemma_shuffled_is_permutation(participants, offsets.drop_last());
        assert(offsets[i] < participants - i);
        assert forall|v: u64| v < participants implies #[trigger] order.contains(v) by {
            assert(before.contains(v));
            let k = choose|k: int| 0 <= k < before.len() && before[k] == v;
            let l = if k == i {
                j
            } else if k == j {
                i
            } else {
                k
            };
            assert(order[l] == v);
        }
    }
}

/// The first winners of a Fisher-Yates shuffle with the given offsets. The order is not
/// written out: only the positions that were written are kept.
pub fn winners_from_offsets(participant_count: u64, offsets: &[u64]) -> (winners: Vec<u64>)
    requires
        offsets_in_range(participant_count as nat, offsets@),
    ensures
        winners@ == shuffled(participant_count as nat, offsets@).take(offsets@.len() as int),
        distinct_participants(winners@, participant_count as int),
{
    let ghost participants = participant_count as nat;
    let mut overrides: Vec<(u64, u64)> = Vec::with_capacity(offsets.len());
    let mut winners: Vec<u64> = Vec::with_capacity(offsets.len());
    let mut i: usize = 0;
    assert(offsets@.take(0) =~= Seq::<u64>::empty());
    while i < offsets.len()
        invariant
            participants == participant_count,
            i <= offsets.len(),
            offsets_in_range(participants, offsets@),
            shuffled(participants, offsets@.take(i as int)).len() == participants,
            winners@ == shuffled(participants, offsets@.take(i as int)).take(i as int),
            forall|k: u64|
                i <= k < participants ==> #[trigger] virtual_value(overrides@, k) == shuffled(
                    participants,
                    offsets@.take(i as int),
                )[k as int],
        decreases offsets.len() - i,
    {
        assert(offsets@[i as int] < participants - i);
        let j: u64 = i as u64 + offsets[i];
        let ghost before = shuffled(participants, offsets@.take(i as int));
        let ghost after = shuffled(participants, offsets@.take(i + 1));
        let ghost old_overrides = overrides@;
        assert(offsets@.take(i + 1).drop_last() =~= offsets@.take(i as int));
        assert(after == swapped(before, i as int, j as int));
        let picked: u64 = virtual_get(overrides.as_slice(), j);
        winners.push(picked);
        let value_at_i: u64 = virtual_get(overrides.as_slice(), i as u64);
        overrides.push((j, value_at_i));
        proof {
            assert(overrides@.drop_last() =~= old_overrides);
            assert(winners@ =~= after.take(i + 1));
            assert forall|k: u64| i + 1 <= k < participants implies #[trigger] virtual_value(
                overrides@,
                k,
            ) == after[k as int] by {
                assert(virtual_value(old_overrides, k) == before[k as int]);
                assert(overrides@.last() == (j, value_at_i));
            }
        }
        i = i + 1;
    }
    proof {
        assert(offsets@.take(i as int) =~= offsets@);
        lemma_shuffled_is_permutation(participants, offsets@);
        let order = shuffled(participants, offsets@);
        assert forall|k: int| 0 <= k < winners@.len() implies #[trigger] winners@[k]
            < participant_count by {
            assert(winners@[k] == order[k]);
        }
    }
    winners
}

// ---------------------------------------------------------------------------------
// Selecting and verifying winners
// ---------------------------------------------------------------------------------
/// Every offset that is drawn leads to a position that is left.
pub proof fn lemma_draw_offsets_in_range(randomness: Seq<u8>, participants: int, draws: nat)
    requires
        draws <= participants <= u64::MAX,
    ensures
        offsets_in_range(participants as nat, draw_offsets(randomness, participants, draws)),
{
    let offsets = draw_offsets(randomness, participants, draws);
    assert forall|i: int| 0 <= i < offsets.len() implies #[trigger] offsets[i] < participants
        - i by {
        let word = bytes::le_u64(seed_after(randomness, participants, (i + 1) as nat), 0);
        assert(0 <= word % (participants - i) < participants - i) by (nonlinear_arith)
            requires
                participants - i > 0,
        ;
    }
}

/// The number of winners to select.
fn selection_count(participant_count: u64, winner_count: u64) -> (size: u64)
    ensures
        size == selection_size(participant_count as int, winner_count as int),
{
    let capped: u64 = if winner_count < participant_count {
        winner_count
    } else {
        participant_count
    };
    if capped < MAX_WINNERS {
        capped
    } else {
        MAX_WINNERS
    }
}

/// Draws `draws` offsets one after the other.
fn draw_all(randomness: &[u8; 32], participant_count: u64, draws: u64) -> (offsets: Vec<u64>)
    requires
        draws <= participant_count,
        draws_settle(randomness@, participant_count as int, draws as nat),
    ensures
        offsets@ == draw_offsets(randomness@, participant_count as int, draws as nat),
{
    let mut offsets: Vec<u64> = Vec::new();
    let mut seed: [u8; 32] = *randomness;
    let mut i: u64 = 0;
    while i < draws
        invariant
            i <= draws <= participant_count,
            draws_settle(randomness@, participant_count as int, draws as nat),
            seed@ == seed_after(randomness@, participant_count as int, i as nat),
            offsets@ == draw_offsets(randomness@, participant_count as int, i as nat),
        decreases draws - i,
    {
        let remaining: u64 = participant_count - i;
        assert(draw_settles(randomness@, participant_count as int, i as nat));
        let (taken, offset) = next_draw(&seed, remaining);
        seed = taken;
        offsets.push(offset);
        assert(seed@ == seed_after(randomness@, participant_count as int, i as nat + 1));
        assert(offset == draw_offset(randomness@, participant_count as int, i as nat));
        i = i + 1;
        assert(offsets@ =~= draw_offsets(randomness@, participant_count as int, i as nat));
    }
    offsets
}

/// Selects winner indices by a Fisher-Yates shuffle with deterministic random numbers:
/// the first `winner_count` elements of the shuffled participants, at most one per
/// participant and at most `MAX_WINNERS`.
///
/// Every draw goes through the hashes of the seed until one is taken; the selection is
/// defined where each of them ends. [`select_winner_indices_within`] tests that.
pub fn select_winner_indices(
    randomness: &[u8; 32],
    participant_count: u64,
    winner_count: u64,
) -> (winners: Vec<u64>)
    requires
        draws_settle(
            randomness@,
            participant_count as int,
            selection_size(participant_count as int, winner_count as int) as nat,
        ),
    ensures
        winners@ == selected(randomness@, participant_count as int, winner_count as int),
        winners@.len() == selection_size(participant_count as int, winner_count as int),
        distinct_participants(winners@, participant_count as int),
{
    let size: u64 = selection_count(participant_count, winner_count);
    let offsets: Vec<u64> = draw_all(randomness, participant_count, size);
    proof {
        lemma_draw_offsets_in_range(randomness@, participant_count as int, size as nat);
        lemma_shuffled_is_permutation(participant_count as nat, offsets@);
    }
    winners_from_offsets(participant_count, offsets.as_slice())
}

/// Whether every draw of a selection takes one of the first `max_attempts` hashes.
pub fn selection_settles_within(
    randomness: &[u8; 32],
    participant_count: u64,
    winner_count: u64,
    max_attempts: u64,
) -> (settles: bool)
    ensures
        settles == draws_settle_within(
            randomness@,
            participant_count as int,
            selection_size(participant_count as int, winner_count as int) as nat,
            max_attempts as nat,
        ),
{
    let size: u64 = selection_count(participant_count, winner_count);
    let mut seed: [u8; 32] = *randomness;
    let mut i: u64 = 0;
    while i < size
        invariant
            i <= size <= participant_count,
            size == selection_size(participant_count as int, winner_count as int),
            seed@ == seed_after(randomness@, participant_count as int, i as nat),
            draws_settle_within(
                randomness@,
                participant_count as int,
                i as nat,
                max_attempts as nat,
            ),
        decreases size - i,
    {
        let remaining: u64 = participant_count - i;
        match next_seed_within(&seed, remaining, max_attempts) {
            Some(taken) => {
                seed = taken;
                assert(seed@ == seed_after(randomness@, participant_count as int, i as nat + 1));
                assert(draw_settles_within(
                    randomness@,
                    participant_count as int,
                    i as nat,
                    max_attempts as nat,
                ));
            },
            None => {
                assert(!draw_settles_within(
                    randomness@,
                    participant_count as int,
                    i as nat,
                    max_attempts as nat,
                ));
                return false;
            },
        }
        i = i + 1;
    }
    true
}

/// Draws that settle within a limit settle.
pub proof fn lemma_settled_within_settles(
    randomness: Seq<u8>,
    participants: int,
    draws: nat,
    limit: nat,
)
    requires
        draws_settle_within(randomness, participants, draws, limit),
    ensures
        draws_settle(randomness, participants, draws),
{
    assert forall|i: nat| i < draws implies #[trigger] draw_settles(
        randomness,
        participants,
        i,
    ) by {
        assert(draw_settles_within(randomness, participants, i, limit));
    }
}

/// Selects winner indices like [`select_winner_indices`], where every draw takes one of
/// the first `max_attempts` hashes; otherwise `None`.
pub fn select_winner_indices_within(
    randomness: &[u8; 32],
    participant_count: u64,
    winner_count: u64,
    max_attempts: u64,
) -> (winners: Option<Vec<u64>>)
    ensures
        winners is Some <==> draws_settle_within(
            randomness@,
            participant_count as int,
            selection_size(participant_count as int, winner_count as int) as nat,
            max_attempts as nat,
        ),
        winners matches Some(indices) ==> {
            &&& indices@ == selected(randomness@, participant_count as int, winner_count as int)
            &&& indices@.len() == selection_size(participant_count as int, winner_count as int)
            &&& distinct_participants(indices@, participant_count as int)
        },
{
    if selection_settles_within(randomness, participant_count, winner_count, max_attempts) {
        proof {
            lemma_settled_within_settles(
                randomness@,
                participant_count as int,
                selection_size(participant_count as int, winner_count as int) as nat,
                max_attempts as nat,
            );
        }
        Some(select_winner_indices(randomness, participant_count, winner_count))
    } else {
        None
    }
}

/// Verifies a set of winner indices: as many as expected, each of them a participant,
/// and none of them twice.
pub fn verify_winner_indices(
    indices: &[u64],
    participant_count: u64,
    expected_count: u64,
) -> (valid: bool)
    ensures
        valid == (indices@.len() == expected_count && distinct_participants(
            indices@,
            participant_count as int,
        )),
{
    broadcast use vstd::std_specs::hash::group_hash_axioms;

    if indices.len() as u64 != expected_count {
        return false;
    }
    let mut seen: HashSet<u64> = HashSet::new();
    let mut k: usize = 0;
    while k < indices.len()
        invariant
            k <= indices.len(),
            indices@.len() == expected_count,
            forall|v: u64| #[trigger]
                seen@.contains(v) <==> exists|i: int| 0 <= i < k && indices@[i] == v,
            forall|i: int| 0 <= i < k ==> #[trigger] indices@[i] < participant_count,
            forall|i: int, j: int| 0 <= i < j < k ==> indices@[i] != indices@[j],
        decreases indices.len() - k,
    {
        let index: u64 = indices[k];
        if index >= participant_count {
            return false;
        }
        let fresh: bool = seen.insert(index);
        if !fresh {
            assert(!indices@.no_duplicates());
            return false;
        }
        k = k + 1;
        assert(indices@[k - 1] == index);
    }
    true
}

} // verus!
