//! What holds of every winner selection.

use crate::bytes;
use crate::constants::MAX_WINNERS;
use crate::keccak;
use crate::selection;
use vstd::prelude::*;

verus! {

/// Every selection passes verification: it has the expected size, every winner is a
/// participant, and no participant wins twice.
pub proof fn selected_winners_are_distinct_participants(
    randomness: Seq<u8>,
    participants: int,
    winners: int,
)
    requires
        0 <= participants <= u64::MAX,
        0 <= winners,
    ensures
        selection::selected(randomness, participants, winners).len() == selection::selection_size(
            participants,
            winners,
        ),
        selection::distinct_participants(
            selection::selected(randomness, participants, winners),
            participants,
        ),
{
    let size = selection::selection_size(participants, winners);
    let offsets = selection::draw_offsets(randomness, participants, size as nat);
    selection::lemma_draw_offsets_in_range(randomness, participants, size as nat);
    selection::lemma_shuffled_is_permutation(participants as nat, offsets);
    let order = selection::shuffled(participants as nat, offsets);
    let picked = selection::selected(randomness, participants, winners);
    assert forall|i: int| 0 <= i < picked.len() implies #[trigger] picked[i] < participants by {
        assert(picked[i] == order[i]);
    }
}

/// Where there are as many winners as participants, every participant wins: the result
/// is a permutation of all participants.
pub proof fn all_participants_win(randomness: Seq<u8>, participants: int, winners: int)
    requires
        0 <= participants <= winners,
        participants <= MAX_WINNERS,
    ensures
        selection::selected(randomness, participants, winners).len() == participants,
        forall|v: u64|
            v < participants ==> #[trigger] selection::selected(
                randomness,
                participants,
                winners,
            ).contains(v),
        selection::selected(randomness, participants, winners).no_duplicates(),
{
    selected_winners_are_distinct_participants(randomness, participants, winners);
    let offsets = selection::draw_offsets(randomness, participants, participants as nat);
    selection::lemma_draw_offsets_in_range(randomness, participants, participants as nat);
    selection::lemma_shuffled_is_permutation(participants as nat, offsets);
    let order = selection::shuffled(participants as nat, offsets);
    assert(selection::selected(randomness, participants, winners) =~= order);
}

/// The offsets without the last one are in range too.
proof fn lemma_fewer_offsets_in_range(participants: nat, offsets: Seq<u64>)
    requires
        selection::offsets_in_range(participants, offsets),
        offsets.len() > 0,
    ensures
        selection::offsets_in_range(participants, offsets.drop_last()),
{
    let fewer = offsets.drop_last();
    assert forall|k: int| 0 <= k < fewer.len() implies #[trigger] fewer[k] < participants - k by {
        assert(offsets[k] < participants - k);
    }
}

/// The steps after the first `few` leave the first `few` positions alone.
proof fn lemma_shuffle_prefix(participants: nat, offsets: Seq<u64>, few: int)
    requires
        participants <= u64::MAX,
        selection::offsets_in_range(participants, offsets),
        0 <= few <= offsets.len(),
    ensures
        selection::shuffled(participants, offsets.take(few)).take(few) == selection::shuffled(
            participants,
            offsets,
        ).take(few),
    decreases offsets.len(),
{
    if few == offsets.len() {
        assert(offsets.take(few) =~= offsets);
    } else {
        let shorter = offsets.drop_last();
        lemma_fewer_offsets_in_range(participants, offsets);
        lemma_shuffle_prefix(participants, shorter, few);
        assert(shorter.take(few) =~= offsets.take(few));
        selection::lemma_shuffled_is_permutation(participants, shorter);
        selection::lemma_shuffled_is_permutation(participants, offsets);
        assert(selection::shuffled(participants, offsets).take(few) =~= selection::shuffled(
            participants,
            shorter,
        ).take(few));
    }
}

/// Selecting fewer winners gives the first ones of a larger selection. So the winners
/// that a reveal displays are the first of all winners of the giveaway.
pub proof fn fewer_winners_are_the_first_ones(
    randomness: Seq<u8>,
    participants: int,
    few: int,
    many: int,
)
    requires
        0 <= participants <= u64::MAX,
        0 <= few <= many,
    ensures
        selection::selection_size(participants, few) <= selection::selection_size(
            participants,
            many,
        ),
        selection::selected(randomness, participants, few) == selection::selected(
            randomness,
            participants,
            many,
        ).take(selection::selection_size(participants, few)),
{
    let small = selection::selection_size(participants, few);
    let large = selection::selection_size(participants, many);
    let offsets = selection::draw_offsets(randomness, participants, large as nat);
    selection::lemma_draw_offsets_in_range(randomness, participants, large as nat);
    selection::lemma_shuffled_is_permutation(participants as nat, offsets);
    lemma_shuffle_prefix(participants as nat, offsets, small);
    assert(offsets.take(small) =~= selection::draw_offsets(
        randomness,
        participants,
        small as nat,
    ));
    let order = selection::shuffled(participants as nat, offsets);
    assert(order.take(large).take(small) =~= order.take(small));
}

/// Different offsets give different winners: a list of winners comes from at most one list
/// of offsets.
pub proof fn winners_determine_the_offsets(participants: nat, a: Seq<u64>, b: Seq<u64>)
    requires
        participants <= u64::MAX,
        a.len() == b.len(),
        selection::offsets_in_range(participants, a),
        selection::offsets_in_range(participants, b),
        selection::shuffled(participants, a).take(a.len() as int) == selection::shuffled(
            participants,
            b,
        ).take(b.len() as int),
    ensures
        a == b,
    decreases a.len(),
{
    if a.len() == 0 {
        assert(a =~= b);
    } else {
        let last = a.len() - 1;
        let fewer_a = a.drop_last();
        let fewer_b = b.drop_last();
        let order_a = selection::shuffled(participants, a);
        let order_b = selection::shuffled(participants, b);
        lemma_fewer_offsets_in_range(participants, a);
        lemma_fewer_offsets_in_range(participants, b);
        selection::lemma_shuffled_is_permutation(participants, a);
        selection::lemma_shuffled_is_permutation(participants, b);
        lemma_shuffle_prefix(participants, a, last);
        lemma_shuffle_prefix(participants, b, last);
        assert(a.take(last) =~= fewer_a);
        assert(b.take(last) =~= fewer_b);
        assert(order_a.take(last) =~= order_a.take(last + 1).take(last));
        assert(order_b.take(last) =~= order_b.take(last + 1).take(last));
        winners_determine_the_offsets(participants, fewer_a, fewer_b);
        let before = selection::shuffled(participants, fewer_a);
        selection::lemma_shuffled_is_permutation(participants, fewer_a);
        assert(a[last] < participants - last);
        assert(b[last] < participants - last);
        assert(order_a.take(last + 1)[last] == before[last + a.last()]);
        assert(order_b.take(last + 1)[last] == before[last + b.last()]);
        assert(a.last() == b.last());
        assert(a =~= fewer_a.push(a.last()));
        assert(b =~= fewer_b.push(b.last()));
    }
}

/// Offsets that give a list of winners.
proof fn lemma_offsets_for(participants: nat, winners: Seq<u64>) -> (offsets: Seq<u64>)
    requires
        winners.len() <= participants <= u64::MAX,
        selection::distinct_participants(winners, participants as int),
    ensures
        offsets.len() == winners.len(),
        selection::offsets_in_range(participants, offsets),
        selection::shuffled(participants, offsets).take(winners.len() as int) == winners,
    decreases winners.len(),
{
    if winners.len() == 0 {
        let offsets = Seq::<u64>::empty();
        assert(selection::shuffled(participants, offsets).take(0) =~= winners);
        offsets
    } else {
        let last = winners.len() - 1;
        let fewer = winners.drop_last();
        assert forall|k: int| 0 <= k < fewer.len() implies #[trigger] fewer[k] < participants by {
            assert(winners[k] < participants);
        }
        let before_offsets = lemma_offsets_for(participants, fewer);
        let before = selection::shuffled(participants, before_offsets);
        selection::lemma_shuffled_is_permutation(participants, before_offsets);
        let winner = winners[last];
        assert(winner < participants);
        assert(before.contains(winner));
        let position = choose|k: int| 0 <= k < before.len() && before[k] == winner;
        if position < last {
            assert(before.take(last)[position] == fewer[position]);
            assert(winners[position] == winners[last]);
        }
        let offset = (position - last) as u64;
        let offsets = before_offsets.push(offset);
        assert(offsets.drop_last() =~= before_offsets);
        assert forall|k: int| 0 <= k < offsets.len() implies #[trigger] offsets[k] < participants
            - k by {
            if k < last {
                assert(before_offsets[k] < participants - k);
            }
        }
        let order = selection::shuffled(participants, offsets);
        assert(order == selection::swapped(before, last, position));
        assert forall|k: int| 0 <= k < winners.len() implies order.take(last + 1)[k]
            == winners[k] by {
            if k < last {
                assert(before.take(last)[k] == fewer[k]);
            }
        }
        assert(order.take(winners.len() as int) =~= winners);
        offsets
    }
}

/// Every list of distinct participants can win: it comes from some list of offsets. With
/// the law before, offsets and winners correspond one to one, so winners are as evenly
/// spread as the offsets are.
pub proof fn every_list_of_winners_has_its_offsets(participants: nat, winners: Seq<u64>)
    requires
        winners.len() <= participants <= u64::MAX,
        selection::distinct_participants(winners, participants as int),
    ensures
        exists|offsets: Seq<u64>|
            #![trigger selection::shuffled(participants, offsets)]
            offsets.len() == winners.len() && selection::offsets_in_range(participants, offsets)
                && selection::shuffled(participants, offsets).take(winners.len() as int)
                == winners,
{
    let offsets = lemma_offsets_for(participants, winners);
    assert(selection::shuffled(participants, offsets).take(winners.len() as int) == winners);
}

/// The words that are taken and give `offset`.
pub open spec fn words_for(remaining: int, offset: int) -> Set<int> {
    Set::new(
        |word: int| 0 <= word < selection::max_valid(remaining) && word % remaining == offset,
    )
}

/// The words below `count * remaining` that give `offset` are `count` in number.
proof fn lemma_words_below(remaining: int, offset: int, count: int)
    requires
        0 <= offset < remaining,
        0 <= count,
    ensures
        Set::new(|word: int| 0 <= word < count * remaining && word % remaining == offset).finite(),
        Set::new(|word: int| 0 <= word < count * remaining && word % remaining == offset).len()
            == count,
    decreases count,
{
    let words = Set::new(|word: int| 0 <= word < count * remaining && word % remaining == offset);
    if count == 0 {
        assert(count * remaining == 0) by (nonlinear_arith)
            requires
                count == 0,
        ;
        assert(words =~= Set::empty());
    } else {
        let fewer = Set::new(
            |word: int| 0 <= word < (count - 1) * remaining && word % remaining == offset,
        );
        lemma_words_below(remaining, offset, count - 1);
        let last = (count - 1) * remaining + offset;
        assert(count * remaining == (count - 1) * remaining + remaining) by (nonlinear_arith);
        assert((count - 1) * remaining >= 0) by (nonlinear_arith)
            requires
                count >= 1,
                remaining > 0,
        ;
        vstd::arithmetic::div_mod::lemma_fundamental_div_mod_converse(
            last,
            remaining,
            count - 1,
            offset,
        );
        assert(words =~= fewer.insert(last)) by {
            assert forall|word: int| words.contains(word) implies fewer.insert(last).contains(
                word,
            ) by {
                if word >= (count - 1) * remaining {
                    vstd::arithmetic::div_mod::lemma_fundamental_div_mod_converse(
                        word,
                        remaining,
                        count - 1,
                        word - (count - 1) * remaining,
                    );
                }
            }
        }
    }
}

/// No modulo bias: among the words that are taken, every offset below `remaining` comes
/// from the same number of words.
pub proof fn offsets_are_unbiased(remaining: u64, offset: u64)
    requires
        offset < remaining,
    ensures
        words_for(remaining as int, offset as int).finite(),
        words_for(remaining as int, offset as int).len() == selection::max_valid(remaining as int)
            / remaining as int,
        selection::max_valid(remaining as int) % remaining as int == 0,
        selection::max_valid(remaining as int) > 0,
{
    let r = remaining as int;
    let all = u64::MAX as int;
    vstd::arithmetic::div_mod::lemma_fundamental_div_mod(all, r);
    let count = all / r;
    assert(selection::max_valid(r) == r * count);
    assert(r * count == count * r) by (nonlinear_arith);
    vstd::arithmetic::div_mod::lemma_fundamental_div_mod_converse(r * count, r, count, 0);
    vstd::arithmetic::div_mod::lemma_div_non_zero(all, r);
    assert(count * r > 0) by (nonlinear_arith)
        requires
            count > 0,
            r > 0,
    ;
    lemma_words_below(r, offset as int, count);
    assert(words_for(r, offset as int) =~= Set::new(
        |word: int| 0 <= word < count * r && word % r == offset as int,
    ));
}

// ---------------------------------------------------------------------------------
// What the draws are
// ---------------------------------------------------------------------------------
/// The limit below which a word is taken is a multiple of `remaining`, and no larger
/// multiple of it fits in a `u64`.
pub proof fn the_limit_is_the_largest_multiple(remaining: u64)
    requires
        remaining > 0,
    ensures
        selection::max_valid(remaining as int) % remaining as int == 0,
        selection::max_valid(remaining as int) <= u64::MAX,
        selection::max_valid(remaining as int) + remaining > u64::MAX,
{
    offsets_are_unbiased(remaining, 0);
    assert(0 <= (u64::MAX as int) % (remaining as int) < remaining) by (nonlinear_arith)
        requires
            remaining > 0,
    ;
}

/// The links of a chain of hashes are the repeated hashes of its first element.
proof fn lemma_chain_links(chain: Seq<Seq<u8>>, k: nat)
    requires
        k < chain.len(),
        forall|j: int|
            0 <= j < chain.len() - 1 ==> chain[j + 1] == #[trigger] keccak::keccak256(chain[j])@,
    ensures
        selection::hash_chain(chain[0], k) == chain[k as int],
    decreases k,
{
    if k > 0 {
        lemma_chain_links(chain, (k - 1) as nat);
        assert(chain[k - 1 + 1] == keccak::keccak256(chain[k - 1])@);
    }
}

/// A chain whose last link is the first to be taken ends in the seed of the next draw.
proof fn lemma_chain_ends_in_next_seed(chain: Seq<Seq<u8>>, remaining: int)
    requires
        1 <= remaining <= u64::MAX,
        chain.len() >= 2,
        forall|j: int|
            0 <= j < chain.len() - 1 ==> chain[j + 1] == #[trigger] keccak::keccak256(chain[j])@,
        forall|k: int|
            1 <= k < chain.len() - 1 ==> bytes::le_u64(#[trigger] chain[k], 0) >= u64::MAX - (
            u64::MAX as int) % remaining,
        bytes::le_u64(chain.last(), 0) < u64::MAX - (u64::MAX as int) % remaining,
    ensures
        selection::settles_at(chain[0], remaining, (chain.len() - 1) as nat),
        selection::attempts(chain[0], remaining) == chain.len() - 1,
        selection::next_seed(chain[0], remaining) == chain.last(),
{
    let last = (chain.len() - 1) as nat;
    lemma_chain_links(chain, last);
    assert forall|k: nat| 1 <= k < last implies !selection::accepts(
        #[trigger] selection::hash_chain(chain[0], k),
        remaining,
    ) by {
        lemma_chain_links(chain, k);
        assert(bytes::le_u64(chain[k as int], 0) >= u64::MAX - (u64::MAX as int) % remaining);
    }
    selection::lemma_attempts(chain[0], remaining, last);
}

/// The first winner: `randomness` is hashed over and over, and the first hash after it
/// whose first word is below the largest multiple of the participant count names the
/// winner, as that word modulo the participant count.
pub proof fn first_winner_is_the_first_word_taken(
    randomness: Seq<u8>,
    participants: u64,
    winners: u64,
    chain: Seq<Seq<u8>>,
)
    requires
        participants >= 1,
        winners >= 1,
        chain.len() >= 2,
        chain[0] == randomness,
        forall|j: int|
            0 <= j < chain.len() - 1 ==> chain[j + 1] == #[trigger] keccak::keccak256(chain[j])@,
        forall|k: int|
            1 <= k < chain.len() - 1 ==> bytes::le_u64(#[trigger] chain[k], 0) >= u64::MAX - (
            u64::MAX as int) % participants as int,
        bytes::le_u64(chain.last(), 0) < u64::MAX - (u64::MAX as int) % participants as int,
    ensures
        selection::selected(randomness, participants as int, winners as int).len() >= 1,
        selection::selected(randomness, participants as int, winners as int)[0] == bytes::le_u64(
            chain.last(),
            0,
        ) % participants as int,
{
    let n = participants as int;
    let size = selection::selection_size(n, winners as int);
    let offsets = selection::draw_offsets(randomness, n, size as nat);
    lemma_chain_ends_in_next_seed(chain, n);
    selection::lemma_draw_offsets_in_range(randomness, n, size as nat);
    assert(selection::seed_after(randomness, n, 0) == randomness);
    assert(selection::seed_after(randomness, n, 1) == chain.last());
    assert(0 <= bytes::le_u64(chain.last(), 0) % n < n) by (nonlinear_arith)
        requires
            n > 0,
    ;
    let rest = offsets.skip(1);
    assert(offsets =~= seq![offsets[0]] + rest);
    assert(offsets[0] == bytes::le_u64(chain.last(), 0) % n);
    assert forall|k: int| 0 <= k < rest.len() implies #[trigger] rest[k] < n - 1 - k by {
        assert(offsets[k + 1] < n - (k + 1));
    }
    the_first_offset_picks_the_first_winner(n as nat, offsets[0], rest);
}

/// Before any step the order is that of the participants.
pub proof fn shuffles_start_in_order(participants: u64)
    ensures
        selection::shuffled(participants as nat, Seq::empty()).len() == participants,
        forall|k: int|
            0 <= k < participants ==> #[trigger] selection::shuffled(
                participants as nat,
                Seq::empty(),
            )[k] == k,
{
}

/// A shuffle step by step: the first offset is the first winner, its place goes to
/// participant zero, and the other offsets shuffle the places that follow like a shuffle
/// with one participant fewer.
pub proof fn the_first_offset_picks_the_first_winner(
    participants: nat,
    first: u64,
    rest: Seq<u64>,
)
    requires
        first < participants <= u64::MAX,
        rest.len() < participants,
        forall|i: int| 0 <= i < rest.len() ==> #[trigger] rest[i] < participants - 1 - i,
    ensures
        selection::shuffled(participants, seq![first] + rest).len() == participants,
        selection::shuffled((participants - 1) as nat, rest).len() == participants - 1,
        selection::shuffled(participants, seq![first] + rest)[0] == first,
        forall|k: int|
            0 <= k < participants - 1 ==> selection::shuffled(
                participants,
                seq![first] + rest,
            )[k + 1] == (if #[trigger] selection::shuffled((participants - 1) as nat, rest)[k] + 1
                == first {
                0
            } else {
                selection::shuffled((participants - 1) as nat, rest)[k] + 1
            }),
    decreases rest.len(),
{
    let whole = seq![first] + rest;
    let long = selection::shuffled(participants, whole);
    let short = selection::shuffled((participants - 1) as nat, rest);
    if rest.len() == 0 {
        assert(whole.drop_last() =~= Seq::empty());
        assert(selection::shuffled(participants, Seq::empty()) == selection::identity(
            participants,
        ));
        assert(whole.last() == first);
        assert(long == selection::swapped(selection::identity(participants), 0, first as int));
    } else {
        let fewer = rest.drop_last();
        let i = rest.len() - 1;
        assert forall|k: int| 0 <= k < fewer.len() implies #[trigger] fewer[k] < participants - 1
            - k by {
            assert(rest[k] < participants - 1 - k);
        }
        the_first_offset_picks_the_first_winner(participants, first, fewer);
        assert(whole.drop_last() =~= seq![first] + fewer);
        assert(whole.last() == rest.last());
        assert(rest[i] < participants - 1 - i);
        let j = i + rest.last();
        let long_before = selection::shuffled(participants, seq![first] + fewer);
        let short_before = selection::shuffled((participants - 1) as nat, fewer);
        assert(long == selection::swapped(long_before, i + 1, j + 1));
        assert(short == selection::swapped(short_before, i, j));
        assert forall|k: int| 0 <= k < participants - 1 implies long[k + 1] == (if
            #[trigger] short[k] + 1 == first {
            0
        } else {
            short[k] + 1
        }) by {
            let from = if k == i {
                j
            } else if k == j {
                i
            } else {
                k
            };
            assert(short[k] == short_before[from]);
            assert(long[k + 1] == long_before[from + 1]);
        }
    }
}

/// After the first draw, the seeds are those of a selection that starts from the hash
/// that was taken, with one participant fewer.
proof fn lemma_seeds_after_first(randomness: Seq<u8>, participants: int, draws: nat)
    ensures
        selection::seed_after(randomness, participants, draws + 1) == selection::seed_after(
            selection::next_seed(randomness, participants),
            participants - 1,
            draws,
        ),
    decreases draws,
{
    let taken = selection::next_seed(randomness, participants);
    assert(selection::seed_after(randomness, participants, 0) == randomness);
    assert(selection::seed_after(taken, participants - 1, 0) == taken);
    if draws > 0 {
        lemma_seeds_after_first(randomness, participants, (draws - 1) as nat);
        assert(selection::seed_after(randomness, participants, draws + 1) == selection::next_seed(
            selection::seed_after(randomness, participants, draws),
            participants - draws,
        ));
        assert(selection::seed_after(taken, participants - 1, draws) == selection::next_seed(
            selection::seed_after(taken, participants - 1, (draws - 1) as nat),
            participants - 1 - (draws - 1),
        ));
    }
}

/// The winners after the first one: they are selected from the hash that was taken for
/// the first, among one participant fewer, where each index stands for the next higher
/// participant, and the first winner's place stands for participant zero. With
/// [`first_winner_is_the_first_word_taken`] this fixes every winner.
pub proof fn later_winners_are_selected_from_the_hash_taken(
    randomness: Seq<u8>,
    participants: u64,
    winners: u64,
    chain: Seq<Seq<u8>>,
)
    requires
        participants >= 1,
        1 <= winners <= 10_000,
        chain.len() >= 2,
        chain[0] == randomness,
        forall|j: int|
            0 <= j < chain.len() - 1 ==> chain[j + 1] == #[trigger] keccak::keccak256(chain[j])@,
        forall|k: int|
            1 <= k < chain.len() - 1 ==> bytes::le_u64(#[trigger] chain[k], 0) >= u64::MAX - (
            u64::MAX as int) % participants as int,
        bytes::le_u64(chain.last(), 0) < u64::MAX - (u64::MAX as int) % participants as int,
    ensures
        ({
            let all = selection::selected(randomness, participants as int, winners as int);
            let rest = selection::selected(chain.last(), participants - 1, winners - 1);
            &&& all.len() == rest.len() + 1
            &&& forall|i: int|
                0 <= i < rest.len() ==> all[i + 1] == (if #[trigger] rest[i] + 1 == all[0] {
                    0
                } else {
                    rest[i] + 1
                })
        }),
{
    let n = participants as int;
    let size = selection::selection_size(n, winners as int);
    let offsets = selection::draw_offsets(randomness, n, size as nat);
    let later = selection::draw_offsets(chain.last(), n - 1, (size - 1) as nat);
    lemma_chain_ends_in_next_seed(chain, n);
    selection::lemma_draw_offsets_in_range(randomness, n, size as nat);
    assert(offsets =~= seq![offsets[0]] + later) by {
        assert forall|i: int| 0 <= i < later.len() implies offsets[i + 1] == #[trigger] later[i] by {
            lemma_seeds_after_first(randomness, n, (i + 1) as nat);
        }
    }
    assert forall|k: int| 0 <= k < later.len() implies #[trigger] later[k] < n - 1 - k by {
        assert(offsets[k + 1] < n - (k + 1));
    }
    the_first_offset_picks_the_first_winner(n as nat, offsets[0], later);
    assert(selection::selection_size(n - 1, winners - 1) == size - 1);
    let short = selection::shuffled((n - 1) as nat, later);
    let rest = selection::selected(chain.last(), n - 1, winners - 1);
    assert forall|i: int| 0 <= i < rest.len() implies #[trigger] rest[i] == short[i] by {}
}

/// The number of winners: as many as asked for, but no more than participants and no more
/// than ten thousand, and further winners asked for change nothing.
pub proof fn selections_have_the_size_asked_for(randomness: Seq<u8>, participants: u64, winners: u64)
    ensures
        ({
            let size = selection::selection_size(participants as int, winners as int);
            let all = selection::selected(randomness, participants as int, winners as int);
            &&& all.len() == size
            &&& size <= winners && size <= participants && size <= 10_000
            &&& size == winners || size == participants || size == 10_000
            &&& winners >= 10_000 ==> all == selection::selected(
                randomness,
                participants as int,
                10_000,
            )
            &&& winners >= participants ==> all == selection::selected(
                randomness,
                participants as int,
                participants as int,
            )
        }),
{
    selected_winners_are_distinct_participants(randomness, participants as int, winners as int);
}

/// A selection of no winners settles, and takes no hash.
pub proof fn nothing_to_draw_settles(randomness: Seq<u8>, participants: u64, limit: nat)
    ensures
        selection::draws_settle(randomness, participants as int, 0),
        selection::draws_settle_within(randomness, participants as int, 0, limit),
{
}

/// Where a hash is taken for the first draw, the draws settle exactly where those that
/// start from that hash do; and within a limit exactly where, besides, that hash is among
/// the first `limit`.
pub proof fn draws_settle_one_after_the_other(
    participants: u64,
    draws: nat,
    limit: nat,
    chain: Seq<Seq<u8>>,
)
    requires
        1 <= draws <= participants,
        chain.len() >= 2,
        forall|j: int|
            0 <= j < chain.len() - 1 ==> chain[j + 1] == #[trigger] keccak::keccak256(chain[j])@,
        forall|k: int|
            1 <= k < chain.len() - 1 ==> bytes::le_u64(#[trigger] chain[k], 0) >= u64::MAX - (
            u64::MAX as int) % participants as int,
        bytes::le_u64(chain.last(), 0) < u64::MAX - (u64::MAX as int) % participants as int,
    ensures
        selection::draws_settle(chain[0], participants as int, draws) <==> selection::draws_settle(
            chain.last(),
            participants - 1,
            (draws - 1) as nat,
        ),
        selection::draws_settle_within(chain[0], participants as int, draws, limit) <==> (
        chain.len() - 1 <= limit && selection::draws_settle_within(
            chain.last(),
            participants - 1,
            (draws - 1) as nat,
            limit,
        )),
{
    let n = participants as int;
    let seed = chain[0];
    let taken = chain.last();
    let count = (chain.len() - 1) as nat;
    lemma_chain_ends_in_next_seed(chain, n);
    assert(selection::seed_after(seed, n, 0) == seed);
    assert(selection::draw_settles(seed, n, 0));
    assert(selection::draw_settles_within(seed, n, 0, limit) <==> count <= limit) by {
        if selection::settles_within(seed, n, limit) {
            let m = choose|m: nat| m <= limit && selection::settles_at(seed, n, m);
            selection::lemma_attempts(seed, n, m);
        }
        if count <= limit {
            assert(selection::settles_at(seed, n, count));
        }
    }
    assert forall|i: nat| #[trigger]
        selection::draw_settles(seed, n, i + 1) == selection::draw_settles(taken, n - 1, i) by {
        lemma_seeds_after_first(seed, n, i);
    }
    assert forall|i: nat| #[trigger]
        selection::draw_settles_within(seed, n, i + 1, limit) == selection::draw_settles_within(
            taken,
            n - 1,
            i,
            limit,
        ) by {
        lemma_seeds_after_first(seed, n, i);
    }
    if selection::draws_settle(seed, n, draws) {
        assert forall|i: nat| i < draws - 1 implies #[trigger] selection::draw_settles(
            taken,
            n - 1,
            i,
        ) by {
            assert(selection::draw_settles(seed, n, i + 1));
        }
    }
    if selection::draws_settle(taken, n - 1, (draws - 1) as nat) {
        assert forall|i: nat| i < draws implies #[trigger] selection::draw_settles(seed, n, i) by {
            if i > 0 {
                let before = (i - 1) as nat;
                assert(selection::draw_settles(taken, n - 1, before));
                assert(selection::draw_settles(seed, n, before + 1));
            }
        }
    }
    if selection::draws_settle_within(seed, n, draws, limit) {
        assert(selection::draw_settles_within(seed, n, 0, limit));
        assert forall|i: nat| i < draws - 1 implies #[trigger] selection::draw_settles_within(
            taken,
            n - 1,
            i,
            limit,
        ) by {
            assert(selection::draw_settles_within(seed, n, i + 1, limit));
        }
    }
    if count <= limit && selection::draws_settle_within(taken, n - 1, (draws - 1) as nat, limit) {
        assert forall|i: nat| i < draws implies #[trigger] selection::draw_settles_within(
            seed,
            n,
            i,
            limit,
        ) by {
            if i > 0 {
                let before = (i - 1) as nat;
                assert(selection::draw_settles_within(taken, n - 1, before, limit));
                assert(selection::draw_settles_within(seed, n, before + 1, limit));
            }
        }
    }
}

/// Draws that settle take a hash for the first of them: the chain up to that hash.
pub proof fn settled_draws_take_a_hash(randomness: Seq<u8>, participants: u64, draws: nat) -> (chain:
    Seq<Seq<u8>>)
    requires
        1 <= draws <= participants,
        selection::draws_settle(randomness, participants as int, draws),
    ensures
        chain.len() >= 2,
        chain[0] == randomness,
        forall|j: int|
            0 <= j < chain.len() - 1 ==> chain[j + 1] == #[trigger] keccak::keccak256(chain[j])@,
        forall|k: int|
            1 <= k < chain.len() - 1 ==> bytes::le_u64(#[trigger] chain[k], 0) >= u64::MAX - (
            u64::MAX as int) % participants as int,
        bytes::le_u64(chain.last(), 0) < u64::MAX - (u64::MAX as int) % participants as int,
{
    let n = participants as int;
    assert(selection::draw_settles(randomness, n, 0));
    assert(selection::seed_after(randomness, n, 0) == randomness);
    let count = selection::attempts(randomness, n);
    assert(selection::settles_at(randomness, n, count));
    let chain = Seq::new(count + 1, |k: int| selection::hash_chain(randomness, k as nat));
    assert forall|k: int| 1 <= k < chain.len() - 1 implies bytes::le_u64(#[trigger] chain[k], 0)
        >= u64::MAX - (u64::MAX as int) % n by {
        assert(!selection::accepts(selection::hash_chain(randomness, k as nat), n));
    }
    chain
}

/// A participant index list is valid where every index is a participant and no two are
/// the same.
pub proof fn valid_lists_hold_distinct_participants(indices: Seq<u64>, participants: u64)
    ensures
        selection::distinct_participants(indices, participants as int) <==> ((forall|i: int|
            0 <= i < indices.len() ==> #[trigger] indices[i] < participants) && (forall|
            i: int,
            j: int,
        |
            0 <= i < j < indices.len() ==> indices[i] != indices[j])),
{
}

/// A position that was written holds what was written to it last.
pub proof fn the_last_write_stays(overrides: Seq<(u64, u64)>, k: int)
    requires
        0 <= k < overrides.len(),
        forall|j: int| k < j < overrides.len() ==> (#[trigger] overrides[j]).0 != overrides[k].0,
    ensures
        selection::virtual_value(overrides, overrides[k].0) == overrides[k].1,
    decreases overrides.len(),
{
    if k < overrides.len() - 1 {
        the_last_write_stays(overrides.drop_last(), k);
    }
}

/// A position that was not written holds its own index.
pub proof fn positions_not_written_hold_their_index(overrides: Seq<(u64, u64)>, i: u64)
    requires
        forall|j: int| 0 <= j < overrides.len() ==> (#[trigger] overrides[j]).0 != i,
    ensures
        selection::virtual_value(overrides, i) == i,
    decreases overrides.len(),
{
    if overrides.len() > 0 {
        assert(overrides[overrides.len() - 1].0 != i);
        positions_not_written_hold_their_index(overrides.drop_last(), i);
    }
}

} // verus!
