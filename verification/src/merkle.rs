//! Merkle roots over participant and winner lists.

use crate::bytes;
use crate::keccak;
use vstd::prelude::*;

verus! {

/// The bytes under node `i` of the next level: its two children, where a last child
/// without a sibling stands for both.
pub open spec fn node_preimage(level: Seq<[u8; 32]>, i: int) -> Seq<u8> {
    level[2 * i]@ + (if 2 * i + 1 < level.len() {
        level[2 * i + 1]
    } else {
        level[2 * i]
    })@
}

/// The next level of the tree: the hashes of the pairs.
pub open spec fn next_level(level: Seq<[u8; 32]>) -> Seq<[u8; 32]> {
    Seq::new(
        (level.len() + 1) as nat / 2,
        |i: int| keccak::keccak256(node_preimage(level, i)),
    )
}

/// The level of the tree that lies `height` above the leaves.
pub open spec fn level_at(leaves: Seq<[u8; 32]>, height: nat) -> Seq<[u8; 32]>
    decreases height,
{
    if height == 0 {
        leaves
    } else {
        next_level(level_at(leaves, (height - 1) as nat))
    }
}

/// The root of the tree over `leaves`; zero where there are none.
pub open spec fn merkle_root(leaves: Seq<[u8; 32]>) -> Seq<u8>
    decreases leaves.len(),
{
    if leaves.len() == 0 {
        bytes::zero_hash()
    } else if leaves.len() == 1 {
        leaves[0]@
    } else {
        merkle_root(next_level(leaves))
    }
}

/// The bytes under each node of the next level.
pub fn node_preimages(level: &[[u8; 32]]) -> (preimages: Vec<[u8; 64]>)
    ensures
        preimages@.len() == (level@.len() + 1) / 2,
        forall|i: int|
            0 <= i < preimages@.len() ==> #[trigger] preimages@[i]@ == node_preimage(level@, i),
        forall|i: int|
            0 <= i && 2 * i + 1 < level@.len() ==> #[trigger] preimages@[i]@ == level@[2 * i]@
                + level@[2 * i + 1]@,
        level@.len() % 2 == 1 ==> preimages@.last()@ == level@.last()@ + level@.last()@,
{
    let mut preimages: Vec<[u8; 64]> = Vec::new();
    let mut k: usize = 0;
    while k < level.len()
        invariant
            k <= level.len(),
            k < level.len() ==> k == 2 * preimages@.len(),
            k == level.len() ==> preimages@.len() == (level@.len() + 1) / 2,
            forall|i: int|
                0 <= i < preimages@.len() ==> #[trigger] preimages@[i]@ == node_preimage(
                    level@,
                    i,
                ),
        decreases level.len() - k,
    {
        let left: [u8; 32] = level[k];
        let right: [u8; 32] = if level.len() - k >= 2 {
            level[k + 1]
        } else {
            left
        };
        preimages.push(bytes::join_hashes(&left, &right));
        if level.len() - k >= 2 {
            k = k + 2;
        } else {
            k = k + 1;
        }
    }
    preimages
}

/// Computes the Merkle root of a list of leaf hashes.
pub fn compute_merkle_root(leaves: &[[u8; 32]]) -> (root: [u8; 32])
    ensures
        root@ == merkle_root(leaves@),
{
    if leaves.len() == 0 {
        let root: [u8; 32] = [0u8; 32];
        assert(root@ =~= bytes::zero_hash());
        return root;
    }
    let mut current: Vec<[u8; 32]> = Vec::new();
    let mut k: usize = 0;
    while k < leaves.len()
        invariant
            k <= leaves.len(),
            current@ == leaves@.take(k as int),
        decreases leaves.len() - k,
    {
        current.push(leaves[k]);
        k = k + 1;
        assert(current@ =~= leaves@.take(k as int));
    }
    assert(current@ =~= leaves@);
    while current.len() > 1
        invariant
            current@.len() >= 1,
            merkle_root(current@) == merkle_root(leaves@),
        decreases current.len(),
    {
        let preimages: Vec<[u8; 64]> = node_preimages(current.as_slice());
        let mut next: Vec<[u8; 32]> = Vec::new();
        let mut i: usize = 0;
        while i < preimages.len()
            invariant
                i <= preimages.len(),
                preimages@.len() == (current@.len() + 1) / 2,
                forall|j: int|
                    0 <= j < preimages@.len() ==> #[trigger] preimages@[j]@ == node_preimage(
                        current@,
                        j,
                    ),
                next@.len() == i,
                forall|j: int| 0 <= j < i ==> #[trigger] next@[j] == next_level(current@)[j],
            decreases preimages.len() - i,
        {
            let pair: [u8; 64] = preimages[i];
            assert(pair@ == node_preimage(current@, i as int));
            next.push(keccak::keccak_hash(&pair));
            i = i + 1;
        }
        assert(next@ =~= next_level(current@));
        current = next;
    }
    current[0]
}

/// Hashes that agree in their bytes are equal.
proof fn lemma_same_bytes(a: [u8; 32], b: [u8; 32])
    requires
        a@ == b@,
    ensures
        a == b,
{
    assert(a =~= b) by {
        assert forall|i: int| 0 <= i < 32 implies a[i] == b[i] by {
            assert(a@[i] == b@[i]);
        }
    }
}

/// Where two levels of one size give one next level, they are equal or some pair of them
/// is a collision.
proof fn lemma_next_level_binds(a: Seq<[u8; 32]>, b: Seq<[u8; 32]>) -> (node: int)
    requires
        a.len() == b.len(),
        next_level(a) == next_level(b),
    ensures
        a == b || (0 <= node < (a.len() + 1) / 2 && keccak::is_collision(
            node_preimage(a, node),
            node_preimage(b, node),
        )),
{
    let nodes = (a.len() + 1) / 2;
    if exists|i: int|
        0 <= i < nodes && #[trigger] node_preimage(a, i) != node_preimage(b, i) {
        let node = choose|i: int|
            0 <= i < nodes && #[trigger] node_preimage(a, i) != node_preimage(b, i);
        assert(next_level(a)[node] == next_level(b)[node]);
        node
    } else {
        assert forall|k: int| 0 <= k < a.len() implies a[k] == b[k] by {
            let i = k / 2;
            assert(node_preimage(a, i) == node_preimage(b, i));
            assert(a[2 * i]@ =~= node_preimage(a, i).take(32));
            assert(b[2 * i]@ =~= node_preimage(b, i).take(32));
            if k != 2 * i {
                assert(a[k]@ =~= node_preimage(a, i).skip(32));
                assert(b[k]@ =~= node_preimage(b, i).skip(32));
            }
            lemma_same_bytes(a[k], b[k]);
        }
        assert(a =~= b);
        0
    }
}

/// Two trees have, at the same place, a pair of nodes that is a collision of the hash
/// function.
pub open spec fn trees_collide(a: Seq<[u8; 32]>, b: Seq<[u8; 32]>) -> bool {
    exists|height: nat, node: int|
        #![trigger node_preimage(level_at(a, height), node)]
        0 <= node < (level_at(a, height).len() + 1) / 2 && keccak::is_collision(
            node_preimage(level_at(a, height), node),
            node_preimage(level_at(b, height), node),
        )
}

/// The levels above the next level are the levels of the tree, one higher.
proof fn lemma_level_of_next(leaves: Seq<[u8; 32]>, height: nat)
    ensures
        level_at(next_level(leaves), height) == level_at(leaves, height + 1),
    decreases height,
{
    if height > 0 {
        lemma_level_of_next(leaves, (height - 1) as nat);
    } else {
        assert(level_at(leaves, 0) == leaves);
        assert(level_at(leaves, 1) == next_level(level_at(leaves, 0)));
    }
}

/// The root commits to the list: two lists of one length with one root are the same
/// list, unless their trees hold a collision of the hash function.
pub proof fn root_commits_to_leaves(a: Seq<[u8; 32]>, b: Seq<[u8; 32]>)
    requires
        a.len() == b.len(),
        merkle_root(a) == merkle_root(b),
    ensures
        a == b || trees_collide(a, b),
    decreases a.len(),
{
    if a.len() == 0 {
        assert(a =~= b);
    } else if a.len() == 1 {
        lemma_same_bytes(a[0], b[0]);
        assert(a =~= b);
    } else {
        let above_a = next_level(a);
        let above_b = next_level(b);
        root_commits_to_leaves(above_a, above_b);
        if above_a == above_b {
            let node = lemma_next_level_binds(a, b);
            if a != b {
                assert(level_at(a, 0) == a);
                assert(level_at(b, 0) == b);
                assert(keccak::is_collision(
                    node_preimage(level_at(a, 0), node),
                    node_preimage(level_at(b, 0), node),
                ));
            }
        } else {
            let (height, node) = choose|height: nat, node: int|
                #![trigger node_preimage(level_at(above_a, height), node)]
                0 <= node < (level_at(above_a, height).len() + 1) / 2 && keccak::is_collision(
                    node_preimage(level_at(above_a, height), node),
                    node_preimage(level_at(above_b, height), node),
                );
            lemma_level_of_next(a, height);
            lemma_level_of_next(b, height);
            assert(keccak::is_collision(
                node_preimage(level_at(a, height + 1), node),
                node_preimage(level_at(b, height + 1), node),
            ));
        }
    }
}

/// A last leaf without a sibling counts as its own sibling: the root does not tell a list
/// of odd length from the list in which the last leaf is repeated.
pub proof fn lone_last_leaf_counts_twice(leaves: Seq<[u8; 32]>)
    requires
        leaves.len() % 2 == 1,
        leaves.len() > 1,
    ensures
        merkle_root(leaves) == merkle_root(leaves.push(leaves.last())),
{
    let repeated = leaves.push(leaves.last());
    assert forall|i: int| 0 <= i < (leaves.len() + 1) / 2 implies #[trigger] node_preimage(
        leaves,
        i,
    ) == node_preimage(repeated, i) by {
        if 2 * i + 1 < leaves.len() {
            assert(repeated[2 * i + 1] == leaves[2 * i + 1]);
        }
        assert(repeated[2 * i] == leaves[2 * i]);
    }
    assert(next_level(leaves) =~= next_level(repeated));
}

/// A tree, level by level: no leaves give zeros, a single leaf is its own root, and a list
/// of more has the root of the list of half its length that holds, for each pair in order,
/// the hash of the left one followed by the right one. A last one without a sibling is
/// hashed with itself.
pub proof fn roots_hash_the_pairs_in_order(leaves: Seq<[u8; 32]>, above: Seq<[u8; 32]>)
    requires
        2 * above.len() == leaves.len() || 2 * above.len() == leaves.len() + 1,
        forall|i: int|
            0 <= i && 2 * i + 1 < leaves.len() ==> #[trigger] above[i] == keccak::keccak256(
                leaves[2 * i]@ + leaves[2 * i + 1]@,
            ),
        leaves.len() % 2 == 1 ==> above.last() == keccak::keccak256(
            leaves.last()@ + leaves.last()@,
        ),
    ensures
        leaves.len() >= 2 ==> merkle_root(leaves) == merkle_root(above),
        leaves.len() == 1 ==> merkle_root(leaves) == leaves[0]@,
        leaves.len() == 0 ==> merkle_root(leaves).len() == 32 && forall|k: int|
            0 <= k < 32 ==> #[trigger] merkle_root(leaves)[k] == 0,
{
    assert(above =~= next_level(leaves)) by {
        assert forall|i: int| 0 <= i < above.len() implies #[trigger] above[i] == next_level(
            leaves,
        )[i] by {}
    }
}

/// The pairs of two lists, the first of even length, are those of the lists joined.
proof fn lemma_next_level_of_both(a: Seq<[u8; 32]>, b: Seq<[u8; 32]>)
    requires
        a.len() % 2 == 0,
    ensures
        next_level(a + b) == next_level(a) + next_level(b),
{
    let both = next_level(a + b);
    let parts = next_level(a) + next_level(b);
    assert forall|i: int| 0 <= i < both.len() implies both[i] == parts[i] by {
        let half = a.len() as int / 2;
        if i < half {
            assert(node_preimage(a + b, i) == node_preimage(a, i));
        } else {
            assert((a + b)[2 * i] == b[2 * (i - half)]);
            assert(node_preimage(a + b, i) == node_preimage(b, i - half));
        }
    }
    assert(both =~= parts);
}

/// The root over two lists of one length, a power of two, is the hash of the root of the
/// first list followed by the root of the second.
pub proof fn roots_of_halves_make_the_root(a: Seq<[u8; 32]>, b: Seq<[u8; 32]>, height: nat)
    requires
        a.len() == vstd::arithmetic::power2::pow2(height),
        b.len() == vstd::arithmetic::power2::pow2(height),
    ensures
        merkle_root(a + b) == keccak::keccak256(merkle_root(a) + merkle_root(b))@,
    decreases height,
{
    vstd::arithmetic::power2::lemma2_to64();
    let both = a + b;
    if height == 0 {
        assert(both.len() == 2);
        assert(node_preimage(both, 0) == a[0]@ + b[0]@);
        let above = next_level(both);
        assert(above.len() == 1);
        assert(above[0] == keccak::keccak256(a[0]@ + b[0]@));
        assert(merkle_root(above) == above[0]@);
    } else {
        vstd::arithmetic::power2::lemma_pow2_unfold(height);
        vstd::arithmetic::power2::lemma_pow2_pos((height - 1) as nat);
        lemma_next_level_of_both(a, b);
        roots_of_halves_make_the_root(next_level(a), next_level(b), (height - 1) as nat);
    }
}

} // verus!
