//! The slot hashes of the chain: a count of eight bytes, then entries of a slot number
//! (eight bytes) and the hash of that slot (32 bytes).

use crate::bytes;
use vstd::prelude::*;

verus! {

/// Size of the count in front of the entries.
const HEADER_SIZE: usize = 8;

/// Size of one entry.
const ENTRY_SIZE: usize = 40;

/// The number of entries: as many as the count says, as far as the data holds them.
pub open spec fn entry_count(data: Seq<u8>) -> int {
    if data.len() < 8 {
        0
    } else if bytes::le_u64(data, 0) < (data.len() - 8) / 40 {
        bytes::le_u64(data, 0)
    } else {
        (data.len() - 8) / 40
    }
}

/// The slot number of entry `i`.
pub open spec fn entry_slot(data: Seq<u8>, i: int) -> int {
    bytes::le_u64(data, 8 + 40 * i)
}

/// The hash of entry `i`.
pub open spec fn entry_hash(data: Seq<u8>, i: int) -> Seq<u8> {
    bytes::hash_at(data, 16 + 40 * i)
}

/// Entry `i` is the first one for `slot`.
pub open spec fn is_first_entry_for(data: Seq<u8>, slot: int, i: int) -> bool {
    &&& 0 <= i < entry_count(data)
    &&& entry_slot(data, i) == slot
    &&& forall|k: int| 0 <= k < i ==> #[trigger] entry_slot(data, k) != slot
}

/// The hash of the first entry for `slot`, if there is one.
pub open spec fn slot_hash_of(data: Seq<u8>, slot: int) -> Option<Seq<u8>> {
    if exists|i: int| is_first_entry_for(data, slot, i) {
        Some(entry_hash(data, choose|i: int| is_first_entry_for(data, slot, i)))
    } else {
        None
    }
}

/// The first entry for a slot is the only first one.
proof fn lemma_first_entry(data: Seq<u8>, slot: int, i: int)
    requires
        is_first_entry_for(data, slot, i),
    ensures
        slot_hash_of(data, slot) == Some(entry_hash(data, i)),
{
    let j = choose|j: int| is_first_entry_for(data, slot, j);
    assert(is_first_entry_for(data, slot, j));
    if j < i {
        assert(entry_slot(data, j) != slot);
    } else if i < j {
        assert(entry_slot(data, i) != slot);
    }
}

/// Finds the hash of a slot in the slot hashes data.
pub fn find_slot_hash(data: &[u8], target_slot: u64) -> (found: Option<[u8; 32]>)
    ensures
        found is Some <==> slot_hash_of(data@, target_slot as int) is Some,
        found matches Some(hash) ==> slot_hash_of(data@, target_slot as int) == Some(hash@),
{
    if data.len() < HEADER_SIZE {
        return None;
    }
    let len: u64 = bytes::read_u64(data, 0);
    let mut i: u64 = 0;
    let mut offset: usize = HEADER_SIZE;
    while i < len
        invariant
            data.len() >= 8,
            len == bytes::le_u64(data@, 0),
            i <= len,
            offset <= data.len(),
            offset == 8 + 40 * i,
            i <= entry_count(data@),
            forall|k: int| 0 <= k < i ==> #[trigger] entry_slot(data@, k) != target_slot,
        decreases len - i,
    {
        if data.len() - offset < ENTRY_SIZE {
            assert(entry_count(data@) == i);
            return None;
        }
        assert(i < entry_count(data@));
        let slot: u64 = bytes::read_u64(data, offset);
        if slot == target_slot {
            proof {
                assert(entry_slot(data@, i as int) == target_slot);
                lemma_first_entry(data@, target_slot as int, i as int);
            }
            return Some(bytes::read_hash(data, offset + 8));
        }
        assert(entry_slot(data@, i as int) != target_slot);
        offset = offset + ENTRY_SIZE;
        i = i + 1;
    }
    None
}

/// The entries one after the other.
pub open spec fn encoded_entries(entries: Seq<(u64, [u8; 32])>) -> Seq<u8>
    decreases entries.len(),
{
    if entries.len() == 0 {
        Seq::empty()
    } else {
        encoded_entries(entries.drop_last()) + bytes::u64_bytes(entries.last().0)
            + entries.last().1@
    }
}

/// The slot hashes data that holds `entries`.
pub open spec fn encoded(entries: Seq<(u64, [u8; 32])>) -> Seq<u8> {
    bytes::u64_bytes(entries.len() as u64) + encoded_entries(entries)
}

/// Where entry `i` stands among the encoded entries.
proof fn lemma_encoded_entry(entries: Seq<(u64, [u8; 32])>, i: int)
    ensures
        encoded_entries(entries).len() == 40 * entries.len(),
        0 <= i < entries.len() ==> {
            &&& encoded_entries(entries).subrange(40 * i, 40 * i + 8) == bytes::u64_bytes(
                entries[i].0,
            )
            &&& encoded_entries(entries).subrange(40 * i + 8, 40 * i + 40) == entries[i].1@
        },
    decreases entries.len(),
{
    if entries.len() > 0 {
        let fewer = entries.drop_last();
        lemma_encoded_entry(fewer, i);
        let all = encoded_entries(entries);
        let before = encoded_entries(fewer);
        if i == entries.len() - 1 {
            assert(all.subrange(40 * i, 40 * i + 8) =~= bytes::u64_bytes(entries[i].0));
            assert(all.subrange(40 * i + 8, 40 * i + 40) =~= entries[i].1@);
        } else if 0 <= i < entries.len() {
            assert(all.subrange(40 * i, 40 * i + 8) =~= before.subrange(40 * i, 40 * i + 8));
            assert(all.subrange(40 * i + 8, 40 * i + 40) =~= before.subrange(
                40 * i + 8,
                40 * i + 40,
            ));
        }
    }
}

/// Looking a slot up in the data that holds a list of entries gives the hash of its first
/// entry in the list, and nothing where the list has none.
pub proof fn lookup_gives_back_what_was_stored(entries: Seq<(u64, [u8; 32])>, slot: u64)
    requires
        entries.len() <= u64::MAX,
    ensures
        forall|i: int|
            0 <= i < entries.len() && (#[trigger] entries[i]).0 == slot && (forall|k: int|
                0 <= k < i ==> (#[trigger] entries[k]).0 != slot) ==> slot_hash_of(
                encoded(entries),
                slot as int,
            ) == Some(entries[i].1@),
        (forall|i: int| 0 <= i < entries.len() ==> (#[trigger] entries[i]).0 != slot)
            ==> slot_hash_of(encoded(entries), slot as int) is None,
{
    let data = encoded(entries);
    let list = encoded_entries(entries);
    lemma_encoded_entry(entries, 0);
    assert(data.subrange(0, 8) =~= bytes::u64_bytes(entries.len() as u64));
    bytes::lemma_u64_bytes_read_back(data, 0, entries.len() as u64);
    assert(entry_count(data) == entries.len());
    assert forall|i: int| 0 <= i < entries.len() implies #[trigger] entry_slot(data, i)
        == entries[i].0 && entry_hash(data, i) == entries[i].1@ by {
        lemma_encoded_entry(entries, i);
        assert(data.subrange(8 + 40 * i, 8 + 40 * i + 8) =~= list.subrange(40 * i, 40 * i + 8));
        bytes::lemma_u64_bytes_read_back(data, 8 + 40 * i, entries[i].0);
        assert(entry_hash(data, i) =~= list.subrange(40 * i + 8, 40 * i + 40));
    }
    assert forall|i: int|
        0 <= i < entries.len() && (#[trigger] entries[i]).0 == slot && (forall|k: int|
            0 <= k < i ==> (#[trigger] entries[k]).0 != slot) implies slot_hash_of(
        data,
        slot as int,
    ) == Some(entries[i].1@) by {
        assert(entry_slot(data, i) == slot);
        assert forall|k: int| 0 <= k < i implies #[trigger] entry_slot(data, k) != slot by {
            assert(entries[k].0 != slot);
        }
        lemma_first_entry(data, slot as int, i);
    }
    if forall|i: int| 0 <= i < entries.len() ==> (#[trigger] entries[i]).0 != slot {
        if slot_hash_of(data, slot as int) is Some {
            let i = choose|i: int| is_first_entry_for(data, slot as int, i);
            assert(entry_slot(data, i) == entries[i].0);
        }
    }
}

/// Looking a slot up in any data: the count in front says how many entries of 40 bytes
/// follow, as far as the data goes. The hash is that of the first entry with the slot:
/// the 32 bytes behind its slot number. Where no entry has the slot there is none.
pub proof fn lookups_take_the_first_entry_of_the_slot(data: Seq<u8>, slot: u64, slots: Seq<u64>)
    requires
        data.len() < 8 ==> slots.len() == 0,
        data.len() >= 8 ==> {
            &&& slots.len() <= bytes::le_u64(data, 0)
            &&& 8 + 40 * slots.len() <= data.len()
            &&& slots.len() == bytes::le_u64(data, 0) || 8 + 40 * (slots.len() + 1) > data.len()
        },
        forall|k: int| 0 <= k < slots.len() ==> #[trigger] slots[k] == bytes::le_u64(data, 8 + 40 * k),
    ensures
        forall|i: int|
            0 <= i < slots.len() && #[trigger] slots[i] == slot && (forall|k: int|
                0 <= k < i ==> #[trigger] slots[k] != slot) ==> slot_hash_of(data, slot as int)
                == Some(data.subrange(16 + 40 * i, 48 + 40 * i)),
        (forall|i: int| 0 <= i < slots.len() ==> #[trigger] slots[i] != slot) <==> slot_hash_of(
            data,
            slot as int,
        ) is None,
{
    assert(entry_count(data) == slots.len());
    assert forall|i: int|
        0 <= i < slots.len() && #[trigger] slots[i] == slot && (forall|k: int|
            0 <= k < i ==> #[trigger] slots[k] != slot) implies slot_hash_of(data, slot as int)
        == Some(data.subrange(16 + 40 * i, 48 + 40 * i)) by {
        assert forall|k: int| 0 <= k < i implies #[trigger] entry_slot(data, k) != slot by {
            assert(slots[k] != slot);
        }
        lemma_first_entry(data, slot as int, i);
    }
    if slot_hash_of(data, slot as int) is Some {
        let i = choose|i: int| is_first_entry_for(data, slot as int, i);
        assert(slots[i] == slot);
    } else if exists|i: int| 0 <= i < slots.len() && #[trigger] slots[i] == slot {
        let i = choose|i: int| 0 <= i < slots.len() && #[trigger] slots[i] == slot;
        let first = lemma_earliest(slots, slot, i);
        assert(slots[first] == slot);
    }
}

/// The earliest place of a slot among slots that hold it.
proof fn lemma_earliest(slots: Seq<u64>, slot: u64, i: int) -> (first: int)
    requires
        0 <= i < slots.len(),
        slots[i] == slot,
    ensures
        0 <= first <= i,
        slots[first] == slot,
        forall|k: int| 0 <= k < first ==> #[trigger] slots[k] != slot,
    decreases i,
{
    if exists|k: int| 0 <= k < i && #[trigger] slots[k] == slot {
        let k = choose|k: int| 0 <= k < i && #[trigger] slots[k] == slot;
        lemma_earliest(slots, slot, k)
    } else {
        i
    }
}

} // verus!
