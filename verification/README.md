# Provable fairness system

Provably fair winner selection for giveaways on Solana, verified with Verus.

An organizer commits to a participant list by its Merkle root and to a draw by the current
slot. After a delay of 150 slots the hash of that slot and the participant root give the
randomness of the draw: `keccak256(slot_hash || participant_root)`. It drives a
Fisher-Yates shuffle without modulo bias, which anyone can run again.

## Layout

- `src/`: the library. Every function states in its contract what it returns and changes.
  - `program.rs`: the instructions; `laws.rs`: what holds whatever instructions come
  - `giveaway.rs`, `error.rs`: accounts, giveaways and errors
  - `fees.rs`, `instructions.rs`, `instruction_laws.rs`: the platform fee and its payment
  - `selection.rs`, `selection_laws.rs`: selecting winners
  - `randomness.rs`, `slot_hashes.rs`, `merkle.rs`: randomness, slot hashes, Merkle roots
  - `bytes.rs`, `keccak.rs`, `constants.rs`: what the others build on
- `app/`: the Anchor program around the library: account contexts, sysvars, events, logs
- `tests/`: tests of the library

## What is trusted

One function: `keccak_hash` in `src/keccak.rs`, which calls `solana_keccak_hasher::hash`.
Its digest is named `keccak256`; nothing is claimed of it but that it depends on the hashed
bytes alone.

## Selections that do not end

A draw goes through the hashes of its seed until a word falls below the largest multiple of
the number of participants that are left. Nothing proves that such a word ever comes.
`select_winner_indices` and `reveal_draw` require it; `select_winner_indices_within` and
`reveal_draw_within` test it, up to a number of hashes per draw.
