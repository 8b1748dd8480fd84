//! Capacity constants and the fixed byte footprint planned for each record.
//!
//! The footprint of a record is computed once, from the declared capacity
//! constants, so the host environment can pre-allocate exactly that much
//! storage. The constants are part of the persisted layout: changing them
//! changes the footprint of every new record.

use vstd::prelude::*;

verus! {

/// Hard cap on the number of messages a conversation keeps.
pub const MAX_MESSAGES: usize = 80;

/// Longest accepted content pointer, in characters.
pub const MAX_IPFS_HASH_LENGTH: usize = 64;

/// Longest accepted nickname, in characters.
pub const MAX_NICKNAME_LENGTH: usize = 32;

/// Planned number of nickname and history entries per profile.
///
/// This bound only sizes the profile record's storage slot; the mutation
/// operations deliberately do not enforce it, so the plan and the mutations
/// must be kept in step by hand.
pub const PLANNED_PROFILE_ENTRIES: usize = 50;

/// Bytes reserved for one message entry: a 32-byte sender identity, an
/// 8-byte timestamp, and a length-prefixed content pointer.
pub const MESSAGE_ENTRY_SIZE: usize = 32 + 8 + 4 + MAX_IPFS_HASH_LENGTH;

/// Bytes reserved for a conversation record: an 8-byte discriminator, two
/// 32-byte participants, a length-prefixed message list at full capacity,
/// and the slot-version byte.
pub const CHAT_ACCOUNT_SIZE: usize = 8 + (32 * 2) + 4 + (MAX_MESSAGES * MESSAGE_ENTRY_SIZE) + 1;

/// Bytes reserved for a profile record: an 8-byte discriminator, the 32-byte
/// owner identity, the nickname list and the history list at their planned
/// capacity, and the slot-version byte.
pub const USER_PROFILE_SIZE: usize = 8 + 32 + 4
    + (PLANNED_PROFILE_ENTRIES * (32 + 4 + MAX_NICKNAME_LENGTH)) + 4
    + (PLANNED_PROFILE_ENTRIES * 32) + 1;

} // verus!
