//! A minimal two-party messaging store and per-identity profile registry.
//!
//! For an ordered pair of identities the library keeps a bounded,
//! FIFO-evicting message log; for each identity it keeps a nickname map and
//! a visited-identity history set. Records are addressed by a deterministic
//! key derived from a namespace tag and the identities involved.

mod address;
mod capacity;
mod chat;
mod error;
mod identity;
mod profile;

pub use address::chat_seeds;
pub use address::chat_tag;
pub use address::derive_chat_address;
pub use address::derive_profile_address;
pub use address::id_seed;
pub use address::le_byte;
pub use address::lemma_chat_seeds_injective;
pub use address::lemma_chat_seeds_order_sensitive;
pub use address::lemma_derive_deterministic;
pub use address::pda_found;
pub use address::pda_of;
pub use address::profile_seeds;
pub use address::profile_tag;
pub use capacity::CHAT_ACCOUNT_SIZE;
pub use capacity::MAX_IPFS_HASH_LENGTH;
pub use capacity::MAX_MESSAGES;
pub use capacity::MAX_NICKNAME_LENGTH;
pub use capacity::MESSAGE_ENTRY_SIZE;
pub use capacity::PLANNED_PROFILE_ENTRIES;
pub use capacity::USER_PROFILE_SIZE;
pub use chat::ChatAccount;
pub use chat::ChatAccountView;
pub use chat::MessageEntry;
pub use chat::MessageView;
pub use chat::appended;
pub use chat::init_chat;
pub use chat::is_participant;
pub use chat::is_participant_of;
pub use chat::latest_window;
pub use chat::lemma_fifo_keeps_latest;
pub use chat::replay;
pub use chat::send_message;
pub use error::ChatError;
pub use identity::Identity;
pub use profile::NicknameEntry;
pub use profile::NicknameView;
pub use profile::UserProfile;
pub use profile::UserProfileView;
pub use profile::appears_once;
pub use profile::has_nickname;
pub use profile::ids_distinct;
pub use profile::init_user_profile;
pub use profile::lemma_upsert_twice;
pub use profile::lemma_visit_twice;
pub use profile::nickname_index;
pub use profile::nicknames_distinct;
pub use profile::record_visit;
pub use profile::set_nickname;
pub use profile::sole_entry;
pub use profile::upsert;
pub use profile::visit;
