use chat::Identity;
use chat::derive_chat_address;
use chat::derive_profile_address;

use solana_pubkey::Pubkey;

fn program_id() -> Vec<u8> {
    (0u8..32u8).collect()
}

fn alice() -> Identity {
    Identity::new(1, 10)
}

fn bob() -> Identity {
    Identity::new(2, 20)
}

fn id_bytes(id: &Identity) -> Vec<u8> {
    let mut bytes = Vec::new();
    bytes.extend_from_slice(&id.lo.to_le_bytes());
    bytes.extend_from_slice(&id.hi.to_le_bytes());
    bytes
}

#[test]
fn derivation_is_deterministic() {
    let pid = program_id();
    let first = derive_chat_address(&pid, &alice(), &bob()).unwrap();
    let second = derive_chat_address(&pid, &alice(), &bob()).unwrap();
    assert_eq!(first, second);
    let p1 = derive_profile_address(&pid, &alice()).unwrap();
    let p2 = derive_profile_address(&pid, &alice()).unwrap();
    assert_eq!(p1, p2);
}

#[test]
fn derivation_is_order_sensitive() {
    let pid = program_id();
    let (ab, _) = derive_chat_address(&pid, &alice(), &bob()).unwrap();
    let (ba, _) = derive_chat_address(&pid, &bob(), &alice()).unwrap();
    assert_ne!(ab, ba);
}

#[test]
fn chat_and_profile_namespaces_differ() {
    let pid = program_id();
    let (conversation, _) = derive_chat_address(&pid, &alice(), &bob()).unwrap();
    let (profile, _) = derive_profile_address(&pid, &alice()).unwrap();
    assert_ne!(conversation, profile);
}

#[test]
fn chat_derivation_matches_program_derived_addressing() {
    let pid = program_id();
    let (addr, bump) = derive_chat_address(&pid, &alice(), &bob()).unwrap();
    assert_eq!(addr.len(), 32);
    let mut pid_arr = [0u8; 32];
    pid_arr.copy_from_slice(&pid);
    let a = id_bytes(&alice());
    let b = id_bytes(&bob());
    let (expected, expected_bump) = Pubkey::try_find_program_address(
        &[b"chat", a.as_slice(), b.as_slice()],
        &Pubkey::new_from_array(pid_arr),
    )
    .unwrap();
    assert_eq!(addr, expected.to_bytes().to_vec());
    assert_eq!(bump, expected_bump);
}

#[test]
fn profile_derivation_matches_program_derived_addressing() {
    let pid = program_id();
    let (addr, bump) = derive_profile_address(&pid, &alice()).unwrap();
    let mut pid_arr = [0u8; 32];
    pid_arr.copy_from_slice(&pid);
    let a = id_bytes(&alice());
    let (expected, expected_bump) = Pubkey::try_find_program_address(
        &[b"profile", a.as_slice()],
        &Pubkey::new_from_array(pid_arr),
    )
    .unwrap();
    assert_eq!(addr, expected.to_bytes().to_vec());
    assert_eq!(bump, expected_bump);
}

#[test]
fn derived_key_is_not_an_input() {
    let pid = program_id();
    let (addr, _) = derive_chat_address(&pid, &alice(), &bob()).unwrap();
    assert_ne!(addr, pid);
    assert_ne!(addr, id_bytes(&alice()));
    assert_ne!(addr, id_bytes(&bob()));
}
