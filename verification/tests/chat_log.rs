use chat::ChatAccount;
use chat::ChatError;
use chat::Identity;
use chat::MAX_MESSAGES;
use chat::UserProfile;
use chat::init_chat;
use chat::init_user_profile;
use chat::is_participant;
use chat::send_message;

fn alice() -> Identity {
    Identity::new(1, 10)
}

fn bob() -> Identity {
    Identity::new(2, 20)
}

fn eve() -> Identity {
    Identity::new(3, 30)
}

fn fresh_chat() -> (ChatAccount, UserProfile) {
    let mut profile = init_user_profile(alice(), 7);
    let chat = init_chat(alice(), bob(), 3, &mut profile);
    (chat, profile)
}

fn snapshot(c: &ChatAccount) -> (Vec<(u128, u128)>, Vec<(String, i64, u128, u128)>, u8) {
    let participants = c.participants.iter().map(|p| (p.lo, p.hi)).collect();
    let messages = c
        .messages
        .iter()
        .map(|m| (m.ipfs_hash.clone(), m.timestamp, m.sender.lo, m.sender.hi))
        .collect();
    (participants, messages, c.bump)
}

#[test]
fn init_chat_sets_participants_in_order() {
    let (chat, profile) = fresh_chat();
    assert_eq!(chat.participants[0], alice());
    assert_eq!(chat.participants[1], bob());
    assert_eq!(chat.messages.len(), 0);
    assert_eq!(chat.bump, 3);
    assert_eq!(profile.history, vec![bob()]);
}

#[test]
fn init_chat_records_visit_only_once() {
    let mut profile = init_user_profile(alice(), 7);
    let _first = init_chat(alice(), bob(), 3, &mut profile);
    let _second = init_chat(alice(), bob(), 4, &mut profile);
    assert_eq!(profile.history, vec![bob()]);
}

#[test]
fn send_message_appends_entry() {
    let (mut chat, _profile) = fresh_chat();
    let r = send_message(&mut chat, alice(), String::from("pointer"), 1000);
    assert_eq!(r, Ok(()));
    assert_eq!(chat.messages.len(), 1);
    assert_eq!(chat.messages[0].sender, alice());
    assert_eq!(chat.messages[0].ipfs_hash, "pointer");
    assert_eq!(chat.messages[0].timestamp, 1000);
}

#[test]
fn both_participants_may_send() {
    let (mut chat, _profile) = fresh_chat();
    assert_eq!(send_message(&mut chat, alice(), String::from("a"), 1), Ok(()));
    assert_eq!(send_message(&mut chat, bob(), String::from("b"), 2), Ok(()));
    assert_eq!(chat.messages.len(), 2);
    assert_eq!(chat.messages[0].sender, alice());
    assert_eq!(chat.messages[1].sender, bob());
}

#[test]
fn is_participant_distinguishes_outsiders() {
    let (chat, _profile) = fresh_chat();
    assert!(is_participant(alice(), &chat));
    assert!(is_participant(bob(), &chat));
    assert!(!is_participant(eve(), &chat));
}

#[test]
fn unauthorized_sender_leaves_record_unchanged() {
    let (mut chat, _profile) = fresh_chat();
    send_message(&mut chat, alice(), String::from("kept"), 5).unwrap();
    let before = snapshot(&chat);
    let r = send_message(&mut chat, eve(), String::from("intruder"), 6);
    assert_eq!(r, Err(ChatError::Unauthorized));
    assert_eq!(snapshot(&chat), before);
}

#[test]
fn overlong_pointer_rejected_and_record_unchanged() {
    let (mut chat, _profile) = fresh_chat();
    send_message(&mut chat, alice(), String::from("kept"), 5).unwrap();
    let before = snapshot(&chat);
    let long_hash = "x".repeat(65);
    let r = send_message(&mut chat, alice(), long_hash, 6);
    assert_eq!(r, Err(ChatError::HashTooLong));
    assert_eq!(snapshot(&chat), before);
}

#[test]
fn pointer_at_bound_accepted() {
    let (mut chat, _profile) = fresh_chat();
    let hash = "x".repeat(64);
    assert_eq!(send_message(&mut chat, alice(), hash.clone(), 7), Ok(()));
    assert_eq!(chat.messages[0].ipfs_hash, hash);
}

#[test]
fn overlong_pointer_rejected_even_for_outsider() {
    let (mut chat, _profile) = fresh_chat();
    let r = send_message(&mut chat, eve(), "x".repeat(65), 6);
    assert_eq!(r, Err(ChatError::HashTooLong));
}

#[test]
fn log_never_exceeds_capacity() {
    let (mut chat, _profile) = fresh_chat();
    for i in 0..200i64 {
        let r = send_message(&mut chat, alice(), format!("h{}", i), i);
        assert_eq!(r, Ok(()));
        assert!(chat.messages.len() <= MAX_MESSAGES);
    }
    assert_eq!(chat.messages.len(), MAX_MESSAGES);
}

#[test]
fn eviction_keeps_most_recent_in_order() {
    let (mut chat, _profile) = fresh_chat();
    for i in 0..81i64 {
        send_message(&mut chat, alice(), format!("h{}", i), i).unwrap();
    }
    assert_eq!(chat.messages.len(), 80);
    assert_eq!(chat.messages[0].ipfs_hash, "h1");
    assert_eq!(chat.messages[79].ipfs_hash, "h80");
    for i in 0..80i64 {
        assert_eq!(chat.messages[i as usize].ipfs_hash, format!("h{}", i + 1));
        assert_eq!(chat.messages[i as usize].timestamp, i + 1);
    }
}
