use chat::ChatError;
use chat::Identity;
use chat::UserProfile;
use chat::init_user_profile;
use chat::record_visit;
use chat::set_nickname;

fn alice() -> Identity {
    Identity::new(1, 10)
}

fn bob() -> Identity {
    Identity::new(2, 20)
}

fn carol() -> Identity {
    Identity::new(3, 30)
}

fn nick_pairs(profile: &UserProfile) -> Vec<(Identity, String)> {
    profile
        .nicknames
        .iter()
        .map(|e| (e.wallet, e.nickname.clone()))
        .collect()
}

#[test]
fn fresh_profile_is_empty() {
    let profile = init_user_profile(alice(), 9);
    assert_eq!(profile.wallet, alice());
    assert_eq!(profile.nicknames.len(), 0);
    assert_eq!(profile.history.len(), 0);
    assert_eq!(profile.bump, 9);
}

#[test]
fn set_nickname_on_fresh_profile() {
    let mut profile = init_user_profile(alice(), 9);
    let r = set_nickname(&mut profile, bob(), String::from("Bobby"));
    assert_eq!(r, Ok(()));
    assert_eq!(nick_pairs(&profile), vec![(bob(), String::from("Bobby"))]);
}

#[test]
fn set_nickname_twice_keeps_one_entry_with_second_name() {
    let mut profile = init_user_profile(alice(), 9);
    set_nickname(&mut profile, bob(), String::from("first")).unwrap();
    set_nickname(&mut profile, bob(), String::from("second")).unwrap();
    assert_eq!(nick_pairs(&profile), vec![(bob(), String::from("second"))]);
}

#[test]
fn set_nickname_keeps_other_entries() {
    let mut profile = init_user_profile(alice(), 9);
    set_nickname(&mut profile, bob(), String::from("b")).unwrap();
    set_nickname(&mut profile, carol(), String::from("c")).unwrap();
    set_nickname(&mut profile, bob(), String::from("b2")).unwrap();
    assert_eq!(
        nick_pairs(&profile),
        vec![(bob(), String::from("b2")), (carol(), String::from("c"))]
    );
}

#[test]
fn overlong_nickname_rejected_and_profile_unchanged() {
    let mut profile = init_user_profile(alice(), 9);
    set_nickname(&mut profile, bob(), String::from("kept")).unwrap();
    let before = nick_pairs(&profile);
    let r = set_nickname(&mut profile, bob(), "n".repeat(33));
    assert_eq!(r, Err(ChatError::NicknameTooLong));
    assert_eq!(nick_pairs(&profile), before);
    assert_eq!(profile.history.len(), 0);
}

#[test]
fn nickname_at_bound_accepted() {
    let mut profile = init_user_profile(alice(), 9);
    let name = "n".repeat(32);
    assert_eq!(set_nickname(&mut profile, bob(), name.clone()), Ok(()));
    assert_eq!(nick_pairs(&profile), vec![(bob(), name)]);
}

#[test]
fn record_visit_twice_keeps_target_once() {
    let mut profile = init_user_profile(alice(), 9);
    record_visit(&mut profile, bob());
    record_visit(&mut profile, bob());
    assert_eq!(profile.history, vec![bob()]);
}

#[test]
fn record_visit_keeps_insertion_order() {
    let mut profile = init_user_profile(alice(), 9);
    record_visit(&mut profile, bob());
    record_visit(&mut profile, carol());
    record_visit(&mut profile, bob());
    assert_eq!(profile.history, vec![bob(), carol()]);
}
