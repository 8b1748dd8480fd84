//! Per-identity profile records: a nickname map and a visit history.
//!
//! A profile belongs to one identity. Its nickname map holds at most one
//! entry per target identity, updated last-write-wins; its history is an
//! append-only set of visited identities. The storage slot of a profile is
//! planned for a fixed number of entries; the mutation operations
//! deliberately leave that bound unenforced, so a caller that outgrows the
//! plan learns it from the storage layer, not from this module.

use vstd::prelude::*;

use crate::capacity::MAX_NICKNAME_LENGTH;
use crate::error::ChatError;
use crate::identity::Identity;

verus! {

/// One nickname entry: a target identity and the name given to it.
#[derive(Clone, Debug)]
pub struct NicknameEntry {
    pub wallet: Identity,
    pub nickname: String,
}

/// The mathematical value of a nickname entry.
#[verifier::ext_equal]
pub struct NicknameView {
    pub wallet: Identity,
    pub nickname: Seq<char>,
}

impl View for NicknameEntry {
    type V = NicknameView;

    open spec fn view(&self) -> NicknameView {
        NicknameView { wallet: self.wallet, nickname: self.nickname@ }
    }
}

/// The profile record of one identity.
#[derive(Clone, Debug)]
pub struct UserProfile {
    /// The identity the profile belongs to; fixed at creation.
    pub wallet: Identity,
    /// At most one entry per target identity.
    pub nicknames: Vec<NicknameEntry>,
    /// The identities this profile's owner has started conversations with.
    pub history: Vec<Identity>,
    /// Opaque slot version binding the record to its derived address.
    pub bump: u8,
}

/// The mathematical value of a profile record.
#[verifier::ext_equal]
pub struct UserProfileView {
    pub wallet: Identity,
    pub nicknames: Seq<NicknameView>,
    pub history: Seq<Identity>,
    pub bump: u8,
}

impl View for UserProfile {
    type V = UserProfileView;

    open spec fn view(&self) -> UserProfileView {
        UserProfileView {
            wallet: self.wallet,
            nicknames: self.nicknames@.map_values(|e: NicknameEntry| e@),
            history: self.history@,
            bump: self.bump,
        }
    }
}

/// No two entries of `s` name the same identity.
pub open spec fn nicknames_distinct(s: Seq<NicknameView>) -> bool {
    forall|i: int, j: int|
        #![trigger s[i].wallet, s[j].wallet]
        0 <= i < j < s.len() ==> s[i].wallet != s[j].wallet
}

/// No identity stands in `h` twice.
pub open spec fn ids_distinct(h: Seq<Identity>) -> bool {
    forall|i: int, j: int| #![trigger h[i], h[j]] 0 <= i < j < h.len() ==> h[i] != h[j]
}

impl UserProfileView {
    /// Well-formedness of a profile: nickname targets are unique, every
    /// nickname respects its bound, and the history holds no duplicates.
    pub open spec fn wf(self) -> bool {
        &&& nicknames_distinct(self.nicknames)
        &&& (forall|i: int|
            0 <= i < self.nicknames.len()
                ==> (#[trigger] self.nicknames[i]).nickname.len() <= MAX_NICKNAME_LENGTH)
        &&& ids_distinct(self.history)
    }
}

/// Whether some entry of `s` names `wallet`.
pub open spec fn has_nickname(s: Seq<NicknameView>, wallet: Identity) -> bool {
    exists|i: int| 0 <= i < s.len() && (#[trigger] s[i]).wallet == wallet
}

/// The index of the entry of `s` naming `wallet`; meaningful only when
/// `has_nickname(s, wallet)` holds and entries are unique.
pub open spec fn nickname_index(s: Seq<NicknameView>, wallet: Identity) -> int {
    choose|i: int| 0 <= i < s.len() && (#[trigger] s[i]).wallet == wallet
}

/// The nickname map after giving `wallet` the name `nickname`: the existing
/// entry is overwritten in place, or a new entry is appended.
pub open spec fn upsert(s: Seq<NicknameView>, wallet: Identity, nickname: Seq<char>) -> Seq<NicknameView> {
    if has_nickname(s, wallet) {
        s.update(nickname_index(s, wallet), NicknameView { wallet, nickname })
    } else {
        s.push(NicknameView { wallet, nickname })
    }
}

/// The history after visiting `target`: unchanged if already present,
/// extended by `target` otherwise.
pub open spec fn visit(history: Seq<Identity>, target: Identity) -> Seq<Identity> {
    if history.contains(target) {
        history
    } else {
        history.push(target)
    }
}

/// Exactly one entry of `s` names `wallet`, and that entry holds `nickname`.
pub open spec fn sole_entry(s: Seq<NicknameView>, wallet: Identity, nickname: Seq<char>) -> bool {
    &&& has_nickname(s, wallet)
    &&& forall|i: int|
        0 <= i < s.len() && (#[trigger] s[i]).wallet == wallet
            ==> s[i].nickname == nickname && i == nickname_index(s, wallet)
}

/// `target` stands in `h` at exactly one index.
pub open spec fn appears_once(h: Seq<Identity>, target: Identity) -> bool {
    &&& h.contains(target)
    &&& forall|i: int, j: int|
        #![trigger h[i], h[j]]
        0 <= i < h.len() && 0 <= j < h.len() && h[i] == target && h[j] == target ==> i == j
}

/// With unique entries, the entry of `s` naming `wallet` is at exactly one
/// index, and `nickname_index` picks it.
proof fn lemma_nickname_index_unique(s: Seq<NicknameView>, wallet: Identity)
    requires
        nicknames_distinct(s),
        has_nickname(s, wallet),
    ensures
        0 <= nickname_index(s, wallet) < s.len(),
        s[nickname_index(s, wallet)].wallet == wallet,
        forall|i: int|
            0 <= i < s.len() && (#[trigger] s[i]).wallet == wallet
                ==> i == nickname_index(s, wallet),
{
    let k = nickname_index(s, wallet);
    assert(0 <= k < s.len() && s[k].wallet == wallet);
    assert forall|i: int| 0 <= i < s.len() && (#[trigger] s[i]).wallet == wallet implies i == k by {
        if i < k {
            assert(s[i].wallet != s[k].wallet);
        } else if k < i {
            assert(s[k].wallet != s[i].wallet);
        }
    }
}

/// An upsert keeps the entries unique and leaves exactly one entry for the
/// written identity, holding the written name.
proof fn lemma_upsert_sole(s: Seq<NicknameView>, wallet: Identity, nickname: Seq<char>)
    requires
        nicknames_distinct(s),
    ensures
        nicknames_distinct(upsert(s, wallet, nickname)),
        sole_entry(upsert(s, wallet, nickname), wallet, nickname),
        upsert(s, wallet, nickname).len() >= s.len(),
{
    let u = upsert(s, wallet, nickname);
    if has_nickname(s, wallet) {
        lemma_nickname_index_unique(s, wallet);
        let k = nickname_index(s, wallet);
        assert(u == s.update(k, NicknameView { wallet, nickname }));
        assert(u[k].wallet == wallet);
        assert(has_nickname(u, wallet));
        assert forall|i: int, j: int|
            #![trigger u[i].wallet, u[j].wallet]
            0 <= i < j < u.len() implies u[i].wallet != u[j].wallet by {
            if i != k && j != k {
                assert(s[i].wallet != s[j].wallet);
            } else if i == k {
                assert(u[j].wallet == s[j].wallet);
                assert(s[j].wallet != wallet);
            } else {
                assert(u[i].wallet == s[i].wallet);
                assert(s[i].wallet != wallet);
            }
        }
        lemma_nickname_index_unique(u, wallet);
        assert(nickname_index(u, wallet) == k);
    } else {
        let k = s.len() as int;
        assert(u == s.push(NicknameView { wallet, nickname }));
        assert(u[k].wallet == wallet);
        assert(has_nickname(u, wallet));
        assert forall|i: int, j: int|
            #![trigger u[i].wallet, u[j].wallet]
            0 <= i < j < u.len() implies u[i].wallet != u[j].wallet by {
            if j < k {
                assert(s[i].wallet != s[j].wallet);
            } else {
                assert(j == k);
                assert(u[j].wallet == wallet);
                assert(!(0 <= i < s.len() && (s[i]).wallet == wallet));
            }
        }
        lemma_nickname_index_unique(u, wallet);
        assert(nickname_index(u, wallet) == k);
    }
}

/// Creates a fresh profile for `wallet`: no nicknames, no history.
pub fn init_user_profile(wallet: Identity, bump: u8) -> (profile: UserProfile)
    ensures
        profile@.wf(),
        profile@.wallet == wallet,
        profile@.nicknames =~= Seq::<NicknameView>::empty(),
        profile@.history =~= Seq::<Identity>::empty(),
        profile@.bump == bump,
{
    UserProfile { wallet, nicknames: Vec::new(), history: Vec::new(), bump }
}

/// Gives `wallet` the name `nickname` in the profile's nickname map,
/// last-write-wins. A nickname over the bound is rejected and the profile
/// is left unchanged.
pub fn set_nickname(profile: &mut UserProfile, wallet: Identity, nickname: String) -> (r: Result<(), ChatError>)
    requires
        old(profile)@.wf(),
    ensures
        final(profile)@.wf(),
        final(profile)@.wallet == old(profile)@.wallet,
        final(profile)@.history == old(profile)@.history,
        final(profile)@.bump == old(profile)@.bump,
        nickname@.len() > MAX_NICKNAME_LENGTH
            ==> r == Err::<(), ChatError>(ChatError::NicknameTooLong)
                && final(profile)@ == old(profile)@,
        nickname@.len() <= MAX_NICKNAME_LENGTH
            ==> r == Ok::<(), ChatError>(())
                && final(profile)@.nicknames =~= upsert(old(profile)@.nicknames, wallet, nickname@),
{
    if nickname.as_str().unicode_len() > MAX_NICKNAME_LENGTH {
        return Err(ChatError::NicknameTooLong);
    }
    let n = profile.nicknames.len();
    let mut i: usize = 0;
    while i < n
        invariant
            *profile == *old(profile),
            old(profile)@.wf(),
            nickname@.len() <= MAX_NICKNAME_LENGTH,
            n == profile.nicknames.len(),
            i <= n,
            forall|j: int| 0 <= j < i ==> (#[trigger] profile@.nicknames[j]).wallet != wallet,
        decreases n - i,
    {
        if profile.nicknames[i].wallet == wallet {
            proof {
                assert(profile@.nicknames[i as int].wallet == wallet);
                assert(has_nickname(profile@.nicknames, wallet));
                lemma_nickname_index_unique(profile@.nicknames, wallet);
                lemma_upsert_sole(profile@.nicknames, wallet, nickname@);
            }
            profile.nicknames[i] = NicknameEntry { wallet, nickname };
            proof {
                assert(profile@.nicknames =~= upsert(old(profile)@.nicknames, wallet, nickname@));
            }
            return Ok(());
        }
        i += 1;
    }
    proof {
        assert(!has_nickname(profile@.nicknames, wallet));
        lemma_upsert_sole(profile@.nicknames, wallet, nickname@);
    }
    profile.nicknames.push(NicknameEntry { wallet, nickname });
    proof {
        assert(profile@.nicknames =~= upsert(old(profile)@.nicknames, wallet, nickname@));
    }
    Ok(())
}

/// Appends `target` to the profile's visit history unless it is already
/// present: the history keeps set semantics, no duplicates.
pub fn record_visit(profile: &mut UserProfile, target: Identity)
    requires
        old(profile)@.wf(),
    ensures
        final(profile)@.wf(),
        final(profile)@.wallet == old(profile)@.wallet,
        final(profile)@.nicknames == old(profile)@.nicknames,
        final(profile)@.bump == old(profile)@.bump,
        final(profile)@.history =~= visit(old(profile)@.history, target),
{
    let n = profile.history.len();
    let mut i: usize = 0;
    while i < n
        invariant
            *profile == *old(profile),
            old(profile)@.wf(),
            n == profile.history.len(),
            i <= n,
            forall|j: int| 0 <= j < i ==> profile@.history[j] != target,
        decreases n - i,
    {
        if profile.history[i] == target {
            proof {
                assert(profile@.history.contains(target));
            }
            return;
        }
        i += 1;
    }
    proof {
        assert(!profile@.history.contains(target));
    }
    profile.history.push(target);
}

/// Setting a nickname for the same target twice is the same as setting the
/// second name alone, and leaves exactly one entry for the target, holding
/// the second name.
pub proof fn lemma_upsert_twice(s: Seq<NicknameView>, wallet: Identity, n1: Seq<char>, n2: Seq<char>)
    requires
        nicknames_distinct(s),
    ensures
        upsert(upsert(s, wallet, n1), wallet, n2) =~= upsert(s, wallet, n2),
        sole_entry(upsert(upsert(s, wallet, n1), wallet, n2), wallet, n2),
{
    let s1 = upsert(s, wallet, n1);
    let t = upsert(s1, wallet, n2);
    let u = upsert(s, wallet, n2);
    lemma_upsert_sole(s, wallet, n1);
    lemma_upsert_sole(s1, wallet, n2);
    lemma_nickname_index_unique(s1, wallet);
    if has_nickname(s, wallet) {
        lemma_nickname_index_unique(s, wallet);
        let k = nickname_index(s, wallet);
        assert(s1 == s.update(k, NicknameView { wallet, nickname: n1 }));
        assert(s1[k].wallet == wallet);
        assert(nickname_index(s1, wallet) == k);
        assert(t =~= u);
    } else {
        let k = s.len() as int;
        assert(s1 == s.push(NicknameView { wallet, nickname: n1 }));
        assert(s1[k].wallet == wallet);
        assert(nickname_index(s1, wallet) == k);
        assert(!has_nickname(s, wallet));
        assert(t =~= u);
    }
}

/// Visiting the same target twice is the same as visiting it once, and when
/// the history held no duplicates, the target then stands in it at exactly
/// one index.
pub proof fn lemma_visit_twice(history: Seq<Identity>, target: Identity)
    requires
        ids_distinct(history),
    ensures
        visit(visit(history, target), target) =~= visit(history, target),
        visit(history, target).contains(target),
        appears_once(visit(visit(history, target), target), target),
{
    let h1 = visit(history, target);
    if history.contains(target) {
        assert(h1.contains(target));
    } else {
        assert(h1[h1.len() - 1] == target);
        assert(h1.contains(target));
    }
    assert(visit(h1, target) == h1);
    assert forall|i: int, j: int|
        #![trigger h1[i], h1[j]]
        0 <= i < h1.len() && 0 <= j < h1.len() && h1[i] == target && h1[j] == target implies i == j by {
        if history.contains(target) {
            if i < j {
                assert(history[i] != history[j]);
            } else if j < i {
                assert(history[j] != history[i]);
            }
        } else {
            if i < j {
                if j < history.len() {
                    assert(history[i] != history[j]);
                } else {
                    assert(history[i] == target);
                    assert(history.contains(target));
                }
            } else if j < i {
                if i < history.len() {
                    assert(history[j] != history[i]);
                } else {
                    assert(history[j] == target);
                    assert(history.contains(target));
                }
            }
        }
    }
}

} // verus!
