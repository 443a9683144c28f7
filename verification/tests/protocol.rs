use covidcotra::auth::Identity;
use covidcotra::authority::Authority;
use covidcotra::contactlog::ContactLog;

#[test]
fn identity_hash_consistent() {
    let id = Identity::unique();
    assert_eq!(&id.unique_id().hash(), id.hashed_id());

    // a round trip through the textual form re-derives the same hash
    let text = id.to_text();
    let back = Identity::parse_text(&text).unwrap();
    assert_eq!(back.unique_id(), id.unique_id());
    assert_eq!(back.hashed_id(), id.hashed_id());
}

#[test]
fn hash_matches_direct_kdf() {
    let id = Identity::unique();
    let mut expected = [0u8; 32];
    pbkdf2::pbkdf2_hmac::<sha2::Sha256>(
        id.unique_id().as_bytes(),
        b"nX\xdfu\x1au=\xd7\xe3d.\x1c\xb2\x11P\x0b",
        50000,
        &mut expected,
    );
    assert_eq!(id.hashed_id().as_bytes().as_slice(), &expected[..]);
}

#[test]
fn share_identities_reveal_and_are_distinct() {
    let authority = Authority::unique();
    let user = Identity::unique();
    let s1 = user.new_share_id(authority.public_key());
    let s2 = user.new_share_id(authority.public_key());
    // sealing is probabilistic: two envelopes of one identity differ
    assert_ne!(s1.as_bytes(), s2.as_bytes());
    let u1 = s1.reveal_identity(authority.secret_key()).unwrap();
    let u2 = s2.reveal_identity(authority.secret_key()).unwrap();
    assert_eq!(&u1, user.unique_id());
    assert_eq!(&u2, user.unique_id());
}

#[test]
fn reveal_with_wrong_key_fails() {
    let authority = Authority::unique();
    let other = Authority::unique();
    let user = Identity::unique();
    let share = user.new_share_id(authority.public_key());
    assert!(share.reveal_identity(other.secret_key()).is_none());
}

#[test]
fn decode_with_wrong_key_fails() {
    let authority = Authority::unique();
    let other = Authority::unique();
    let user = Identity::unique();
    let mut log = ContactLog::new();
    log.add(&user.new_share_id(authority.public_key()));
    assert!(log.decode(other.secret_key()).is_none());
}

#[test]
fn re_adding_overwrites_timestamp() {
    let authority = Authority::unique();
    let user = Identity::unique();
    let share = user.new_share_id(authority.public_key());
    let mut log = ContactLog::new();
    log.add_at(&share, 100);
    log.add_at(&share, 200);
    assert_eq!(log.len(), 1);
    let decoded = log.decode(authority.secret_key()).unwrap();
    assert_eq!(decoded.len(), 1);
    assert_eq!(&decoded[0].0, user.unique_id());
    assert_eq!(decoded[0].1, 200);
}

#[test]
fn decode_deduplicates_rotated_envelopes() {
    let authority = Authority::unique();
    let user = Identity::unique();
    let s1 = user.new_share_id(authority.public_key());
    let s2 = user.new_share_id(authority.public_key());
    let mut log = ContactLog::new();
    log.add_at(&s1, 10);
    log.add_at(&s2, 20);
    assert_eq!(log.len(), 2);
    let decoded = log.decode(authority.secret_key()).unwrap();
    assert_eq!(decoded.len(), 1);
    assert_eq!(&decoded[0].0, user.unique_id());
    assert_eq!(decoded[0].1, 20);
}

#[test]
fn decode_keeps_distinct_identities_apart() {
    let authority = Authority::unique();
    let user_a = Identity::unique();
    let user_b = Identity::unique();
    let mut log = ContactLog::new();
    log.add_at(&user_a.new_share_id(authority.public_key()), 1);
    log.add_at(&user_b.new_share_id(authority.public_key()), 2);
    let decoded = log.decode(authority.secret_key()).unwrap();
    assert_eq!(decoded.len(), 2);
    for (uid, ts) in &decoded {
        if uid == user_a.unique_id() {
            assert_eq!(*ts, 1);
        } else {
            assert_eq!(uid, user_b.unique_id());
            assert_eq!(*ts, 2);
        }
    }
}

#[test]
fn empty_log_decodes_empty() {
    let authority = Authority::unique();
    let log = ContactLog::new();
    assert_eq!(log.decode(authority.secret_key()).unwrap().len(), 0);
}

#[test]
fn add_uses_clock_and_overwrites() {
    let authority = Authority::unique();
    let user = Identity::unique();
    let share = user.new_share_id(authority.public_key());
    let mut log = ContactLog::new();
    log.add(&share);
    log.add(&share);
    assert_eq!(log.len(), 1);
    let decoded = log.decode(authority.secret_key()).unwrap();
    assert_eq!(decoded.len(), 1);
    assert_eq!(&decoded[0].0, user.unique_id());
}
