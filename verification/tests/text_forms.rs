use covidcotra::auth::{HashedIdentity, Identity, ShareIdentity, UniqueIdentity};
use covidcotra::authority::Authority;
use covidcotra::crypto::{PublicKey, SecretKey};
use covidcotra::utils::{b64_decode_bytes, b64_encode_bytes};

#[test]
fn base64_known_vectors() {
    assert_eq!(b64_encode_bytes(&vec![77, 97, 110]), b"TWFu".to_vec());
    assert_eq!(b64_encode_bytes(&vec![77, 97]), b"TWE=".to_vec());
    assert_eq!(b64_encode_bytes(&vec![77]), b"TQ==".to_vec());
    assert_eq!(b64_encode_bytes(&Vec::new()), Vec::<u8>::new());
    assert_eq!(
        b64_encode_bytes(&vec![0xff, 0xef, 0xbe, 0x01]),
        b"/+++AQ==".to_vec()
    );
}

#[test]
fn base64_decode_known_vectors() {
    assert_eq!(b64_decode_bytes(b"TWFu").unwrap(), vec![77, 97, 110]);
    assert_eq!(b64_decode_bytes(b"TWE=").unwrap(), vec![77, 97]);
    assert_eq!(b64_decode_bytes(b"TQ==").unwrap(), vec![77]);
    assert_eq!(b64_decode_bytes(b"").unwrap(), Vec::<u8>::new());
    assert!(b64_decode_bytes(b"TWF").is_none());
    assert!(b64_decode_bytes(b"T===").is_none());
    assert!(b64_decode_bytes(b"TQ==TQ==").is_none());
    assert!(b64_decode_bytes(b"!@#$").is_none());
}

#[test]
fn base64_round_trip_all_lengths() {
    for len in 0..32usize {
        let bytes: Vec<u8> = (0..len as u8).map(|b| b.wrapping_mul(37)).collect();
        let encoded = b64_encode_bytes(&bytes);
        assert_eq!(b64_decode_bytes(&encoded).unwrap(), bytes);
    }
}

#[test]
fn public_key_text_round_trip() {
    let authority = Authority::unique();
    let text = authority.public_key().to_text();
    let parsed = PublicKey::parse_text(&text).unwrap();
    assert_eq!(parsed.as_bytes(), authority.public_key().as_bytes());
    assert_eq!(&parsed, authority.public_key());
}

#[test]
fn secret_key_text_round_trip() {
    let authority = Authority::unique();
    let text = authority.secret_key().to_text();
    let parsed = SecretKey::parse_text(&text).unwrap();
    assert_eq!(parsed.as_bytes(), authority.secret_key().as_bytes());
}

#[test]
fn malformed_key_text_rejected() {
    assert!(PublicKey::parse_text("not base64!!").is_err());
    // valid base64, but not 32 bytes
    assert!(PublicKey::parse_text("TWFu").is_err());
    assert!(SecretKey::parse_text("@@@@").is_err());
    assert!(SecretKey::parse_text("TQ==").is_err());
}

#[test]
fn hashed_identity_text_round_trip() {
    let id = Identity::unique();
    let text = id.hashed_id().to_text();
    let parsed = HashedIdentity::parse_text(&text).unwrap();
    assert_eq!(&parsed, id.hashed_id());
}

#[test]
fn malformed_hashed_identity_rejected() {
    assert!(HashedIdentity::parse_text("abc").is_err());
    // valid base64, but not a 32-byte digest
    assert!(HashedIdentity::parse_text("TWFu").is_err());
}

#[test]
fn share_identity_text_round_trip() {
    let authority = Authority::unique();
    let user = Identity::unique();
    let share = user.new_share_id(authority.public_key());
    let text = share.to_text();
    let parsed = ShareIdentity::parse_text(&text).unwrap();
    assert_eq!(parsed.as_bytes(), share.as_bytes());
    assert_eq!(
        parsed.reveal_identity(authority.secret_key()).unwrap(),
        *user.unique_id()
    );
}

#[test]
fn malformed_identity_text_rejected() {
    assert!(ShareIdentity::parse_text("!!").is_err());
    // valid base64, but not a 16-byte unique identity
    assert!(Identity::parse_text("TWFu").is_err());
    assert!(Identity::parse_text("%%%%").is_err());
}

#[test]
fn from_bytes_checks_lengths() {
    assert!(UniqueIdentity::from_bytes(vec![0u8; 16]).is_ok());
    assert!(UniqueIdentity::from_bytes(vec![0u8; 15]).is_err());
    assert!(HashedIdentity::from_bytes(vec![0u8; 32]).is_ok());
    assert!(HashedIdentity::from_bytes(vec![0u8; 31]).is_err());
    assert!(PublicKey::from_bytes(vec![0u8; 32]).is_ok());
    assert!(PublicKey::from_bytes(vec![0u8; 33]).is_err());
    assert!(SecretKey::from_bytes(vec![0u8; 32]).is_ok());
    assert!(SecretKey::from_bytes(Vec::new()).is_err());
}

#[test]
fn share_identity_bytes_preserved_exactly() {
    let bytes = vec![9u8, 1, 255, 0, 42];
    let share = ShareIdentity::from_bytes(bytes.clone());
    assert_eq!(share.as_bytes(), &bytes);
}
