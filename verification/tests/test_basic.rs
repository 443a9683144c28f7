use covidcotra::auth::Identity;
use covidcotra::authority::Authority;
use covidcotra::contactlog::ContactLog;

#[test]
fn test_tracking() {
    let authority = Authority::unique();

    let user_2 = Identity::unique();

    let mut user_1_log = ContactLog::new();
    user_1_log.add(&user_2.new_share_id(authority.public_key()));

    let log = user_1_log.decode(authority.secret_key()).unwrap();

    assert_eq!(&log[0].0, user_2.unique_id());
    assert_eq!(&log[0].0.hash(), user_2.hashed_id());
}
