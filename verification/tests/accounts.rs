use nearhand::net::Ip;
use nearhand::server::accounts::{
    check_name, check_password, hash, internal, random_token, token_of, Accounts, Refused, User,
    ATTEMPTS, ATTEMPT_WINDOW, LOGIN_LIFETIME, SETUP_LIFETIME,
};
use nearhand::server::totp;

const NOW: i64 = 1_700_000_000;
const CLOCK: u64 = 5_000_000;
/// 192.0.2.1
const HOME: Ip = Ip::V4(0xC000_0201);

fn with_admin() -> (Accounts, User) {
    let mut accounts = Accounts::new();
    let token = accounts.new_setup_token(NOW).expect("token");
    let admin = accounts
        .setup(&token, "ada", "correct horse battery", NOW)
        .expect("setup");
    (accounts, admin)
}

fn sign_in(
    accounts: &mut Accounts,
    name: &str,
    password: &str,
    code: Option<&str>,
    from: Ip,
) -> Result<(String, User), Refused> {
    accounts.sign_in(name, password, code, from, NOW, CLOCK)
}

#[test]
fn the_setup_token_makes_one_administrator_once() {
    let mut accounts = Accounts::new();
    assert!(!accounts.has_users());
    let token = accounts.new_setup_token(NOW).expect("token");
    assert_eq!(
        accounts.setup("wrong", "ada", "correct horse battery", NOW),
        Err(Refused::Forbidden)
    );
    let admin = accounts
        .setup(&token, "ada", "correct horse battery", NOW)
        .expect("setup");
    assert!(admin.admin);
    assert!(accounts.has_users());
    assert_eq!(
        accounts.setup(&token, "eve", "correct horse battery", NOW),
        Err(Refused::Forbidden),
        "the token is spent, and there is an administrator now"
    );
}

#[test]
fn a_setup_token_is_good_for_a_day() {
    let mut accounts = Accounts::new();
    let token = accounts.new_setup_token(NOW).expect("token");
    assert_eq!(
        accounts.setup(
            &token,
            "ada",
            "correct horse battery",
            NOW + SETUP_LIFETIME
        ),
        Err(Refused::Forbidden)
    );
    assert!(accounts
        .setup(
            &token,
            "ada",
            "correct horse battery",
            NOW + SETUP_LIFETIME - 1
        )
        .is_ok());
}

#[test]
fn signing_in_gives_a_session_that_signs_out() {
    let (mut accounts, admin) = with_admin();
    let (token, user) =
        sign_in(&mut accounts, "ADA", "correct horse battery", None, HOME).expect("any case");
    assert_eq!(user, admin);
    assert!(token.starts_with("nhs_"));
    assert_eq!(accounts.session_user(&token, NOW), Some(admin.clone()));
    assert_eq!(
        accounts.session_user(&token, NOW + LOGIN_LIFETIME),
        None,
        "it runs out"
    );
    accounts.sign_out(&token);
    assert_eq!(accounts.session_user(&token, NOW), None);
}

#[test]
fn wrong_passwords_and_unknown_names_look_the_same_and_run_out() {
    let (mut accounts, _) = with_admin();
    assert_eq!(
        sign_in(&mut accounts, "ada", "wrong", None, HOME),
        Err(Refused::WrongCredentials)
    );
    assert_eq!(
        sign_in(&mut accounts, "nobody", "wrong", None, HOME),
        Err(Refused::WrongCredentials)
    );
    // With the two above, ten wrong passwords from this address.
    for i in 2..ATTEMPTS {
        let _ = sign_in(&mut accounts, &format!("guess{i}"), "wrong", None, HOME);
    }
    assert_eq!(
        sign_in(&mut accounts, "ada", "correct horse battery", None, HOME),
        Err(Refused::TooManyAttempts),
        "the address is out of tries: even the right password, while it lasts"
    );
    // Until a quarter of an hour has gone by.
    assert!(accounts
        .sign_in(
            "ada",
            "correct horse battery",
            None,
            HOME,
            NOW,
            CLOCK + ATTEMPT_WINDOW
        )
        .is_ok());
}

#[test]
fn guessing_one_name_from_many_addresses_runs_out_too() {
    let (mut accounts, _) = with_admin();
    for i in 0..ATTEMPTS {
        // 198.51.100.i
        let from = Ip::V4(0xC633_6400 + i as u32);
        assert_eq!(
            sign_in(&mut accounts, "ada", "wrong", None, from),
            Err(Refused::WrongCredentials)
        );
    }
    // 203.0.113.9
    let elsewhere = Ip::V4(0xCB00_7109);
    assert_eq!(
        sign_in(&mut accounts, "ada", "correct horse battery", None, elsewhere),
        Err(Refused::TooManyAttempts),
        "the name is out of tries, from anywhere"
    );
}

#[test]
fn totp_once_on_is_needed_and_each_code_works_once() {
    let (mut accounts, admin) = with_admin();
    let (secret, uri) = accounts.totp_begin(&admin).expect("begin");
    assert!(uri.starts_with("otpauth://totp/Nearhand:ada?"));
    let secret = totp::from_base32(&secret).expect("secret");
    let code = |at: i64| format!("{:06}", totp::code_at(&secret, at as u64));

    let wrong = if code(NOW) == "000000" {
        "000001"
    } else {
        "000000"
    };
    assert_eq!(
        accounts.totp_confirm(&admin, wrong, NOW),
        Err(Refused::WrongCode)
    );
    accounts
        .totp_confirm(&admin, &code(NOW), NOW)
        .expect("confirm");

    assert_eq!(
        sign_in(&mut accounts, "ada", "correct horse battery", None, HOME),
        Err(Refused::TotpNeeded)
    );
    // The code that confirmed is spent; the next step's is fresh.
    assert_eq!(
        sign_in(
            &mut accounts,
            "ada",
            "correct horse battery",
            Some(&code(NOW)),
            HOME
        ),
        Err(Refused::WrongCode)
    );
    let next = code(NOW + 30);
    sign_in(
        &mut accounts,
        "ada",
        "correct horse battery",
        Some(&next),
        HOME,
    )
    .expect("sign in with a fresh code");
    assert_eq!(
        sign_in(
            &mut accounts,
            "ada",
            "correct horse battery",
            Some(&next),
            HOME
        ),
        Err(Refused::WrongCode),
        "and it works once"
    );
    accounts
        .totp_disable(&admin, &code(NOW + 60), NOW + 60)
        .expect("a later code turns it off");
    assert!(sign_in(&mut accounts, "ada", "correct horse battery", None, HOME).is_ok());
}

#[test]
fn api_tokens_stand_for_their_user_until_deleted() {
    let (mut accounts, admin) = with_admin();
    let (listed, token) = accounts
        .new_api_token(&admin, "backup script", None, NOW)
        .expect("token");
    assert!(token.starts_with("nht_"));
    assert_eq!(accounts.api_user(&token, NOW), Some(admin.clone()));
    assert!(accounts.api_tokens(&admin)[0].last_used_at.is_some());
    // A session token is no API token, and the reverse.
    assert_eq!(accounts.session_user(&token, NOW), None);
    accounts
        .delete_api_token(&admin, listed.id)
        .expect("delete");
    assert_eq!(accounts.api_user(&token, NOW), None);
    assert_eq!(
        accounts.delete_api_token(&admin, listed.id),
        Err(Refused::NotFound)
    );
}

#[test]
fn api_tokens_end_when_they_were_made_to() {
    let (mut accounts, admin) = with_admin();
    let (listed, token) = accounts
        .new_api_token(&admin, "for a day", Some(1), NOW)
        .expect("token");
    assert_eq!(listed.expires_at, Some(NOW + 86_400));
    assert!(accounts.api_user(&token, NOW + 86_399).is_some());
    assert!(accounts.api_user(&token, NOW + 86_400).is_none());
}

#[test]
fn the_last_administrator_stays() {
    let (mut accounts, admin) = with_admin();
    assert!(matches!(
        accounts.update_user(admin.id, Some(false), None),
        Err(Refused::Invalid(_))
    ));
    assert!(matches!(
        accounts.delete_user(admin.id),
        Err(Refused::Invalid(_))
    ));
    let other = accounts
        .create_user("grace", "another good password", true, NOW)
        .expect("second admin");
    accounts
        .update_user(admin.id, Some(false), None)
        .expect("now allowed");
    assert!(matches!(
        accounts.create_user("GRACE", "another good password", false, NOW),
        Err(Refused::Invalid(_))
    ));
    let _ = other;
}

#[test]
fn disabling_a_user_ends_their_sessions_and_changing_a_password_too() {
    let (mut accounts, _) = with_admin();
    let bob = accounts
        .create_user("bob", "bobs password here", false, NOW)
        .expect("bob");
    let (session, _) =
        sign_in(&mut accounts, "bob", "bobs password here", None, HOME).expect("sign in");
    accounts
        .change_password(&bob, "bobs password here", "bobs new password")
        .expect("change");
    assert_eq!(accounts.session_user(&session, NOW), None);

    let (session, _) =
        sign_in(&mut accounts, "bob", "bobs new password", None, HOME).expect("sign in again");
    accounts
        .update_user(bob.id, None, Some(true))
        .expect("disable");
    assert_eq!(accounts.session_user(&session, NOW), None);
    assert_eq!(
        sign_in(&mut accounts, "bob", "bobs new password", None, HOME),
        Err(Refused::WrongCredentials)
    );
}

#[test]
fn the_wrong_current_password_changes_nothing() {
    let (mut accounts, admin) = with_admin();
    assert_eq!(
        accounts.change_password(&admin, "not it at all", "a new password"),
        Err(Refused::WrongCredentials)
    );
    assert!(sign_in(&mut accounts, "ada", "correct horse battery", None, HOME).is_ok());
}

#[test]
fn users_are_listed_by_name_and_leave_with_what_is_theirs() {
    let (mut accounts, admin) = with_admin();
    let zoe = accounts
        .create_user("zoe", "zoes password here", false, NOW)
        .expect("zoe");
    let bob = accounts
        .create_user("Bob", "bobs password here", false, NOW)
        .expect("bob");
    let names: Vec<String> = accounts.users().into_iter().map(|u| u.name).collect();
    assert_eq!(names, ["ada", "Bob", "zoe"]);
    let (_, token) = accounts
        .new_api_token(&zoe, "hers", None, NOW)
        .expect("token");
    accounts.delete_user(zoe.id).expect("delete");
    assert_eq!(accounts.api_user(&token, NOW), None);
    assert_eq!(accounts.user(zoe.id), None);
    assert_eq!(accounts.delete_user(zoe.id), Err(Refused::NotFound));
    assert_eq!(accounts.user(bob.id), Some(bob));
    assert_eq!(accounts.user(admin.id), Some(admin));
}

#[test]
fn names_and_passwords_follow_the_rules() {
    assert!(check_name("ada").is_ok());
    for bad in ["", " ada", "ada ", "a\nb", &"x".repeat(65)] {
        assert_eq!(
            check_name(bad),
            Err(Refused::Invalid(
                "a name is 1 to 64 characters, without surrounding spaces".to_owned()
            )),
            "{bad:?}"
        );
    }
    assert!(check_name(&"x".repeat(64)).is_ok());
    assert!(check_password("ten chars!").is_ok());
    assert_eq!(
        check_password("nine char"),
        Err(Refused::Invalid(
            "a password is at least 10 characters".to_owned()
        ))
    );
}

#[test]
fn tokens_are_long_and_differ() {
    let a = random_token("nht_").expect("token");
    let b = random_token("nht_").expect("token");
    assert_eq!(a.len(), 68);
    assert!(a.starts_with("nht_"));
    assert_ne!(a, b);
    assert_eq!(token_of("nhs_", &[0xab, 0x01]), "nhs_ab01");
}

#[test]
fn what_is_kept_of_a_token_is_its_sha_256() {
    let kept = hash("abc");
    assert_eq!(
        nearhand::hex::hex(&kept),
        "ba7816bf8f01cfea414140de5dae2223b00361a396177a9cb410ff61f20015ad"
    );
}

#[test]
fn refusals_are_fit_for_the_person_who_asked() {
    assert_eq!(
        internal(),
        Refused::Invalid("the server failed; see its log".to_owned())
    );
    assert_eq!(
        Refused::WrongCredentials.message(),
        "wrong name or password"
    );
    assert_eq!(
        Refused::TotpNeeded.message(),
        "a code from the authenticator app is needed"
    );
    assert_eq!(Refused::WrongCode.message(), "wrong or already used code");
    assert_eq!(
        Refused::TooManyAttempts.message(),
        "too many attempts; try again in a quarter of an hour"
    );
    assert_eq!(Refused::Forbidden.message(), "not allowed");
    assert_eq!(Refused::NotFound.message(), "not found");
}

// --- What drawn bytes become ------------------------------------------------------------

#[test]
fn a_session_token_is_its_drawn_bytes() {
    let (mut accounts, admin) = with_admin();
    let (token, user) = accounts
        .open_session(admin.id, Some(vec![0xab; 32]), NOW)
        .expect("session");
    assert!(token.ends_with(&"ab".repeat(32)), "{token}");
    assert_eq!(user, admin);
    assert_eq!(accounts.session_user(&token, NOW), Some(admin.clone()));
    assert_eq!(accounts.session_user(&token, NOW + LOGIN_LIFETIME), None);
    assert_eq!(accounts.open_session(admin.id, None, NOW), Err(internal()));
    assert_eq!(
        accounts.open_session(99, Some(vec![0; 32]), NOW),
        Err(Refused::NotFound)
    );
}

#[test]
fn an_api_token_is_its_drawn_bytes() {
    let (mut accounts, admin) = with_admin();
    let (listed, token) = accounts
        .add_api_token(admin.id, "script", Some(2), Some(vec![0x0f; 32]), NOW)
        .expect("token");
    assert_eq!(token, format!("nht_{}", "0f".repeat(32)));
    assert_eq!(listed.expires_at, Some(NOW + 2 * 86_400));
    assert_eq!(accounts.api_user(&token, NOW), Some(admin.clone()));
    assert_eq!(
        accounts.add_api_token(admin.id, "script", None, None, NOW),
        Err(internal())
    );
}

#[test]
fn a_new_secret_is_shown_in_base32() {
    let (mut accounts, admin) = with_admin();
    let secret = b"12345678901234567890".to_vec();
    let (text, link) = accounts
        .begin_totp(&admin, Ok(secret.clone()))
        .expect("begun");
    assert_eq!(text, "GEZDGNBVGY3TQOJQGEZDGNBVGY3TQOJQ");
    assert_eq!(link, totp::uri(&secret, "Nearhand", "ada"));
    assert!(accounts.begin_totp(&admin, Err("none".to_owned())).is_err());
}
