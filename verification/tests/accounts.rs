use note::auth::{Auth, AuthInsert, AuthLevel, AuthUpdate, AuthUser};
use note::insert::{InsertToken, InsertUser};
use note::store::Store;
use note::token::Token;
use note::user::User;
use note::NoteError;

/// A bcrypt hash of "password" at cost 4.
const PASSWORD_HASH: &str = "$2a$04$UuTkLRZZ6QofpDOlMz32MuuxEHA43WOemOYHPz6.SjsVsyO1tDU96";

fn seed_user(store: &mut Store, nickname: &str) -> u32 {
    store
        .add_user(InsertUser {
            nickname: nickname.to_string(),
            email: format!("{}@example.org", nickname),
            password: PASSWORD_HASH.to_string(),
        })
        .unwrap()
}

fn password_session(store: &Store, nickname: &str) -> AuthUser {
    let auth = Auth::Password((nickname.to_string(), "password".to_string()));
    AuthUser::try_from((auth, store)).unwrap()
}

#[test]
fn registration_hashes_the_password_and_login_accepts_it() {
    let mut store = Store::new();
    let mut user =
        User::new(None, "ann".to_string(), "correct horse".to_string(), "a@b.c".to_string());
    let id = user.insert(&mut store).unwrap();
    assert_eq!(id, 1);
    assert!(!user.is_admin());
    let row = store.user_by_id(1).unwrap();
    assert_eq!(row.nickname, "ann");
    assert_eq!(row.email, "a@b.c");
    assert!(!row.admin);
    assert_ne!(row.password, "correct horse");
    assert!(row.password.starts_with("$2"));
    let auth = Auth::Password(("ann".to_string(), "correct horse".to_string()));
    let session = AuthUser::try_from((auth, &store)).unwrap();
    assert_eq!(session.get_id(), 1);
    assert_eq!(session.get_level(), AuthLevel::Password);
}

#[test]
fn a_failed_hash_stores_nothing() {
    let mut store = Store::new();
    let mut user = User::new(None, "ann".to_string(), "pw".to_string(), "a@b.c".to_string());
    let failed = Err(NoteError::AuthError("no random bytes".to_string()));
    match user.insert_hashed(&mut store, failed) {
        Err(NoteError::AuthError(text)) => assert_eq!(text, "no random bytes"),
        _ => panic!("a user was stored without a hash"),
    }
    assert_eq!(store, Store::new());
    let id = user.insert_hashed(&mut store, Ok(PASSWORD_HASH.to_string())).unwrap();
    assert_eq!(id, 1);
    assert_eq!(store.user_by_id(1).unwrap().password, PASSWORD_HASH);
}

#[test]
fn a_nickname_is_given_once() {
    let mut store = Store::new();
    seed_user(&mut store, "ann");
    let before = store.clone();
    let mut twin = User::new(None, "ann".to_string(), "pw".to_string(), "x@y.z".to_string());
    match twin.insert_hashed(&mut store, Ok(PASSWORD_HASH.to_string())) {
        Err(NoteError::SQLError(text)) => assert_eq!(text, "The nickname is taken"),
        _ => panic!("a nickname was given twice"),
    }
    assert_eq!(store, before);
    assert_eq!(seed_user(&mut store, "Ann"), 2);
}

#[test]
fn users_are_found_by_nickname_and_id() {
    let mut store = Store::new();
    seed_user(&mut store, "ann");
    seed_user(&mut store, "bob");
    let bob = User::from_nickname("bob", &store).unwrap();
    assert_eq!(bob.get_id(), 2);
    assert_eq!(bob.get_email(), "bob@example.org");
    let ann = User::from_user_id(1, &store).unwrap();
    assert_eq!(ann.get_nickname(), "ann");
    match User::from_nickname("eve", &store) {
        Err(NoteError::SQLError(text)) => assert_eq!(text, "Failed to query user from nickname"),
        _ => panic!("a user who is not stored was found"),
    }
    match User::from_user_id(3, &store) {
        Err(NoteError::SQLError(text)) => assert_eq!(text, "Failed to query user from id"),
        _ => panic!("a user who is not stored was found"),
    }
}

#[test]
fn issued_token_opens_a_token_session() {
    let mut store = Store::new();
    let ann = seed_user(&mut store, "ann");
    let bob = seed_user(&mut store, "bob");
    let session = password_session(&store, "ann");
    let secret = session.add_token(&mut store).unwrap();
    assert_eq!(secret.len(), 32);
    assert!(secret.chars().all(|c| c.is_ascii_alphanumeric()));

    let by_token = AuthUser::try_from((Auth::Token((ann, secret.clone())), &store)).unwrap();
    assert_eq!(by_token.get_id(), ann);
    assert_eq!(by_token.get_nickname(), "ann");
    assert_eq!(by_token.get_level(), AuthLevel::Token);

    match AuthUser::try_from((Auth::Token((bob, secret.clone())), &store)) {
        Err(NoteError::AuthError(text)) => assert_eq!(text, "Wrong token"),
        _ => panic!("a token opened another user's session"),
    }
    match AuthUser::try_from((Auth::Token((ann, format!("{}x", secret))), &store)) {
        Err(NoteError::AuthError(text)) => assert_eq!(text, "Wrong token"),
        _ => panic!("a wrong secret opened a session"),
    }
    match AuthUser::try_from((Auth::Token((ann, secret.to_lowercase())), &store)) {
        Ok(_) => assert_eq!(secret, secret.to_lowercase()),
        Err(NoteError::AuthError(text)) => assert_eq!(text, "Wrong token"),
        Err(_) => panic!("a wrong secret gave another error"),
    }
}

#[test]
fn a_token_session_cannot_issue_tokens() {
    let mut store = Store::new();
    let ann = seed_user(&mut store, "ann");
    let secret = password_session(&store, "ann").add_token(&mut store).unwrap();
    let by_token = AuthUser::try_from((Auth::Token((ann, secret)), &store)).unwrap();
    let before = store.clone();
    match by_token.add_token(&mut store) {
        Err(NoteError::NoPermission(text)) => assert_eq!(text, "Only password auth can add token"),
        _ => panic!("a token issued a token"),
    }
    assert_eq!(store, before);
    match Token::new(ann).insert(&mut store, &by_token) {
        Err(NoteError::NoPermission(text)) => assert_eq!(text, "Only password auth can add token"),
        _ => panic!("a token stored a token"),
    }
    assert_eq!(store, before);
}

#[test]
fn a_user_has_many_tokens_and_gives_none_to_others() {
    let mut store = Store::new();
    let ann = seed_user(&mut store, "ann");
    let bob = seed_user(&mut store, "bob");
    let session = password_session(&store, "ann");
    let first = session.add_token(&mut store).unwrap();
    let second = session.add_token(&mut store).unwrap();
    assert_ne!(first, second);
    assert!(Token::verify(&ann, &first, &store).unwrap());
    assert!(Token::verify(&ann, &second, &store).unwrap());
    assert!(!Token::verify(&bob, &first, &store).unwrap());
    let before = store.clone();
    match Token::new(bob).insert(&mut store, &session) {
        Err(NoteError::NoPermission(text)) => {
            assert_eq!(text, "You can not give other account token")
        },
        _ => panic!("a token was given to another account"),
    }
    assert_eq!(store, before);
    assert_eq!(Token::new(ann).insert(&mut store, &session).unwrap(), 3);
}

#[test]
fn tokens_are_matched_by_secret_and_owner() {
    let mut store = Store::new();
    store.add_token(InsertToken { user_id: 1, token: "same".to_string() }).unwrap();
    store.add_token(InsertToken { user_id: 2, token: "same".to_string() }).unwrap();
    store.add_token(InsertToken { user_id: 3, token: "other".to_string() }).unwrap();
    let holders = Token::from_token("same", &store).unwrap();
    assert_eq!(holders.len(), 2);
    assert_eq!(holders[0].get_user_id(), 1);
    assert_eq!(holders[1].get_user_id(), 2);
    assert_eq!(holders[1].get_token(), "same");
    assert!(Token::owned_by(&holders, 2));
    assert!(!Token::owned_by(&holders, 3));
    assert!(Token::from_token("Same", &store).unwrap().is_empty());
    assert!(Token::verify(&3, "other", &store).unwrap());
    assert!(!Token::verify(&3, "same", &store).unwrap());
    assert!(!Token::verify(&1, "", &store).unwrap());
}

#[test]
fn a_token_of_a_user_who_is_not_stored_finds_no_user() {
    let mut store = Store::new();
    store.add_token(InsertToken { user_id: 9, token: "stray".to_string() }).unwrap();
    match AuthUser::try_from((Auth::Token((9, "stray".to_string())), &store)) {
        Err(NoteError::UserNotFound(text)) => assert_eq!(text, "Not found user by id"),
        _ => panic!("a session was opened for a user who is not stored"),
    }
}

#[test]
fn by_token_wants_a_token_of_the_user() {
    let mut store = Store::new();
    let ann = seed_user(&mut store, "ann");
    store.add_token(InsertToken { user_id: 5, token: "s".to_string() }).unwrap();
    let user = User::from_user_id(ann, &store).unwrap();
    let holders = Token::from_token("s", &store).unwrap();
    match AuthUser::by_token(&user, &holders) {
        Err(NoteError::AuthError(text)) => assert_eq!(text, "Wrong token"),
        _ => panic!("another user's token opened a session"),
    }
    store.add_token(InsertToken { user_id: ann, token: "s".to_string() }).unwrap();
    let holders = Token::from_token("s", &store).unwrap();
    let session = AuthUser::by_token(&user, &holders).unwrap();
    assert_eq!(session.get_id(), ann);
    assert_eq!(session.get_level(), AuthLevel::Token);
}

#[test]
fn a_user_updates_their_own_profile_only() {
    let mut store = Store::new();
    let ann = seed_user(&mut store, "ann");
    let bob = seed_user(&mut store, "bob");
    store.set_admin(ann, true);
    let session = password_session(&store, "ann");
    let before = store.clone();

    let other = User::new(Some(bob), "bobby".to_string(), "pw".to_string(), "b@b.c".to_string());
    match other.update_hashed(&mut store, &session, Ok("h".to_string())) {
        Err(NoteError::NoPermission(text)) => {
            assert_eq!(text, "Only user itself can update user profile")
        },
        _ => panic!("a user changed another user's profile"),
    }
    assert_eq!(store, before);

    let taken = User::new(Some(ann), "bob".to_string(), "pw".to_string(), "a@b.c".to_string());
    match taken.update_hashed(&mut store, &session, Ok("h".to_string())) {
        Err(NoteError::SQLError(text)) => assert_eq!(text, "The nickname is taken"),
        _ => panic!("a nickname was given twice"),
    }
    assert_eq!(store, before);

    let failed = Err(NoteError::AuthError("no random bytes".to_string()));
    let own = User::new(Some(ann), "anna".to_string(), "pw".to_string(), "new@b.c".to_string());
    assert!(matches!(
        own.update_hashed(&mut store, &session, failed),
        Err(NoteError::AuthError(_))
    ));
    assert_eq!(store, before);

    own.update_hashed(&mut store, &session, Ok(PASSWORD_HASH.to_string())).unwrap();
    let row = store.user_by_id(ann).unwrap();
    assert_eq!(row.nickname, "anna");
    assert_eq!(row.email, "new@b.c");
    assert_eq!(row.password, PASSWORD_HASH);
    // The update leaves the admin flag and the other user as they were.
    assert!(row.admin);
    assert_eq!(store.user_by_id(bob), before.user_by_id(bob));
    assert!(store.user_named("ann").is_none());
}

#[test]
fn a_token_session_cannot_update_the_profile() {
    let mut store = Store::new();
    let ann = seed_user(&mut store, "ann");
    let secret = password_session(&store, "ann").add_token(&mut store).unwrap();
    let by_token = AuthUser::try_from((Auth::Token((ann, secret)), &store)).unwrap();
    let before = store.clone();
    let own = User::new(Some(ann), "anna".to_string(), "pw".to_string(), "new@b.c".to_string());
    match own.update(&mut store, &by_token) {
        Err(NoteError::NoPermission(text)) => {
            assert_eq!(text, "Only password auth can update user profile")
        },
        _ => panic!("a token session changed a profile"),
    }
    assert_eq!(store, before);
}

#[test]
fn a_profile_update_hashes_the_new_password() {
    let mut store = Store::new();
    let ann = seed_user(&mut store, "ann");
    let session = password_session(&store, "ann");
    let own =
        User::new(Some(ann), "ann".to_string(), "new secret".to_string(), "a@b.c".to_string());
    own.update(&mut store, &session).unwrap();
    let row = store.user_by_id(ann).unwrap();
    assert_ne!(row.password, "new secret");
    assert_ne!(row.password, PASSWORD_HASH);
    let stored = User::from_user_id(ann, &store).unwrap();
    assert!(AuthUser::by_password(&stored, "new secret").is_ok());
    assert!(AuthUser::by_password(&stored, "password").is_err());
}

#[test]
fn the_keeper_grants_and_withdraws_admin() {
    let mut store = Store::new();
    let ann = seed_user(&mut store, "ann");
    let bob = seed_user(&mut store, "bob");
    store.set_admin(ann, true);
    assert!(store.user_by_id(ann).unwrap().admin);
    assert!(!store.user_by_id(bob).unwrap().admin);
    store.set_admin(ann, false);
    assert!(!store.user_by_id(ann).unwrap().admin);
    let before = store.clone();
    store.set_admin(7, true);
    assert_eq!(store, before);
}

#[test]
fn the_registration_row_holds_the_hash() {
    let mut user = User::new(Some(3), "ann".to_string(), "pw".to_string(), "a@b.c".to_string());
    let row = user.registration_row_with(Ok("the hash".to_string())).unwrap();
    assert_eq!(row.nickname, "ann");
    assert_eq!(row.email, "a@b.c");
    assert_eq!(row.password, "the hash");
    assert_eq!(user.get_id(), 3);
    assert!(!user.is_admin());
    let mut user = User::from(note::raw::RawUser {
        id: 4,
        nickname: "root".to_string(),
        password: "pw".to_string(),
        email: "r@b.c".to_string(),
        admin: true,
    });
    let failed = Err(NoteError::AuthError("no random bytes".to_string()));
    assert!(matches!(
        user.registration_row_with(failed),
        Err(NoteError::AuthError(text)) if text == "no random bytes"
    ));
    // Registration never makes an admin.
    assert!(!user.is_admin());
}

#[test]
fn the_registration_row_of_a_password_verifies() {
    let mut user = User::new(None, "ann".to_string(), "hunter2".to_string(), "a@b.c".to_string());
    let row = user.registration_row().unwrap();
    assert_ne!(row.password, "hunter2");
    let stored = User::from(note::raw::RawUser {
        id: 1,
        nickname: row.nickname,
        password: row.password,
        email: row.email,
        admin: false,
    });
    assert!(AuthUser::by_password(&stored, "hunter2").is_ok());
    assert!(matches!(
        AuthUser::by_password(&stored, "hunter3"),
        Err(NoteError::AuthError(text)) if text == "Wrong password"
    ));
}

#[test]
fn who_may_update_a_profile() {
    let mut store = Store::new();
    let ann = seed_user(&mut store, "ann");
    let bob = seed_user(&mut store, "bob");
    let session = password_session(&store, "ann");
    let own = User::from_user_id(ann, &store).unwrap();
    let other = User::from_user_id(bob, &store).unwrap();
    assert!(own.may_update(&session).is_ok());
    assert!(matches!(
        other.may_update(&session),
        Err(NoteError::NoPermission(text)) if text == "Only user itself can update user profile"
    ));
    let secret = session.add_token(&mut store).unwrap();
    let by_token = AuthUser::try_from((Auth::Token((ann, secret)), &store)).unwrap();
    assert!(matches!(
        own.may_update(&by_token),
        Err(NoteError::NoPermission(text)) if text == "Only password auth can update user profile"
    ));
    assert!(matches!(
        other.may_update(&by_token),
        Err(NoteError::NoPermission(text)) if text == "Only password auth can update user profile"
    ));
    let row = own.profile_row_with(&session, Ok("h".to_string())).unwrap();
    assert_eq!((row.nickname.as_str(), row.email.as_str()), ("ann", "ann@example.org"));
    assert_eq!(row.password, "h");
    assert!(matches!(
        other.profile_row_with(&session, Ok("h".to_string())),
        Err(NoteError::NoPermission(_))
    ));
    assert!(matches!(
        own.profile_row_with(&session, Err(NoteError::AuthError("x".to_string()))),
        Err(NoteError::AuthError(text)) if text == "x"
    ));
    assert!(matches!(own.profile_row(&by_token), Err(NoteError::NoPermission(_))));
}

#[test]
fn the_row_of_a_token_goes_to_its_owner_only() {
    let mut store = Store::new();
    let ann = seed_user(&mut store, "ann");
    let bob = seed_user(&mut store, "bob");
    let session = password_session(&store, "ann");
    let token = Token::new(ann);
    let row = token.row_for(&session).unwrap();
    assert_eq!(row.user_id, ann);
    assert_eq!(row.token, token.get_token());
    assert!(matches!(
        Token::new(bob).row_for(&session),
        Err(NoteError::NoPermission(text)) if text == "You can not give other account token"
    ));
}
