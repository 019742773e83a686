use note::auth::{Auth, AuthLevel, AuthUser};
use note::edge::Edge;
use note::history::History;
use note::insert::{InsertEdge, InsertHistory, InsertPost, InsertToken, InsertUser};
use note::post::Post;
use note::raw::{RawEdge, RawHistory, RawPost, RawToken, RawUser};
use note::store::Store;
use note::token::Token;
use note::user::User;
use note::{gen_token, get_last_insert_rowid, NoteError, TOKEN_LEN};

/// A bcrypt hash of "password" at cost 4.
const PASSWORD_HASH: &str = "$2a$04$UuTkLRZZ6QofpDOlMz32MuuxEHA43WOemOYHPz6.SjsVsyO1tDU96";

fn seed_user(store: &mut Store, nickname: &str) -> u32 {
    store
        .add_user(InsertUser {
            nickname: nickname.to_string(),
            email: format!("{}@example.org", nickname),
            password: PASSWORD_HASH.to_string(),
        })
        .unwrap()
}

#[test]
fn it_works() {
    assert_eq!(2 + 2, 4);
}

#[test]
fn fresh_store_has_no_last_insert() {
    let store = Store::new();
    assert_eq!(get_last_insert_rowid(&store).unwrap(), 0);
    assert_eq!(store.last_insert_id(), 0);
}

#[test]
fn last_insert_id_follows_every_table() {
    let mut store = Store::new();
    assert_eq!(seed_user(&mut store, "ann"), 1);
    assert_eq!(get_last_insert_rowid(&store).unwrap(), 1);
    assert_eq!(seed_user(&mut store, "bob"), 2);
    assert_eq!(get_last_insert_rowid(&store).unwrap(), 2);
    assert_eq!(store.add_edge(InsertEdge { from_post: 1, to_post: 7 }).unwrap(), 1);
    assert_eq!(get_last_insert_rowid(&store).unwrap(), 1);
    let post = InsertPost { title: "t".to_string(), markdown: None };
    assert_eq!(store.add_post(post).unwrap(), 2);
    assert_eq!(get_last_insert_rowid(&store).unwrap(), 2);
}

#[test]
fn token_secret_has_the_fixed_length_and_alphabet() {
    for _ in 0..50 {
        let secret = gen_token();
        assert_eq!(secret.chars().count(), TOKEN_LEN as usize);
        assert_eq!(secret.len(), 32);
        assert!(secret.chars().all(|c| c.is_ascii_alphanumeric()));
    }
}

#[test]
fn token_secrets_differ() {
    let a = gen_token();
    let b = gen_token();
    assert_ne!(a, b);
}

#[test]
fn new_token_belongs_to_the_user() {
    let token = Token::new(7);
    assert_eq!(token.get_user_id(), 7);
    assert_eq!(token.get_token().len(), 32);
    assert!(token.get_token().chars().all(|c| c.is_ascii_alphanumeric()));
}

#[test]
fn token_from_row_keeps_owner_and_secret() {
    let raw = RawToken { id: 9, user_id: 3, token: "abc".to_string() };
    let token = Token::from(&raw);
    assert_eq!(token.get_user_id(), 3);
    assert_eq!(token.get_token(), "abc");
    let row = InsertToken::from(&token);
    assert_eq!(row.user_id, 3);
    assert_eq!(row.token, "abc");
}

#[test]
fn edge_getters_and_new() {
    let edge = Edge::new(4, 9);
    assert_eq!(edge.get_id(), 0);
    assert_eq!(edge.get_from(), 4);
    assert_eq!(edge.get_to(), 9);
    let stored = Edge::from(&RawEdge { id: 5, from_post: 1, to_post: 2 });
    assert_eq!(stored.get_id(), 5);
    assert_eq!(stored.get_from(), 1);
    assert_eq!(stored.get_to(), 2);
    let row = InsertEdge::from(&stored);
    assert_eq!(row.from_post, 1);
    assert_eq!(row.to_post, 2);
}

#[test]
fn post_getters_and_new() {
    let post = Post::new(None, "title".to_string(), Some("text".to_string()));
    assert_eq!(post.get_id(), 0);
    assert_eq!(post.get_title(), "title");
    assert_eq!(post.get_markdown(), "text");
    let post = Post::new(Some(12), "other".to_string(), None);
    assert_eq!(post.get_id(), 12);
    assert_eq!(post.get_markdown(), "");
}

#[test]
fn post_row_without_content_stores_the_empty_text() {
    let post = Post::from(&RawPost { id: 3, title: "t".to_string(), markdown: None });
    assert_eq!(post.get_id(), 3);
    assert_eq!(post.get_markdown(), "");
    let row = InsertPost::from(&post);
    assert_eq!(row.title, "t");
    assert_eq!(row.markdown, Some(String::new()));
}

#[test]
fn history_stamped_is_exact() {
    let h = History::stamped(6, "body", 1_431_648_000);
    assert_eq!(h.get_id(), 0);
    assert_eq!(h.get_post_id(), 6);
    assert_eq!(h.get_time(), 1_431_648_000);
    assert_eq!(h.get_markdown(), "body");
}

#[test]
fn history_time_wraps_at_32_bits() {
    assert_eq!(History::stamped(1, "", 4_294_967_295).get_time(), 4_294_967_295);
    assert_eq!(History::stamped(1, "", 4_294_967_296).get_time(), 0);
    assert_eq!(History::stamped(1, "", 4_294_967_296 + 5).get_time(), 5);
    assert_eq!(History::stamped(1, "", -1).get_time(), 4_294_967_295);
}

#[test]
fn history_new_reads_the_clock() {
    let h = History::new(3, "now");
    assert_eq!(h.get_id(), 0);
    assert_eq!(h.get_post_id(), 3);
    assert_eq!(h.get_markdown(), "now");
    // Later than 2020-09-13, earlier than the 32 bit wrap.
    assert!(h.get_time() > 1_600_000_000);
}

#[test]
fn history_from_row() {
    let raw = RawHistory { id: 2, post_id: 5, time: 77, markdown: None };
    let h = History::from(&raw);
    assert_eq!(h.get_id(), 2);
    assert_eq!(h.get_post_id(), 5);
    assert_eq!(h.get_time(), 77);
    assert_eq!(h.get_markdown(), "");
    let row = InsertHistory::from(&h);
    assert_eq!(row.post_id, 5);
    assert_eq!(row.time, 77);
    assert_eq!(row.markdown, Some(String::new()));
}

#[test]
fn user_new_is_no_admin() {
    let user = User::new(None, "ann".to_string(), "pw".to_string(), "a@b.c".to_string());
    assert_eq!(user.get_id(), 0);
    assert_eq!(user.get_nickname(), "ann");
    assert_eq!(user.get_email(), "a@b.c");
    assert!(!user.is_admin());
    let user = User::new(Some(4), "bob".to_string(), "pw".to_string(), "b@b.c".to_string());
    assert_eq!(user.get_id(), 4);
}

#[test]
fn user_from_row_keeps_the_admin_flag() {
    let raw = RawUser {
        id: 8,
        nickname: "root".to_string(),
        password: "hash".to_string(),
        email: "r@b.c".to_string(),
        admin: true,
    };
    let user = User::from(raw);
    assert_eq!(user.get_id(), 8);
    assert!(user.is_admin());
    let row = InsertUser::from((&user, "other"));
    assert_eq!(row.nickname, "root");
    assert_eq!(row.email, "r@b.c");
    assert_eq!(row.password, "other");
}

#[test]
fn password_outcome_is_exact() {
    assert!(AuthUser::password_outcome(Ok(true)).is_ok());
    match AuthUser::password_outcome(Ok(false)) {
        Err(NoteError::AuthError(text)) => assert_eq!(text, "Wrong password"),
        other => panic!("unexpected {:?}", other),
    }
    match AuthUser::password_outcome(Err(NoteError::SQLError("x".to_string()))) {
        Err(NoteError::SQLError(text)) => assert_eq!(text, "x"),
        other => panic!("unexpected {:?}", other),
    }
}

#[test]
fn error_constructors_keep_kind_and_text() {
    assert!(matches!(NoteError::user_not_found("a"), NoteError::UserNotFound(t) if t == "a"));
    assert!(matches!(NoteError::auth_error("b"), NoteError::AuthError(t) if t == "b"));
    assert!(matches!(NoteError::no_permission("c"), NoteError::NoPermission(t) if t == "c"));
    assert!(matches!(NoteError::sql_error("d"), NoteError::SQLError(t) if t == "d"));
}

#[test]
fn password_login_yields_a_password_session() {
    let mut store = Store::new();
    let id = seed_user(&mut store, "ann");
    let auth = Auth::Password(("ann".to_string(), "password".to_string()));
    let session = AuthUser::try_from((auth, &store)).unwrap();
    assert_eq!(session.get_id(), id);
    assert_eq!(session.get_nickname(), "ann");
    assert_eq!(session.get_email(), "ann@example.org");
    assert!(!session.is_admin());
    assert_eq!(session.get_level(), AuthLevel::Password);
}

#[test]
fn wrong_password_is_an_auth_error() {
    let mut store = Store::new();
    seed_user(&mut store, "ann");
    let auth = Auth::Password(("ann".to_string(), "passw0rd".to_string()));
    match AuthUser::try_from((auth, &store)) {
        Err(NoteError::AuthError(text)) => assert_eq!(text, "Wrong password"),
        _ => panic!("a wrong password was not refused"),
    }
}

#[test]
fn unknown_nickname_is_user_not_found() {
    let mut store = Store::new();
    seed_user(&mut store, "ann");
    let auth = Auth::Password(("bob".to_string(), "password".to_string()));
    match AuthUser::try_from((auth, &store)) {
        Err(NoteError::UserNotFound(text)) => assert_eq!(text, "Not found user by nickname"),
        _ => panic!("an unknown nickname was not refused"),
    }
}

#[test]
fn unreadable_hash_is_an_auth_error() {
    let mut store = Store::new();
    store
        .add_user(InsertUser {
            nickname: "ann".to_string(),
            email: "a@b.c".to_string(),
            password: "password".to_string(),
        })
        .unwrap();
    let auth = Auth::Password(("ann".to_string(), "password".to_string()));
    match AuthUser::try_from((auth, &store)) {
        Err(NoteError::AuthError(text)) => assert_eq!(text, "Failed compare password"),
        _ => panic!("a plain text in place of a hash was accepted"),
    }
}

#[test]
fn by_password_checks_the_stored_hash() {
    let user = User::from(RawUser {
        id: 3,
        nickname: "ann".to_string(),
        password: PASSWORD_HASH.to_string(),
        email: "a@b.c".to_string(),
        admin: true,
    });
    let session = AuthUser::by_password(&user, "password").unwrap();
    assert_eq!(session.get_id(), 3);
    assert!(session.is_admin());
    assert_eq!(session.get_level(), AuthLevel::Password);
    assert!(matches!(AuthUser::by_password(&user, "Password"), Err(NoteError::AuthError(_))));
    assert!(matches!(AuthUser::by_password(&user, ""), Err(NoteError::AuthError(_))));
}

#[test]
fn non_admin_fails_the_admin_test() {
    let mut store = Store::new();
    seed_user(&mut store, "ann");
    let auth = Auth::Password(("ann".to_string(), "password".to_string()));
    let session = AuthUser::try_from((auth, &store)).unwrap();
    match session.auth() {
        Err(NoteError::NoPermission(text)) => assert_eq!(text, "You are not admin"),
        _ => panic!("a user who is no admin passed"),
    }
    store.set_admin(1, true);
    let auth = Auth::Password(("ann".to_string(), "password".to_string()));
    let session = AuthUser::try_from((auth, &store)).unwrap();
    assert!(session.is_admin());
    assert!(session.auth().is_ok());
}

#[test]
fn store_rows_are_read_back_as_written() {
    let mut store = Store::new();
    let id = store
        .add_post(InsertPost { title: "t".to_string(), markdown: Some("m".to_string()) })
        .unwrap();
    assert_eq!(id, 2);
    assert_eq!(
        store.post_by_id(2),
        Some(RawPost { id: 2, title: "t".to_string(), markdown: Some("m".to_string()) })
    );
    assert_eq!(store.post_by_id(3), None);
    store.set_post(2, InsertPost { title: "u".to_string(), markdown: None });
    assert_eq!(
        store.post_by_id(2),
        Some(RawPost { id: 2, title: "u".to_string(), markdown: None })
    );
    let before = store.clone();
    store.set_post(3, InsertPost { title: "x".to_string(), markdown: None });
    assert_eq!(store, before);
    store.remove_post(3);
    assert_eq!(store, before);
    store.remove_post(2);
    assert_eq!(store.post_by_id(2), None);
    // The id of the post that is gone is not handed out again.
    let next = store.add_post(InsertPost { title: "v".to_string(), markdown: None }).unwrap();
    assert_eq!(next, 3);
}

#[test]
fn store_snapshots_and_tokens_are_read_back_as_written() {
    let mut store = Store::new();
    let row = InsertHistory { post_id: 4, time: 9, markdown: None };
    assert_eq!(store.add_history(row).unwrap(), 1);
    let row = InsertHistory { post_id: 5, time: 10, markdown: Some("x".to_string()) };
    assert_eq!(store.add_history(row).unwrap(), 2);
    assert_eq!(
        store.histories_of(4),
        vec![RawHistory { id: 1, post_id: 4, time: 9, markdown: None }]
    );
    assert_eq!(store.history_by_id(2).unwrap().markdown, Some("x".to_string()));
    assert_eq!(store.history_by_id(3), None);
    store.remove_history(1);
    assert!(store.histories_of(4).is_empty());
    assert_eq!(store.add_token(InsertToken { user_id: 4, token: "s".to_string() }).unwrap(), 1);
    assert_eq!(
        store.tokens_holding("s"),
        vec![RawToken { id: 1, user_id: 4, token: "s".to_string() }]
    );
    assert!(store.tokens_holding("S").is_empty());
}

#[test]
fn store_profiles_are_replaced_in_place() {
    let mut store = Store::new();
    seed_user(&mut store, "ann");
    seed_user(&mut store, "bob");
    store.set_admin(2, true);
    let row = InsertUser {
        nickname: "bobby".to_string(),
        email: "b@b.c".to_string(),
        password: "h".to_string(),
    };
    store.set_profile(2, row.clone()).unwrap();
    let expected = RawUser {
        id: 2,
        nickname: "bobby".to_string(),
        password: "h".to_string(),
        email: "b@b.c".to_string(),
        admin: true,
    };
    assert_eq!(store.user_by_id(2), Some(expected.clone()));
    assert_eq!(store.user_named("bobby"), Some(expected));
    assert_eq!(store.user_named("bob"), None);
    // A user may keep the nickname they have.
    store.set_profile(2, row.clone()).unwrap();
    // Nobody is stored under the id: nothing changes, whatever the nickname.
    let before = store.clone();
    let taken = InsertUser { nickname: "ann".to_string(), ..row };
    store.set_profile(7, taken.clone()).unwrap();
    assert_eq!(store, before);
    assert!(matches!(store.set_profile(2, taken), Err(NoteError::SQLError(_))));
    assert_eq!(store, before);
}
