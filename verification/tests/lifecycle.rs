use note::auth::{Auth, AuthDelete, AuthInsert, AuthUpdate, AuthUser};
use note::edge::Edge;
use note::history::History;
use note::insert::{InsertEdge, InsertHistory, InsertUser};
use note::post::Post;
use note::store::Store;
use note::NoteError;

/// A bcrypt hash of "password" at cost 4.
const PASSWORD_HASH: &str = "$2a$04$UuTkLRZZ6QofpDOlMz32MuuxEHA43WOemOYHPz6.SjsVsyO1tDU96";

fn session(store: &mut Store, nickname: &str, admin: bool) -> AuthUser {
    let id = store
        .add_user(InsertUser {
            nickname: nickname.to_string(),
            email: format!("{}@example.org", nickname),
            password: PASSWORD_HASH.to_string(),
        })
        .unwrap();
    store.set_admin(id, admin);
    let auth = Auth::Password((nickname.to_string(), "password".to_string()));
    AuthUser::try_from((auth, &*store)).unwrap()
}

fn contents(store: &Store, post: u32) -> Vec<String> {
    History::get_history(post, store)
        .unwrap()
        .iter()
        .map(|h| h.get_markdown().to_string())
        .collect()
}

#[test]
fn create_update_delete() {
    let mut store = Store::new();
    let admin = session(&mut store, "root", true);
    let post = Post::new(None, "A".to_string(), Some("v1".to_string()));
    let id = post.insert(&mut store, &admin).unwrap();
    assert_eq!(id, 2);
    let incoming = Edge::get_from_list(&store, 2).unwrap();
    assert_eq!(incoming.len(), 1);
    assert_eq!(incoming[0].get_from(), 1);
    assert_eq!(incoming[0].get_to(), 2);
    let stored = Post::from_id(&store, 2).unwrap();
    assert_eq!(stored.get_title(), "A");
    assert_eq!(stored.get_markdown(), "v1");

    let newer = Post::new(Some(2), "A".to_string(), Some("v2".to_string()));
    newer.update(&mut store, &admin).unwrap();
    let history = History::get_history(2, &store).unwrap();
    assert_eq!(history.len(), 2);
    assert_eq!(history[0].get_markdown(), "v1");
    assert_eq!(history[0].get_post_id(), 2);
    assert_eq!(Post::from_id(&store, 2).unwrap().get_markdown(), "v2");

    newer.delete(&mut store, &admin).unwrap();
    assert!(matches!(Post::from_id(&store, 2), Err(NoteError::SQLError(_))));
    assert!(store.post_by_id(2).is_none());
    assert!(Edge::get_from_list(&store, 2).unwrap().is_empty());
    assert!(Edge::get_to_list(&store, 2).unwrap().is_empty());
    assert!(History::get_history(2, &store).unwrap().is_empty());
}

#[test]
fn snapshots_hold_what_each_write_replaced() {
    let mut store = Store::new();
    let admin = session(&mut store, "root", true);
    let post = Post::new(None, "T".to_string(), Some("first".to_string()));
    let id = post.insert_at(&mut store, &admin, 100).unwrap();
    Post::new(Some(id), "T".to_string(), Some("second".to_string()))
        .update_at(&mut store, &admin, 200)
        .unwrap();
    Post::new(Some(id), "T2".to_string(), Some("third".to_string()))
        .update_at(&mut store, &admin, 300)
        .unwrap();
    assert_eq!(contents(&store, id), vec!["first", "first", "second"]);
    let history = History::get_history(id, &store).unwrap();
    let times: Vec<u32> = history.iter().map(|h| h.get_time()).collect();
    assert_eq!(times, vec![100, 200, 300]);
    let ids: Vec<u32> = history.iter().map(|h| h.get_id()).collect();
    assert_eq!(ids, vec![1, 2, 3]);
    let now = Post::from_id(&store, id).unwrap();
    assert_eq!(now.get_title(), "T2");
    assert_eq!(now.get_markdown(), "third");
}

#[test]
fn a_post_without_content_has_an_empty_first_snapshot() {
    let mut store = Store::new();
    let admin = session(&mut store, "root", true);
    let id = Post::new(None, "bare".to_string(), None).insert(&mut store, &admin).unwrap();
    assert_eq!(contents(&store, id), vec![""]);
    assert_eq!(Post::from_id(&store, id).unwrap().get_markdown(), "");
}

#[test]
fn posts_get_ids_from_two_on() {
    let mut store = Store::new();
    let admin = session(&mut store, "root", true);
    assert!(matches!(Post::from_id(&store, 1), Err(NoteError::SQLError(_))));
    let a = Post::new(None, "a".to_string(), None).insert(&mut store, &admin).unwrap();
    let b = Post::new(None, "b".to_string(), None).insert(&mut store, &admin).unwrap();
    assert_eq!((a, b), (2, 3));
    let under_root: Vec<u32> =
        Edge::get_to_list(&store, 1).unwrap().iter().map(|e| e.get_to()).collect();
    assert_eq!(under_root, vec![2, 3]);
    // The latest insertion of a creation is the snapshot.
    assert_eq!(store.last_insert_id(), 2);
}

#[test]
fn updating_a_post_that_is_not_stored_fails_and_changes_nothing() {
    let mut store = Store::new();
    let admin = session(&mut store, "root", true);
    let before = store.clone();
    let ghost = Post::new(Some(5), "x".to_string(), Some("y".to_string()));
    match ghost.update(&mut store, &admin) {
        Err(NoteError::SQLError(text)) => assert_eq!(text, "Failed to query post from id"),
        _ => panic!("a post that is not stored was updated"),
    }
    assert_eq!(store, before);
}

#[test]
fn delete_clears_everything_that_hangs_on_the_post() {
    let mut store = Store::new();
    let admin = session(&mut store, "root", true);
    let a = Post::new(None, "a".to_string(), Some("a0".to_string()))
        .insert(&mut store, &admin)
        .unwrap();
    let b = Post::new(None, "b".to_string(), Some("b0".to_string()))
        .insert(&mut store, &admin)
        .unwrap();
    store.add_edge(InsertEdge { from_post: a, to_post: b }).unwrap();
    store.add_edge(InsertEdge { from_post: b, to_post: a }).unwrap();
    store.add_edge(InsertEdge { from_post: a, to_post: a }).unwrap();
    Post::new(Some(a), "a".to_string(), Some("a1".to_string())).update(&mut store, &admin).unwrap();
    Post::new(Some(b), "b".to_string(), Some("b1".to_string())).update(&mut store, &admin).unwrap();

    Post::new(Some(a), String::new(), None).delete(&mut store, &admin).unwrap();

    assert!(store.post_by_id(a).is_none());
    assert!(Edge::get_to_list(&store, a).unwrap().is_empty());
    assert!(Edge::get_from_list(&store, a).unwrap().is_empty());
    assert!(History::get_history(a, &store).unwrap().is_empty());
    // The other post keeps its row, its edge from the root and its history.
    assert_eq!(Post::from_id(&store, b).unwrap().get_markdown(), "b1");
    let into_b: Vec<u32> =
        Edge::get_from_list(&store, b).unwrap().iter().map(|e| e.get_from()).collect();
    assert_eq!(into_b, vec![1]);
    assert_eq!(contents(&store, b), vec!["b0", "b0"]);
    // Deleting again changes nothing.
    let once = store.clone();
    Post::new(Some(a), String::new(), None).delete(&mut store, &admin).unwrap();
    assert_eq!(store, once);
}

#[test]
fn non_admin_cannot_touch_posts_or_history() {
    let mut store = Store::new();
    let admin = session(&mut store, "root", true);
    let user = session(&mut store, "ann", false);
    let id = Post::new(None, "a".to_string(), Some("a0".to_string()))
        .insert(&mut store, &admin)
        .unwrap();
    let before = store.clone();
    let denied = |r: Result<(), NoteError>| match r {
        Err(NoteError::NoPermission(text)) => assert_eq!(text, "You are not admin"),
        _ => panic!("a user who is no admin was let through"),
    };
    let post = Post::new(Some(id), "b".to_string(), Some("b0".to_string()));
    denied(post.insert(&mut store, &user).map(|_| ()));
    assert_eq!(store, before);
    denied(post.insert_at(&mut store, &user, 5).map(|_| ()));
    assert_eq!(store, before);
    denied(post.update(&mut store, &user));
    assert_eq!(store, before);
    denied(post.update_at(&mut store, &user, 5));
    assert_eq!(store, before);
    denied(post.delete(&mut store, &user));
    assert_eq!(store, before);
    denied(History::new(id, "x").insert(&mut store, &user).map(|_| ()));
    assert_eq!(store, before);
    let snapshot = History::from_id(&store, 1).unwrap();
    denied(snapshot.delete(&mut store, &user));
    assert_eq!(store, before);
}

#[test]
fn admin_records_and_deletes_single_snapshots() {
    let mut store = Store::new();
    let admin = session(&mut store, "root", true);
    let first = History::stamped(7, "one", 10).insert(&mut store, &admin).unwrap();
    let second = History::stamped(7, "two", 20).insert(&mut store, &admin).unwrap();
    let other = History::stamped(8, "else", 30).insert(&mut store, &admin).unwrap();
    assert_eq!((first, second, other), (1, 2, 3));
    assert_eq!(contents(&store, 7), vec!["one", "two"]);
    let found = History::from_id(&store, second).unwrap();
    assert_eq!(found.get_id(), 2);
    assert_eq!(found.get_post_id(), 7);
    assert_eq!(found.get_time(), 20);
    assert_eq!(found.get_markdown(), "two");
    History::from_id(&store, first).unwrap().delete(&mut store, &admin).unwrap();
    assert_eq!(contents(&store, 7), vec!["two"]);
    assert_eq!(contents(&store, 8), vec!["else"]);
    match History::from_id(&store, first) {
        Err(NoteError::SQLError(text)) => assert_eq!(text, "Failed query history"),
        _ => panic!("a deleted snapshot was found"),
    }
    // The id of a deleted snapshot is not handed out again.
    let next = store.add_history(InsertHistory { post_id: 7, time: 40, markdown: None }).unwrap();
    assert_eq!(next, 4);
}

#[test]
fn the_rows_that_follow_a_new_post() {
    let post = Post::new(None, "A".to_string(), Some("v1".to_string()));
    let (edge, snapshot) = post.opening(7, 1_700_000_000);
    assert_eq!((edge.from_post, edge.to_post), (1, 7));
    assert_eq!(snapshot.post_id, 7);
    assert_eq!(snapshot.time, 1_700_000_000);
    assert_eq!(snapshot.markdown, Some("v1".to_string()));
    let (_, snapshot) = Post::new(None, "B".to_string(), None).opening(8, 4_294_967_296 + 9);
    assert_eq!(snapshot.time, 9);
    assert_eq!(snapshot.markdown, Some(String::new()));
}

#[test]
fn the_rows_of_an_update() {
    let stored = Post::new(Some(5), "old title".to_string(), Some("old".to_string()));
    let newer = Post::new(Some(5), "new title".to_string(), Some("new".to_string()));
    let (snapshot, row) = newer.replacing(&stored, 42);
    assert_eq!(snapshot.post_id, 5);
    assert_eq!(snapshot.time, 42);
    assert_eq!(snapshot.markdown, Some("old".to_string()));
    assert_eq!(row.title, "new title");
    assert_eq!(row.markdown, Some("new".to_string()));
}
