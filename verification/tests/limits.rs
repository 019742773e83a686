use note::auth::{Auth, AuthInsert, AuthUpdate, AuthUser};
use note::edge::Edge;
use note::history::History;
use note::insert::{InsertEdge, InsertUser};
use note::post::Post;
use note::raw::{RawEdge, RawHistory, RawPost, RawToken, RawUser};
use note::store::Store;
use note::user::User;
use note::NoteError;

/// A bcrypt hash of "password" at cost 4.
const PASSWORD_HASH: &str = "$2a$04$UuTkLRZZ6QofpDOlMz32MuuxEHA43WOemOYHPz6.SjsVsyO1tDU96";

const LAST: u32 = u32::MAX;

fn user(id: u32, nickname: &str, admin: bool) -> RawUser {
    RawUser {
        id,
        nickname: nickname.to_string(),
        password: PASSWORD_HASH.to_string(),
        email: format!("{}@example.org", nickname),
        admin,
    }
}

fn edge(id: u32, from_post: u32, to_post: u32) -> RawEdge {
    RawEdge { id, from_post, to_post }
}

fn snapshot(id: u32, post_id: u32, text: &str) -> RawHistory {
    RawHistory { id, post_id, time: 0, markdown: Some(text.to_string()) }
}

fn post_row(id: u32, title: &str) -> RawPost {
    RawPost { id, title: title.to_string(), markdown: Some(String::new()) }
}

fn admin_of(store: &Store) -> AuthUser {
    let auth = Auth::Password(("root".to_string(), "password".to_string()));
    AuthUser::try_from((auth, store)).unwrap()
}

fn no_id_left(r: Result<(), NoteError>, text: &str) {
    match r {
        Err(NoteError::SQLError(found)) => assert_eq!(found, text),
        _ => panic!("a full table took another row"),
    }
}

fn refused(r: Result<Store, NoteError>) {
    match r {
        Err(NoteError::SQLError(text)) => assert_eq!(text, "The rows are not well formed"),
        Ok(_) => panic!("rows that are not well formed were taken"),
        Err(_) => panic!("another error"),
    }
}

#[test]
fn a_store_holds_the_rows_it_was_given() {
    let store = Store::holding(
        vec![user(2, "root", true), user(5, "ann", false)],
        vec![RawToken { id: 4, user_id: 5, token: "s".to_string() }],
        vec![post_row(2, "a"), post_row(9, "b")],
        vec![edge(3, 1, 2), edge(8, 1, 9)],
        vec![snapshot(1, 2, "a0"), snapshot(6, 9, "b0"), snapshot(7, 2, "a1")],
    )
    .unwrap();
    assert_eq!(store.last_insert_id(), 0);
    assert_eq!(User::from_nickname("ann", &store).unwrap().get_id(), 5);
    assert!(User::from_user_id(2, &store).unwrap().is_admin());
    assert_eq!(Post::from_id(&store, 9).unwrap().get_title(), "b");
    assert_eq!(Edge::get_to_list(&store, 1).unwrap().len(), 2);
    let history = History::get_history(2, &store).unwrap();
    assert_eq!(history.len(), 2);
    assert_eq!(history[1].get_markdown(), "a1");
    let session = AuthUser::try_from((Auth::Token((5, "s".to_string())), &store)).unwrap();
    assert_eq!(session.get_nickname(), "ann");
}

#[test]
fn a_loaded_store_goes_on_after_the_last_ids() {
    let mut store = Store::holding(
        vec![user(2, "root", true)],
        vec![],
        vec![post_row(9, "b")],
        vec![edge(8, 1, 9)],
        vec![snapshot(6, 9, "b0")],
    )
    .unwrap();
    let admin = admin_of(&store);
    let post = Post::new(None, "c".to_string(), Some("c0".to_string()));
    assert_eq!(post.insert(&mut store, &admin).unwrap(), 10);
    let under_root = Edge::get_to_list(&store, 1).unwrap();
    assert_eq!((under_root[1].get_id(), under_root[1].get_to()), (9, 10));
    assert_eq!(History::get_history(10, &store).unwrap()[0].get_id(), 7);
    let added = store.add_user(InsertUser {
        nickname: "ann".to_string(),
        email: String::new(),
        password: String::new(),
    });
    assert_eq!(added.unwrap(), 3);
}

#[test]
fn an_empty_dump_is_a_fresh_store() {
    let store = Store::holding(vec![], vec![], vec![], vec![], vec![]).unwrap();
    assert_eq!(store, Store::new());
}

fn users_only(users: Vec<RawUser>) -> Result<Store, NoteError> {
    Store::holding(users, vec![], vec![], vec![], vec![])
}

fn posts_only(posts: Vec<RawPost>) -> Result<Store, NoteError> {
    Store::holding(vec![], vec![], posts, vec![], vec![])
}

#[test]
fn rows_that_are_not_well_formed_are_refused() {
    refused(users_only(vec![user(2, "a", false), user(1, "b", false)]));
    refused(users_only(vec![user(1, "a", false), user(1, "b", false)]));
    refused(users_only(vec![user(0, "a", false)]));
    refused(users_only(vec![user(1, "a", false), user(2, "a", true)]));
    let token = RawToken { id: 0, user_id: 1, token: String::new() };
    refused(Store::holding(vec![], vec![token], vec![], vec![], vec![]));
    // The id of the root is no id of a post row.
    refused(posts_only(vec![post_row(1, "root")]));
    refused(posts_only(vec![post_row(3, "a"), post_row(2, "b")]));
    let edges = vec![edge(2, 1, 2), edge(2, 1, 3)];
    refused(Store::holding(vec![], vec![], vec![], edges, vec![]));
    let history = vec![snapshot(5, 2, ""), snapshot(4, 2, "")];
    refused(Store::holding(vec![], vec![], vec![], vec![], history));
    assert!(posts_only(vec![post_row(2, "a")]).is_ok());
}

#[test]
fn a_full_edges_table_takes_no_edge() {
    let root = vec![user(1, "root", true)];
    let mut store =
        Store::holding(root, vec![], vec![], vec![edge(LAST, 1, 2)], vec![]).unwrap();
    let admin = admin_of(&store);
    let before = store.clone();
    no_id_left(
        Edge::new(1, 3).insert(&mut store, &admin).map(|_| ()),
        "No id is left in the table",
    );
    assert_eq!(store, before);
    no_id_left(
        store.add_edge(InsertEdge { from_post: 1, to_post: 3 }).map(|_| ()),
        "No id is left in the table",
    );
    assert_eq!(store, before);
    assert!(!store.edge_room(1));
    assert!(store.edge_room(0));
}

#[test]
fn a_reconciliation_without_ids_for_all_its_edges_changes_nothing() {
    let mut store = Store::holding(
        vec![user(1, "root", true)],
        vec![],
        vec![],
        vec![edge(5, 9, 2), edge(LAST - 1, 9, 3)],
        vec![],
    )
    .unwrap();
    let admin = admin_of(&store);
    let before = store.clone();
    let (three, four, five) = (
        Post::new(Some(3), String::new(), None),
        Post::new(Some(4), String::new(), None),
        Post::new(Some(5), String::new(), None),
    );
    // Two new edges are wanted and one id is left: the edge to post 2 is
    // not taken out either.
    no_id_left(
        Edge::update_to_list(&mut store, &admin, 9, vec![&three, &four, &five]),
        "No id is left for the edges to add",
    );
    assert_eq!(store, before);
    // One new edge fits.
    Edge::update_to_list(&mut store, &admin, 9, vec![&three, &four]).unwrap();
    let edges = Edge::get_to_list(&store, 9).unwrap();
    let found: Vec<(u32, u32)> = edges.iter().map(|e| (e.get_id(), e.get_to())).collect();
    assert_eq!(found, vec![(LAST - 1, 3), (LAST, 4)]);
    // Taking edges out needs no id.
    Edge::update_to_list(&mut store, &admin, 9, vec![]).unwrap();
    assert!(Edge::get_to_list(&store, 9).unwrap().is_empty());
}

#[test]
fn a_post_is_created_whole_or_not_at_all() {
    let root = || vec![user(1, "root", true)];
    let full_history =
        Store::holding(root(), vec![], vec![], vec![], vec![snapshot(LAST, 2, "x")]).unwrap();
    let full_edges =
        Store::holding(root(), vec![], vec![], vec![edge(LAST, 1, 2)], vec![]).unwrap();
    let full_posts =
        Store::holding(root(), vec![], vec![post_row(LAST, "x")], vec![], vec![]).unwrap();
    for before in [full_history, full_edges, full_posts] {
        let mut store = before.clone();
        let admin = admin_of(&store);
        let post = Post::new(None, "a".to_string(), Some("a0".to_string()));
        no_id_left(post.insert(&mut store, &admin).map(|_| ()), "No id is left in the table");
        assert_eq!(store, before);
        assert!(!(store.post_room() && store.edge_room(1) && store.history_room()));
    }
}

#[test]
fn an_update_without_an_id_for_its_snapshot_changes_nothing() {
    let mut store = Store::holding(
        vec![user(1, "root", true)],
        vec![],
        vec![post_row(2, "a")],
        vec![],
        vec![snapshot(LAST, 2, "")],
    )
    .unwrap();
    let admin = admin_of(&store);
    let before = store.clone();
    let newer = Post::new(Some(2), "a".to_string(), Some("a1".to_string()));
    no_id_left(newer.update(&mut store, &admin), "No id is left in the table");
    assert_eq!(store, before);
    assert_eq!(Post::from_id(&store, 2).unwrap().get_markdown(), "");
}

#[test]
fn full_tables_take_no_token_and_no_user() {
    let mut store = Store::holding(
        vec![user(LAST, "root", true)],
        vec![RawToken { id: LAST, user_id: 1, token: "s".to_string() }],
        vec![],
        vec![],
        vec![],
    )
    .unwrap();
    let session = admin_of(&store);
    let before = store.clone();
    no_id_left(session.add_token(&mut store).map(|_| ()), "No id is left in the table");
    assert_eq!(store, before);
    let mut ann = User::new(None, "ann".to_string(), "pw".to_string(), String::new());
    no_id_left(
        ann.insert_hashed(&mut store, Ok(PASSWORD_HASH.to_string())).map(|_| ()),
        "No id is left in the table",
    );
    assert_eq!(store, before);
    // A full table is reported before a taken nickname.
    let mut twin = User::new(None, "root".to_string(), "pw".to_string(), String::new());
    no_id_left(
        twin.insert_hashed(&mut store, Ok(PASSWORD_HASH.to_string())).map(|_| ()),
        "No id is left in the table",
    );
    assert_eq!(store, before);
}
