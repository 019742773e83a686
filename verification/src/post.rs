//! Posts, and the three operations that keep a post, its edges and its
//! history consistent: create, update, delete.
use crate::auth::{AuthDelete, AuthInsert, AuthUpdate, AuthUser};
use crate::capability::unix_seconds;
use crate::edge::Edge;
use crate::history::{history_views, History};
use crate::insert::{InsertEdge, InsertHistory, InsertPost};
use crate::raw::{copy_opt, opt_text, text_of, EdgeRow, HistoryRow, PostRow, RawPost};
use crate::seqs::{
    ascending, both, has_key, lacks_key, lemma_filter_all, lemma_filter_apart,
    lemma_filter_member, lemma_filter_same, lemma_filter_twice, lemma_lookup_absent,
    lemma_lookup_found, lemma_lookup_present, lemma_none_of_filter, lemma_take_out, negation,
    not_among, Keyed,
};
use crate::store::Store;
use crate::tables::{apart_from, arrives, current, leaves, snapshot_of, Tables, ROOT_POST};
use crate::NoteError;
use vstd::prelude::*;

verus! {

/// A post. One that is not stored has id 0; one without content reads as
/// the empty text.
pub struct Post {
    id: u32,
    title: String,
    markdown: Option<String>,
}

impl View for Post {
    type V = PostRow;

    closed spec fn view(&self) -> PostRow {
        PostRow { id: self.id as nat, title: self.title@, markdown: opt_text(self.markdown) }
    }
}

/// The ids of the posts, one for each post.
pub open spec fn post_ids(posts: Seq<&Post>) -> Seq<nat> {
    posts.map_values(|p: &Post| p@.id)
}

impl Post {
    pub fn get_id(&self) -> (id: u32)
        ensures
            id == self@.id,
    {
        self.id
    }

    pub fn get_title(&self) -> (s: &str)
        ensures
            s@ == self@.title,
    {
        self.title.as_str()
    }

    /// The content of the post, empty if it has none.
    pub fn get_markdown(&self) -> (s: &str)
        ensures
            s@ == text_of(self@.markdown),
    {
        match &self.markdown {
            Some(markdown) => markdown.as_str(),
            None => {
                proof {
                    reveal_strlit("");
                }
                assert(""@ =~= Seq::<char>::empty());
                ""
            },
        }
    }

    /// A post; without an id, 0, the id of a post that is not stored.
    pub fn new(id: Option<u32>, title: String, markdown: Option<String>) -> (p: Post)
        ensures
            p@ == (PostRow {
                id: match id {
                    Some(i) => i as nat,
                    None => 0,
                },
                title: title@,
                markdown: opt_text(markdown),
            }),
    {
        let id: u32 = match id {
            Some(i) => i,
            None => 0,
        };
        Post { id, title, markdown }
    }

    /// The post that a stored row describes.
    pub fn from(post: &RawPost) -> (p: Post)
        ensures
            p@ == post@,
    {
        Post { id: post.id, title: post.title.clone(), markdown: copy_opt(&post.markdown) }
    }

    /// The post stored under `post_id`; an `SQLError` if there is none.
    pub fn from_id(store: &Store, post_id: u32) -> (r: Result<Post, NoteError>)
        ensures
            match store@.post(post_id as nat) {
                Some(row) => r matches Ok(p) && p@ == row,
                None => r matches Err(e) && e is SQLError && e.reads(
                    "Failed to query post from id",
                ),
            },
    {
        match store.post_by_id(post_id) {
            Some(raw) => Ok(Post::from(&raw)),
            None => Err(NoteError::sql_error("Failed to query post from id")),
        }
    }
}

/// The error of a table without an id for a row to add.
fn no_room() -> (e: NoteError)
    ensures
        e is SQLError,
        e.reads("No id is left in the table"),
{
    NoteError::sql_error("No id is left in the table")
}

/// Reconciling the outgoing and then the incoming edges of a post with no
/// post at all takes out every edge that touches it, adds none, and needs no
/// new id.
pub proof fn lemma_unlink_all(t: Tables, post: nat)
    requires
        t.wf(),
    ensures
        t.can_reconcile(post, Seq::empty(), true),
        t.reconciled(post, Seq::empty(), true).can_reconcile(post, Seq::empty(), false),
        t.reconciled(post, Seq::empty(), true).reconciled(post, Seq::empty(), false) == (Tables {
            edges: t.edges.filter(apart_from(post)),
            ..t
        }),
{
    let nothing = Seq::<nat>::empty();
    let out = current(post, nothing, true);
    let inc = current(post, nothing, false);
    let one = t.reconciled(post, nothing, true);
    assert(t.to_link(post, nothing, true) =~= Seq::<nat>::empty());
    assert(one.to_link(post, nothing, false) =~= Seq::<nat>::empty());
    assert(one.edges =~= t.edges.filter(out));
    let two = one.reconciled(post, nothing, false);
    assert(two.edges =~= t.edges.filter(out).filter(inc));
    lemma_filter_twice(t.edges, out, inc);
    assert forall|k: int| 0 <= k < t.edges.len() implies both(out, inc)(#[trigger] t.edges[k])
        == apart_from(post)(t.edges[k]) by {}
    lemma_filter_same(t.edges, both(out, inc), apart_from(post));
}

/// After a post was deleted nothing of it is left: no edge leaves it, no
/// edge arrives at it, it has no snapshot, and no post is stored under its
/// id.
pub proof fn lemma_purged_is_gone(t: Tables, post: nat)
    ensures
        t.purged(post).edges_from(post) == Seq::<EdgeRow>::empty(),
        t.purged(post).edges_to(post) == Seq::<EdgeRow>::empty(),
        t.purged(post).histories_of(post) == Seq::<HistoryRow>::empty(),
        t.purged(post).post(post) is None,
{
    lemma_filter_apart(t.edges, apart_from(post), leaves(post));
    lemma_filter_apart(t.edges, apart_from(post), arrives(post));
    lemma_filter_apart(t.histories, negation(snapshot_of(post)), snapshot_of(post));
    lemma_filter_apart(t.posts, lacks_key(post), has_key(post));
}

/// Deleting a post leaves every edge between other posts, every snapshot of
/// another post and every other post as they were, and touches no user and
/// no token.
pub proof fn lemma_purged_spares_others(t: Tables, post: nat, other: nat)
    requires
        other != post,
    ensures
        t.purged(post).histories_of(other) == t.histories_of(other),
        t.purged(post).post(other) == t.post(other),
        t.purged(post).users == t.users,
        t.purged(post).tokens == t.tokens,
        forall|i: int|
            0 <= i < t.edges.len() && (#[trigger] t.edges[i]).from_post != post
                && t.edges[i].to_post != post ==> t.purged(post).edges.contains(t.edges[i]),
{
    let not_of = negation(snapshot_of(post));
    lemma_filter_twice(t.histories, not_of, snapshot_of(other));
    assert forall|k: int| 0 <= k < t.histories.len() implies both(not_of, snapshot_of(other))(
        #[trigger] t.histories[k],
    ) == snapshot_of(other)(t.histories[k]) by {}
    lemma_filter_same(t.histories, both(not_of, snapshot_of(other)), snapshot_of(other));
    lemma_filter_twice(t.posts, lacks_key(post), has_key(other));
    assert forall|k: int| 0 <= k < t.posts.len() implies both(
        lacks_key::<PostRow>(post),
        has_key::<PostRow>(other),
    )(#[trigger] t.posts[k]) == has_key::<PostRow>(other)(t.posts[k]) by {}
    lemma_filter_same(t.posts, both(lacks_key(post), has_key(other)), has_key(other));
    assert forall|i: int|
        0 <= i < t.edges.len() && (#[trigger] t.edges[i]).from_post != post && t.edges[i].to_post
            != post implies t.purged(post).edges.contains(t.edges[i]) by {
        assert(t.edges.contains(t.edges[i]));
        lemma_filter_member(t.edges, apart_from(post), t.edges[i]);
    }
}

/// A post that was just created is stored under the id it was given, is
/// linked under the root by one new edge, and has one snapshot, of its
/// content, provided nothing in the store spoke of that id before.
pub proof fn lemma_created_is_there(t: Tables, title: Seq<char>, text: Seq<char>, time: nat)
    requires
        t.wf(),
        t.histories_of(t.post_seq + 1) == Seq::<HistoryRow>::empty(),
    ensures
        t.created(title, text, time).post(t.post_seq + 1) == Some(
            PostRow { id: t.post_seq + 1, title, markdown: Some(text) },
        ),
        t.created(title, text, time).edges.last() == (EdgeRow {
            id: t.edge_seq + 1,
            from_post: ROOT_POST as nat,
            to_post: t.post_seq + 1,
        }),
        t.created(title, text, time).histories_of(t.post_seq + 1) == seq![
            HistoryRow {
                id: t.history_seq + 1,
                post_id: t.post_seq + 1,
                time,
                markdown: Some(text),
            },
        ],
{
    let id = t.post_seq + 1;
    let after = t.created(title, text, time);
    lemma_lookup_absent(t.posts, id);
    t.posts.lemma_filter_push(PostRow { id, title, markdown: Some(text) }, has_key(id));
    t.histories.lemma_filter_push(
        HistoryRow { id: t.history_seq + 1, post_id: id, time, markdown: Some(text) },
        snapshot_of(id),
    );
    assert(after.histories_of(id) =~= seq![
        HistoryRow { id: t.history_seq + 1, post_id: id, time, markdown: Some(text) },
    ]);
}

/// After an update the post holds the new title and content, and its
/// snapshots are those it had before and then one of the content that the
/// update replaced.
pub proof fn lemma_updated_keeps_previous(
    t: Tables,
    id: nat,
    title: Seq<char>,
    text: Seq<char>,
    time: nat,
)
    requires
        t.wf(),
        t.post(id) is Some,
    ensures
        t.updated(id, title, text, time).post(id) == Some(
            PostRow { id, title, markdown: Some(text) },
        ),
        t.updated(id, title, text, time).histories_of(id) == t.histories_of(id).push(
            HistoryRow {
                id: t.history_seq + 1,
                post_id: id,
                time,
                markdown: Some(text_of(t.post(id)->0.markdown)),
            },
        ),
{
    let after = t.updated(id, title, text, time);
    lemma_lookup_found(t.posts, id);
    let row = t.post(id)->0;
    let i = choose|i: int| 0 <= i < t.posts.len() && t.posts[i] == row;
    assert forall|k: int| 0 <= k < after.posts.len() implies (#[trigger] after.posts[k]).key()
        == t.posts[k].key() by {}
    assert(ascending(after.posts, 2, t.post_seq)) by {
        assert forall|a: int, b: int| 0 <= a < b < after.posts.len() implies (
        #[trigger] after.posts[a]).key() < (#[trigger] after.posts[b]).key() by {
            assert(t.posts[a].key() < t.posts[b].key());
        }
        assert forall|a: int| 0 <= a < after.posts.len() implies 2 <= (
        #[trigger] after.posts[a]).key() <= t.post_seq by {
            assert(2 <= t.posts[a].key() <= t.post_seq);
        }
    }
    lemma_lookup_present(after.posts, i, 2, t.post_seq);
    t.histories.lemma_filter_push(
        HistoryRow {
            id: t.history_seq + 1,
            post_id: id,
            time,
            markdown: Some(text_of(row.markdown)),
        },
        snapshot_of(id),
    );
}

/// Creating a post and updating it twice leaves exactly three snapshots of
/// it, in the order of the calls: the content it was created with, then the
/// content that the first update replaced, which is that same content, and
/// then the content that the second update replaced, which is what the
/// first update wrote. This holds where the three calls succeed, that is
/// where the tables have ids left for them, and nothing in the store spoke
/// of the new id before.
pub proof fn lemma_history_in_call_order(
    t: Tables,
    title: Seq<char>,
    text: Seq<char>,
    time: nat,
    title1: Seq<char>,
    text1: Seq<char>,
    time1: nat,
    title2: Seq<char>,
    text2: Seq<char>,
    time2: nat,
)
    requires
        t.wf(),
        t.can_create(),
        t.history_seq + 3 <= u32::MAX,
        t.histories_of(t.post_seq + 1) == Seq::<HistoryRow>::empty(),
    ensures
        ({
            let id = t.post_seq + 1;
            let last = t.created(title, text, time).updated(id, title1, text1, time1).updated(
                id,
                title2,
                text2,
                time2,
            );
            &&& last.histories_of(id).len() == 3
            &&& last.histories_of(id)[0].markdown == Some(text)
            &&& last.histories_of(id)[0].time == time
            &&& last.histories_of(id)[1].markdown == Some(text)
            &&& last.histories_of(id)[1].time == time1
            &&& last.histories_of(id)[2].markdown == Some(text1)
            &&& last.histories_of(id)[2].time == time2
            &&& last.post(id) == Some(PostRow { id, title: title2, markdown: Some(text2) })
        }),
{
    let id = t.post_seq + 1;
    let made = t.created(title, text, time);
    lemma_created_is_there(t, title, text, time);
    lemma_created_wf(t, title, text, time);
    let first = made.updated(id, title1, text1, time1);
    lemma_updated_keeps_previous(made, id, title1, text1, time1);
    lemma_updated_wf(made, id, title1, text1, time1);
    lemma_updated_keeps_previous(first, id, title2, text2, time2);
}

/// Creating a post keeps the store well formed while ids are left.
pub proof fn lemma_created_wf(t: Tables, title: Seq<char>, text: Seq<char>, time: nat)
    requires
        t.wf(),
        t.can_create(),
    ensures
        t.created(title, text, time).wf(),
{
}

/// Updating a post keeps the store well formed while ids are left.
pub proof fn lemma_updated_wf(t: Tables, id: nat, title: Seq<char>, text: Seq<char>, time: nat)
    requires
        t.wf(),
        t.history_seq < u32::MAX,
    ensures
        t.updated(id, title, text, time).wf(),
{
    let after = t.updated(id, title, text, time);
    assert forall|k: int| 0 <= k < after.posts.len() implies (#[trigger] after.posts[k]).key()
        == t.posts[k].key() by {}
    assert forall|a: int, b: int| 0 <= a < b < after.posts.len() implies (
    #[trigger] after.posts[a]).key() < (#[trigger] after.posts[b]).key() by {
        assert(t.posts[a].key() < t.posts[b].key());
    }
    assert forall|a: int| 0 <= a < after.posts.len() implies 2 <= (
    #[trigger] after.posts[a]).key() <= t.post_seq by {
        assert(2 <= t.posts[a].key() <= t.post_seq);
    }
}

impl Post {
    /// The two rows that follow the row of a new post stored under `id`:
    /// the edge that links it under the root, and the first snapshot of its
    /// content, taken at the given second since the Unix epoch.
    pub fn opening(&self, id: u32, seconds: i64) -> (r: (InsertEdge, InsertHistory))
        ensures
            r.0.from_post == ROOT_POST,
            r.0.to_post == id,
            r.1.post_id == id,
            r.1.time == seconds as u32,
            opt_text(r.1.markdown) == Some(text_of(self@.markdown)),
    {
        let history = History::stamped(id, self.get_markdown(), seconds);
        (InsertEdge { from_post: ROOT_POST, to_post: id }, InsertHistory::from(&history))
    }

    /// The two rows that an update writes over the post `stored`, in this
    /// order: a snapshot of the content that is stored, taken at the given
    /// second since the Unix epoch, and the row with the title and content
    /// of `self`.
    pub fn replacing(&self, stored: &Post, seconds: i64) -> (r: (InsertHistory, InsertPost))
        ensures
            r.0.post_id == stored@.id,
            r.0.time == seconds as u32,
            opt_text(r.0.markdown) == Some(text_of(stored@.markdown)),
            r.1.title@ == self@.title,
            opt_text(r.1.markdown) == Some(text_of(self@.markdown)),
    {
        let history = History::stamped(stored.get_id(), stored.get_markdown(), seconds);
        (InsertHistory::from(&history), InsertPost::from(self))
    }

    /// Creates the post at the given second since the Unix epoch: stores it
    /// under a new id, links it under the root, records a first snapshot of
    /// its content, and returns the id. Only an admin may do so.
    ///
    /// Fails, with the store unchanged, with `NoPermission` for a session
    /// that is no admin, and with an `SQLError` if one of the three tables
    /// has handed out its last id.
    pub fn insert_at(&self, store: &mut Store, user: &AuthUser, seconds: i64) -> (r: Result<
        u32,
        NoteError,
    >)
        requires
            old(store).wf(),
        ensures
            final(store).wf(),
            match r {
                Ok(id) => {
                    &&& user@.admin
                    &&& old(store)@.can_create()
                    &&& id == old(store)@.post_seq + 1
                    &&& final(store)@ == old(store)@.created(
                        self@.title,
                        text_of(self@.markdown),
                        (seconds as u32) as nat,
                    )
                },
                Err(e) => {
                    &&& final(store)@ == old(store)@
                    &&& if !user@.admin {
                        e is NoPermission && e.reads("You are not admin")
                    } else {
                        &&& e is SQLError
                        &&& e.reads("No id is left in the table")
                        &&& !old(store)@.can_create()
                    }
                },
            },
    {
        match user.auth() {
            Ok(_) => {},
            Err(e) => {
                return Err(e);
            },
        }
        if !(store.post_room() && store.edge_room(1) && store.history_room()) {
            return Err(no_room());
        }
        let insert_id = match store.add_post(InsertPost::from(self)) {
            Ok(id) => id,
            Err(e) => {
                return Err(e);
            },
        };
        let (edge, snapshot) = self.opening(insert_id, seconds);
        match store.add_edge(edge) {
            Ok(_) => {},
            Err(e) => {
                return Err(e);
            },
        }
        match store.add_history(snapshot) {
            Ok(_) => {},
            Err(e) => {
                return Err(e);
            },
        }
        Ok(insert_id)
    }

    /// Updates the stored post with this id at the given second since the
    /// Unix epoch: records a snapshot of the content that is stored, and
    /// then overwrites title and content with those of `self`. Only an admin
    /// may do so.
    ///
    /// Fails, with the store unchanged, with `NoPermission` for a session
    /// that is no admin, and with an `SQLError` if no post is stored under
    /// the id or the histories table has handed out its last id.
    pub fn update_at(&self, store: &mut Store, user: &AuthUser, seconds: i64) -> (r: Result<
        (),
        NoteError,
    >)
        requires
            old(store).wf(),
        ensures
            final(store).wf(),
            match r {
                Ok(_) => {
                    &&& user@.admin
                    &&& old(store)@.can_update(self@.id)
                    &&& final(store)@ == old(store)@.updated(
                        self@.id,
                        self@.title,
                        text_of(self@.markdown),
                        (seconds as u32) as nat,
                    )
                },
                Err(e) => {
                    &&& final(store)@ == old(store)@
                    &&& if !user@.admin {
                        e is NoPermission && e.reads("You are not admin")
                    } else if old(store)@.post(self@.id) is None {
                        e is SQLError && e.reads("Failed to query post from id")
                    } else {
                        &&& e is SQLError
                        &&& e.reads("No id is left in the table")
                        &&& old(store)@.history_seq == u32::MAX
                    }
                },
            },
    {
        match user.auth() {
            Ok(_) => {},
            Err(e) => {
                return Err(e);
            },
        }
        let stored = match Post::from_id(store, self.id) {
            Ok(post) => post,
            Err(e) => {
                return Err(e);
            },
        };
        if !store.history_room() {
            return Err(no_room());
        }
        let (snapshot, row) = self.replacing(&stored, seconds);
        match store.add_history(snapshot) {
            Ok(_) => {},
            Err(e) => {
                return Err(e);
            },
        }
        store.set_post(self.id, row);
        Ok(())
    }
}

impl AuthInsert for Post {
    /// Creates the post now: stores it under a new id, links it under the
    /// root, records a first snapshot of its content, and returns the id.
    /// Only an admin may do so.
    ///
    /// Fails, with the store unchanged, with `NoPermission` for a session
    /// that is no admin, and with an `SQLError` if one of the three tables
    /// has handed out its last id.
    fn insert(&self, store: &mut Store, user: &AuthUser) -> (r: Result<u32, NoteError>)
        ensures
            match r {
                Ok(id) => {
                    &&& user@.admin
                    &&& old(store)@.can_create()
                    &&& id == old(store)@.post_seq + 1
                    &&& final(store)@ == old(store)@.created(
                        self@.title,
                        text_of(self@.markdown),
                        final(store)@.histories.last().time,
                    )
                },
                Err(e) => if !user@.admin {
                    e is NoPermission && e.reads("You are not admin")
                } else {
                    &&& e is SQLError
                    &&& e.reads("No id is left in the table")
                    &&& !old(store)@.can_create()
                },
            },
    {
        self.insert_at(store, user, unix_seconds())
    }
}

impl AuthUpdate for Post {
    /// Updates the stored post with this id now: records a snapshot of the
    /// content that is stored, and then overwrites title and content with
    /// those of `self`. Only an admin may do so.
    ///
    /// Fails, with the store unchanged, with `NoPermission` for a session
    /// that is no admin, and with an `SQLError` if no post is stored under
    /// the id or the histories table has handed out its last id.
    fn update(&self, store: &mut Store, user: &AuthUser) -> (r: Result<(), NoteError>)
        ensures
            match r {
                Ok(_) => {
                    &&& user@.admin
                    &&& old(store)@.can_update(self@.id)
                    &&& final(store)@ == old(store)@.updated(
                        self@.id,
                        self@.title,
                        text_of(self@.markdown),
                        final(store)@.histories.last().time,
                    )
                },
                Err(e) => if !user@.admin {
                    e is NoPermission && e.reads("You are not admin")
                } else if old(store)@.post(self@.id) is None {
                    e is SQLError && e.reads("Failed to query post from id")
                } else {
                    &&& e is SQLError
                    &&& e.reads("No id is left in the table")
                    &&& old(store)@.history_seq == u32::MAX
                },
            },
    {
        self.update_at(store, user, unix_seconds())
    }
}

impl AuthDelete for Post {
    /// Deletes the post with this id and all that hangs on it: first every
    /// edge that leaves it and every edge that arrives at it, then every
    /// snapshot of it, and last its row. Only an admin may do so; where no
    /// post is stored under the id, what hangs on the id is cleared all the
    /// same.
    fn delete(&self, store: &mut Store, user: &AuthUser) -> (r: Result<(), NoteError>)
        ensures
            match r {
                Ok(_) => user@.admin && final(store)@ == old(store)@.purged(self@.id),
                Err(e) => !user@.admin && e is NoPermission && e.reads("You are not admin"),
            },
    {
        match user.auth() {
            Ok(_) => {},
            Err(e) => {
                return Err(e);
            },
        }
        let ghost before = store@;
        let ghost post = self@.id;
        proof {
            lemma_unlink_all(before, post);
        }
        let nobody: Vec<&Post> = Vec::new();
        assert(post_ids(nobody@) =~= Seq::<nat>::empty());
        match Edge::update_to_list(store, user, self.get_id(), nobody) {
            Ok(_) => {},
            Err(e) => {
                return Err(e);
            },
        }
        let nobody: Vec<&Post> = Vec::new();
        assert(post_ids(nobody@) =~= Seq::<nat>::empty());
        match Edge::update_from_list(store, user, self.get_id(), nobody) {
            Ok(_) => {},
            Err(e) => {
                proof {
                    assert(false);
                }
                return Err(e);
            },
        }
        let ghost unlinked = store@;
        let history_list = match History::get_history(self.get_id(), store) {
            Ok(list) => list,
            Err(e) => {
                proof {
                    assert(false);
                }
                return Err(e);
            },
        };
        let ghost gone = history_views(history_list@);
        proof {
            lemma_none_of_filter(unlinked.histories, snapshot_of(post));
            lemma_filter_all(unlinked.histories, not_among(gone.take(0)));
        }
        let mut i: usize = 0;
        while i < history_list.len()
            invariant
                i <= history_list.len(),
                store.wf(),
                unlinked.wf(),
                gone == history_views(history_list@),
                forall|x: HistoryRow| gone.contains(x) ==> unlinked.histories.contains(x),
                store@ == (Tables {
                    histories: unlinked.histories.filter(not_among(gone.take(i as int))),
                    ..unlinked
                }),
            decreases history_list.len() - i,
        {
            proof {
                assert(gone.contains(gone[i as int]));
                lemma_take_out(unlinked.histories, gone, i as int, 1, unlinked.history_seq);
            }
            store.remove_history(history_list[i].get_id());
            i += 1;
        }
        assert(gone.take(i as int) =~= gone);
        store.remove_post(self.get_id());
        Ok(())
    }
}

impl InsertPost {
    /// The row to store for a post: its title and its content, which is the
    /// empty text for a post without content.
    pub fn from(post: &Post) -> (row: InsertPost)
        ensures
            row.title@ == post@.title,
            opt_text(row.markdown) == Some(text_of(post@.markdown)),
    {
        InsertPost {
            title: post.get_title().to_owned(),
            markdown: Some(post.get_markdown().to_owned()),
        }
    }
}

} // verus!
