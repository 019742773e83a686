//! The contents of a store as mathematics: five tables of rows, the last id
//! that each table handed out, and the id of the latest insertion.
use crate::raw::{text_of, EdgeRow, HistoryRow, PostRow, TokenRow, UserRow};
use crate::seqs::{ascending, first_of, last_key, lookup, negation, without, Keyed};
use vstd::prelude::*;

verus! {

/// The id under which every new post is linked. No post row backs it: the
/// posts table hands out ids from 2 on.
pub const ROOT_POST: u32 = 1;

impl Keyed for UserRow {
    open spec fn key(&self) -> nat {
        self.id
    }
}

impl Keyed for TokenRow {
    open spec fn key(&self) -> nat {
        self.id
    }
}

impl Keyed for PostRow {
    open spec fn key(&self) -> nat {
        self.id
    }
}

impl Keyed for EdgeRow {
    open spec fn key(&self) -> nat {
        self.id
    }
}

impl Keyed for HistoryRow {
    open spec fn key(&self) -> nat {
        self.id
    }
}

/// The test that a user goes by `name`.
pub open spec fn named(name: Seq<char>) -> spec_fn(UserRow) -> bool {
    |u: UserRow| u.nickname == name
}

/// The test that a token row holds `secret`.
pub open spec fn holds_secret(secret: Seq<char>) -> spec_fn(TokenRow) -> bool {
    |t: TokenRow| t.token == secret
}

/// The end of an edge at which a post holds it: its source for the post's
/// outgoing edges, its target for the incoming ones.
pub open spec fn near(e: EdgeRow, outgoing: bool) -> nat {
    if outgoing {
        e.from_post
    } else {
        e.to_post
    }
}

/// The other end of the edge.
pub open spec fn far(e: EdgeRow, outgoing: bool) -> nat {
    if outgoing {
        e.to_post
    } else {
        e.from_post
    }
}

/// The test that `post` holds an edge at its near end.
pub open spec fn touches(post: nat, outgoing: bool) -> spec_fn(EdgeRow) -> bool {
    |e: EdgeRow| near(e, outgoing) == post
}

/// The test that an edge leaves `post`.
pub open spec fn leaves(post: nat) -> spec_fn(EdgeRow) -> bool {
    touches(post, true)
}

/// The test that an edge arrives at `post`.
pub open spec fn arrives(post: nat) -> spec_fn(EdgeRow) -> bool {
    touches(post, false)
}

/// The test that an edge touches `post` at neither end.
pub open spec fn apart_from(post: nat) -> spec_fn(EdgeRow) -> bool {
    |e: EdgeRow| e.from_post != post && e.to_post != post
}

/// The far ends of the edges, one for each edge.
pub open spec fn far_ends(edges: Seq<EdgeRow>, outgoing: bool) -> Seq<nat> {
    edges.map_values(|e: EdgeRow| far(e, outgoing))
}

/// The test that the far end of an edge is none of `wanted`.
pub open spec fn unwanted(wanted: Seq<nat>, outgoing: bool) -> spec_fn(EdgeRow) -> bool {
    |e: EdgeRow| !wanted.contains(far(e, outgoing))
}

/// The test that an edge stays when the edges of `post` are reconciled with
/// `wanted`: it is no edge of `post`, or its far end is wanted.
pub open spec fn current(post: nat, wanted: Seq<nat>, outgoing: bool) -> spec_fn(EdgeRow) -> bool {
    |e: EdgeRow| near(e, outgoing) != post || wanted.contains(far(e, outgoing))
}

/// The wanted ends that are none of `have`, each once, in the order in which
/// `wanted` first names them.
pub open spec fn missing(wanted: Seq<nat>, have: Seq<nat>) -> Seq<nat>
    decreases wanted.len(),
{
    if wanted.len() == 0 {
        Seq::empty()
    } else {
        let before = missing(wanted.drop_last(), have);
        let end = wanted.last();
        if have.contains(end) || before.contains(end) {
            before
        } else {
            before.push(end)
        }
    }
}

/// The edge with the given id between `post` and `other`.
pub open spec fn edge_between(post: nat, other: nat, outgoing: bool, id: nat) -> EdgeRow {
    if outgoing {
        EdgeRow { id, from_post: post, to_post: other }
    } else {
        EdgeRow { id, from_post: other, to_post: post }
    }
}

/// Edges between `post` and each of `ends`, all with the id 0 of an edge
/// that is not stored.
pub open spec fn unlinked(post: nat, ends: Seq<nat>, outgoing: bool) -> Seq<EdgeRow> {
    Seq::new(ends.len(), |k: int| edge_between(post, ends[k], outgoing, 0))
}

/// Edges between `post` and each of `ends`, with the ids that follow `base`.
pub open spec fn linked(post: nat, ends: Seq<nat>, outgoing: bool, base: nat) -> Seq<EdgeRow> {
    Seq::new(ends.len(), |k: int| edge_between(post, ends[k], outgoing, (base + 1 + k) as nat))
}

/// The test that a snapshot belongs to `post`.
pub open spec fn snapshot_of(post: nat) -> spec_fn(HistoryRow) -> bool {
    |h: HistoryRow| h.post_id == post
}

/// The user row `u` with its profile replaced.
pub open spec fn reprofiled(
    u: UserRow,
    nickname: Seq<char>,
    email: Seq<char>,
    password: Seq<char>,
) -> UserRow {
    UserRow { id: u.id, nickname, password, email, admin: u.admin }
}

/// What a store holds.
#[verifier::ext_equal]
pub struct Tables {
    pub users: Seq<UserRow>,
    pub tokens: Seq<TokenRow>,
    pub posts: Seq<PostRow>,
    pub edges: Seq<EdgeRow>,
    pub histories: Seq<HistoryRow>,
    /// The last id that the users table handed out.
    pub user_seq: nat,
    /// The last id that the tokens table handed out.
    pub token_seq: nat,
    /// The last id that the posts table handed out.
    pub post_seq: nat,
    /// The last id that the edges table handed out.
    pub edge_seq: nat,
    /// The last id that the histories table handed out.
    pub history_seq: nat,
    /// The id of the latest inserted row of any table, 0 before the first.
    pub last_insert_id: nat,
}

impl Tables {
    /// A store that nothing was written to.
    pub open spec fn empty() -> Tables {
        Tables {
            users: Seq::empty(),
            tokens: Seq::empty(),
            posts: Seq::empty(),
            edges: Seq::empty(),
            histories: Seq::empty(),
            user_seq: 0,
            token_seq: 0,
            post_seq: ROOT_POST as nat,
            edge_seq: 0,
            history_seq: 0,
            last_insert_id: 0,
        }
    }

    /// The store that holds the given rows and nothing else: each table
    /// has handed out the id of its last row, and nothing was inserted yet
    /// on the connection.
    pub open spec fn holding(
        users: Seq<UserRow>,
        tokens: Seq<TokenRow>,
        posts: Seq<PostRow>,
        edges: Seq<EdgeRow>,
        histories: Seq<HistoryRow>,
    ) -> Tables {
        Tables {
            users,
            tokens,
            posts,
            edges,
            histories,
            user_seq: last_key(users, 0),
            token_seq: last_key(tokens, 0),
            post_seq: last_key(posts, ROOT_POST as nat),
            edge_seq: last_key(edges, 0),
            history_seq: last_key(histories, 0),
            last_insert_id: 0,
        }
    }

    /// In every table the ids grow along the rows, start at 1 (posts at 2,
    /// after the root) and end at the last id handed out, which fits the id
    /// type; and no two users share a nickname.
    pub open spec fn wf(self) -> bool {
        &&& ascending(self.users, 1, self.user_seq)
        &&& ascending(self.tokens, 1, self.token_seq)
        &&& ascending(self.posts, 2, self.post_seq)
        &&& ascending(self.edges, 1, self.edge_seq)
        &&& ascending(self.histories, 1, self.history_seq)
        &&& self.user_seq <= u32::MAX
        &&& self.token_seq <= u32::MAX
        &&& ROOT_POST <= self.post_seq <= u32::MAX
        &&& self.edge_seq <= u32::MAX
        &&& self.history_seq <= u32::MAX
        &&& self.last_insert_id <= u32::MAX
        &&& forall|i: int, j: int|
            0 <= i < j < self.users.len() ==> (#[trigger] self.users[i]).nickname != (
            #[trigger] self.users[j]).nickname
    }

    // ----- users -----
    /// The user that goes by `name`.
    pub open spec fn user_named(self, name: Seq<char>) -> Option<UserRow> {
        first_of(self.users.filter(named(name)))
    }

    /// The user stored under `id`.
    pub open spec fn user(self, id: nat) -> Option<UserRow> {
        lookup(self.users, id)
    }

    /// A new user can be stored under `nickname`.
    pub open spec fn user_fits(self, nickname: Seq<char>) -> bool {
        self.user_seq < u32::MAX && self.user_named(nickname) is None
    }

    /// The store after a new user, who is no admin, was added.
    pub open spec fn with_user(
        self,
        nickname: Seq<char>,
        email: Seq<char>,
        password: Seq<char>,
    ) -> Tables {
        let id = self.user_seq + 1;
        Tables {
            users: self.users.push(UserRow { id, nickname, password, email, admin: false }),
            user_seq: id,
            last_insert_id: id,
            ..self
        }
    }

    /// The profile of user `id` can be replaced: no other user goes by
    /// `nickname`.
    pub open spec fn profile_fits(self, id: nat, nickname: Seq<char>) -> bool {
        forall|i: int|
            0 <= i < self.users.len() && (#[trigger] self.users[i]).nickname == nickname
                ==> self.users[i].id == id
    }

    /// The store after the profile of user `id` was replaced.
    pub open spec fn with_profile(
        self,
        id: nat,
        nickname: Seq<char>,
        email: Seq<char>,
        password: Seq<char>,
    ) -> Tables {
        Tables {
            users: self.users.map_values(
                |u: UserRow|
                    if u.id == id {
                        reprofiled(u, nickname, email, password)
                    } else {
                        u
                    },
            ),
            ..self
        }
    }

    /// The store after user `id` was made an admin, or no admin.
    pub open spec fn with_admin(self, id: nat, admin: bool) -> Tables {
        Tables {
            users: self.users.map_values(
                |u: UserRow|
                    if u.id == id {
                        UserRow { admin, ..u }
                    } else {
                        u
                    },
            ),
            ..self
        }
    }

    // ----- tokens -----
    /// The token rows that hold `secret`.
    pub open spec fn tokens_holding(self, secret: Seq<char>) -> Seq<TokenRow> {
        self.tokens.filter(holds_secret(secret))
    }

    /// Some token row holds `secret` for user `user_id`.
    pub open spec fn token_opens(self, user_id: nat, secret: Seq<char>) -> bool {
        exists|i: int|
            0 <= i < self.tokens.len() && (#[trigger] self.tokens[i]).token == secret
                && self.tokens[i].user_id == user_id
    }

    /// The store after a token was added.
    pub open spec fn with_token(self, user_id: nat, secret: Seq<char>) -> Tables {
        let id = self.token_seq + 1;
        Tables {
            tokens: self.tokens.push(TokenRow { id, user_id, token: secret }),
            token_seq: id,
            last_insert_id: id,
            ..self
        }
    }

    // ----- posts -----
    /// The post stored under `id`.
    pub open spec fn post(self, id: nat) -> Option<PostRow> {
        lookup(self.posts, id)
    }

    /// The store after a post was added.
    pub open spec fn with_post(self, title: Seq<char>, markdown: Option<Seq<char>>) -> Tables {
        let id = self.post_seq + 1;
        Tables {
            posts: self.posts.push(PostRow { id, title, markdown }),
            post_seq: id,
            last_insert_id: id,
            ..self
        }
    }

    /// The store after post `id` was overwritten.
    pub open spec fn with_post_set(
        self,
        id: nat,
        title: Seq<char>,
        markdown: Option<Seq<char>>,
    ) -> Tables {
        Tables {
            posts: self.posts.map_values(
                |p: PostRow|
                    if p.id == id {
                        PostRow { id, title, markdown }
                    } else {
                        p
                    },
            ),
            ..self
        }
    }

    /// The store after the row of post `id` was taken out.
    pub open spec fn without_post(self, id: nat) -> Tables {
        Tables { posts: without(self.posts, id), ..self }
    }

    // ----- edges -----
    /// The edges that leave `post`.
    pub open spec fn edges_from(self, post: nat) -> Seq<EdgeRow> {
        self.edges.filter(leaves(post))
    }

    /// The edges that arrive at `post`.
    pub open spec fn edges_to(self, post: nat) -> Seq<EdgeRow> {
        self.edges.filter(arrives(post))
    }

    /// The edges that `post` holds at their near end.
    pub open spec fn edges_at(self, post: nat, outgoing: bool) -> Seq<EdgeRow> {
        self.edges.filter(touches(post, outgoing))
    }

    /// The ends that a reconciliation of `post` with `wanted` links anew.
    pub open spec fn to_link(self, post: nat, wanted: Seq<nat>, outgoing: bool) -> Seq<nat> {
        missing(wanted, far_ends(self.edges_at(post, outgoing), outgoing))
    }

    /// The edges table has ids left for the edges that a reconciliation of
    /// `post` with `wanted` adds.
    pub open spec fn can_reconcile(self, post: nat, wanted: Seq<nat>, outgoing: bool) -> bool {
        self.edge_seq + self.to_link(post, wanted, outgoing).len() <= u32::MAX
    }

    /// The store after the edges of `post` were reconciled with `wanted`:
    /// the edges of `post` whose far end is not wanted are gone, every other
    /// edge is untouched, and one new edge leads to each wanted end that
    /// `post` had no edge to.
    pub open spec fn reconciled(self, post: nat, wanted: Seq<nat>, outgoing: bool) -> Tables {
        let ends = self.to_link(post, wanted, outgoing);
        Tables {
            edges: self.edges.filter(current(post, wanted, outgoing)) + linked(
                post,
                ends,
                outgoing,
                self.edge_seq,
            ),
            edge_seq: self.edge_seq + ends.len(),
            last_insert_id: if ends.len() > 0 {
                self.edge_seq + ends.len()
            } else {
                self.last_insert_id
            },
            ..self
        }
    }

    /// The store after an edge was added.
    pub open spec fn with_edge(self, from_post: nat, to_post: nat) -> Tables {
        let id = self.edge_seq + 1;
        Tables {
            edges: self.edges.push(EdgeRow { id, from_post, to_post }),
            edge_seq: id,
            last_insert_id: id,
            ..self
        }
    }

    /// The store after edge `id` was taken out.
    pub open spec fn without_edge(self, id: nat) -> Tables {
        Tables { edges: without(self.edges, id), ..self }
    }

    // ----- histories -----
    /// The snapshots of `post`, oldest first.
    pub open spec fn histories_of(self, post: nat) -> Seq<HistoryRow> {
        self.histories.filter(snapshot_of(post))
    }

    /// The snapshot stored under `id`.
    pub open spec fn history(self, id: nat) -> Option<HistoryRow> {
        lookup(self.histories, id)
    }

    /// The store after a snapshot was added.
    pub open spec fn with_history(
        self,
        post_id: nat,
        time: nat,
        markdown: Option<Seq<char>>,
    ) -> Tables {
        let id = self.history_seq + 1;
        Tables {
            histories: self.histories.push(HistoryRow { id, post_id, time, markdown }),
            history_seq: id,
            last_insert_id: id,
            ..self
        }
    }

    /// The store after snapshot `id` was taken out.
    pub open spec fn without_history(self, id: nat) -> Tables {
        Tables { histories: without(self.histories, id), ..self }
    }

    // ----- the life of a post -----
    /// A post can be created: the posts, edges and histories tables each
    /// have an id left.
    pub open spec fn can_create(self) -> bool {
        &&& self.post_seq < u32::MAX
        &&& self.edge_seq < u32::MAX
        &&& self.history_seq < u32::MAX
    }

    /// The store after a post was created at `time`: the post under the
    /// next id of the posts table, an edge from the root to it, and a first
    /// snapshot of its content.
    pub open spec fn created(self, title: Seq<char>, text: Seq<char>, time: nat) -> Tables {
        let id = self.post_seq + 1;
        self.with_post(title, Some(text)).with_edge(ROOT_POST as nat, id).with_history(
            id,
            time,
            Some(text),
        )
    }

    /// Post `id` can be updated: it is stored, and the histories table has
    /// an id left.
    pub open spec fn can_update(self, id: nat) -> bool {
        self.post(id) is Some && self.history_seq < u32::MAX
    }

    /// The store after post `id` was updated at `time`: a snapshot of the
    /// content that it had, and then the new title and content in its row.
    pub open spec fn updated(
        self,
        id: nat,
        title: Seq<char>,
        text: Seq<char>,
        time: nat,
    ) -> Tables {
        self.with_history(id, time, Some(text_of(self.post(id)->0.markdown))).with_post_set(
            id,
            title,
            Some(text),
        )
    }

    /// The store after post `id` was deleted: no edge touches it, it has no
    /// snapshot, and its row is gone.
    pub open spec fn purged(self, id: nat) -> Tables {
        Tables {
            posts: without(self.posts, id),
            edges: self.edges.filter(apart_from(id)),
            histories: self.histories.filter(negation(snapshot_of(id))),
            ..self
        }
    }
}

} // verus!
