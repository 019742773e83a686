//! The store: five tables in memory, each handing out its own ids.
//!
//! A store stands where a database connection would: every operation of the
//! library reads and writes it through the calls below. The root of the post
//! graph, id 1, is a virtual post: no row backs it, and the posts table
//! starts handing out ids at 2.
use crate::insert::{InsertEdge, InsertHistory, InsertPost, InsertToken, InsertUser};
use crate::raw::{
    edge_rows, history_rows, opt_text, post_rows, token_rows, user_rows, RawEdge, RawHistory,
    RawPost, RawToken, RawUser,
};
use crate::seqs::{
    ascending, has_key, in_order, keys, lacks_key, last_key, lemma_filter_ascending,
    lemma_filter_first,
    lemma_filter_none, lemma_filter_step, lemma_in_order_ascending, lemma_remove_is_without,
    lemma_without_absent, Keyed,
};
use crate::tables::{arrives, holds_secret, leaves, named, snapshot_of, Tables, ROOT_POST};
use crate::NoteError;
use vstd::prelude::*;

verus! {

/// The five tables, the last id that each has handed out, and the id of the
/// latest insertion. Ids are handed out in ascending order and never twice,
/// also after rows were taken out.
#[derive(Debug, Clone, PartialEq, Eq)]
pub struct Store {
    users: Vec<RawUser>,
    tokens: Vec<RawToken>,
    posts: Vec<RawPost>,
    edges: Vec<RawEdge>,
    histories: Vec<RawHistory>,
    user_seq: u32,
    token_seq: u32,
    post_seq: u32,
    edge_seq: u32,
    history_seq: u32,
    last_insert_id: u32,
}

impl View for Store {
    type V = Tables;

    closed spec fn view(&self) -> Tables {
        Tables {
            users: user_rows(self.users@),
            tokens: token_rows(self.tokens@),
            posts: post_rows(self.posts@),
            edges: edge_rows(self.edges@),
            histories: history_rows(self.histories@),
            user_seq: self.user_seq as nat,
            token_seq: self.token_seq as nat,
            post_seq: self.post_seq as nat,
            edge_seq: self.edge_seq as nat,
            history_seq: self.history_seq as nat,
            last_insert_id: self.last_insert_id as nat,
        }
    }
}

/// The error of a table that has handed out its last id.
fn table_full() -> (e: NoteError)
    ensures
        e is SQLError,
        e.reads("No id is left in the table"),
{
    NoteError::sql_error("No id is left in the table")
}

/// The error of a nickname that another user goes by.
fn name_taken() -> (e: NoteError)
    ensures
        e is SQLError,
        e.reads("The nickname is taken"),
{
    NoteError::sql_error("The nickname is taken")
}

/// Ids as mathematical integers.
spec fn as_nats(ids: Seq<u32>) -> Seq<nat> {
    ids.map_values(|id: u32| id as nat)
}

/// The last of the ids of rows is the id of the last row.
proof fn lemma_last_id<A: Keyed>(ids: Seq<u32>, rows: Seq<A>, floor: u32)
    requires
        as_nats(ids) == keys(rows),
    ensures
        ids.len() == rows.len(),
        last_key(rows, floor as nat) == if ids.len() > 0 {
            ids[ids.len() - 1]
        } else {
            floor
        },
{
    assert(as_nats(ids).len() == ids.len());
    assert(keys(rows).len() == rows.len());
    if ids.len() > 0 {
        assert(as_nats(ids)[ids.len() - 1] == ids[ids.len() - 1]);
        assert(keys(rows)[rows.len() - 1] == rows.last().key());
    }
}

/// The ids of the user rows.
fn user_ids(rows: &Vec<RawUser>) -> (ids: Vec<u32>)
    ensures
        as_nats(ids@) == keys(user_rows(rows@)),
{
    let mut ids: Vec<u32> = Vec::new();
    let mut i: usize = 0;
    while i < rows.len()
        invariant
            i <= rows.len(),
            as_nats(ids@) == keys(user_rows(rows@)).take(i as int),
        decreases rows.len() - i,
    {
        let ghost before = ids@;
        ids.push(rows[i].id);
        assert(as_nats(ids@) =~= as_nats(before).push(rows[i as int].id as nat));
        assert(keys(user_rows(rows@)).take(i + 1) =~= keys(user_rows(rows@)).take(i as int).push(
            rows[i as int].id as nat,
        ));
        i += 1;
    }
    assert(keys(user_rows(rows@)).take(i as int) =~= keys(user_rows(rows@)));
    ids
}

/// The ids of the token rows.
fn token_ids(rows: &Vec<RawToken>) -> (ids: Vec<u32>)
    ensures
        as_nats(ids@) == keys(token_rows(rows@)),
{
    let mut ids: Vec<u32> = Vec::new();
    let mut i: usize = 0;
    while i < rows.len()
        invariant
            i <= rows.len(),
            as_nats(ids@) == keys(token_rows(rows@)).take(i as int),
        decreases rows.len() - i,
    {
        let ghost before = ids@;
        ids.push(rows[i].id);
        assert(as_nats(ids@) =~= as_nats(before).push(rows[i as int].id as nat));
        assert(keys(token_rows(rows@)).take(i + 1) =~= keys(token_rows(rows@)).take(
            i as int,
        ).push(rows[i as int].id as nat));
        i += 1;
    }
    assert(keys(token_rows(rows@)).take(i as int) =~= keys(token_rows(rows@)));
    ids
}

/// The ids of the post rows.
fn post_ids(rows: &Vec<RawPost>) -> (ids: Vec<u32>)
    ensures
        as_nats(ids@) == keys(post_rows(rows@)),
{
    let mut ids: Vec<u32> = Vec::new();
    let mut i: usize = 0;
    while i < rows.len()
        invariant
            i <= rows.len(),
            as_nats(ids@) == keys(post_rows(rows@)).take(i as int),
        decreases rows.len() - i,
    {
        let ghost before = ids@;
        ids.push(rows[i].id);
        assert(as_nats(ids@) =~= as_nats(before).push(rows[i as int].id as nat));
        assert(keys(post_rows(rows@)).take(i + 1) =~= keys(post_rows(rows@)).take(i as int).push(
            rows[i as int].id as nat,
        ));
        i += 1;
    }
    assert(keys(post_rows(rows@)).take(i as int) =~= keys(post_rows(rows@)));
    ids
}

/// The ids of the edge rows.
fn edge_ids(rows: &Vec<RawEdge>) -> (ids: Vec<u32>)
    ensures
        as_nats(ids@) == keys(edge_rows(rows@)),
{
    let mut ids: Vec<u32> = Vec::new();
    let mut i: usize = 0;
    while i < rows.len()
        invariant
            i <= rows.len(),
            as_nats(ids@) == keys(edge_rows(rows@)).take(i as int),
        decreases rows.len() - i,
    {
        let ghost before = ids@;
        ids.push(rows[i].id);
        assert(as_nats(ids@) =~= as_nats(before).push(rows[i as int].id as nat));
        assert(keys(edge_rows(rows@)).take(i + 1) =~= keys(edge_rows(rows@)).take(i as int).push(
            rows[i as int].id as nat,
        ));
        i += 1;
    }
    assert(keys(edge_rows(rows@)).take(i as int) =~= keys(edge_rows(rows@)));
    ids
}

/// The ids of the history rows.
fn history_ids(rows: &Vec<RawHistory>) -> (ids: Vec<u32>)
    ensures
        as_nats(ids@) == keys(history_rows(rows@)),
{
    let mut ids: Vec<u32> = Vec::new();
    let mut i: usize = 0;
    while i < rows.len()
        invariant
            i <= rows.len(),
            as_nats(ids@) == keys(history_rows(rows@)).take(i as int),
        decreases rows.len() - i,
    {
        let ghost before = ids@;
        ids.push(rows[i].id);
        assert(as_nats(ids@) =~= as_nats(before).push(rows[i as int].id as nat));
        assert(keys(history_rows(rows@)).take(i + 1) =~= keys(history_rows(rows@)).take(
            i as int,
        ).push(rows[i as int].id as nat));
        i += 1;
    }
    assert(keys(history_rows(rows@)).take(i as int) =~= keys(history_rows(rows@)));
    ids
}

/// The last of the ids, or `floor` where there is none, if the ids are in
/// order from `low` on; nothing if they are not.
fn last_in_order(ids: &Vec<u32>, low: u32, floor: u32) -> (r: Option<u32>)
    ensures
        match r {
            Some(last) => {
                &&& in_order(as_nats(ids@), low as nat)
                &&& last == if ids.len() > 0 {
                    ids[ids.len() - 1]
                } else {
                    floor
                }
            },
            None => !in_order(as_nats(ids@), low as nat),
        },
{
    let ghost all = as_nats(ids@);
    let mut last: u32 = floor;
    let mut i: usize = 0;
    while i < ids.len()
        invariant
            i <= ids.len(),
            all == as_nats(ids@),
            in_order(all.take(i as int), low as nat),
            last == if i > 0 {
                ids[i - 1]
            } else {
                floor
            },
        decreases ids.len() - i,
    {
        let id = ids[i];
        if id < low {
            assert(all[i as int] < low);
            return None;
        }
        if i > 0 && id <= last {
            assert(all[i - 1] >= all[i as int]);
            return None;
        }
        proof {
            let longer = all.take(i + 1);
            assert forall|a: int, b: int| 0 <= a < b < longer.len() implies #[trigger] longer[a]
                < #[trigger] longer[b] by {
                if b == i {
                    if a < i - 1 {
                        assert(all.take(i as int)[a] < all.take(i as int)[i - 1]);
                    }
                } else {
                    assert(all.take(i as int)[a] < all.take(i as int)[b]);
                }
            }
            assert forall|a: int| 0 <= a < longer.len() implies low <= #[trigger] longer[a] by {
                if a < i {
                    assert(low <= all.take(i as int)[a]);
                }
            }
        }
        last = id;
        i += 1;
    }
    assert(all.take(i as int) =~= all);
    Some(last)
}

/// Whether no two of the users share a nickname.
fn names_differ(users: &Vec<RawUser>) -> (b: bool)
    ensures
        b == forall|i: int, j: int|
            0 <= i < j < users.len() ==> (#[trigger] user_rows(users@)[i]).nickname != (
            #[trigger] user_rows(users@)[j]).nickname,
{
    let ghost rows = user_rows(users@);
    let mut j: usize = 0;
    while j < users.len()
        invariant
            j <= users.len(),
            rows == user_rows(users@),
            forall|a: int, b: int|
                0 <= a < b < j ==> (#[trigger] rows[a]).nickname != (#[trigger] rows[b]).nickname,
        decreases users.len() - j,
    {
        let mut i: usize = 0;
        while i < j
            invariant
                i <= j < users.len(),
                rows == user_rows(users@),
                forall|a: int| 0 <= a < i ==> (#[trigger] rows[a]).nickname != rows[j as int].nickname,
            decreases j - i,
        {
            if users[i].nickname == users[j].nickname {
                assert(rows[i as int].nickname == rows[j as int].nickname);
                return false;
            }
            i += 1;
        }
        j += 1;
    }
    true
}

impl Store {
    /// The tables are well formed.
    pub open spec fn wf(&self) -> bool {
        self@.wf()
    }

    /// A store that nothing was written to.
    pub fn new() -> (s: Store)
        ensures
            s.wf(),
            s@ == Tables::empty(),
    {
        Store {
            users: Vec::new(),
            tokens: Vec::new(),
            posts: Vec::new(),
            edges: Vec::new(),
            histories: Vec::new(),
            user_seq: 0,
            token_seq: 0,
            post_seq: ROOT_POST,
            edge_seq: 0,
            history_seq: 0,
            last_insert_id: 0,
        }
    }

    /// The store that holds the given rows, as a dump of the tables gives
    /// them: each table goes on handing out ids after the id of its last
    /// row.
    ///
    /// Fails with an `SQLError` if the rows are not well formed: the ids of
    /// a table do not grow along its rows, an id is 0 or the id of a post is
    /// that of the root, or two users share a nickname.
    pub fn holding(
        users: Vec<RawUser>,
        tokens: Vec<RawToken>,
        posts: Vec<RawPost>,
        edges: Vec<RawEdge>,
        histories: Vec<RawHistory>,
    ) -> (r: Result<Store, NoteError>)
        ensures
            match r {
                Ok(s) => {
                    &&& s.wf()
                    &&& s@ == Tables::holding(
                        user_rows(users@),
                        token_rows(tokens@),
                        post_rows(posts@),
                        edge_rows(edges@),
                        history_rows(histories@),
                    )
                },
                Err(e) => {
                    &&& e is SQLError
                    &&& e.reads("The rows are not well formed")
                    &&& !Tables::holding(
                        user_rows(users@),
                        token_rows(tokens@),
                        post_rows(posts@),
                        edge_rows(edges@),
                        history_rows(histories@),
                    ).wf()
                },
            },
    {
        let ghost goal = Tables::holding(
            user_rows(users@),
            token_rows(tokens@),
            post_rows(posts@),
            edge_rows(edges@),
            history_rows(histories@),
        );
        proof {
            lemma_in_order_ascending(goal.users, 1, 0);
            lemma_in_order_ascending(goal.tokens, 1, 0);
            lemma_in_order_ascending(goal.posts, 2, ROOT_POST as nat);
            lemma_in_order_ascending(goal.edges, 1, 0);
            lemma_in_order_ascending(goal.histories, 1, 0);
        }
        let of_users = user_ids(&users);
        let of_tokens = token_ids(&tokens);
        let of_posts = post_ids(&posts);
        let of_edges = edge_ids(&edges);
        let of_histories = history_ids(&histories);
        proof {
            lemma_last_id(of_users@, goal.users, 0);
            lemma_last_id(of_tokens@, goal.tokens, 0);
            lemma_last_id(of_posts@, goal.posts, ROOT_POST);
            lemma_last_id(of_edges@, goal.edges, 0);
            lemma_last_id(of_histories@, goal.histories, 0);
        }
        let user_seq = last_in_order(&of_users, 1, 0);
        let token_seq = last_in_order(&of_tokens, 1, 0);
        let post_seq = last_in_order(&of_posts, 2, ROOT_POST);
        let edge_seq = last_in_order(&of_edges, 1, 0);
        let history_seq = last_in_order(&of_histories, 1, 0);
        let distinct = names_differ(&users);
        match (user_seq, token_seq, post_seq, edge_seq, history_seq, distinct) {
            (Some(user_seq), Some(token_seq), Some(post_seq), Some(edge_seq), Some(history_seq), true) => {
                Ok(
                    Store {
                        users,
                        tokens,
                        posts,
                        edges,
                        histories,
                        user_seq,
                        token_seq,
                        post_seq,
                        edge_seq,
                        history_seq,
                        last_insert_id: 0,
                    },
                )
            },
            _ => Err(NoteError::sql_error("The rows are not well formed")),
        }
    }

    /// The id of the latest inserted row, 0 before the first insertion.
    pub fn last_insert_id(&self) -> (id: u32)
        ensures
            id == self@.last_insert_id,
    {
        self.last_insert_id
    }

    // ----- edges -----
    /// The edges that leave `post`, in the order of their ids.
    pub fn edges_from(&self, post: u32) -> (out: Vec<RawEdge>)
        ensures
            edge_rows(out@) == self@.edges_from(post as nat),
    {
        let mut out: Vec<RawEdge> = Vec::new();
        let mut i: usize = 0;
        let ghost rows = edge_rows(self.edges@);
        let ghost pred = leaves(post as nat);
        proof {
            lemma_filter_none(rows.take(0), pred);
        }
        while i < self.edges.len()
            invariant
                i <= self.edges.len(),
                rows == edge_rows(self.edges@),
                pred == leaves(post as nat),
                edge_rows(out@) == rows.take(i as int).filter(pred),
            decreases self.edges.len() - i,
        {
            proof {
                lemma_filter_step(rows, i as int, pred);
            }
            if self.edges[i].from_post == post {
                let row = self.edges[i].copy();
                let ghost before = out@;
                out.push(row);
                assert(edge_rows(out@) =~= edge_rows(before).push(row@));
            }
            i += 1;
        }
        assert(rows.take(i as int) =~= rows);
        out
    }

    /// The edges that arrive at `post`, in the order of their ids.
    pub fn edges_to(&self, post: u32) -> (out: Vec<RawEdge>)
        ensures
            edge_rows(out@) == self@.edges_to(post as nat),
    {
        let mut out: Vec<RawEdge> = Vec::new();
        let mut i: usize = 0;
        let ghost rows = edge_rows(self.edges@);
        let ghost pred = arrives(post as nat);
        proof {
            lemma_filter_none(rows.take(0), pred);
        }
        while i < self.edges.len()
            invariant
                i <= self.edges.len(),
                rows == edge_rows(self.edges@),
                pred == arrives(post as nat),
                edge_rows(out@) == rows.take(i as int).filter(pred),
            decreases self.edges.len() - i,
        {
            proof {
                lemma_filter_step(rows, i as int, pred);
            }
            if self.edges[i].to_post == post {
                let row = self.edges[i].copy();
                let ghost before = out@;
                out.push(row);
                assert(edge_rows(out@) =~= edge_rows(before).push(row@));
            }
            i += 1;
        }
        assert(rows.take(i as int) =~= rows);
        out
    }

    /// Whether the edges table has ids left for `count` more edges.
    pub fn edge_room(&self, count: usize) -> (b: bool)
        ensures
            b == (self@.edge_seq + count <= u32::MAX),
    {
        count <= (u32::MAX - self.edge_seq) as usize
    }

    /// Adds an edge under the next id of the edges table, and returns that
    /// id. Fails, and changes nothing, when the table has handed out its
    /// last id.
    pub fn add_edge(&mut self, row: InsertEdge) -> (r: Result<u32, NoteError>)
        requires
            old(self).wf(),
        ensures
            final(self).wf(),
            match r {
                Ok(id) => {
                    &&& old(self)@.edge_seq < u32::MAX
                    &&& id == old(self)@.edge_seq + 1
                    &&& final(self)@ == old(self)@.with_edge(
                        row.from_post as nat,
                        row.to_post as nat,
                    )
                },
                Err(e) => {
                    &&& old(self)@.edge_seq == u32::MAX
                    &&& final(self)@ == old(self)@
                    &&& e is SQLError
                    &&& e.reads("No id is left in the table")
                },
            },
    {
        if self.edge_seq == u32::MAX {
            return Err(table_full());
        }
        let id: u32 = self.edge_seq + 1;
        let ghost before = self.edges@;
        let stored = RawEdge { id, from_post: row.from_post, to_post: row.to_post };
        self.edges.push(stored);
        self.edge_seq = id;
        self.last_insert_id = id;
        assert(edge_rows(self.edges@) =~= edge_rows(before).push(stored@));
        Ok(id)
    }

    /// The index of the edge stored under `id`.
    fn edge_index(&self, id: u32) -> (r: Option<usize>)
        ensures
            match r {
                Some(i) => i < self.edges.len() && self.edges[i as int].id == id,
                None => forall|i: int| 0 <= i < self.edges.len() ==> self.edges[i].id != id,
            },
    {
        let mut i: usize = 0;
        while i < self.edges.len()
            invariant
                i <= self.edges.len(),
                forall|j: int| 0 <= j < i ==> self.edges[j].id != id,
            decreases self.edges.len() - i,
        {
            if self.edges[i].id == id {
                return Some(i);
            }
            i += 1;
        }
        None
    }

    /// Takes out the edge stored under `id`, if there is one.
    pub fn remove_edge(&mut self, id: u32)
        requires
            old(self).wf(),
        ensures
            final(self).wf(),
            final(self)@ == old(self)@.without_edge(id as nat),
    {
        let ghost rows = edge_rows(self.edges@);
        proof {
            lemma_filter_ascending(rows, lacks_key(id as nat), 1, self.edge_seq as nat);
        }
        match self.edge_index(id) {
            Some(i) => {
                let ghost before = self.edges@;
                self.edges.remove(i);
                proof {
                    lemma_remove_is_without(rows, i as int, 1, self.edge_seq as nat);
                    assert(edge_rows(self.edges@) =~= rows.remove(i as int));
                }
            },
            None => {
                proof {
                    lemma_without_absent(rows, id as nat);
                }
            },
        }
    }

    // ----- histories -----
    /// The snapshots of `post`, oldest first.
    pub fn histories_of(&self, post: u32) -> (out: Vec<RawHistory>)
        ensures
            history_rows(out@) == self@.histories_of(post as nat),
    {
        let mut out: Vec<RawHistory> = Vec::new();
        let mut i: usize = 0;
        let ghost rows = history_rows(self.histories@);
        let ghost pred = snapshot_of(post as nat);
        proof {
            lemma_filter_none(rows.take(0), pred);
        }
        while i < self.histories.len()
            invariant
                i <= self.histories.len(),
                rows == history_rows(self.histories@),
                pred == snapshot_of(post as nat),
                history_rows(out@) == rows.take(i as int).filter(pred),
            decreases self.histories.len() - i,
        {
            proof {
                lemma_filter_step(rows, i as int, pred);
            }
            if self.histories[i].post_id == post {
                let row = self.histories[i].copy();
                let ghost before = out@;
                out.push(row);
                assert(history_rows(out@) =~= history_rows(before).push(row@));
            }
            i += 1;
        }
        assert(rows.take(i as int) =~= rows);
        out
    }

    /// The index of the snapshot stored under `id`.
    fn history_index(&self, id: u32) -> (r: Option<usize>)
        ensures
            match r {
                Some(i) => {
                    &&& i < self.histories.len()
                    &&& self.histories[i as int].id == id
                    &&& forall|j: int| 0 <= j < i ==> self.histories[j].id != id
                },
                None => forall|i: int|
                    0 <= i < self.histories.len() ==> self.histories[i].id != id,
            },
    {
        let mut i: usize = 0;
        while i < self.histories.len()
            invariant
                i <= self.histories.len(),
                forall|j: int| 0 <= j < i ==> self.histories[j].id != id,
            decreases self.histories.len() - i,
        {
            if self.histories[i].id == id {
                return Some(i);
            }
            i += 1;
        }
        None
    }

    /// The snapshot stored under `id`.
    pub fn history_by_id(&self, id: u32) -> (r: Option<RawHistory>)
        ensures
            match r {
                Some(row) => self@.history(id as nat) == Some(row@),
                None => self@.history(id as nat) is None,
            },
    {
        let ghost rows = history_rows(self.histories@);
        match self.history_index(id) {
            Some(i) => {
                proof {
                    lemma_filter_first(rows, i as int, has_key(id as nat));
                }
                Some(self.histories[i].copy())
            },
            None => {
                proof {
                    lemma_filter_none(rows, has_key(id as nat));
                }
                None
            },
        }
    }

    /// Whether the histories table has an id left.
    pub fn history_room(&self) -> (b: bool)
        ensures
            b == (self@.history_seq < u32::MAX),
    {
        self.history_seq < u32::MAX
    }

    /// Adds a snapshot under the next id of the histories table, and returns
    /// that id. Fails, and changes nothing, when the table has handed out
    /// its last id.
    pub fn add_history(&mut self, row: InsertHistory) -> (r: Result<u32, NoteError>)
        requires
            old(self).wf(),
        ensures
            final(self).wf(),
            match r {
                Ok(id) => {
                    &&& old(self)@.history_seq < u32::MAX
                    &&& id == old(self)@.history_seq + 1
                    &&& final(self)@ == old(self)@.with_history(
                        row.post_id as nat,
                        row.time as nat,
                        opt_text(row.markdown),
                    )
                },
                Err(e) => {
                    &&& old(self)@.history_seq == u32::MAX
                    &&& final(self)@ == old(self)@
                    &&& e is SQLError
                    &&& e.reads("No id is left in the table")
                },
            },
    {
        if self.history_seq == u32::MAX {
            return Err(table_full());
        }
        let id: u32 = self.history_seq + 1;
        let ghost before = self.histories@;
        let stored = RawHistory {
            id,
            post_id: row.post_id,
            time: row.time,
            markdown: row.markdown,
        };
        let ghost stored_row = stored@;
        self.histories.push(stored);
        self.history_seq = id;
        self.last_insert_id = id;
        assert(history_rows(self.histories@) =~= history_rows(before).push(stored_row));
        Ok(id)
    }

    /// Takes out the snapshot stored under `id`, if there is one.
    pub fn remove_history(&mut self, id: u32)
        requires
            old(self).wf(),
        ensures
            final(self).wf(),
            final(self)@ == old(self)@.without_history(id as nat),
    {
        let ghost rows = history_rows(self.histories@);
        proof {
            lemma_filter_ascending(rows, lacks_key(id as nat), 1, self.history_seq as nat);
        }
        match self.history_index(id) {
            Some(i) => {
                self.histories.remove(i);
                proof {
                    lemma_remove_is_without(rows, i as int, 1, self.history_seq as nat);
                    assert(history_rows(self.histories@) =~= rows.remove(i as int));
                }
            },
            None => {
                proof {
                    lemma_without_absent(rows, id as nat);
                }
            },
        }
    }

    // ----- posts -----
    /// The index of the post stored under `id`.
    fn post_index(&self, id: u32) -> (r: Option<usize>)
        ensures
            match r {
                Some(i) => {
                    &&& i < self.posts.len()
                    &&& self.posts[i as int].id == id
                    &&& forall|j: int| 0 <= j < i ==> self.posts[j].id != id
                },
                None => forall|i: int| 0 <= i < self.posts.len() ==> self.posts[i].id != id,
            },
    {
        let mut i: usize = 0;
        while i < self.posts.len()
            invariant
                i <= self.posts.len(),
                forall|j: int| 0 <= j < i ==> self.posts[j].id != id,
            decreases self.posts.len() - i,
        {
            if self.posts[i].id == id {
                return Some(i);
            }
            i += 1;
        }
        None
    }

    /// The post stored under `id`.
    pub fn post_by_id(&self, id: u32) -> (r: Option<RawPost>)
        ensures
            match r {
                Some(row) => self@.post(id as nat) == Some(row@),
                None => self@.post(id as nat) is None,
            },
    {
        let ghost rows = post_rows(self.posts@);
        match self.post_index(id) {
            Some(i) => {
                proof {
                    lemma_filter_first(rows, i as int, has_key(id as nat));
                }
                Some(self.posts[i].copy())
            },
            None => {
                proof {
                    lemma_filter_none(rows, has_key(id as nat));
                }
                None
            },
        }
    }

    /// Whether the posts table has an id left.
    pub fn post_room(&self) -> (b: bool)
        ensures
            b == (self@.post_seq < u32::MAX),
    {
        self.post_seq < u32::MAX
    }

    /// Adds a post under the next id of the posts table, and returns that
    /// id. Fails, and changes nothing, when the table has handed out its
    /// last id.
    pub fn add_post(&mut self, row: InsertPost) -> (r: Result<u32, NoteError>)
        requires
            old(self).wf(),
        ensures
            final(self).wf(),
            match r {
                Ok(id) => {
                    &&& old(self)@.post_seq < u32::MAX
                    &&& id == old(self)@.post_seq + 1
                    &&& final(self)@ == old(self)@.with_post(row.title@, opt_text(row.markdown))
                },
                Err(e) => {
                    &&& old(self)@.post_seq == u32::MAX
                    &&& final(self)@ == old(self)@
                    &&& e is SQLError
                    &&& e.reads("No id is left in the table")
                },
            },
    {
        if self.post_seq == u32::MAX {
            return Err(table_full());
        }
        let id: u32 = self.post_seq + 1;
        let ghost before = self.posts@;
        let stored = RawPost { id, title: row.title, markdown: row.markdown };
        let ghost stored_row = stored@;
        self.posts.push(stored);
        self.post_seq = id;
        self.last_insert_id = id;
        assert(post_rows(self.posts@) =~= post_rows(before).push(stored_row));
        Ok(id)
    }

    /// Overwrites the post stored under `id`, if there is one.
    pub fn set_post(&mut self, id: u32, row: InsertPost)
        requires
            old(self).wf(),
        ensures
            final(self).wf(),
            final(self)@ == old(self)@.with_post_set(id as nat, row.title@, opt_text(row.markdown)),
    {
        let ghost rows = post_rows(self.posts@);
        let ghost goal = self@.with_post_set(id as nat, row.title@, opt_text(row.markdown));
        match self.post_index(id) {
            Some(i) => {
                let stored = RawPost { id, title: row.title, markdown: row.markdown };
                let ghost stored_row = stored@;
                self.posts.set(i, stored);
                assert(post_rows(self.posts@) =~= rows.update(i as int, stored_row));
                assert(rows.update(i as int, stored_row) =~= goal.posts) by {
                    assert forall|j: int| 0 <= j < rows.len() && j != i implies (
                    #[trigger] rows[j]).id != id by {
                        if j < i {
                            assert(rows[j].key() < rows[i as int].key());
                        } else {
                            assert(rows[i as int].key() < rows[j].key());
                        }
                    }
                }
                assert(ascending(post_rows(self.posts@), 2, self.post_seq as nat)) by {
                    let now = post_rows(self.posts@);
                    assert forall|j: int| 0 <= j < now.len() implies (#[trigger] now[j]).key()
                        == rows[j].key() by {}
                }
            },
            None => {
                assert(rows =~= goal.posts);
            },
        }
    }

    /// Takes out the row of the post stored under `id`, if there is one.
    pub fn remove_post(&mut self, id: u32)
        requires
            old(self).wf(),
        ensures
            final(self).wf(),
            final(self)@ == old(self)@.without_post(id as nat),
    {
        let ghost rows = post_rows(self.posts@);
        proof {
            lemma_filter_ascending(rows, lacks_key(id as nat), 2, self.post_seq as nat);
        }
        match self.post_index(id) {
            Some(i) => {
                self.posts.remove(i);
                proof {
                    lemma_remove_is_without(rows, i as int, 2, self.post_seq as nat);
                    assert(post_rows(self.posts@) =~= rows.remove(i as int));
                }
            },
            None => {
                proof {
                    lemma_without_absent(rows, id as nat);
                }
            },
        }
    }

    // ----- tokens -----
    /// The token rows that hold `secret`, in the order of their ids. The
    /// secret is compared character by character.
    pub fn tokens_holding(&self, secret: &str) -> (out: Vec<RawToken>)
        ensures
            token_rows(out@) == self@.tokens_holding(secret@),
    {
        let wanted = secret.to_owned();
        let mut out: Vec<RawToken> = Vec::new();
        let mut i: usize = 0;
        let ghost rows = token_rows(self.tokens@);
        let ghost pred = holds_secret(secret@);
        proof {
            lemma_filter_none(rows.take(0), pred);
        }
        while i < self.tokens.len()
            invariant
                i <= self.tokens.len(),
                wanted@ == secret@,
                rows == token_rows(self.tokens@),
                pred == holds_secret(secret@),
                token_rows(out@) == rows.take(i as int).filter(pred),
            decreases self.tokens.len() - i,
        {
            proof {
                lemma_filter_step(rows, i as int, pred);
            }
            if self.tokens[i].token == wanted {
                let row = self.tokens[i].copy();
                let ghost before = out@;
                out.push(row);
                assert(token_rows(out@) =~= token_rows(before).push(row@));
            }
            i += 1;
        }
        assert(rows.take(i as int) =~= rows);
        out
    }

    /// Adds a token under the next id of the tokens table, and returns that
    /// id. Fails, and changes nothing, when the table has handed out its
    /// last id.
    pub fn add_token(&mut self, row: InsertToken) -> (r: Result<u32, NoteError>)
        requires
            old(self).wf(),
        ensures
            final(self).wf(),
            match r {
                Ok(id) => {
                    &&& old(self)@.token_seq < u32::MAX
                    &&& id == old(self)@.token_seq + 1
                    &&& final(self)@ == old(self)@.with_token(row.user_id as nat, row.token@)
                },
                Err(e) => {
                    &&& old(self)@.token_seq == u32::MAX
                    &&& final(self)@ == old(self)@
                    &&& e is SQLError
                    &&& e.reads("No id is left in the table")
                },
            },
    {
        if self.token_seq == u32::MAX {
            return Err(table_full());
        }
        let id: u32 = self.token_seq + 1;
        let ghost before = self.tokens@;
        let stored = RawToken { id, user_id: row.user_id, token: row.token };
        let ghost stored_row = stored@;
        self.tokens.push(stored);
        self.token_seq = id;
        self.last_insert_id = id;
        assert(token_rows(self.tokens@) =~= token_rows(before).push(stored_row));
        Ok(id)
    }

    // ----- users -----
    /// The index of the first user that goes by `name`.
    fn name_index(&self, name: &str) -> (r: Option<usize>)
        ensures
            match r {
                Some(i) => {
                    &&& i < self.users.len()
                    &&& self.users[i as int].nickname@ == name@
                    &&& forall|j: int| 0 <= j < i ==> self.users[j].nickname@ != name@
                },
                None => forall|i: int|
                    0 <= i < self.users.len() ==> self.users[i].nickname@ != name@,
            },
    {
        let wanted = name.to_owned();
        let mut i: usize = 0;
        while i < self.users.len()
            invariant
                i <= self.users.len(),
                wanted@ == name@,
                forall|j: int| 0 <= j < i ==> self.users[j].nickname@ != name@,
            decreases self.users.len() - i,
        {
            if self.users[i].nickname == wanted {
                return Some(i);
            }
            i += 1;
        }
        None
    }

    /// The index of the user stored under `id`.
    fn user_index(&self, id: u32) -> (r: Option<usize>)
        ensures
            match r {
                Some(i) => {
                    &&& i < self.users.len()
                    &&& self.users[i as int].id == id
                    &&& forall|j: int| 0 <= j < i ==> self.users[j].id != id
                },
                None => forall|i: int| 0 <= i < self.users.len() ==> self.users[i].id != id,
            },
    {
        let mut i: usize = 0;
        while i < self.users.len()
            invariant
                i <= self.users.len(),
                forall|j: int| 0 <= j < i ==> self.users[j].id != id,
            decreases self.users.len() - i,
        {
            if self.users[i].id == id {
                return Some(i);
            }
            i += 1;
        }
        None
    }

    /// The user that goes by `name`.
    pub fn user_named(&self, name: &str) -> (r: Option<RawUser>)
        ensures
            match r {
                Some(row) => self@.user_named(name@) == Some(row@),
                None => self@.user_named(name@) is None,
            },
    {
        let ghost rows = user_rows(self.users@);
        match self.name_index(name) {
            Some(i) => {
                proof {
                    lemma_filter_first(rows, i as int, named(name@));
                }
                Some(self.users[i].copy())
            },
            None => {
                proof {
                    lemma_filter_none(rows, named(name@));
                }
                None
            },
        }
    }

    /// The user stored under `id`.
    pub fn user_by_id(&self, id: u32) -> (r: Option<RawUser>)
        ensures
            match r {
                Some(row) => self@.user(id as nat) == Some(row@),
                None => self@.user(id as nat) is None,
            },
    {
        let ghost rows = user_rows(self.users@);
        match self.user_index(id) {
            Some(i) => {
                proof {
                    lemma_filter_first(rows, i as int, has_key(id as nat));
                }
                Some(self.users[i].copy())
            },
            None => {
                proof {
                    lemma_filter_none(rows, has_key(id as nat));
                }
                None
            },
        }
    }

    /// Adds a user, who is no admin, under the next id of the users table,
    /// and returns that id. Fails, and changes nothing, when the nickname is
    /// taken or the table has handed out its last id.
    pub fn add_user(&mut self, row: InsertUser) -> (r: Result<u32, NoteError>)
        requires
            old(self).wf(),
        ensures
            final(self).wf(),
            match r {
                Ok(id) => {
                    &&& old(self)@.user_fits(row.nickname@)
                    &&& id == old(self)@.user_seq + 1
                    &&& final(self)@ == old(self)@.with_user(
                        row.nickname@,
                        row.email@,
                        row.password@,
                    )
                },
                Err(e) => {
                    &&& !old(self)@.user_fits(row.nickname@)
                    &&& final(self)@ == old(self)@
                    &&& e is SQLError
                    &&& if old(self)@.user_seq == u32::MAX {
                        e.reads("No id is left in the table")
                    } else {
                        e.reads("The nickname is taken")
                    }
                },
            },
    {
        let ghost rows = user_rows(self.users@);
        if self.user_seq == u32::MAX {
            return Err(table_full());
        }
        match self.name_index(row.nickname.as_str()) {
            Some(i) => {
                proof {
                    lemma_filter_first(rows, i as int, named(row.nickname@));
                }
                return Err(name_taken());
            },
            None => {
                proof {
                    lemma_filter_none(rows, named(row.nickname@));
                }
            },
        }
        let id: u32 = self.user_seq + 1;
        let ghost before = self.users@;
        let stored = RawUser {
            id,
            nickname: row.nickname,
            password: row.password,
            email: row.email,
            admin: false,
        };
        let ghost stored_row = stored@;
        self.users.push(stored);
        self.user_seq = id;
        self.last_insert_id = id;
        assert(user_rows(self.users@) =~= user_rows(before).push(stored_row));
        Ok(id)
    }

    /// No other user than the one stored under `id` goes by `name`.
    fn name_free_for(&self, id: u32, name: &str) -> (free: bool)
        ensures
            free == self@.profile_fits(id as nat, name@),
    {
        let wanted = name.to_owned();
        let mut i: usize = 0;
        let ghost rows = user_rows(self.users@);
        while i < self.users.len()
            invariant
                i <= self.users.len(),
                wanted@ == name@,
                rows == user_rows(self.users@),
                forall|j: int|
                    0 <= j < i && (#[trigger] rows[j]).nickname == name@ ==> rows[j].id == id,
            decreases self.users.len() - i,
        {
            if self.users[i].nickname == wanted && self.users[i].id != id {
                assert(self@.users[i as int].nickname == name@ && self@.users[i as int].id != id);
                return false;
            }
            i += 1;
        }
        true
    }

    /// Replaces the nickname, email and password hash of the user stored
    /// under `id`, if there is one. Fails, and changes nothing, when there
    /// is one and another user goes by the nickname.
    pub fn set_profile(&mut self, id: u32, row: InsertUser) -> (r: Result<(), NoteError>)
        requires
            old(self).wf(),
        ensures
            final(self).wf(),
            match r {
                Ok(_) => {
                    &&& old(self)@.user(id as nat) is None || old(self)@.profile_fits(
                        id as nat,
                        row.nickname@,
                    )
                    &&& final(self)@ == old(self)@.with_profile(
                        id as nat,
                        row.nickname@,
                        row.email@,
                        row.password@,
                    )
                },
                Err(e) => {
                    &&& old(self)@.user(id as nat) is Some
                    &&& !old(self)@.profile_fits(id as nat, row.nickname@)
                    &&& final(self)@ == old(self)@
                    &&& e is SQLError
                    &&& e.reads("The nickname is taken")
                },
            },
    {
        let ghost rows = user_rows(self.users@);
        let ghost goal = self@.with_profile(id as nat, row.nickname@, row.email@, row.password@);
        match self.user_index(id) {
            Some(i) => {
                proof {
                    lemma_filter_first(rows, i as int, has_key(id as nat));
                }
                if !self.name_free_for(id, row.nickname.as_str()) {
                    return Err(name_taken());
                }
                let admin = self.users[i].admin;
                let stored = RawUser {
                    id,
                    nickname: row.nickname,
                    password: row.password,
                    email: row.email,
                    admin,
                };
                let ghost stored_row = stored@;
                self.users.set(i, stored);
                let ghost now = user_rows(self.users@);
                assert(now =~= rows.update(i as int, stored_row));
                assert forall|j: int| 0 <= j < rows.len() && j != i implies (
                #[trigger] rows[j]).id != id by {
                    if j < i {
                        assert(rows[j].key() < rows[i as int].key());
                    } else {
                        assert(rows[i as int].key() < rows[j].key());
                    }
                }
                assert(now =~= goal.users);
                assert forall|j: int| 0 <= j < now.len() implies (#[trigger] now[j]).key()
                    == rows[j].key() by {}
                assert forall|a: int, b: int| 0 <= a < b < now.len() implies (
                #[trigger] now[a]).nickname != (#[trigger] now[b]).nickname by {
                    assert(rows[a].nickname != rows[b].nickname);
                    if a == i {
                        assert(rows[b].id != id);
                    }
                    if b == i {
                        assert(rows[a].id != id);
                    }
                }
                Ok(())
            },
            None => {
                proof {
                    lemma_filter_none(rows, has_key(id as nat));
                }
                assert(rows =~= goal.users);
                Ok(())
            },
        }
    }

    /// Makes the user stored under `id` an admin, or no admin, if there is
    /// such a user. This is what the keeper of the store does outside any
    /// session: no call of the library grants the flag.
    pub fn set_admin(&mut self, id: u32, admin: bool)
        requires
            old(self).wf(),
        ensures
            final(self).wf(),
            final(self)@ == old(self)@.with_admin(id as nat, admin),
    {
        let ghost rows = user_rows(self.users@);
        let ghost goal = self@.with_admin(id as nat, admin);
        match self.user_index(id) {
            Some(i) => {
                let stored = RawUser {
                    id,
                    nickname: self.users[i].nickname.clone(),
                    password: self.users[i].password.clone(),
                    email: self.users[i].email.clone(),
                    admin,
                };
                let ghost stored_row = stored@;
                self.users.set(i, stored);
                let ghost now = user_rows(self.users@);
                assert(now =~= rows.update(i as int, stored_row));
                assert forall|j: int| 0 <= j < rows.len() && j != i implies (
                #[trigger] rows[j]).id != id by {
                    if j < i {
                        assert(rows[j].key() < rows[i as int].key());
                    } else {
                        assert(rows[i as int].key() < rows[j].key());
                    }
                }
                assert(now =~= goal.users);
                assert forall|j: int| 0 <= j < now.len() implies (#[trigger] now[j]).key()
                    == rows[j].key() && now[j].nickname == rows[j].nickname by {}
                assert forall|a: int, b: int| 0 <= a < b < now.len() implies (
                #[trigger] now[a]).nickname != (#[trigger] now[b]).nickname by {
                    assert(rows[a].nickname != rows[b].nickname);
                }
            },
            None => {
                assert(rows =~= goal.users);
            },
        }
    }
}

} // verus!
