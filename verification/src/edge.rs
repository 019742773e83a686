//! Edges between posts, and the reconciliation of the edges of one post
//! with the set of neighbours it is to have.
use crate::auth::{AuthDelete, AuthInsert, AuthUser};
use crate::insert::InsertEdge;
use crate::post::{post_ids, Post};
use crate::raw::{edge_rows, EdgeRow, RawEdge};
use crate::seqs::{
    both, lemma_filter_all, lemma_filter_keeps_order, lemma_filter_member, lemma_filter_none,
    lemma_filter_same, lemma_filter_step, lemma_filter_twice, lemma_take_out, not_among,
};
use crate::store::Store;
use crate::tables::{
    current, edge_between, far, far_ends, linked, missing, touches, unlinked, unwanted, Tables,
};
use crate::NoteError;
use vstd::prelude::*;

verus! {

/// A directed edge of the post graph. An edge that is not stored has id 0.
#[derive(Debug)]
pub struct Edge {
    id: u32,
    /// Where the edge starts.
    from_post: u32,
    /// Where the edge ends.
    to_post: u32,
}

impl View for Edge {
    type V = EdgeRow;

    closed spec fn view(&self) -> EdgeRow {
        EdgeRow {
            id: self.id as nat,
            from_post: self.from_post as nat,
            to_post: self.to_post as nat,
        }
    }
}

/// What a vector of edges holds.
pub open spec fn edge_views(v: Seq<Edge>) -> Seq<EdgeRow> {
    v.map_values(|e: Edge| e@)
}

/// The error of an edges table without ids for the edges to add.
fn no_room() -> (e: NoteError)
    ensures
        e is SQLError,
        e.reads("No id is left for the edges to add"),
{
    NoteError::sql_error("No id is left for the edges to add")
}

impl Edge {
    pub fn get_id(&self) -> (id: u32)
        ensures
            id == self@.id,
    {
        self.id
    }

    pub fn get_from(&self) -> (id: u32)
        ensures
            id == self@.from_post,
    {
        self.from_post
    }

    pub fn get_to(&self) -> (id: u32)
        ensures
            id == self@.to_post,
    {
        self.to_post
    }

    /// An edge that is not stored yet.
    pub fn new(from_post: u32, to_post: u32) -> (e: Edge)
        ensures
            e@ == (EdgeRow { id: 0, from_post: from_post as nat, to_post: to_post as nat }),
    {
        Edge { id: 0, from_post, to_post }
    }

    /// The edge that a stored row describes.
    pub fn from(edge: &RawEdge) -> (e: Edge)
        ensures
            e@ == edge@,
    {
        Edge { id: edge.id, from_post: edge.from_post, to_post: edge.to_post }
    }

    /// The edges that stored rows describe.
    fn from_rows(rows: &Vec<RawEdge>) -> (out: Vec<Edge>)
        ensures
            edge_views(out@) == edge_rows(rows@),
    {
        let mut out: Vec<Edge> = Vec::new();
        let mut i: usize = 0;
        while i < rows.len()
            invariant
                i <= rows.len(),
                edge_views(out@) == edge_rows(rows@).take(i as int),
            decreases rows.len() - i,
        {
            let e = Edge::from(&rows[i]);
            let ghost before = out@;
            out.push(e);
            assert(edge_views(out@) =~= edge_views(before).push(e@));
            assert(edge_rows(rows@).take(i + 1) =~= edge_rows(rows@).take(i as int).push(
                rows[i as int]@,
            ));
            i += 1;
        }
        assert(edge_rows(rows@).take(i as int) =~= edge_rows(rows@));
        out
    }

    /// The edges that leave `from_id`, in the order of their ids.
    pub fn get_to_list(store: &Store, from_id: u32) -> (r: Result<Vec<Edge>, NoteError>)
        ensures
            r matches Ok(list) && edge_views(list@) == store@.edges_from(from_id as nat),
    {
        let rows = store.edges_from(from_id);
        Ok(Edge::from_rows(&rows))
    }

    /// The edges that arrive at `to_id`, in the order of their ids.
    pub fn get_from_list(store: &Store, to_id: u32) -> (r: Result<Vec<Edge>, NoteError>)
        ensures
            r matches Ok(list) && edge_views(list@) == store@.edges_to(to_id as nat),
    {
        let rows = store.edges_to(to_id);
        Ok(Edge::from_rows(&rows))
    }

    /// The end of the edge away from the post that holds it.
    fn far_end(&self, outgoing: bool) -> (id: u32)
        ensures
            id == far(self@, outgoing),
    {
        if outgoing {
            self.to_post
        } else {
            self.from_post
        }
    }

    /// Whether `id` is the id of one of the posts.
    fn wants(wanted: &Vec<&Post>, id: u32) -> (b: bool)
        ensures
            b == post_ids(wanted@).contains(id as nat),
    {
        let ghost ids = post_ids(wanted@);
        let mut j: usize = 0;
        while j < wanted.len()
            invariant
                j <= wanted.len(),
                ids == post_ids(wanted@),
                forall|k: int| 0 <= k < j ==> ids[k] != id,
            decreases wanted.len() - j,
        {
            if wanted[j].get_id() == id {
                assert(ids[j as int] == id);
                return true;
            }
            j += 1;
        }
        false
    }

    /// Whether one of the edges has `end` as its far end.
    fn reaches(list: &Vec<Edge>, end: u32, outgoing: bool) -> (b: bool)
        ensures
            b == far_ends(edge_views(list@), outgoing).contains(end as nat),
    {
        let ghost ends = far_ends(edge_views(list@), outgoing);
        let mut j: usize = 0;
        while j < list.len()
            invariant
                j <= list.len(),
                ends == far_ends(edge_views(list@), outgoing),
                forall|k: int| 0 <= k < j ==> ends[k] != end,
            decreases list.len() - j,
        {
            if list[j].far_end(outgoing) == end {
                assert(ends[j as int] == end);
                return true;
            }
            j += 1;
        }
        false
    }

    /// Of the edges that a post holds now, those that lead to none of the
    /// posts it is to be linked with: the edges that a reconciliation takes
    /// out.
    pub fn outdated(origin: &Vec<Edge>, wanted: &Vec<&Post>, outgoing: bool) -> (out: Vec<Edge>)
        ensures
            edge_views(out@) == edge_views(origin@).filter(
                unwanted(post_ids(wanted@), outgoing),
            ),
    {
        let mut out: Vec<Edge> = Vec::new();
        let mut i: usize = 0;
        let ghost rows = edge_views(origin@);
        let ghost pred = unwanted(post_ids(wanted@), outgoing);
        proof {
            lemma_filter_none(rows.take(0), pred);
        }
        while i < origin.len()
            invariant
                i <= origin.len(),
                rows == edge_views(origin@),
                pred == unwanted(post_ids(wanted@), outgoing),
                edge_views(out@) == rows.take(i as int).filter(pred),
            decreases origin.len() - i,
        {
            proof {
                lemma_filter_step(rows, i as int, pred);
            }
            if !Edge::wants(wanted, origin[i].far_end(outgoing)) {
                let e = Edge {
                    id: origin[i].id,
                    from_post: origin[i].from_post,
                    to_post: origin[i].to_post,
                };
                let ghost before = out@;
                out.push(e);
                assert(edge_views(out@) =~= edge_views(before).push(e@));
            }
            i += 1;
        }
        assert(rows.take(i as int) =~= rows);
        out
    }

    /// One edge, not stored yet, between `post` and each of the wanted posts
    /// that none of the edges it holds now leads to: the edges that a
    /// reconciliation adds. A post that is wanted twice gets one edge.
    pub fn missing(origin: &Vec<Edge>, wanted: &Vec<&Post>, post: u32, outgoing: bool) -> (out:
        Vec<Edge>)
        ensures
            edge_views(out@) == unlinked(
                post as nat,
                missing(post_ids(wanted@), far_ends(edge_views(origin@), outgoing)),
                outgoing,
            ),
    {
        let mut out: Vec<Edge> = Vec::new();
        let mut j: usize = 0;
        let ghost ids = post_ids(wanted@);
        let ghost have = far_ends(edge_views(origin@), outgoing);
        while j < wanted.len()
            invariant
                j <= wanted.len(),
                ids == post_ids(wanted@),
                have == far_ends(edge_views(origin@), outgoing),
                edge_views(out@) == unlinked(
                    post as nat,
                    missing(ids.take(j as int), have),
                    outgoing,
                ),
            decreases wanted.len() - j,
        {
            let end = wanted[j].get_id();
            let ghost found = missing(ids.take(j as int), have);
            proof {
                assert(ids.take(j + 1).drop_last() =~= ids.take(j as int));
                assert(ids.take(j + 1).last() == end);
                assert(far_ends(unlinked(post as nat, found, outgoing), outgoing) =~= found);
            }
            if !Edge::reaches(origin, end, outgoing) && !Edge::reaches(&out, end, outgoing) {
                let e = if outgoing {
                    Edge::new(post, end)
                } else {
                    Edge::new(end, post)
                };
                let ghost before = out@;
                out.push(e);
                assert(edge_views(out@) =~= edge_views(before).push(e@));
                assert(unlinked(post as nat, found.push(end as nat), outgoing) =~= unlinked(
                    post as nat,
                    found,
                    outgoing,
                ).push(edge_between(post as nat, end as nat, outgoing, 0)));
            }
            j += 1;
        }
        assert(ids.take(j as int) =~= ids);
        out
    }
}

/// The edges that are none of the outdated edges of a post are the edges
/// that a reconciliation leaves.
proof fn lemma_stale_gone(edges: Seq<EdgeRow>, post: nat, wanted: Seq<nat>, outgoing: bool)
    ensures
        edges.filter(
            not_among(edges.filter(touches(post, outgoing)).filter(unwanted(wanted, outgoing))),
        ) == edges.filter(current(post, wanted, outgoing)),
        forall|x: EdgeRow|
            edges.filter(touches(post, outgoing)).filter(unwanted(wanted, outgoing)).contains(x)
                ==> edges.contains(x),
{
    let held = edges.filter(touches(post, outgoing));
    let stale = held.filter(unwanted(wanted, outgoing));
    assert forall|x: EdgeRow| stale.contains(x) implies edges.contains(x) by {
        lemma_filter_member(held, unwanted(wanted, outgoing), x);
        lemma_filter_member(edges, touches(post, outgoing), x);
    }
    assert forall|k: int| 0 <= k < edges.len() implies not_among(stale)(#[trigger] edges[k])
        == current(post, wanted, outgoing)(edges[k]) by {
        let e = edges[k];
        assert(edges.contains(e));
        lemma_filter_member(held, unwanted(wanted, outgoing), e);
        lemma_filter_member(edges, touches(post, outgoing), e);
    }
    lemma_filter_same(edges, not_among(stale), current(post, wanted, outgoing));
}

impl Edge {
    /// Reconciles the edges that `post` holds, the outgoing or the incoming
    /// ones, with the posts it is to be linked with.
    fn reconcile(
        store: &mut Store,
        auth: &AuthUser,
        post: u32,
        wanted: &Vec<&Post>,
        outgoing: bool,
    ) -> (r: Result<(), NoteError>)
        requires
            old(store).wf(),
        ensures
            final(store).wf(),
            match r {
                Ok(_) => {
                    &&& auth@.admin
                    &&& old(store)@.can_reconcile(post as nat, post_ids(wanted@), outgoing)
                    &&& final(store)@ == old(store)@.reconciled(
                        post as nat,
                        post_ids(wanted@),
                        outgoing,
                    )
                },
                Err(e) => {
                    &&& final(store)@ == old(store)@
                    &&& if !auth@.admin {
                        e is NoPermission && e.reads("You are not admin")
                    } else {
                        &&& e is SQLError
                        &&& e.reads("No id is left for the edges to add")
                        &&& !old(store)@.can_reconcile(
                            post as nat,
                            post_ids(wanted@),
                            outgoing,
                        )
                    }
                },
            },
    {
        match auth.auth() {
            Ok(_) => {},
            Err(e) => {
                return Err(e);
            },
        }
        let rows = if outgoing {
            store.edges_from(post)
        } else {
            store.edges_to(post)
        };
        let origin = Edge::from_rows(&rows);
        let stale = Edge::outdated(&origin, wanted, outgoing);
        let fresh = Edge::missing(&origin, wanted, post, outgoing);
        let ghost before = store@;
        let ghost ids = post_ids(wanted@);
        let ghost ends = before.to_link(post as nat, ids, outgoing);
        let ghost stale_rows = edge_views(stale@);
        let ghost fresh_rows = edge_views(fresh@);
        assert(fresh_rows.len() == ends.len());
        if !store.edge_room(fresh.len()) {
            return Err(no_room());
        }
        proof {
            lemma_stale_gone(before.edges, post as nat, ids, outgoing);
            lemma_filter_all(before.edges, not_among(stale_rows.take(0)));
        }
        let mut i: usize = 0;
        while i < stale.len()
            invariant
                i <= stale.len(),
                store.wf(),
                before.wf(),
                stale_rows == edge_views(stale@),
                forall|x: EdgeRow| stale_rows.contains(x) ==> before.edges.contains(x),
                store@ == (Tables {
                    edges: before.edges.filter(not_among(stale_rows.take(i as int))),
                    ..before
                }),
            decreases stale.len() - i,
        {
            proof {
                assert(stale_rows.contains(stale_rows[i as int]));
                lemma_take_out(before.edges, stale_rows, i as int, 1, before.edge_seq);
            }
            store.remove_edge(stale[i].get_id());
            i += 1;
        }
        assert(stale_rows.take(i as int) =~= stale_rows);
        let ghost kept = before.edges.filter(current(post as nat, ids, outgoing));
        assert(store@.edges == kept);
        assert(kept + linked(post as nat, ends.take(0), outgoing, before.edge_seq) =~= kept);
        let mut k: usize = 0;
        while k < fresh.len()
            invariant
                k <= fresh.len(),
                store.wf(),
                fresh_rows == edge_views(fresh@),
                fresh_rows == unlinked(post as nat, ends, outgoing),
                fresh.len() == ends.len(),
                before.edge_seq + ends.len() <= u32::MAX,
                store@ == (Tables {
                    edges: kept + linked(
                        post as nat,
                        ends.take(k as int),
                        outgoing,
                        before.edge_seq,
                    ),
                    edge_seq: (before.edge_seq + k) as nat,
                    last_insert_id: if k > 0 {
                        (before.edge_seq + k) as nat
                    } else {
                        before.last_insert_id
                    },
                    ..before
                }),
            decreases fresh.len() - k,
        {
            let ghost so_far = linked(post as nat, ends.take(k as int), outgoing, before.edge_seq);
            let row = InsertEdge::from(&fresh[k]);
            assert(fresh_rows[k as int] == edge_between(post as nat, ends[k as int], outgoing, 0));
            match store.add_edge(row) {
                Ok(_) => {},
                Err(_) => {
                    assert(false);
                },
            }
            assert(linked(post as nat, ends.take(k + 1), outgoing, before.edge_seq) =~= so_far.push(
                edge_between(
                    post as nat,
                    ends[k as int],
                    outgoing,
                    (before.edge_seq + 1 + k) as nat,
                ),
            ));
            assert((kept + so_far).push(
                edge_between(
                    post as nat,
                    ends[k as int],
                    outgoing,
                    (before.edge_seq + 1 + k) as nat,
                ),
            ) =~= kept + linked(post as nat, ends.take(k + 1), outgoing, before.edge_seq));
            k += 1;
        }
        assert(ends.take(k as int) =~= ends);
        Ok(())
    }

    /// Makes the posts of `to_list` the targets of the edges that leave
    /// `from_id`: the edges to other posts are taken out, the edges to
    /// posts of the list stay as they are, and one new edge is added to each
    /// post of the list that had none. Only an admin may do so, and the
    /// session is checked once.
    ///
    /// Fails, with the store unchanged, with `NoPermission` for a session
    /// that is no admin, and with an `SQLError` if the edges table has too
    /// few ids left for the new edges.
    pub fn update_to_list(
        store: &mut Store,
        auth: &AuthUser,
        from_id: u32,
        to_list: Vec<&Post>,
    ) -> (r: Result<(), NoteError>)
        requires
            old(store).wf(),
        ensures
            final(store).wf(),
            match r {
                Ok(_) => {
                    &&& auth@.admin
                    &&& old(store)@.can_reconcile(from_id as nat, post_ids(to_list@), true)
                    &&& final(store)@ == old(store)@.reconciled(
                        from_id as nat,
                        post_ids(to_list@),
                        true,
                    )
                },
                Err(e) => {
                    &&& final(store)@ == old(store)@
                    &&& if !auth@.admin {
                        e is NoPermission && e.reads("You are not admin")
                    } else {
                        &&& e is SQLError
                        &&& e.reads("No id is left for the edges to add")
                        &&& !old(store)@.can_reconcile(
                            from_id as nat,
                            post_ids(to_list@),
                            true,
                        )
                    }
                },
            },
    {
        Edge::reconcile(store, auth, from_id, &to_list, true)
    }

    /// Makes the posts of `from_list` the sources of the edges that arrive
    /// at `to_id`, as `update_to_list` does for the targets.
    pub fn update_from_list(
        store: &mut Store,
        auth: &AuthUser,
        to_id: u32,
        from_list: Vec<&Post>,
    ) -> (r: Result<(), NoteError>)
        requires
            old(store).wf(),
        ensures
            final(store).wf(),
            match r {
                Ok(_) => {
                    &&& auth@.admin
                    &&& old(store)@.can_reconcile(to_id as nat, post_ids(from_list@), false)
                    &&& final(store)@ == old(store)@.reconciled(
                        to_id as nat,
                        post_ids(from_list@),
                        false,
                    )
                },
                Err(e) => {
                    &&& final(store)@ == old(store)@
                    &&& if !auth@.admin {
                        e is NoPermission && e.reads("You are not admin")
                    } else {
                        &&& e is SQLError
                        &&& e.reads("No id is left for the edges to add")
                        &&& !old(store)@.can_reconcile(
                            to_id as nat,
                            post_ids(from_list@),
                            false,
                        )
                    }
                },
            },
    {
        Edge::reconcile(store, auth, to_id, &from_list, false)
    }
}

/// What `missing` returns is wanted and not had.
pub proof fn lemma_missing_sound(wanted: Seq<nat>, have: Seq<nat>, end: nat)
    requires
        missing(wanted, have).contains(end),
    ensures
        wanted.contains(end),
        !have.contains(end),
    decreases wanted.len(),
{
    if wanted.len() > 0 {
        let before = missing(wanted.drop_last(), have);
        if before.contains(end) {
            lemma_missing_sound(wanted.drop_last(), have, end);
            let front = wanted.drop_last();
            let k = choose|k: int| 0 <= k < front.len() && front[k] == end;
            assert(wanted[k] == end);
        } else {
            let found = missing(wanted, have);
            let k = choose|k: int| 0 <= k < found.len() && found[k] == end;
            assert(end == wanted.last());
            assert(wanted[wanted.len() - 1] == end);
        }
    }
}

/// What is wanted and not had is in what `missing` returns.
pub proof fn lemma_missing_complete(wanted: Seq<nat>, have: Seq<nat>, end: nat)
    requires
        wanted.contains(end),
        !have.contains(end),
    ensures
        missing(wanted, have).contains(end),
    decreases wanted.len(),
{
    let k = choose|k: int| 0 <= k < wanted.len() && wanted[k] == end;
    let before = missing(wanted.drop_last(), have);
    let found = missing(wanted, have);
    if k < wanted.len() - 1 {
        assert(wanted.drop_last()[k] == end);
        lemma_missing_complete(wanted.drop_last(), have, end);
        let j = choose|j: int| 0 <= j < before.len() && before[j] == end;
        assert(found[j] == end);
    } else {
        if !before.contains(end) {
            assert(found[before.len() as int] == end);
        }
    }
}

/// `missing` returns no end twice.
pub proof fn lemma_missing_distinct(wanted: Seq<nat>, have: Seq<nat>)
    ensures
        missing(wanted, have).no_duplicates(),
    decreases wanted.len(),
{
    if wanted.len() > 0 {
        lemma_missing_distinct(wanted.drop_last(), have);
    }
}

/// What a reconciliation leaves at `post`: the edges that stayed, then the
/// new ones; and the far ends of these are the wanted posts.
proof fn lemma_reconciled_ends(t: Tables, post: nat, wanted: Seq<nat>, outgoing: bool)
    ensures
        forall|end: nat|
            wanted.contains(end) <==> #[trigger] far_ends(
                t.reconciled(post, wanted, outgoing).edges_at(post, outgoing),
                outgoing,
            ).contains(end),
        forall|k: int|
            0 <= k < t.reconciled(post, wanted, outgoing).edges.len() ==> current(
                post,
                wanted,
                outgoing,
            )(#[trigger] t.reconciled(post, wanted, outgoing).edges[k]),
{
    let after = t.reconciled(post, wanted, outgoing);
    let have = far_ends(t.edges_at(post, outgoing), outgoing);
    let ends = missing(wanted, have);
    let kept = t.edges.filter(current(post, wanted, outgoing));
    let added = linked(post, ends, outgoing, t.edge_seq);
    let held = after.edges_at(post, outgoing);
    let reached = far_ends(held, outgoing);
    assert(after.edges == kept + added);
    assert forall|k: int| 0 <= k < after.edges.len() implies current(post, wanted, outgoing)(
        #[trigger] after.edges[k],
    ) by {
        if k < kept.len() {
            assert(kept.contains(kept[k]));
            lemma_filter_member(t.edges, current(post, wanted, outgoing), kept[k]);
        } else {
            let j = k - kept.len();
            assert(after.edges[k] == added[j]);
            assert(ends.contains(ends[j]));
            lemma_missing_sound(wanted, have, ends[j]);
        }
    }
    assert forall|end: nat| wanted.contains(end) <==> #[trigger] reached.contains(end) by {
        if reached.contains(end) {
            let i = choose|i: int| 0 <= i < reached.len() && reached[i] == end;
            let e = held[i];
            assert(held.contains(e));
            lemma_filter_member(after.edges, touches(post, outgoing), e);
            let k = choose|k: int| 0 <= k < after.edges.len() && after.edges[k] == e;
            assert(current(post, wanted, outgoing)(after.edges[k]));
        }
        if wanted.contains(end) {
            if have.contains(end) {
                let i = choose|i: int| 0 <= i < have.len() && have[i] == end;
                let e = t.edges_at(post, outgoing)[i];
                assert(t.edges_at(post, outgoing).contains(e));
                lemma_filter_member(t.edges, touches(post, outgoing), e);
                lemma_filter_member(t.edges, current(post, wanted, outgoing), e);
                let k = choose|k: int| 0 <= k < kept.len() && kept[k] == e;
                assert(after.edges[k] == e);
                assert(after.edges.contains(e));
                lemma_filter_member(after.edges, touches(post, outgoing), e);
                let m = choose|m: int| 0 <= m < held.len() && held[m] == e;
                assert(reached[m] == end);
            } else {
                lemma_missing_complete(wanted, have, end);
                let j = choose|j: int| 0 <= j < ends.len() && ends[j] == end;
                let e = added[j];
                assert(after.edges[kept.len() + j] == e);
                assert(after.edges.contains(e));
                lemma_filter_member(after.edges, touches(post, outgoing), e);
                let m = choose|m: int| 0 <= m < held.len() && held[m] == e;
                assert(reached[m] == end);
            }
        }
    }
}

/// With everything wanted already had, nothing is missing.
proof fn lemma_missing_nothing(wanted: Seq<nat>, have: Seq<nat>)
    requires
        forall|end: nat| wanted.contains(end) ==> have.contains(end),
    ensures
        missing(wanted, have) == Seq::<nat>::empty(),
    decreases wanted.len(),
{
    if wanted.len() > 0 {
        assert forall|end: nat| wanted.drop_last().contains(end) implies have.contains(end) by {
            let front = wanted.drop_last();
            let k = choose|k: int| 0 <= k < front.len() && front[k] == end;
            assert(wanted[k] == end);
        }
        lemma_missing_nothing(wanted.drop_last(), have);
        assert(wanted[wanted.len() - 1] == wanted.last());
        assert(wanted.contains(wanted.last()));
    }
}

/// After the edges of a post were reconciled with the wanted posts, the far
/// ends of its edges are, as a set, exactly the wanted posts: none is left
/// out and nothing else is reached, whatever the store held before and also
/// where no post is wanted.
pub proof fn lemma_reconcile_reaches_wanted(
    t: Tables,
    post: nat,
    wanted: Seq<nat>,
    outgoing: bool,
)
    ensures
        far_ends(t.reconciled(post, wanted, outgoing).edges_at(post, outgoing), outgoing).to_set()
            == wanted.to_set(),
{
    lemma_reconciled_ends(t, post, wanted, outgoing);
    let reached = far_ends(t.reconciled(post, wanted, outgoing).edges_at(post, outgoing), outgoing);
    assert forall|end: nat| reached.to_set().contains(end) == wanted.to_set().contains(end) by {
        assert(wanted.contains(end) <==> reached.contains(end));
    }
    assert(reached.to_set() =~= wanted.to_set());
}

/// Reconciling the edges of a post with the same wanted posts a second time
/// changes nothing: no edge is taken out, none is added, and no id is used.
pub proof fn lemma_reconcile_twice(t: Tables, post: nat, wanted: Seq<nat>, outgoing: bool)
    ensures
        t.reconciled(post, wanted, outgoing).reconciled(post, wanted, outgoing) == t.reconciled(
            post,
            wanted,
            outgoing,
        ),
        t.reconciled(post, wanted, outgoing).to_link(post, wanted, outgoing).len() == 0,
{
    let once = t.reconciled(post, wanted, outgoing);
    let have = far_ends(once.edges_at(post, outgoing), outgoing);
    lemma_reconciled_ends(t, post, wanted, outgoing);
    assert forall|end: nat| wanted.contains(end) implies have.contains(end) by {
        assert(wanted.contains(end) <==> have.contains(end));
    }
    lemma_missing_nothing(wanted, have);
    lemma_filter_all(once.edges, current(post, wanted, outgoing));
    let twice = once.reconciled(post, wanted, outgoing);
    assert(twice.edges =~= once.edges);
}

/// A reconciliation adds no second edge between two posts: if the edges of
/// the post led to no post twice before, they lead to no post twice after.
pub proof fn lemma_reconcile_no_double(t: Tables, post: nat, wanted: Seq<nat>, outgoing: bool)
    requires
        far_ends(t.edges_at(post, outgoing), outgoing).no_duplicates(),
    ensures
        far_ends(
            t.reconciled(post, wanted, outgoing).edges_at(post, outgoing),
            outgoing,
        ).no_duplicates(),
{
    let after = t.reconciled(post, wanted, outgoing);
    let held_before = t.edges_at(post, outgoing);
    let have = far_ends(held_before, outgoing);
    let ends = missing(wanted, have);
    let keep = current(post, wanted, outgoing);
    let touch = touches(post, outgoing);
    let kept = t.edges.filter(keep);
    let added = linked(post, ends, outgoing, t.edge_seq);
    // The edges held afterwards: the old ones that are still wanted, then
    // the new ones.
    Seq::filter_distributes_over_add(kept, added, touch);
    lemma_filter_all(added, touch);
    lemma_filter_twice(t.edges, keep, touch);
    lemma_filter_twice(t.edges, touch, keep);
    assert forall|k: int| 0 <= k < t.edges.len() implies both(keep, touch)(#[trigger] t.edges[k])
        == both(touch, keep)(t.edges[k]) by {}
    lemma_filter_same(t.edges, both(keep, touch), both(touch, keep));
    let stay = held_before.filter(keep);
    assert(after.edges_at(post, outgoing) == stay + added);
    let reached = far_ends(stay + added, outgoing);
    lemma_missing_distinct(wanted, have);
    assert forall|a: int, b: int| 0 <= a < b < reached.len() implies reached[a] != reached[b] by {
        if b < stay.len() {
            lemma_filter_keeps_order(held_before, keep, a, b);
            let (x, y) = choose|x: int, y: int|
                0 <= x < y < held_before.len() && held_before[x] == stay[a] && held_before[y]
                    == stay[b];
            assert(have[x] != have[y]);
        } else if a < stay.len() {
            let j = b - stay.len();
            assert(reached[b] == ends[j]);
            assert(ends.contains(ends[j]));
            lemma_missing_sound(wanted, have, ends[j]);
            assert(stay.contains(stay[a]));
            lemma_filter_member(held_before, keep, stay[a]);
            let x = choose|x: int| 0 <= x < held_before.len() && held_before[x] == stay[a];
            assert(have[x] == reached[a]);
        } else {
            assert(reached[a] == ends[a - stay.len()]);
            assert(reached[b] == ends[b - stay.len()]);
        }
    }
}

impl InsertEdge {
    /// The row to store for an edge.
    pub fn from(edge: &Edge) -> (row: InsertEdge)
        ensures
            row.from_post == edge@.from_post,
            row.to_post == edge@.to_post,
    {
        InsertEdge { from_post: edge.get_from(), to_post: edge.get_to() }
    }
}

impl AuthInsert for Edge {
    /// Stores the edge under a new id and returns that id. Only an admin may
    /// do so.
    fn insert(&self, store: &mut Store, user: &AuthUser) -> (r: Result<u32, NoteError>)
        ensures
            match r {
                Ok(id) => {
                    &&& user@.admin
                    &&& old(store)@.edge_seq < u32::MAX
                    &&& id == old(store)@.edge_seq + 1
                    &&& final(store)@ == old(store)@.with_edge(self@.from_post, self@.to_post)
                },
                Err(e) => if !user@.admin {
                    e is NoPermission && e.reads("You are not admin")
                } else {
                    &&& e is SQLError
                    &&& e.reads("No id is left in the table")
                    &&& old(store)@.edge_seq == u32::MAX
                },
            },
    {
        match user.auth() {
            Ok(_) => {},
            Err(e) => {
                return Err(e);
            },
        }
        store.add_edge(InsertEdge::from(self))
    }
}

impl AuthDelete for Edge {
    /// Takes the edge with this id out of the store; where none is stored
    /// under the id, nothing changes. Only an admin may do so.
    fn delete(&self, store: &mut Store, user: &AuthUser) -> (r: Result<(), NoteError>)
        ensures
            match r {
                Ok(_) => user@.admin && final(store)@ == old(store)@.without_edge(self@.id),
                Err(e) => !user@.admin && e is NoPermission && e.reads("You are not admin"),
            },
    {
        match user.auth() {
            Ok(_) => {},
            Err(e) => {
                return Err(e);
            },
        }
        store.remove_edge(self.get_id());
        Ok(())
    }
}

} // verus!
