//! The history of a post: one snapshot of its content per write, never
//! changed afterwards.
use crate::auth::{AuthDelete, AuthInsert, AuthUser};
use crate::capability::unix_seconds;
use crate::insert::InsertHistory;
use crate::raw::{copy_opt, history_rows, opt_text, text_of, HistoryRow, RawHistory};
use crate::store::Store;
use crate::NoteError;
use vstd::prelude::*;

verus! {

/// A snapshot of the content of a post. One that is not stored has id 0.
pub struct History {
    id: u32,
    /// The post that the snapshot belongs to.
    post_id: u32,
    /// When the snapshot was taken, in seconds since the Unix epoch.
    time: u32,
    markdown: Option<String>,
}

impl View for History {
    type V = HistoryRow;

    closed spec fn view(&self) -> HistoryRow {
        HistoryRow {
            id: self.id as nat,
            post_id: self.post_id as nat,
            time: self.time as nat,
            markdown: opt_text(self.markdown),
        }
    }
}

/// What a vector of snapshots holds.
pub open spec fn history_views(v: Seq<History>) -> Seq<HistoryRow> {
    v.map_values(|h: History| h@)
}

impl History {
    /// A snapshot of `post_mardown` for the post `post_id`, taken at the
    /// given second since the Unix epoch and not stored yet. The time is kept
    /// in 32 bits: a later second wraps around.
    pub fn stamped(post_id: u32, post_mardown: &str, seconds: i64) -> (h: History)
        ensures
            h@ == (HistoryRow {
                id: 0,
                post_id: post_id as nat,
                time: (seconds as u32) as nat,
                markdown: Some(post_mardown@),
            }),
            0 <= seconds <= u32::MAX ==> h@.time == seconds,
    {
        History {
            id: 0,
            post_id,
            time: #[verifier::truncate] (seconds as u32),
            markdown: Some(post_mardown.to_owned()),
        }
    }

    /// A snapshot of `post_mardown` for the post `post_id`, taken now and
    /// not stored yet.
    pub fn new(post_id: u32, post_mardown: &str) -> (h: History)
        ensures
            h@ == (HistoryRow {
                id: 0,
                post_id: post_id as nat,
                time: h@.time,
                markdown: Some(post_mardown@),
            }),
    {
        History::stamped(post_id, post_mardown, unix_seconds())
    }

    pub fn get_id(&self) -> (id: u32)
        ensures
            id == self@.id,
    {
        self.id
    }

    pub fn get_post_id(&self) -> (id: u32)
        ensures
            id == self@.post_id,
    {
        self.post_id
    }

    pub fn get_time(&self) -> (t: u32)
        ensures
            t == self@.time,
    {
        self.time
    }

    /// The content that the snapshot holds, empty if it holds none.
    pub fn get_markdown(&self) -> (s: &str)
        ensures
            s@ == text_of(self@.markdown),
    {
        match &self.markdown {
            Some(markdown) => markdown.as_str(),
            None => {
                proof {
                    reveal_strlit("");
                }
                assert(""@ =~= Seq::<char>::empty());
                ""
            },
        }
    }

    /// The snapshot that a stored row describes.
    pub fn from(history: &RawHistory) -> (h: History)
        ensures
            h@ == history@,
    {
        History {
            id: history.id,
            post_id: history.post_id,
            markdown: copy_opt(&history.markdown),
            time: history.time,
        }
    }

    /// The snapshot stored under `query_id`; an `SQLError` if there is none.
    pub fn from_id(store: &Store, query_id: u32) -> (r: Result<History, NoteError>)
        ensures
            match store@.history(query_id as nat) {
                Some(row) => r matches Ok(h) && h@ == row,
                None => r matches Err(e) && e is SQLError && e.reads("Failed query history"),
            },
    {
        match store.history_by_id(query_id) {
            Some(raw) => Ok(History::from(&raw)),
            None => Err(NoteError::sql_error("Failed query history")),
        }
    }

    /// The snapshots of the post `query_id`, oldest first.
    pub fn get_history(query_id: u32, store: &Store) -> (r: Result<Vec<History>, NoteError>)
        ensures
            r matches Ok(list) && history_views(list@) == store@.histories_of(query_id as nat),
    {
        let rows = store.histories_of(query_id);
        let mut out: Vec<History> = Vec::new();
        let mut i: usize = 0;
        while i < rows.len()
            invariant
                i <= rows.len(),
                history_views(out@) == history_rows(rows@).take(i as int),
            decreases rows.len() - i,
        {
            let h = History::from(&rows[i]);
            let ghost before = out@;
            out.push(h);
            assert(history_views(out@) =~= history_views(before).push(h@));
            assert(history_rows(rows@).take(i + 1) =~= history_rows(rows@).take(i as int).push(
                rows[i as int]@,
            ));
            i += 1;
        }
        assert(history_rows(rows@).take(i as int) =~= history_rows(rows@));
        Ok(out)
    }
}

impl InsertHistory {
    /// The row to store for a snapshot: its post, its time and its content,
    /// which is the empty text for a snapshot without content.
    pub fn from(history: &History) -> (row: InsertHistory)
        ensures
            row.post_id == history@.post_id,
            row.time == history@.time,
            opt_text(row.markdown) == Some(text_of(history@.markdown)),
    {
        InsertHistory {
            post_id: history.get_post_id(),
            time: history.get_time(),
            markdown: Some(history.get_markdown().to_owned()),
        }
    }
}

impl AuthInsert for History {
    /// Stores the snapshot under a new id and returns that id. Only an
    /// admin may do so.
    fn insert(&self, store: &mut Store, user: &AuthUser) -> (r: Result<u32, NoteError>)
        ensures
            match r {
                Ok(id) => {
                    &&& user@.admin
                    &&& old(store)@.history_seq < u32::MAX
                    &&& id == old(store)@.history_seq + 1
                    &&& final(store)@ == old(store)@.with_history(
                        self@.post_id,
                        self@.time,
                        Some(text_of(self@.markdown)),
                    )
                },
                Err(e) => if !user@.admin {
                    e is NoPermission && e.reads("You are not admin")
                } else {
                    &&& e is SQLError
                    &&& e.reads("No id is left in the table")
                    &&& old(store)@.history_seq == u32::MAX
                },
            },
    {
        match user.auth() {
            Ok(_) => {},
            Err(e) => {
                return Err(e);
            },
        }
        store.add_history(InsertHistory::from(self))
    }
}

impl AuthDelete for History {
    /// Takes the snapshot with this id out of the store; where none is
    /// stored under the id, nothing changes. Only an admin may do so.
    fn delete(&self, store: &mut Store, user: &AuthUser) -> (r: Result<(), NoteError>)
        ensures
            match r {
                Ok(_) => user@.admin && final(store)@ == old(store)@.without_history(self@.id),
                Err(e) => !user@.admin && e is NoPermission && e.reads("You are not admin"),
            },
    {
        match user.auth() {
            Ok(_) => {},
            Err(e) => {
                return Err(e);
            },
        }
        store.remove_history(self.get_id());
        Ok(())
    }
}

} // verus!
