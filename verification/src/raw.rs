//! Rows as the store holds them, each with the id that the store gave it,
//! and the mathematical rows that contracts speak of.
use vstd::prelude::*;

verus! {

/// A stored history row, as contracts see it.
pub struct HistoryRow {
    pub id: nat,
    pub post_id: nat,
    pub time: nat,
    pub markdown: Option<Seq<char>>,
}

/// A stored edge row, as contracts see it.
pub struct EdgeRow {
    pub id: nat,
    pub from_post: nat,
    pub to_post: nat,
}

/// A stored post row, as contracts see it.
pub struct PostRow {
    pub id: nat,
    pub title: Seq<char>,
    pub markdown: Option<Seq<char>>,
}

/// A stored token row, as contracts see it.
pub struct TokenRow {
    pub id: nat,
    pub user_id: nat,
    pub token: Seq<char>,
}

/// A stored user row, as contracts see it.
pub struct UserRow {
    pub id: nat,
    pub nickname: Seq<char>,
    pub password: Seq<char>,
    pub email: Seq<char>,
    pub admin: bool,
}

/// The text of an optional string, or nothing.
pub open spec fn opt_text(s: Option<String>) -> Option<Seq<char>> {
    match s {
        Some(t) => Some(t@),
        None => None,
    }
}

/// The text of a post or snapshot: nothing counts as the empty text.
pub open spec fn text_of(markdown: Option<Seq<char>>) -> Seq<char> {
    match markdown {
        Some(t) => t,
        None => Seq::empty(),
    }
}

/// Copies an optional string.
pub fn copy_opt(s: &Option<String>) -> (r: Option<String>)
    ensures
        opt_text(r) == opt_text(*s),
{
    match s {
        Some(t) => Some(t.clone()),
        None => None,
    }
}

/// A row of the histories table.
#[derive(Debug, Clone, PartialEq, Eq)]
pub struct RawHistory {
    pub id: u32,
    pub post_id: u32,
    pub time: u32,
    pub markdown: Option<String>,
}

/// A row of the edges table.
#[derive(Debug, Clone, PartialEq, Eq)]
pub struct RawEdge {
    pub id: u32,
    pub from_post: u32,
    pub to_post: u32,
}

/// A row of the posts table.
#[derive(Debug, Clone, PartialEq, Eq)]
pub struct RawPost {
    pub id: u32,
    pub title: String,
    pub markdown: Option<String>,
}

/// A row of the tokens table.
#[derive(Debug, Clone, PartialEq, Eq)]
pub struct RawToken {
    pub id: u32,
    pub user_id: u32,
    pub token: String,
}

/// A row of the users table.
#[derive(Debug, Clone, PartialEq, Eq)]
pub struct RawUser {
    pub id: u32,
    pub nickname: String,
    pub password: String,
    pub email: String,
    pub admin: bool,
}

impl View for RawHistory {
    type V = HistoryRow;

    open spec fn view(&self) -> HistoryRow {
        HistoryRow {
            id: self.id as nat,
            post_id: self.post_id as nat,
            time: self.time as nat,
            markdown: opt_text(self.markdown),
        }
    }
}

impl View for RawEdge {
    type V = EdgeRow;

    open spec fn view(&self) -> EdgeRow {
        EdgeRow {
            id: self.id as nat,
            from_post: self.from_post as nat,
            to_post: self.to_post as nat,
        }
    }
}

impl View for RawPost {
    type V = PostRow;

    open spec fn view(&self) -> PostRow {
        PostRow { id: self.id as nat, title: self.title@, markdown: opt_text(self.markdown) }
    }
}

impl View for RawToken {
    type V = TokenRow;

    open spec fn view(&self) -> TokenRow {
        TokenRow { id: self.id as nat, user_id: self.user_id as nat, token: self.token@ }
    }
}

impl View for RawUser {
    type V = UserRow;

    open spec fn view(&self) -> UserRow {
        UserRow {
            id: self.id as nat,
            nickname: self.nickname@,
            password: self.password@,
            email: self.email@,
            admin: self.admin,
        }
    }
}

/// What a vector of history rows holds.
pub open spec fn history_rows(v: Seq<RawHistory>) -> Seq<HistoryRow> {
    v.map_values(|r: RawHistory| r@)
}

/// What a vector of edge rows holds.
pub open spec fn edge_rows(v: Seq<RawEdge>) -> Seq<EdgeRow> {
    v.map_values(|r: RawEdge| r@)
}

/// What a vector of post rows holds.
pub open spec fn post_rows(v: Seq<RawPost>) -> Seq<PostRow> {
    v.map_values(|r: RawPost| r@)
}

/// What a vector of token rows holds.
pub open spec fn token_rows(v: Seq<RawToken>) -> Seq<TokenRow> {
    v.map_values(|r: RawToken| r@)
}

/// What a vector of user rows holds.
pub open spec fn user_rows(v: Seq<RawUser>) -> Seq<UserRow> {
    v.map_values(|r: RawUser| r@)
}

impl RawHistory {
    /// A copy of the row.
    pub fn copy(&self) -> (r: RawHistory)
        ensures
            r@ == self@,
    {
        RawHistory {
            id: self.id,
            post_id: self.post_id,
            time: self.time,
            markdown: copy_opt(&self.markdown),
        }
    }
}

impl RawEdge {
    /// A copy of the row.
    pub fn copy(&self) -> (r: RawEdge)
        ensures
            r@ == self@,
    {
        RawEdge { id: self.id, from_post: self.from_post, to_post: self.to_post }
    }
}

impl RawPost {
    /// A copy of the row.
    pub fn copy(&self) -> (r: RawPost)
        ensures
            r@ == self@,
    {
        RawPost { id: self.id, title: self.title.clone(), markdown: copy_opt(&self.markdown) }
    }
}

impl RawToken {
    /// A copy of the row.
    pub fn copy(&self) -> (r: RawToken)
        ensures
            r@ == self@,
    {
        RawToken { id: self.id, user_id: self.user_id, token: self.token.clone() }
    }
}

impl RawUser {
    /// A copy of the row.
    pub fn copy(&self) -> (r: RawUser)
        ensures
            r@ == self@,
    {
        RawUser {
            id: self.id,
            nickname: self.nickname.clone(),
            password: self.password.clone(),
            email: self.email.clone(),
            admin: self.admin,
        }
    }
}

} // verus!
