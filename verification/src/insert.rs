//! Rows as callers hand them to the store: everything but the id, which the
//! store assigns.
use vstd::prelude::*;

verus! {

/// A snapshot to store.
#[derive(Debug, Clone)]
pub struct InsertHistory {
    pub post_id: u32,
    pub time: u32,
    pub markdown: Option<String>,
}

/// An edge to store.
#[derive(Debug, Clone)]
pub struct InsertEdge {
    pub from_post: u32,
    pub to_post: u32,
}

/// The title and content of a post to store.
#[derive(Debug, Clone)]
pub struct InsertPost {
    pub title: String,
    pub markdown: Option<String>,
}

/// A token to store.
#[derive(Debug, Clone)]
pub struct InsertToken {
    pub user_id: u32,
    pub token: String,
}

/// The profile of a user to store; `password` holds the hash.
#[derive(Debug, Clone)]
pub struct InsertUser {
    pub nickname: String,
    pub email: String,
    pub password: String,
}

} // verus!
