//! A note store: posts linked into a directed graph, a snapshot history per
//! post, and an authenticated session that stands before every mutation.
//!
//! The library is built around three things.
//!
//! * A [`store::Store`] holds the five tables (users, tokens, posts, edges,
//!   histories) in memory and hands out ids as a database does. What it
//!   holds is, to the contracts, a [`tables::Tables`]: sequences of rows and
//!   the last id of each table. Every operation says what the tables are
//!   afterwards, and that a failed operation leaves them as they were.
//! * A credential resolves to an [`auth::AuthUser`], by password or by
//!   token. Posts, edges and snapshots are changed by admins only; a token
//!   is issued, and a profile changed, only by the user itself in a session
//!   opened with the password.
//! * The edges of a post are reconciled with the posts it is to be linked
//!   with ([`edge::Edge::update_to_list`]), and a post is created, updated
//!   and deleted together with its edge from the root, its snapshots and
//!   the edges that touch it ([`post::Post`]).
//!
//! The decisions that do not depend on where the rows are kept are functions
//! of their own, on plain values: [`edge::Edge::outdated`] and
//! [`edge::Edge::missing`], [`auth::AuthUser::by_password`] and
//! [`auth::AuthUser::by_token`], [`post::Post::opening`] and
//! [`post::Post::replacing`], [`user::User::registration_row`] and
//! [`user::User::profile_row`], [`token::Token::row_for`]. A program that
//! keeps the tables in a database calls these and runs the statements itself.
use vstd::prelude::*;

pub mod auth;
pub mod capability;
pub mod edge;
pub mod history;
pub mod insert;
pub mod post;
pub mod raw;
pub mod seqs;
pub mod store;
pub mod tables;
pub mod token;
pub mod user;

use crate::capability::{alphanumeric, sample_alphanumeric};
use crate::store::Store;

verus! {

/// Length, in characters, of a freshly issued token secret.
pub const TOKEN_LEN: u32 = 32;

/// What can go wrong in a call. The text is for people; the variant is the
/// kind that callers act on.
#[derive(Debug)]
pub enum NoteError {
    /// No user matches the nickname or id that was presented.
    UserNotFound(String),
    /// The credential was rejected, or the password could not be hashed.
    AuthError(String),
    /// The session lacks the capability that the call needs.
    NoPermission(String),
    /// The store refused or could not complete a query.
    SQLError(String),
}

impl NoteError {
    /// The text that the error carries.
    pub open spec fn text(self) -> Seq<char> {
        match self {
            NoteError::UserNotFound(t) => t@,
            NoteError::AuthError(t) => t@,
            NoteError::NoPermission(t) => t@,
            NoteError::SQLError(t) => t@,
        }
    }

    /// The error carries exactly `text`.
    pub open spec fn reads(self, text: &str) -> bool {
        self.text() == text@
    }

    /// A `UserNotFound` with the given text.
    pub fn user_not_found(text: &str) -> (e: NoteError)
        ensures
            e is UserNotFound,
            e.reads(text),
    {
        NoteError::UserNotFound(text.to_owned())
    }

    /// An `AuthError` with the given text.
    pub fn auth_error(text: &str) -> (e: NoteError)
        ensures
            e is AuthError,
            e.reads(text),
    {
        NoteError::AuthError(text.to_owned())
    }

    /// A `NoPermission` with the given text.
    pub fn no_permission(text: &str) -> (e: NoteError)
        ensures
            e is NoPermission,
            e.reads(text),
    {
        NoteError::NoPermission(text.to_owned())
    }

    /// An `SQLError` with the given text.
    pub fn sql_error(text: &str) -> (e: NoteError)
        ensures
            e is SQLError,
            e.reads(text),
    {
        NoteError::SQLError(text.to_owned())
    }
}

/// A text is a token secret: `TOKEN_LEN` ASCII letters and digits.
pub open spec fn token_text(s: Seq<char>) -> bool {
    &&& s.len() == TOKEN_LEN
    &&& forall|i: int| 0 <= i < s.len() ==> alphanumeric(#[trigger] s[i])
}

/// A fresh random token secret.
pub fn gen_token() -> (s: String)
    ensures
        token_text(s@),
{
    let mut s = String::new();
    let mut i: u32 = 0;
    while i < TOKEN_LEN
        invariant
            i <= TOKEN_LEN,
            s@.len() == i,
            forall|k: int| 0 <= k < s@.len() ==> alphanumeric(#[trigger] s@[k]),
        decreases TOKEN_LEN - i,
    {
        let b = sample_alphanumeric();
        s.push(b as char);
        i += 1;
    }
    s
}

/// The id that the store gave to the row of the latest insertion, 0 if
/// nothing was inserted yet.
pub fn get_last_insert_rowid(store: &Store) -> (r: Result<u32, NoteError>)
    ensures
        r matches Ok(id) && id == store@.last_insert_id,
{
    Ok(store.last_insert_id())
}

} // verus!
