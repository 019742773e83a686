//! Bearer tokens: a random secret owned by one user.
use crate::auth::{session_of, token_login, AuthInsert, AuthLevel, AuthUser, Refusal, Session};
use crate::insert::InsertToken;
use crate::raw::{token_rows, RawToken, TokenRow};
use crate::seqs::{lemma_filter_member, lemma_lookup_found};
use crate::store::Store;
use crate::tables::{holds_secret, Tables};
use crate::{gen_token, token_text, NoteError};
use vstd::prelude::*;

verus! {

/// A token, as contracts see it.
pub struct TokenView {
    pub user_id: nat,
    pub token: Seq<char>,
}

/// A bearer token: the user it belongs to and its secret.
pub struct Token {
    user_id: u32,
    token: String,
}

impl View for Token {
    type V = TokenView;

    closed spec fn view(&self) -> TokenView {
        TokenView { user_id: self.user_id as nat, token: self.token@ }
    }
}

/// What a vector of tokens holds.
pub open spec fn token_views(v: Seq<Token>) -> Seq<TokenView> {
    v.map_values(|t: Token| t@)
}

/// The token that a stored row holds.
pub open spec fn unstored(row: TokenRow) -> TokenView {
    TokenView { user_id: row.user_id, token: row.token }
}

/// The tokens that stored rows hold.
pub open spec fn all_unstored(rows: Seq<TokenRow>) -> Seq<TokenView> {
    rows.map_values(|t: TokenRow| unstored(t))
}

/// One of the tokens belongs to user `id`.
pub open spec fn some_owned_by(tokens: Seq<TokenView>, id: nat) -> bool {
    exists|i: int| 0 <= i < tokens.len() && (#[trigger] tokens[i]).user_id == id
}

impl Token {
    /// A token for `user_id` with a fresh random secret.
    pub fn new(user_id: u32) -> (t: Token)
        ensures
            t@.user_id == user_id,
            token_text(t@.token),
    {
        Token { user_id, token: gen_token() }
    }

    pub fn get_user_id(&self) -> (id: u32)
        ensures
            id == self@.user_id,
    {
        self.user_id
    }

    pub fn get_token(&self) -> (s: &str)
        ensures
            s@ == self@.token,
    {
        self.token.as_str()
    }

    /// The token that a stored row holds.
    pub fn from(raw: &RawToken) -> (t: Token)
        ensures
            t@ == unstored(raw@),
    {
        Token { user_id: raw.user_id, token: raw.token.clone() }
    }

    /// The stored tokens whose secret is `current_token`, character for
    /// character, in the order of their ids.
    pub fn from_token(current_token: &str, store: &Store) -> (r: Result<Vec<Token>, NoteError>)
        ensures
            r matches Ok(list) && token_views(list@) == all_unstored(
                store@.tokens_holding(current_token@),
            ),
    {
        let raw_list = store.tokens_holding(current_token);
        let mut token_list: Vec<Token> = Vec::new();
        let mut i: usize = 0;
        let ghost rows = token_rows(raw_list@);
        while i < raw_list.len()
            invariant
                i <= raw_list.len(),
                rows == token_rows(raw_list@),
                token_views(token_list@) == all_unstored(rows.take(i as int)),
            decreases raw_list.len() - i,
        {
            let t = Token::from(&raw_list[i]);
            let ghost before = token_list@;
            token_list.push(t);
            assert(token_views(token_list@) =~= token_views(before).push(t@));
            assert(all_unstored(rows.take(i + 1)) =~= all_unstored(rows.take(i as int)).push(
                unstored(rows[i as int]),
            ));
            i += 1;
        }
        assert(rows.take(i as int) =~= rows);
        Ok(token_list)
    }

    /// Whether one of the tokens belongs to user `id`.
    pub fn owned_by(list: &Vec<Token>, id: u32) -> (b: bool)
        ensures
            b == some_owned_by(token_views(list@), id as nat),
    {
        let mut i: usize = 0;
        let ghost views = token_views(list@);
        while i < list.len()
            invariant
                i <= list.len(),
                views == token_views(list@),
                forall|j: int| 0 <= j < i ==> (#[trigger] views[j]).user_id != id,
            decreases list.len() - i,
        {
            if list[i].get_user_id() == id {
                assert(views[i as int].user_id == id);
                return true;
            }
            i += 1;
        }
        false
    }

    /// Whether some stored token holds the secret `token` for user `id`.
    pub fn verify(id: &u32, token: &str, store: &Store) -> (r: Result<bool, NoteError>)
        ensures
            r matches Ok(b) && b == store@.token_opens(*id as nat, token@),
    {
        let token_list = match Token::from_token(token, store) {
            Ok(list) => list,
            Err(e) => {
                return Err(e);
            },
        };
        let found = Token::owned_by(&token_list, *id);
        proof {
            lemma_opens_is_owned(store@.tokens, token@, *id as nat);
        }
        Ok(found)
    }
}

/// A secret opens the store for a user exactly if one of the rows that hold
/// the secret belongs to that user.
pub proof fn lemma_opens_is_owned(tokens: Seq<TokenRow>, secret: Seq<char>, id: nat)
    ensures
        some_owned_by(all_unstored(tokens.filter(holds_secret(secret))), id) <==> exists|i: int|
            0 <= i < tokens.len() && (#[trigger] tokens[i]).token == secret && tokens[i].user_id
                == id,
{
    let pred = holds_secret(secret);
    let kept = tokens.filter(pred);
    let views = all_unstored(kept);
    if some_owned_by(views, id) {
        let i = choose|i: int| 0 <= i < views.len() && (#[trigger] views[i]).user_id == id;
        assert(kept.contains(kept[i]));
        lemma_filter_member(tokens, pred, kept[i]);
        let j = choose|j: int| 0 <= j < tokens.len() && tokens[j] == kept[i];
        assert(tokens[j].token == secret && tokens[j].user_id == id);
    }
    if exists|j: int|
        0 <= j < tokens.len() && (#[trigger] tokens[j]).token == secret && tokens[j].user_id
            == id {
        let j = choose|j: int|
            0 <= j < tokens.len() && (#[trigger] tokens[j]).token == secret && tokens[j].user_id
                == id;
        assert(tokens.contains(tokens[j]));
        lemma_filter_member(tokens, pred, tokens[j]);
        let i = choose|i: int| 0 <= i < kept.len() && kept[i] == tokens[j];
        assert(views[i].user_id == id);
    }
}

/// A token that was just issued opens a session for its user: presented
/// with the user's id, the secret resolves to a token session of that user,
/// who must be stored. Presented with another user's id, the same secret is
/// refused as a wrong token, unless that user held a token with the same
/// secret before.
pub proof fn lemma_issued_token_opens(t: Tables, user_id: nat, secret: Seq<char>, other: nat)
    ensures
        t.with_token(user_id, secret).token_opens(user_id, secret),
        t.user(user_id) is Some ==> token_login(t.with_token(user_id, secret), user_id, secret)
            == Ok::<Session, Refusal>(session_of(t.user(user_id)->0, AuthLevel::Token)),
        t.user(user_id) is Some ==> session_of(t.user(user_id)->0, AuthLevel::Token).id == user_id,
        other != user_id && !t.token_opens(other, secret) ==> token_login(
            t.with_token(user_id, secret),
            other,
            secret,
        ) == Err::<Session, Refusal>(Refusal::WrongToken),
{
    let after = t.with_token(user_id, secret);
    assert(after.tokens[t.tokens.len() as int].token == secret);
    if t.user(user_id) is Some {
        lemma_lookup_found(t.users, user_id);
    }
    if other != user_id && !t.token_opens(other, secret) {
        if after.token_opens(other, secret) {
            let i = choose|i: int|
                0 <= i < after.tokens.len() && (#[trigger] after.tokens[i]).token == secret
                    && after.tokens[i].user_id == other;
            assert(t.tokens[i].token == secret);
        }
    }
}

impl AuthInsert for Token {
    /// Stores the token and returns the id of its row. Only a session of
    /// the token's own user, opened with the password, may do so.
    fn insert(&self, store: &mut Store, user: &AuthUser) -> (r: Result<u32, NoteError>)
        ensures
            match r {
                Ok(id) => {
                    &&& user@.level is Password
                    &&& user@.id == self@.user_id
                    &&& old(store)@.token_seq < u32::MAX
                    &&& id == old(store)@.token_seq + 1
                    &&& final(store)@ == old(store)@.with_token(self@.user_id, self@.token)
                },
                Err(e) => if !(user@.level is Password) {
                    e is NoPermission && e.reads("Only password auth can add token")
                } else if user@.id != self@.user_id {
                    e is NoPermission && e.reads("You can not give other account token")
                } else {
                    &&& e is SQLError
                    &&& e.reads("No id is left in the table")
                    &&& old(store)@.token_seq == u32::MAX
                },
            },
    {
        match self.row_for(user) {
            Ok(row) => store.add_token(row),
            Err(e) => Err(e),
        }
    }
}

impl Token {
    /// The row that a session may store for this token. Only a session of
    /// the token's own user, opened with the password, gets one; any other
    /// gets `NoPermission`.
    pub fn row_for(&self, user: &AuthUser) -> (r: Result<InsertToken, NoteError>)
        ensures
            match r {
                Ok(row) => {
                    &&& user@.level is Password
                    &&& user@.id == self@.user_id
                    &&& row.user_id == self@.user_id
                    &&& row.token@ == self@.token
                },
                Err(e) => if !(user@.level is Password) {
                    e is NoPermission && e.reads("Only password auth can add token")
                } else {
                    &&& user@.id != self@.user_id
                    &&& e is NoPermission
                    &&& e.reads("You can not give other account token")
                },
            },
    {
        match user.get_level() {
            AuthLevel::Password => {},
            AuthLevel::Token => {
                return Err(NoteError::no_permission("Only password auth can add token"));
            },
        }
        if user.get_id() != self.user_id {
            return Err(NoteError::no_permission("You can not give other account token"));
        }
        Ok(InsertToken::from(self))
    }
}

impl InsertToken {
    /// The row to store for a token.
    pub fn from(token: &Token) -> (row: InsertToken)
        ensures
            row.user_id == token@.user_id,
            row.token@ == token@.token,
    {
        InsertToken { user_id: token.get_user_id(), token: token.get_token().to_owned() }
    }
}

} // verus!
